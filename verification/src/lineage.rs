//! Fork lineage: the tree of topologies by the topology each was forked
//! from, and the leading text of each line of a topology's ancestry.

use vstd::prelude::*;
use crate::text::str_eq;

verus! {

/// A topology as the lineage tree sees it: its id and the id of the
/// topology it was forked from.
#[derive(Debug, Clone)]
pub struct LineageEntry {
    pub id: String,
    pub parent_id: Option<String>,
}

/// One line of the lineage tree: the text before the topology's name and
/// the topology's position in the list.
#[derive(Debug, Clone)]
pub struct LineageLine {
    pub lead: String,
    pub index: usize,
}

/// The parent id of an entry, as text.
pub open spec fn parent_of(e: LineageEntry) -> Option<Seq<char>> {
    match e.parent_id {
        Some(p) => Some(p@),
        None => None,
    }
}

/// The positions, among the first `k` entries, of those whose parent is
/// `p`, in list order.
pub open spec fn children_upto(es: Seq<LineageEntry>, p: Option<Seq<char>>, k: int) -> Seq<usize>
    decreases k,
{
    if k <= 0 {
        Seq::empty()
    } else if parent_of(es[k - 1]) == p {
        children_upto(es, p, k - 1).push((k - 1) as usize)
    } else {
        children_upto(es, p, k - 1)
    }
}

/// The positions of the entries whose parent is `p`, in list order; with
/// `p` absent, the roots.
pub open spec fn children(es: Seq<LineageEntry>, p: Option<Seq<char>>) -> Seq<usize> {
    children_upto(es, p, es.len() as int)
}

/// The lines of the subtree of entry `i`: its own line, then those of its
/// forks. A root line has no connector; another has `+-- ` after the
/// prefix. `fuel` bounds the depth drawn.
pub open spec fn subtree_lines(
    es: Seq<LineageEntry>,
    i: usize,
    prefix: Seq<char>,
    last: bool,
    root: bool,
    fuel: nat,
) -> Seq<(Seq<char>, usize)>
    decreases fuel, 0int, 0int,
{
    if fuel == 0 || i >= es.len() {
        Seq::empty()
    } else {
        let lead = if root { prefix } else { prefix + "+-- "@ };
        let child_prefix = if root {
            Seq::empty()
        } else if last {
            prefix + "    "@
        } else {
            prefix + "|   "@
        };
        seq![(lead, i)] + forest_lines(es, children(es, Some(es[i as int].id@)), 0, child_prefix, false, (fuel - 1) as nat)
    }
}

/// The lines of the subtrees of `ks[j..]`, each drawn as the last of its
/// siblings when it ends the list.
pub open spec fn forest_lines(
    es: Seq<LineageEntry>,
    ks: Seq<usize>,
    j: int,
    prefix: Seq<char>,
    root: bool,
    fuel: nat,
) -> Seq<(Seq<char>, usize)>
    decreases fuel, 1int, ks.len() - j,
{
    if 0 <= j < ks.len() {
        subtree_lines(es, ks[j], prefix, j == ks.len() - 1, root, fuel) + forest_lines(es, ks, j + 1, prefix, root, fuel)
    } else {
        Seq::empty()
    }
}

/// The lineage tree: every root with the forks below it, drawn to a depth
/// of at most the number of topologies.
pub open spec fn lineage_text(es: Seq<LineageEntry>) -> Seq<(Seq<char>, usize)> {
    forest_lines(es, children(es, None), 0, Seq::empty(), true, es.len())
}

/// The view of the lines.
pub open spec fn line_views(ls: Seq<LineageLine>) -> Seq<(Seq<char>, usize)> {
    ls.map_values(|l: LineageLine| (l.lead@, l.index))
}

/// An optional id as text.
pub open spec fn opt_text(p: Option<&str>) -> Option<Seq<char>> {
    match p {
        Some(s) => Some(s@),
        None => None,
    }
}

/// The positions of the entries whose parent is `p`, in list order; with
/// `p` absent, the roots.
fn children_of(es: &Vec<LineageEntry>, p: Option<&str>) -> (r: Vec<usize>)
    ensures
        r@ == children(es@, opt_text(p)),
        forall|m: int| 0 <= m < r@.len() ==> r@[m] < es@.len(),
{
    let mut r: Vec<usize> = Vec::new();
    let mut k: usize = 0;
    while k < es.len()
        invariant
            k <= es@.len(),
            r@ == children_upto(es@, opt_text(p), k as int),
            forall|m: int| 0 <= m < r@.len() ==> r@[m] < k,
        decreases es.len() - k,
    {
        let matches = match &es[k].parent_id {
            Some(q) => match p {
                Some(s) => str_eq(q.as_str(), s),
                None => false,
            },
            None => p.is_none(),
        };
        if matches {
            r.push(k);
        }
        k = k + 1;
    }
    r
}

/// Draw the subtree of entry `i` after the lines in `out`.
fn draw_subtree(
    es: &Vec<LineageEntry>,
    i: usize,
    prefix: &str,
    last: bool,
    root: bool,
    fuel: usize,
    out: &mut Vec<LineageLine>,
)
    requires
        i < es@.len(),
        forall|m: int| 0 <= m < old(out)@.len() ==> #[trigger] old(out)@[m].index < es@.len(),
    ensures
        line_views(final(out)@) == line_views(old(out)@) + subtree_lines(es@, i, prefix@, last, root, fuel as nat),
        forall|m: int| 0 <= m < final(out)@.len() ==> #[trigger] final(out)@[m].index < es@.len(),
    decreases fuel, 0int, 0int,
{
    if fuel == 0 {
        assert(line_views(out@) =~= line_views(out@) + Seq::<(Seq<char>, usize)>::empty());
        return;
    }
    let mut lead = prefix.to_string();
    if !root {
        lead.append("+-- ");
    }
    let ghost before = line_views(out@);
    let ghost lv = lead@;
    out.push(LineageLine { lead, index: i });
    assert(line_views(out@) =~= before.push((lv, i)));
    let child_prefix = if root {
        String::new()
    } else if last {
        let mut c = prefix.to_string();
        c.append("    ");
        c
    } else {
        let mut c = prefix.to_string();
        c.append("|   ");
        c
    };
    let ks = children_of(es, Some(es[i].id.as_str()));
    let ghost mid = line_views(out@);
    draw_forest(es, &ks, 0, child_prefix.as_str(), false, fuel - 1, out);
    proof {
        assert(line_views(out@) =~= before + subtree_lines(es@, i, prefix@, last, root, fuel as nat));
    }
}

/// Draw the subtrees of `ks[j..]` after the lines in `out`.
fn draw_forest(
    es: &Vec<LineageEntry>,
    ks: &Vec<usize>,
    j: usize,
    prefix: &str,
    root: bool,
    fuel: usize,
    out: &mut Vec<LineageLine>,
)
    requires
        forall|m: int| 0 <= m < ks@.len() ==> ks@[m] < es@.len(),
        forall|m: int| 0 <= m < old(out)@.len() ==> #[trigger] old(out)@[m].index < es@.len(),
    ensures
        line_views(final(out)@) == line_views(old(out)@) + forest_lines(es@, ks@, j as int, prefix@, root, fuel as nat),
        forall|m: int| 0 <= m < final(out)@.len() ==> #[trigger] final(out)@[m].index < es@.len(),
    decreases fuel, 1int, ks@.len() - j,
{
    if j < ks.len() {
        let ghost before = line_views(out@);
        draw_subtree(es, ks[j], prefix, j + 1 == ks.len(), root, fuel, out);
        let ghost mid = line_views(out@);
        draw_forest(es, ks, j + 1, prefix, root, fuel, out);
        proof {
            assert(line_views(out@) =~= before + forest_lines(es@, ks@, j as int, prefix@, root, fuel as nat));
        }
    } else {
        assert(line_views(out@) =~= line_views(out@) + Seq::<(Seq<char>, usize)>::empty());
    }
}

/// The lines of the lineage tree of the topologies `es`: each topology
/// that was forked from none, with below it the topologies forked from
/// it, each line led by its indentation and connector.
pub fn lineage_lines(es: &Vec<LineageEntry>) -> (r: Vec<LineageLine>)
    ensures
        line_views(r@) == lineage_text(es@),
        forall|m: int| 0 <= m < r@.len() ==> #[trigger] r@[m].index < es@.len(),
{
    let roots = children_of(es, None);
    let mut out: Vec<LineageLine> = Vec::new();
    draw_forest(es, &roots, 0, "", true, es.len(), &mut out);
    proof {
        reveal_strlit("");
        assert(""@ =~= Seq::<char>::empty());
        assert(line_views(Seq::<LineageLine>::empty()) =~= Seq::<(Seq<char>, usize)>::empty());
    }
    out
}

/// `depth` copies of four spaces.
pub open spec fn indentation(depth: nat) -> Seq<char>
    decreases depth,
{
    if depth == 0 {
        Seq::empty()
    } else {
        indentation((depth - 1) as nat) + "    "@
    }
}

/// The text before the name of the `depth`-th topology of an ancestry,
/// counted from the root.
pub open spec fn ancestry_lead_text(depth: nat) -> Seq<char> {
    if depth == 0 {
        indentation(depth)
    } else {
        indentation(depth) + "+-- "@
    }
}

/// The text before the name of the `depth`-th topology of an ancestry:
/// four spaces per level, then `+-- ` below the root.
pub fn ancestry_lead(depth: usize) -> (r: String)
    ensures
        r@ == ancestry_lead_text(depth as nat),
{
    let mut r = String::new();
    let mut i: usize = 0;
    while i < depth
        invariant
            i <= depth,
            r@ == indentation(i as nat),
        decreases depth - i,
    {
        r.append("    ");
        i = i + 1;
    }
    if depth > 0 {
        r.append("+-- ");
    }
    r
}

// ---------------------------------------------------------------------------
// The depth drawn is enough
// ---------------------------------------------------------------------------

/// No two topologies share an id.
pub open spec fn ids_distinct(es: Seq<LineageEntry>) -> bool {
    forall|a: int, b: int| 0 <= a < es.len() && 0 <= b < es.len() && a != b ==> es[a].id@ != es[b].id@
}

/// `path` leads down from a root: its first topology was forked from
/// none, and each next one from the one before.
pub open spec fn is_fork_chain(es: Seq<LineageEntry>, path: Seq<usize>) -> bool {
    &&& path.len() > 0
    &&& forall|m: int| 0 <= m < path.len() ==> path[m] < es.len()
    &&& parent_of(es[path[0] as int]) is None
    &&& forall|m: int| 0 < m < path.len() ==> parent_of(es[#[trigger] path[m] as int]) == Some(es[path[m - 1] as int].id@)
}

/// The children found among the first `k` entries are positions below
/// `k` whose parent is `p`.
proof fn lemma_children_upto(es: Seq<LineageEntry>, p: Option<Seq<char>>, k: int)
    requires
        k <= es.len() <= usize::MAX,
    ensures
        forall|m: int| 0 <= m < children_upto(es, p, k).len() ==> {
            let c = #[trigger] children_upto(es, p, k)[m];
            c < k && c < es.len() && parent_of(es[c as int]) == p
        },
    decreases k,
{
    if k > 0 {
        lemma_children_upto(es, p, k - 1);
        let prev = children_upto(es, p, k - 1);
        assert forall|m: int| 0 <= m < children_upto(es, p, k).len() implies {
            let c = #[trigger] children_upto(es, p, k)[m];
            c < k && c < es.len() && parent_of(es[c as int]) == p
        } by {
            if m < prev.len() {
                assert(children_upto(es, p, k)[m] == prev[m]);
            } else {
                assert(((k - 1) as usize) as int == k - 1);
            }
        }
    }
}

/// A chain down from a root never comes back to a topology it passed.
proof fn lemma_chain_no_repeats(es: Seq<LineageEntry>, path: Seq<usize>, a: int, b: int)
    requires
        ids_distinct(es),
        is_fork_chain(es, path),
        0 <= a < b < path.len(),
    ensures
        path[a] != path[b],
    decreases a,
{
    if path[a] == path[b] {
        assert(parent_of(es[path[b] as int]) == Some(es[path[b - 1] as int].id@));
        if a == 0 {
        } else {
            assert(parent_of(es[path[a] as int]) == Some(es[path[a - 1] as int].id@));
            lemma_chain_no_repeats(es, path, a - 1, b - 1);
        }
    }
}

/// A chain down from a root holds at most as many topologies as there are.
proof fn lemma_chain_length(es: Seq<LineageEntry>, path: Seq<usize>)
    requires
        ids_distinct(es),
        is_fork_chain(es, path),
    ensures
        path.len() <= es.len(),
{
    let t = path.map_values(|x: usize| x as int);
    assert forall|a: int, b: int| 0 <= a < t.len() && 0 <= b < t.len() && a != b implies t[a] != t[b] by {
        if a < b {
            lemma_chain_no_repeats(es, path, a, b);
        } else {
            lemma_chain_no_repeats(es, path, b, a);
        }
    }
    assert(t.no_duplicates());
    t.unique_seq_to_set();
    let range = vstd::set_lib::set_int_range(0, es.len() as int);
    assert(t.to_set().subset_of(range)) by {
        assert forall|x: int| t.to_set().contains(x) implies range.contains(x) by {
            let m = choose|m: int| 0 <= m < t.len() && t[m] == x;
            assert(path[m] < es.len());
        }
    }
    vstd::set_lib::lemma_int_range(0, es.len() as int);
    vstd::set_lib::lemma_len_subset(t.to_set(), range);
}

/// The parent a forest's topologies share: none at the top, else the
/// last topology of the chain above them.
pub open spec fn chain_parent(es: Seq<LineageEntry>, path: Seq<usize>) -> Option<Seq<char>> {
    if path.len() == 0 {
        None
    } else {
        Some(es[path.last() as int].id@)
    }
}

/// Below a chain with room left in the depth, more depth draws the same
/// subtree.
proof fn lemma_subtree_depth(
    es: Seq<LineageEntry>,
    path: Seq<usize>,
    prefix: Seq<char>,
    last: bool,
    root: bool,
    f: nat,
    extra: nat,
)
    requires
        ids_distinct(es),
        es.len() <= usize::MAX,
        is_fork_chain(es, path),
        path.len() + f == es.len() + 1,
    ensures
        subtree_lines(es, path.last(), prefix, last, root, f) == subtree_lines(es, path.last(), prefix, last, root, f + extra),
    decreases f, 0int, 0int,
{
    if f == 0 {
        lemma_chain_length(es, path);
    } else {
        let i = path.last();
        let ks = children(es, Some(es[i as int].id@));
        lemma_children_upto(es, Some(es[i as int].id@), es.len() as int);
        let child_prefix = if root {
            Seq::empty()
        } else if last {
            prefix + "    "@
        } else {
            prefix + "|   "@
        };
        lemma_forest_depth(es, path, ks, 0, child_prefix, false, (f - 1) as nat, extra);
        assert((f + extra - 1) as nat == (f - 1) as nat + extra);
    }
}

/// Below a chain (empty at the top) with room left in the depth, more
/// depth draws the same forest.
proof fn lemma_forest_depth(
    es: Seq<LineageEntry>,
    path: Seq<usize>,
    ks: Seq<usize>,
    j: int,
    prefix: Seq<char>,
    root: bool,
    g: nat,
    extra: nat,
)
    requires
        ids_distinct(es),
        es.len() <= usize::MAX,
        path.len() == 0 || is_fork_chain(es, path),
        path.len() + g == es.len(),
        forall|m: int| 0 <= m < ks.len() ==> #[trigger] ks[m] < es.len() && parent_of(es[ks[m] as int]) == chain_parent(es, path),
    ensures
        forest_lines(es, ks, j, prefix, root, g) == forest_lines(es, ks, j, prefix, root, g + extra),
    decreases g, 1int, ks.len() - j,
{
    if 0 <= j < ks.len() {
        let k = ks[j];
        let next = path.push(k);
        assert(ks[j] < es.len() && parent_of(es[ks[j] as int]) == chain_parent(es, path));
        assert(is_fork_chain(es, next)) by {
            assert(next[next.len() - 1] == k);
            assert forall|m: int| 0 < m < next.len() implies parent_of(es[#[trigger] next[m] as int]) == Some(
                es[next[m - 1] as int].id@,
            ) by {
                if m < path.len() {
                    assert(next[m] == path[m] && next[m - 1] == path[m - 1]);
                } else {
                    assert(next[m - 1] == path.last());
                }
            }
            if path.len() > 0 {
                assert(next[0] == path[0]);
            }
        }
        assert(next.last() == k);
        lemma_subtree_depth(es, next, prefix, j == ks.len() - 1, root, g, extra);
        lemma_forest_depth(es, path, ks, j + 1, prefix, root, g, extra);
    }
}

/// When no two topologies share an id, the lineage tree is complete:
/// drawing it to any greater depth gives the same lines, so every fork
/// below a root is shown.
pub proof fn lemma_lineage_depth_suffices(es: Seq<LineageEntry>, extra: nat)
    requires
        ids_distinct(es),
        es.len() <= usize::MAX,
    ensures
        lineage_text(es) == forest_lines(es, children(es, None), 0, Seq::empty(), true, es.len() + extra),
{
    lemma_children_upto(es, None, es.len() as int);
    lemma_forest_depth(es, Seq::empty(), children(es, None), 0, Seq::empty(), true, es.len(), extra);
}

} // verus!
