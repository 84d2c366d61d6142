//! Text diagrams of a topology: the node, volume and dataset tree drawn
//! with box-drawing connectors, and the list of network links.

use vstd::prelude::*;
use crate::diff::join_comma;
use crate::remap::{texts, last_index_of};
use crate::text::{str_eq, decimal, decimal_text};

verus! {

/// `parts` joined with ", ".
pub fn join_with_comma(parts: &Vec<String>) -> (r: String)
    ensures
        r@ == join_comma(texts(parts@)),
{
    if parts.len() == 0 {
        return String::new();
    }
    let mut joined = parts[0].clone();
    let mut i: usize = 1;
    proof {
        assert(texts(parts@).take(1)[0] == texts(parts@)[0]);
    }
    while i < parts.len()
        invariant
            1 <= i <= parts@.len(),
            joined@ == join_comma(texts(parts@).take(i as int)),
        decreases parts.len() - i,
    {
        proof {
            assert(texts(parts@).take(i + 1).drop_last() =~= texts(parts@).take(i as int));
        }
        joined.append(", ");
        joined.append(parts[i].as_str());
        i = i + 1;
    }
    proof {
        assert(texts(parts@).take(parts@.len() as int) =~= texts(parts@));
    }
    joined
}

/// The texts among `a` and `b` that are not empty, in that order.
pub open spec fn non_empty_of(a: Seq<char>, b: Seq<char>) -> Seq<Seq<char>> {
    (if a.len() > 0 { seq![a] } else { seq![] }) + (if b.len() > 0 { seq![b] } else { seq![] })
}

/// A node's label in the tree: its name, then its role and location, those
/// that are not empty, in parentheses.
pub open spec fn node_detail_text(name: Seq<char>, role: Seq<char>, location: Seq<char>) -> Seq<char> {
    let meta = non_empty_of(role, location);
    if meta.len() == 0 {
        name
    } else {
        name + " ("@ + join_comma(meta) + ")"@
    }
}

/// A node's label in the tree, such as `nas (server, closet)`.
pub fn node_detail(name: &str, role: &str, location: &str) -> (r: String)
    ensures
        r@ == node_detail_text(name@, role@, location@),
{
    let mut meta: Vec<String> = Vec::new();
    if role.unicode_len() > 0 {
        meta.push(role.to_string());
    }
    if location.unicode_len() > 0 {
        meta.push(location.to_string());
    }
    assert(texts(meta@) =~= non_empty_of(role@, location@));
    let mut r = name.to_string();
    if meta.len() > 0 {
        r.append(" (");
        let j = join_with_comma(&meta);
        r.append(j.as_str());
        r.append(")");
    }
    r
}

/// An optional text counts when it is present and not empty.
pub open spec fn present(t: Option<String>) -> Seq<Seq<char>> {
    match t {
        Some(s) => if s@.len() > 0 { seq![s@] } else { seq![] },
        None => seq![],
    }
}

/// A volume's label in the tree: its name, then in brackets its capacity
/// and its filesystem and RAID level where they are given.
pub open spec fn volume_detail_text(name: Seq<char>, capacity: Seq<char>, filesystem: Option<String>, raid_level: Option<String>) -> Seq<char> {
    name + " ["@ + join_comma(seq![capacity] + present(filesystem) + present(raid_level)) + "]"@
}

/// Push `t` on `meta` when it is present and not empty.
fn push_present(meta: &mut Vec<String>, t: &Option<String>)
    ensures
        texts(final(meta)@) == texts(old(meta)@) + present(*t),
{
    match t {
        Some(s) => {
            if s.as_str().unicode_len() > 0 {
                let ghost before = meta@;
                meta.push(s.clone());
                assert(texts(meta@) =~= texts(before) + present(*t));
            } else {
                assert(texts(meta@) =~= texts(meta@) + present(*t));
            }
        },
        None => {
            assert(texts(meta@) =~= texts(meta@) + present(*t));
        },
    }
}

/// A volume's label in the tree, such as `tank [8.0TB, zfs, raidz1]`; the
/// capacity comes as text.
pub fn volume_detail(name: &str, capacity: &str, filesystem: &Option<String>, raid_level: &Option<String>) -> (r: String)
    ensures
        r@ == volume_detail_text(name@, capacity@, *filesystem, *raid_level),
{
    let mut meta: Vec<String> = Vec::new();
    meta.push(capacity.to_string());
    assert(texts(meta@) =~= seq![capacity@]);
    push_present(&mut meta, filesystem);
    push_present(&mut meta, raid_level);
    let mut r = name.to_string();
    r.append(" [");
    let j = join_with_comma(&meta);
    r.append(j.as_str());
    r.append("]");
    r
}

/// A dataset's label under a volume: for its primary placement its size
/// and criticality, for another placement the placement's role.
pub open spec fn dataset_detail_text(name: Seq<char>, size: Seq<char>, criticality: Seq<char>, role: Seq<char>) -> Seq<char> {
    if role == "primary"@ {
        name + " ("@ + size + ", "@ + criticality + ")"@
    } else {
        name + " ("@ + role + ")"@
    }
}

/// A dataset's label under a volume, such as `photos (2.0TB, critical)` or
/// `photos (backup)`; the size comes as text.
pub fn dataset_detail(name: &str, size: &str, criticality: &str, role: &str) -> (r: String)
    ensures
        r@ == dataset_detail_text(name@, size@, criticality@, role@),
{
    let mut r = name.to_string();
    r.append(" (");
    if str_eq(role, "primary") {
        r.append(size);
        r.append(", ");
        r.append(criticality);
    } else {
        r.append(role);
    }
    r.append(")");
    r
}

// ---------------------------------------------------------------------------
// The tree: nodes, their volumes, and the datasets placed on each volume
// ---------------------------------------------------------------------------

/// A volume in the tree: its label and the labels of the datasets placed
/// on it, in the order they are drawn.
#[derive(Debug, Clone)]
pub struct VolumeBranch {
    pub detail: String,
    pub datasets: Vec<String>,
}

/// A node in the tree: its label and its volumes, in the order they are
/// drawn.
#[derive(Debug, Clone)]
pub struct NodeBranch {
    pub detail: String,
    pub volumes: Vec<VolumeBranch>,
}

/// The connector before an entry: a corner for the last one of its
/// siblings, a tee for the others.
pub open spec fn connector(last: bool) -> Seq<char> {
    if last {
        "\u{2514}\u{2500}\u{2500}"@
    } else {
        "\u{251c}\u{2500}\u{2500}"@
    }
}

/// What stands before the children of an entry: blank under the last of
/// its siblings, a vertical bar under the others.
pub open spec fn child_indent(last: bool) -> Seq<char> {
    if last {
        "    "@
    } else {
        "\u{2502}   "@
    }
}

/// The line of the `k`-th of `n` siblings with label `label`.
pub open spec fn entry_line(prefix: Seq<char>, k: int, n: int, label: Seq<char>) -> Seq<char> {
    prefix + connector(k == n - 1) + " "@ + label
}

/// The lines of the first `k` datasets of a volume.
pub open spec fn dataset_lines(prefix: Seq<char>, ds: Seq<Seq<char>>, k: int) -> Seq<Seq<char>>
    decreases k,
{
    if k <= 0 {
        Seq::empty()
    } else {
        dataset_lines(prefix, ds, k - 1).push(entry_line(prefix, k - 1, ds.len() as int, ds[k - 1]))
    }
}

/// The lines of the `k`-th of `n` volumes: its own, then its datasets'.
pub open spec fn volume_lines(prefix: Seq<char>, v: VolumeBranch, k: int, n: int) -> Seq<Seq<char>> {
    let ds = texts(v.datasets@);
    seq![entry_line(prefix, k, n, v.detail@)] + dataset_lines(prefix + child_indent(k == n - 1), ds, ds.len() as int)
}

/// The lines of the first `k` volumes of a node.
pub open spec fn volumes_lines(prefix: Seq<char>, vs: Seq<VolumeBranch>, k: int) -> Seq<Seq<char>>
    decreases k,
{
    if k <= 0 {
        Seq::empty()
    } else {
        volumes_lines(prefix, vs, k - 1) + volume_lines(prefix, vs[k - 1], k - 1, vs.len() as int)
    }
}

/// The lines of the `k`-th of `n` nodes: its own, then its volumes'.
pub open spec fn node_lines(nd: NodeBranch, k: int, n: int) -> Seq<Seq<char>> {
    seq![entry_line(""@, k, n, nd.detail@)] + volumes_lines(child_indent(k == n - 1), nd.volumes@, nd.volumes@.len() as int)
}

/// The lines of the first `k` nodes.
pub open spec fn nodes_lines(ns: Seq<NodeBranch>, k: int) -> Seq<Seq<char>>
    decreases k,
{
    if k <= 0 {
        Seq::empty()
    } else {
        nodes_lines(ns, k - 1) + node_lines(ns[k - 1], k - 1, ns.len() as int)
    }
}

/// The whole tree: the topology's name, then its nodes, or a note that it
/// has none.
pub open spec fn tree_text(name: Seq<char>, ns: Seq<NodeBranch>) -> Seq<Seq<char>> {
    if ns.len() == 0 {
        seq![name, "  (no nodes)"@]
    } else {
        seq![name] + nodes_lines(ns, ns.len() as int)
    }
}

/// The line of the `k`-th of `n` siblings.
fn entry(prefix: &str, k: usize, n: usize, label: &str) -> (r: String)
    requires
        k < n,
    ensures
        r@ == entry_line(prefix@, k as int, n as int, label@),
{
    let mut r = prefix.to_string();
    if k + 1 == n {
        r.append("\u{2514}\u{2500}\u{2500}");
    } else {
        r.append("\u{251c}\u{2500}\u{2500}");
    }
    r.append(" ");
    r.append(label);
    proof {
        reveal_strlit("\u{2514}\u{2500}\u{2500}");
        reveal_strlit("\u{251c}\u{2500}\u{2500}");
    }
    r
}

/// What stands before the children of the `k`-th of `n` siblings.
fn indent_after(prefix: &str, k: usize, n: usize) -> (r: String)
    requires
        k < n,
    ensures
        r@ == prefix@ + child_indent(k as int == n as int - 1),
{
    let mut r = prefix.to_string();
    if k + 1 == n {
        r.append("    ");
    } else {
        r.append("\u{2502}   ");
    }
    r
}

/// The lines of the tree diagram: the topology's name, then each node
/// with its volumes and, under each volume, the datasets placed on it,
/// each behind a corner or tee connector.
pub fn tree_lines(name: &str, nodes: &Vec<NodeBranch>) -> (r: Vec<String>)
    ensures
        texts(r@) == tree_text(name@, nodes@),
{
    let mut out: Vec<String> = Vec::new();
    out.push(name.to_string());
    if nodes.len() == 0 {
        out.push(String::from_str("  (no nodes)"));
        assert(texts(out@) =~= tree_text(name@, nodes@));
        return out;
    }
    let n = nodes.len();
    let mut i: usize = 0;
    while i < n
        invariant
            n == nodes@.len(),
            i <= n,
            texts(out@) == seq![name@] + nodes_lines(nodes@, i as int),
        decreases n - i,
    {
        let nd = &nodes[i];
        let ghost base = texts(out@);
        out.push(entry("", i, n, nd.detail.as_str()));
        let vprefix = indent_after("", i, n);
        proof {
            reveal_strlit("");
            assert(vprefix@ =~= child_indent(i as int == n as int - 1));
        }
        let vs = &nd.volumes;
        let m = vs.len();
        let mut j: usize = 0;
        assert(texts(out@) =~= base + seq![entry_line(""@, i as int, n as int, nd.detail@)]);
        while j < m
            invariant
                n == nodes@.len(),
                i < n,
                nd == nodes@[i as int],
                vs == nd.volumes,
                m == vs@.len(),
                j <= m,
                vprefix@ == child_indent(i as int == n as int - 1),
                texts(out@) == base + seq![entry_line(""@, i as int, n as int, nd.detail@)]
                    + volumes_lines(vprefix@, vs@, j as int),
            decreases m - j,
        {
            let v = &vs[j];
            let ghost vbase = texts(out@);
            out.push(entry(vprefix.as_str(), j, m, v.detail.as_str()));
            let dprefix = indent_after(vprefix.as_str(), j, m);
            let ds = &v.datasets;
            let c = ds.len();
            let mut k: usize = 0;
            assert(texts(out@) =~= vbase + seq![entry_line(vprefix@, j as int, m as int, v.detail@)]);
            while k < c
                invariant
                    c == ds@.len(),
                    ds == v.datasets,
                    k <= c,
                    dprefix@ == vprefix@ + child_indent(j as int == m as int - 1),
                    texts(out@) == vbase + seq![entry_line(vprefix@, j as int, m as int, v.detail@)]
                        + dataset_lines(dprefix@, texts(ds@), k as int),
                decreases c - k,
            {
                let ghost before = texts(out@);
                out.push(entry(dprefix.as_str(), k, c, ds[k].as_str()));
                assert(texts(out@) =~= before.push(entry_line(dprefix@, k as int, c as int, ds@[k as int]@)));
                assert(texts(ds@)[k as int] == ds@[k as int]@);
                k = k + 1;
            }
            assert(texts(out@) =~= vbase + volume_lines(vprefix@, *v, j as int, m as int));
            assert(volumes_lines(vprefix@, vs@, j + 1) =~= volumes_lines(vprefix@, vs@, j as int)
                + volume_lines(vprefix@, vs@[j as int], j as int, m as int));
            j = j + 1;
        }
        assert(texts(out@) =~= base + node_lines(*nd, i as int, n as int));
        assert(nodes_lines(nodes@, i + 1) =~= nodes_lines(nodes@, i as int) + node_lines(nodes@[i as int], i as int, n as int));
        i = i + 1;
    }
    out
}

// ---------------------------------------------------------------------------
// The network: links between nodes
// ---------------------------------------------------------------------------

/// A node as the network diagram names it.
#[derive(Debug, Clone)]
pub struct NetworkNode {
    pub id: String,
    pub name: String,
    pub location: String,
}

/// A link between two nodes, with its label.
#[derive(Debug, Clone)]
pub struct NetworkLink {
    pub source_node_id: String,
    pub target_node_id: String,
    pub label: String,
}

/// A node's short name: its name, with its location in parentheses when
/// it has one.
pub open spec fn node_short_text(name: Seq<char>, location: Seq<char>) -> Seq<char> {
    if location.len() == 0 {
        name
    } else {
        name + " ("@ + location + ")"@
    }
}

/// A node's short name, such as `nas (closet)`.
pub fn node_short(name: &str, location: &str) -> (r: String)
    ensures
        r@ == node_short_text(name@, location@),
{
    let mut r = name.to_string();
    if location.unicode_len() > 0 {
        r.append(" (");
        r.append(location);
        r.append(")");
    }
    r
}

/// A link's label: its connection type, then its bandwidth when known.
pub open spec fn link_label_text(connection_type: Seq<char>, bandwidth: Option<String>) -> Seq<char> {
    match bandwidth {
        Some(b) => join_comma(seq![connection_type, b@]),
        None => connection_type,
    }
}

/// A link's label, such as `ethernet, 1GB/s`; the bandwidth comes as text.
pub fn link_label(connection_type: &str, bandwidth: &Option<String>) -> (r: String)
    ensures
        r@ == link_label_text(connection_type@, *bandwidth),
{
    let mut r = connection_type.to_string();
    if let Some(b) = bandwidth {
        r.append(", ");
        r.append(b.as_str());
        proof {
            let parts = seq![connection_type@, b@];
            assert(parts.drop_last() =~= seq![connection_type@]);
            assert(join_comma(seq![connection_type@]) == connection_type@);
            assert(join_comma(parts) == join_comma(parts.drop_last()) + ", "@ + parts.last());
        }
    }
    r
}

/// The ids of the nodes.
pub open spec fn node_ids(ns: Seq<NetworkNode>) -> Seq<Seq<char>> {
    Seq::new(ns.len(), |i: int| ns[i].id@)
}

/// How a link end is shown: the short name of the node with that id (the
/// last one listed, as a map keyed by id keeps it), or `?`.
pub open spec fn endpoint_text(ns: Seq<NetworkNode>, id: Seq<char>) -> Seq<char> {
    let k = last_index_of(node_ids(ns), id);
    if k < 0 {
        "?"@
    } else {
        node_short_text(ns[k].name@, ns[k].location@)
    }
}

/// The short name of the node with id `id`, or `?`.
fn endpoint(nodes: &Vec<NetworkNode>, id: &str) -> (r: String)
    ensures
        r@ == endpoint_text(nodes@, id@),
{
    let mut found: Option<usize> = None;
    let mut i: usize = 0;
    while i < nodes.len()
        invariant
            i <= nodes@.len(),
            found matches Some(f) ==> f < nodes@.len(),
            last_index_of(node_ids(nodes@).take(i as int), id@) == (match found {
                Some(f) => f as int,
                None => -1,
            }),
        decreases nodes.len() - i,
    {
        proof {
            assert(node_ids(nodes@).take(i + 1).drop_last() =~= node_ids(nodes@).take(i as int));
        }
        if str_eq(nodes[i].id.as_str(), id) {
            found = Some(i);
        }
        i = i + 1;
    }
    proof {
        assert(node_ids(nodes@).take(nodes@.len() as int) =~= node_ids(nodes@));
    }
    match found {
        Some(f) => node_short(nodes[f].name.as_str(), nodes[f].location.as_str()),
        None => String::from_str("?"),
    }
}

/// The line of one link: its ends joined by an arrow that carries its
/// label.
pub open spec fn link_line(ns: Seq<NetworkNode>, l: NetworkLink) -> Seq<char> {
    endpoint_text(ns, l.source_node_id@) + " \u{2500}\u{2500}["@ + l.label@ + "]\u{2500}\u{2500}> "@
        + endpoint_text(ns, l.target_node_id@)
}

/// The network diagram: a heading, the link lines (or a note that there
/// are none), and the totals.
pub open spec fn network_text(name: Seq<char>, ns: Seq<NetworkNode>, ls: Seq<NetworkLink>) -> Seq<Seq<char>> {
    seq!["Network Topology: "@ + name, ""@] + (if ls.len() == 0 {
        seq!["No network links defined"@]
    } else {
        Seq::new(ls.len(), |i: int| link_line(ns, ls[i]))
    }) + seq![""@, "Nodes: "@ + decimal_text(ns.len()) + "  Links: "@ + decimal_text(ls.len())]
}

/// The lines of the network diagram of a topology named `name`.
pub fn network_lines(name: &str, nodes: &Vec<NetworkNode>, links: &Vec<NetworkLink>) -> (r: Vec<String>)
    ensures
        texts(r@) == network_text(name@, nodes@, links@),
{
    let mut out: Vec<String> = Vec::new();
    let mut head = String::from_str("Network Topology: ");
    head.append(name);
    let ghost hv = head@;
    out.push(head);
    assert(texts(out@) =~= seq![hv]);
    out.push(String::new());
    let ghost start = texts(out@);
    proof {
        assert(start =~= seq![hv, Seq::<char>::empty()]);
        reveal_strlit("");
        assert(hv == "Network Topology: "@ + name@);
        assert(""@ =~= Seq::<char>::empty());
        assert(start =~= seq!["Network Topology: "@ + name@, ""@]);
    }
    if links.len() == 0 {
        out.push(String::from_str("No network links defined"));
    } else {
        let mut i: usize = 0;
        while i < links.len()
            invariant
                i <= links@.len(),
                texts(out@) == start + Seq::new(i as nat, |j: int| link_line(nodes@, links@[j])),
            decreases links.len() - i,
        {
            let l = &links[i];
            let mut line = endpoint(nodes, l.source_node_id.as_str());
            line.append(" \u{2500}\u{2500}[");
            line.append(l.label.as_str());
            line.append("]\u{2500}\u{2500}> ");
            let t = endpoint(nodes, l.target_node_id.as_str());
            line.append(t.as_str());
            let ghost before = texts(out@);
            out.push(line);
            assert(texts(out@) =~= before.push(link_line(nodes@, links@[i as int])));
            assert(Seq::new((i + 1) as nat, |j: int| link_line(nodes@, links@[j])) =~= Seq::new(
                i as nat,
                |j: int| link_line(nodes@, links@[j]),
            ).push(link_line(nodes@, links@[i as int])));
            i = i + 1;
        }
    }
    let ghost mid = texts(out@);
    out.push(String::new());
    assert(texts(out@) =~= mid.push(""@));
    let ghost mid2 = texts(out@);
    let mut tail = String::from_str("Nodes: ");
    tail.append(decimal(nodes.len() as u64).as_str());
    tail.append("  Links: ");
    tail.append(decimal(links.len() as u64).as_str());
    out.push(tail);
    proof {
        assert(texts(out@) =~= mid2.push(tail@));
        assert(texts(out@) =~= mid + seq![""@, "Nodes: "@ + decimal_text(nodes@.len()) + "  Links: "@
            + decimal_text(links@.len())]);
    }
    out
}

} // verus!
