//! Export and import of a topology as a document.
//!
//! An export can be limited to some entity kinds (`--only nodes,links`);
//! an import names the new topology after the document unless told
//! otherwise, appending `-imported` when that name is taken.

use vstd::prelude::*;
use crate::text::{chars_of, str_eq, trim_str, is_trim_of, lemma_trim_unique};
use crate::remap::texts;
use crate::decision::position_of;

verus! {

// ---------------------------------------------------------------------------
// Entity kinds of an export
// ---------------------------------------------------------------------------

/// The comma-separated field of `s` running from `i` to `j`.
pub open spec fn is_segment(s: Seq<char>, i: int, j: int) -> bool {
    &&& 0 <= i <= j <= s.len()
    &&& (i == 0 || s[i - 1] == ',')
    &&& (j == s.len() || s[j] == ',')
    &&& forall|k: int| i <= k < j ==> #[trigger] s[k] != ','
}

/// `name` is one of the comma-separated fields of `s`, once trimmed.
pub open spec fn lists(s: Seq<char>, name: Seq<char>) -> bool {
    exists|i: int, j: int| #[trigger] is_segment(s, i, j) && is_trim_of(s.subrange(i, j), name)
}

/// Whether the field of `list` from `start` to `end` is `name` once
/// trimmed.
fn field_is(list: &str, start: usize, end: usize, name: &str) -> (r: bool)
    requires
        start <= end <= list@.len(),
    ensures
        r == is_trim_of(list@.subrange(start as int, end as int), name@),
{
    let part = list.substring_char(start, end);
    let t = trim_str(part);
    let hit = str_eq(t.as_str(), name);
    proof {
        if !hit && is_trim_of(part@, name@) {
            lemma_trim_unique(part@, t@, name@);
        }
    }
    hit
}

/// Whether `name` is one of the comma-separated fields of `list`, once
/// trimmed.
pub fn lists_name(list: &str, name: &str) -> (r: bool)
    ensures
        r == lists(list@, name@),
{
    let cs = chars_of(list);
    let n = cs.len();
    let ghost s = list@;
    let mut found = false;
    let mut start: usize = 0;
    let mut i: usize = 0;
    while i < n
        invariant
            cs@ == s,
            s == list@,
            n == s.len(),
            start <= i <= n,
            start == 0 || s[start - 1] == ',',
            forall|k: int| start <= k < i ==> #[trigger] s[k] != ',',
            found == exists|a: int, b: int|
                #[trigger] is_segment(s, a, b) && b < start && is_trim_of(s.subrange(a, b), name@),
        decreases n - i,
    {
        if cs[i] == ',' {
            let hit = field_is(list, start, i, name);
            proof {
                assert(is_segment(s, start as int, i as int));
                assert forall|a: int, b: int| #[trigger] is_segment(s, a, b) && b == i implies a == start by {
                    if a < start {
                        assert(s[start - 1] == ',');
                    } else if a > start {
                        assert(s[a - 1] == ',');
                    }
                }
                assert forall|a: int, b: int| #[trigger] is_segment(s, a, b) && b < i + 1 implies b < start || b == i by {
                    if start <= b < i {
                        assert(s[b] != ',');
                    }
                }
            }
            found = found || hit;
            start = i + 1;
        }
        i = i + 1;
    }
    let hit = field_is(list, start, n, name);
    proof {
        assert(is_segment(s, start as int, n as int));
        assert forall|a: int, b: int| #[trigger] is_segment(s, a, b) && b == n implies a == start by {
            if a < start {
                assert(s[start - 1] == ',');
            } else if a > start {
                assert(s[a - 1] == ',');
            }
        }
        assert forall|a: int, b: int| #[trigger] is_segment(s, a, b) implies b < start || b == n by {
            if start <= b < n {
                assert(s[b] != ',');
            }
        }
    }
    found || hit
}

/// The entity kinds an export writes.
#[derive(Debug, Clone, Copy, PartialEq, Eq, Structural)]
pub struct ExportSections {
    pub nodes: bool,
    pub volumes: bool,
    pub datasets: bool,
    pub placements: bool,
    pub links: bool,
    pub sync_regimes: bool,
}

/// Whether a kind is written: every kind without `--only`, else those
/// it lists.
pub open spec fn included(only: Option<&str>, kind: Seq<char>) -> bool {
    match only {
        None => true,
        Some(list) => lists(list@, kind),
    }
}

impl ExportSections {
    /// The kinds an export writes given its `--only` list.
    pub fn from_only(only: Option<&str>) -> (r: ExportSections)
        ensures
            r.nodes == included(only, "nodes"@),
            r.volumes == included(only, "volumes"@),
            r.datasets == included(only, "datasets"@),
            r.placements == included(only, "placements"@),
            r.links == included(only, "links"@),
            r.sync_regimes == included(only, "sync_regimes"@),
    {
        match only {
            None => ExportSections {
                nodes: true,
                volumes: true,
                datasets: true,
                placements: true,
                links: true,
                sync_regimes: true,
            },
            Some(list) => ExportSections {
                nodes: lists_name(list, "nodes"),
                volumes: lists_name(list, "volumes"),
                datasets: lists_name(list, "datasets"),
                placements: lists_name(list, "placements"),
                links: lists_name(list, "links"),
                sync_regimes: lists_name(list, "sync_regimes"),
            },
        }
    }
}

// ---------------------------------------------------------------------------
// The name of an imported topology
// ---------------------------------------------------------------------------

/// Why an import was refused before anything was written.
#[derive(Debug, Clone)]
pub enum ImportError {
    /// The name the import would use is taken.
    NameExists(String),
}

/// The name an import tries: the requested one, else the document's,
/// with `-imported` appended when that is taken.
pub open spec fn import_candidate(requested: Option<&str>, source: Seq<char>, taken: Seq<Seq<char>>) -> Seq<char> {
    match requested {
        Some(n) => n@,
        None => if taken.contains(source) {
            source + "-imported"@
        } else {
            source
        },
    }
}

/// The name of an imported topology, given the names already `taken`.
pub fn import_name(requested: Option<&str>, source: &str, taken: &Vec<String>) -> (r: Result<String, ImportError>)
    ensures
        r is Ok <==> !texts(taken@).contains(import_candidate(requested, source@, texts(taken@))),
        r matches Ok(n) ==> n@ == import_candidate(requested, source@, texts(taken@)),
        r matches Err(ImportError::NameExists(n)) ==> n@ == import_candidate(requested, source@, texts(taken@)),
{
    let name = match requested {
        Some(n) => n.to_string(),
        None => {
            if position_of(taken, source).is_some() {
                let mut n = source.to_string();
                n.append("-imported");
                n
            } else {
                source.to_string()
            }
        },
    };
    if position_of(taken, name.as_str()).is_some() {
        Err(ImportError::NameExists(name))
    } else {
        Ok(name)
    }
}

} // verus!
