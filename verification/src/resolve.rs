//! Name validation and name-or-ID resolution.

use vstd::prelude::*;
use vstd::string::StringSliceAdditionalSpecFns;
use crate::text::{chars_of, char_is_alphanumeric, spec_is_alphanumeric, all_ascii, is_ascii_alnum};

verus! {

/// A valid slug: non-empty, and every character alphanumeric, `-` or `_`.
pub open spec fn is_slug(name: Seq<char>) -> bool {
    name.len() > 0 && forall|i: int|
        0 <= i < name.len() ==> (#[trigger] spec_is_alphanumeric(name[i]) || name[i] == '-'
            || name[i] == '_')
}

/// A valid slug over ASCII text: non-empty, and every character an ASCII
/// letter, digit, `-` or `_`.
pub open spec fn is_ascii_slug(name: Seq<char>) -> bool {
    name.len() > 0 && forall|i: int|
        0 <= i < name.len() ==> (#[trigger] is_ascii_alnum(name[i]) || name[i] == '-' || name[i] == '_')
}

/// Why a name is not a valid slug.
#[derive(Debug, Clone, PartialEq, Eq)]
pub enum SlugError {
    /// The name is empty.
    Empty,
    /// The name holds a character other than alphanumerics, `-` and `_`.
    InvalidCharacters,
}

/// Validate that a name is a valid slug: alphanumeric, hyphens, and
/// underscores only. Rejects names with spaces, special characters, or
/// empty strings.
pub fn validate_slug(name: &str) -> (r: Result<(), SlugError>)
    ensures
        r is Ok <==> is_slug(name@),
        all_ascii(name@) ==> (r is Ok <==> is_ascii_slug(name@)),
        r == Err::<(), SlugError>(SlugError::Empty) <==> name@.len() == 0,
{
    let cs = chars_of(name);
    if cs.len() == 0 {
        return Err(SlugError::Empty);
    }
    let mut i: usize = 0;
    while i < cs.len()
        invariant
            cs@ == name@,
            i <= cs.len(),
            forall|j: int|
                0 <= j < i ==> (#[trigger] spec_is_alphanumeric(cs@[j]) || cs@[j] == '-' || cs@[j]
                    == '_'),
            all_ascii(name@) ==> forall|j: int|
                0 <= j < i ==> (#[trigger] is_ascii_alnum(cs@[j]) || cs@[j] == '-' || cs@[j] == '_'),
        decreases cs.len() - i,
    {
        let c = cs[i];
        proof {
            if all_ascii(name@) {
                assert(crate::text::is_ascii_char(cs@[i as int]));
            }
        }
        if !(char_is_alphanumeric(c) || c == '-' || c == '_') {
            return Err(SlugError::InvalidCharacters);
        }
        i = i + 1;
    }
    Ok(())
}

} // verus!

verus! {

// ---------------------------------------------------------------------------
// Name-or-ID resolution
// ---------------------------------------------------------------------------

/// Why a name or ID prefix did not resolve to one entity.
#[derive(Debug, Clone)]
pub enum ResolveError {
    /// No entity has this name, and it is too short (under 4 bytes) to be
    /// taken as an ID prefix.
    PrefixTooShort(String),
    /// No entity has this name or an ID starting with it.
    NotFound(String),
    /// Several entities have an ID starting with the query; their names.
    Ambiguous { query: String, names: Vec<String> },
    /// Volumes of this name exist on several nodes (their names); a node
    /// must be given.
    OnSeveralNodes { query: String, nodes: Vec<String> },
    /// No topology is tagged current and none was named.
    NoActiveTopology,
}

/// How a query resolved.
#[derive(Debug, Clone, Copy, PartialEq, Eq, Structural)]
pub enum Pick {
    /// The entity whose name is the query.
    ByName,
    /// The one entity whose ID starts with the query.
    ByPrefix,
}

/// A copy of a list of strings.
pub fn copy_strings(v: &Vec<String>) -> (r: Vec<String>)
    ensures
        r@ == v@,
{
    let mut r: Vec<String> = Vec::new();
    let mut i: usize = 0;
    while i < v.len()
        invariant
            i <= v@.len(),
            r@ == v@.subrange(0, i as int),
        decreases v.len() - i,
    {
        r.push(v[i].clone());
        proof {
            assert(r@ =~= v@.subrange(0, i + 1));
        }
        i = i + 1;
    }
    proof {
        assert(v@.subrange(0, v@.len() as int) =~= v@);
    }
    r
}

/// The resolution rule: an exact name match wins; otherwise the query is
/// an ID prefix of at least 4 bytes that must match exactly one entity.
/// `prefix_names` are the names of the entities whose ID starts with the
/// query.
pub open spec fn resolution(query: Seq<char>, query_bytes: nat, by_name: bool, prefix_names: Seq<String>) -> Result<Pick, ResolveError> {
    if by_name {
        Ok(Pick::ByName)
    } else if query_bytes < 4 {
        Err(ResolveError::PrefixTooShort(arbitrary_with(query)))
    } else if prefix_names.len() == 0 {
        Err(ResolveError::NotFound(arbitrary_with(query)))
    } else if prefix_names.len() == 1 {
        Ok(Pick::ByPrefix)
    } else {
        Err(ResolveError::Ambiguous { query: arbitrary_with(query), names: arbitrary_list_with(prefix_names) })
    }
}

/// A string whose text is `t`.
pub open spec fn arbitrary_with(t: Seq<char>) -> String {
    choose|s: String| s@ == t
}

/// A list equal to `v`.
pub open spec fn arbitrary_list_with(v: Seq<String>) -> Vec<String> {
    choose|l: Vec<String>| l@ == v
}

/// The outcome has the shape the rule gives, with the query's text and
/// the matching names carried in its errors.
pub open spec fn resolves_as(r: Result<Pick, ResolveError>, query: Seq<char>, query_bytes: nat, by_name: bool, prefix_names: Seq<String>) -> bool {
    match resolution(query, query_bytes, by_name, prefix_names) {
        Ok(p) => r == Ok::<Pick, ResolveError>(p),
        Err(ResolveError::PrefixTooShort(_)) => r matches Err(ResolveError::PrefixTooShort(q)) && q@ == query,
        Err(ResolveError::NotFound(_)) => r matches Err(ResolveError::NotFound(q)) && q@ == query,
        Err(ResolveError::Ambiguous { .. }) => r matches Err(ResolveError::Ambiguous { query: q, names })
            && q@ == query && names@ == prefix_names,
        Err(_) => false,
    }
}

/// Resolve a name or ID prefix, given whether an entity has the query as
/// its name and the names of the entities whose ID starts with it.
pub fn resolve_pick(query: &str, by_name: bool, prefix_names: &Vec<String>) -> (r: Result<Pick, ResolveError>)
    requires
        query.spec_bytes().len() <= usize::MAX,
    ensures
        resolves_as(r, query@, query.spec_bytes().len(), by_name, prefix_names@),
{
    if by_name {
        return Ok(Pick::ByName);
    }
    if query.len() < 4 {
        return Err(ResolveError::PrefixTooShort(query.to_string()));
    }
    if prefix_names.len() == 0 {
        Err(ResolveError::NotFound(query.to_string()))
    } else if prefix_names.len() == 1 {
        Ok(Pick::ByPrefix)
    } else {
        Err(ResolveError::Ambiguous { query: query.to_string(), names: copy_strings(prefix_names) })
    }
}

/// Resolve a volume without a node hint. `name_matches` volumes have the
/// query as their name; when there are several, the query is refused and
/// the error carries `node_names`, the names of their nodes. Otherwise
/// the rule of `resolve_pick` applies.
pub fn resolve_volume_pick(query: &str, name_matches: usize, node_names: &Vec<String>, prefix_names: &Vec<String>) -> (r: Result<Pick, ResolveError>)
    requires
        query.spec_bytes().len() <= usize::MAX,
    ensures
        name_matches > 1 ==> (r matches Err(ResolveError::OnSeveralNodes { query: q, nodes }) && q@ == query@
            && nodes@ == node_names@),
        name_matches <= 1 ==> resolves_as(r, query@, query.spec_bytes().len(), name_matches == 1, prefix_names@),
{
    if name_matches > 1 {
        return Err(ResolveError::OnSeveralNodes { query: query.to_string(), nodes: copy_strings(node_names) });
    }
    resolve_pick(query, name_matches == 1, prefix_names)
}

/// The topology commands act on: the one named with `--topology` when
/// given, else the current one (`current` says whether one is tagged).
pub fn resolve_active(override_given: bool, current: bool) -> (r: Result<bool, ResolveError>)
    ensures
        override_given ==> r == Ok::<bool, ResolveError>(true),
        !override_given && current ==> r == Ok::<bool, ResolveError>(false),
        !override_given && !current ==> r matches Err(ResolveError::NoActiveTopology),
{
    if override_given {
        Ok(true)
    } else if current {
        Ok(false)
    } else {
        Err(ResolveError::NoActiveTopology)
    }
}

} // verus!
