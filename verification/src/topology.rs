//! Topology lifecycle tags and names.
//!
//! A topology may carry a tag: `current`, `exploring` or `archived`. At
//! most one topology is current; tagging one as current takes the tag
//! from whichever topology had it. The first topology created becomes
//! current. Forks get a generated name `<source>-fork-<n>` unless one is
//! given.

use vstd::prelude::*;
use crate::text::{str_eq, decimal, decimal_text};
use crate::remap::texts;
use crate::decision::position_of;
use crate::resolve::{validate_slug, is_slug, SlugError};

verus! {

/// Why a topology command was refused.
#[derive(Debug, Clone)]
pub enum TopologyError {
    /// A tag outside current, exploring, archived.
    InvalidTag(String),
    /// `untag` on a topology without a tag.
    NoTag,
    /// `set-active` on the current topology.
    AlreadyCurrent,
    /// `update` was given nothing to change.
    NothingToUpdate,
    /// The name is not a valid slug.
    InvalidName(SlugError),
    /// Another topology already has this name.
    NameTaken(String),
    /// Every generated fork name `<source>-fork-1` to `-99` is taken.
    NoForkName(String),
}

/// A topology's id and tag.
#[derive(Debug, Clone)]
pub struct TopologyTag {
    pub id: String,
    pub tag: Option<String>,
}

/// The tag marks the current topology.
pub open spec fn is_current(tag: Option<String>) -> bool {
    tag is Some && tag->0@ == "current"@
}

/// At most one topology is current.
pub open spec fn at_most_one_current(ts: Seq<TopologyTag>) -> bool {
    forall|i: int, j: int|
        0 <= i < ts.len() && 0 <= j < ts.len() && is_current(#[trigger] ts[i].tag) && is_current(
            #[trigger] ts[j].tag,
        ) ==> i == j
}

/// The tags a topology can be given.
pub open spec fn is_valid_tag(t: Seq<char>) -> bool {
    t == "current"@ || t == "exploring"@ || t == "archived"@
}

/// Refuse a tag outside current, exploring, archived.
pub fn validate_tag(t: &str) -> (r: Result<(), TopologyError>)
    ensures
        r is Ok <==> is_valid_tag(t@),
        r matches Err(e) ==> e matches TopologyError::InvalidTag(x) && x@ == t@,
{
    if str_eq(t, "current") || str_eq(t, "exploring") || str_eq(t, "archived") {
        Ok(())
    } else {
        Err(TopologyError::InvalidTag(t.to_string()))
    }
}

fn tag_is_current(tag: &Option<String>) -> (r: bool)
    ensures
        r == is_current(*tag),
{
    match tag {
        Some(t) => str_eq(t.as_str(), "current"),
        None => false,
    }
}

/// `ts` after giving topology `target` the tag `tag`: when the tag is
/// `current`, every other current topology loses its tag.
pub open spec fn is_tagged(old: Seq<TopologyTag>, new: Seq<TopologyTag>, target: int, tag: Seq<char>) -> bool {
    &&& new.len() == old.len()
    &&& new[target].tag is Some && new[target].tag->0@ == tag
    &&& forall|j: int| 0 <= j < old.len() ==> (#[trigger] new[j]).id == old[j].id
    &&& forall|j: int|
        0 <= j < old.len() && j != target ==> (#[trigger] new[j]).tag == if tag == "current"@ && is_current(
            old[j].tag,
        ) {
            None
        } else {
            old[j].tag
        }
}

/// Clear the tag of every current topology but `keep`.
fn clear_current(ts: &mut Vec<TopologyTag>, keep: usize)
    requires
        keep < old(ts)@.len(),
    ensures
        final(ts)@.len() == old(ts)@.len(),
        final(ts)@[keep as int] == old(ts)@[keep as int],
        forall|j: int| 0 <= j < old(ts)@.len() ==> (#[trigger] final(ts)@[j]).id == old(ts)@[j].id,
        forall|j: int|
            0 <= j < old(ts)@.len() && j != keep ==> (#[trigger] final(ts)@[j]).tag == if is_current(
                old(ts)@[j].tag,
            ) {
                None
            } else {
                old(ts)@[j].tag
            },
{
    let ghost orig = ts@;
    let mut i: usize = 0;
    while i < ts.len()
        invariant
            i <= ts@.len(),
            ts@.len() == orig.len(),
            keep < orig.len(),
            ts@[keep as int] == orig[keep as int],
            forall|j: int| 0 <= j < orig.len() ==> (#[trigger] ts@[j]).id == orig[j].id,
            forall|j: int|
                0 <= j < i && j != keep ==> (#[trigger] ts@[j]).tag == if is_current(orig[j].tag) {
                    None
                } else {
                    orig[j].tag
                },
            forall|j: int| i <= j < orig.len() ==> (#[trigger] ts@[j]) == orig[j],
        decreases ts.len() - i,
    {
        if i != keep && tag_is_current(&ts[i].tag) {
            let id = ts[i].id.clone();
            ts.set(i, TopologyTag { id, tag: None });
        }
        i = i + 1;
    }
}

/// Give topology `target` the tag `tag`. Tagging one topology as current
/// takes the tag from every other.
pub fn tag_topology(ts: &mut Vec<TopologyTag>, target: usize, tag: &str) -> (r: Result<(), TopologyError>)
    requires
        target < old(ts)@.len(),
    ensures
        r is Ok <==> is_valid_tag(tag@),
        r is Ok ==> is_tagged(old(ts)@, final(ts)@, target as int, tag@),
        r is Err ==> final(ts)@ == old(ts)@,
        r matches Err(e) ==> (e matches TopologyError::InvalidTag(x) && x@ == tag@),
        r is Ok && tag@ != "current"@ ==> forall|j: int|
            0 <= j < old(ts)@.len() && j != target ==> #[trigger] final(ts)@[j] == old(ts)@[j],
        r is Ok && tag@ == "current"@ ==> forall|j: int|
            0 <= j < old(ts)@.len() && j != target ==> !is_current(#[trigger] final(ts)@[j].tag) && (!is_current(
                old(ts)@[j].tag,
            ) ==> final(ts)@[j] == old(ts)@[j]),
        r is Ok ==> final(ts)@[target as int].tag is Some && final(ts)@[target as int].tag->0@ == tag@,
        r is Ok && at_most_one_current(old(ts)@) ==> at_most_one_current(final(ts)@),
{
    match validate_tag(tag) {
        Err(e) => {
            return Err(e);
        },
        Ok(()) => {},
    }
    if str_eq(tag, "current") {
        clear_current(ts, target);
    }
    let id = ts[target].id.clone();
    ts.set(target, TopologyTag { id, tag: Some(tag.to_string()) });
    Ok(())
}

/// Make topology `target` the current one (the older form of tagging it
/// `current`); refused when it already is.
pub fn set_active(ts: &mut Vec<TopologyTag>, target: usize) -> (r: Result<(), TopologyError>)
    requires
        target < old(ts)@.len(),
    ensures
        r is Ok <==> !is_current(old(ts)@[target as int].tag),
        r is Ok ==> is_tagged(old(ts)@, final(ts)@, target as int, "current"@),
        r is Err ==> final(ts)@ == old(ts)@,
        r matches Err(e) ==> e is AlreadyCurrent,
{
    if tag_is_current(&ts[target].tag) {
        return Err(TopologyError::AlreadyCurrent);
    }
    clear_current(ts, target);
    let id = ts[target].id.clone();
    ts.set(target, TopologyTag { id, tag: Some(String::from_str("current")) });
    Ok(())
}

/// Remove the tag of topology `target`, returning it; refused when it has
/// none.
pub fn untag_topology(ts: &mut Vec<TopologyTag>, target: usize) -> (r: Result<String, TopologyError>)
    requires
        target < old(ts)@.len(),
    ensures
        r is Ok <==> old(ts)@[target as int].tag is Some,
        r matches Ok(t) ==> Some(t) == old(ts)@[target as int].tag && final(ts)@ == old(ts)@.update(
            target as int,
            TopologyTag { id: old(ts)@[target as int].id, tag: None },
        ),
        r is Err ==> final(ts)@ == old(ts)@,
        r matches Err(e) ==> e is NoTag,
{
    let old_tag = match &ts[target].tag {
        Some(t) => t.clone(),
        None => {
            return Err(TopologyError::NoTag);
        },
    };
    let id = ts[target].id.clone();
    ts.set(target, TopologyTag { id, tag: None });
    Ok(old_tag)
}

/// The tag a newly created topology gets: `current` when it is the first
/// topology, none otherwise.
pub fn initial_tag(existing: usize) -> (r: Option<String>)
    ensures
        existing == 0 ==> is_current(r),
        existing > 0 ==> r is None,
{
    if existing == 0 {
        Some(String::from_str("current"))
    } else {
        None
    }
}

// ---------------------------------------------------------------------------
// Laws
// ---------------------------------------------------------------------------

/// Tagging a topology keeps at most one topology current; tagging it
/// `current` makes it the only current one.
pub proof fn lemma_tagging_keeps_one_current(old: Seq<TopologyTag>, new: Seq<TopologyTag>, target: int, tag: Seq<char>)
    requires
        0 <= target < old.len(),
        is_tagged(old, new, target, tag),
        at_most_one_current(old),
    ensures
        at_most_one_current(new),
        tag == "current"@ ==> forall|j: int| 0 <= j < new.len() ==> (is_current(#[trigger] new[j].tag) <==> j == target),
{
    assert forall|i: int, j: int|
        0 <= i < new.len() && 0 <= j < new.len() && is_current(#[trigger] new[i].tag) && is_current(
            #[trigger] new[j].tag,
        ) implies i == j by {
        if i != target && j != target {
            assert(is_current(old[i].tag) && is_current(old[j].tag));
        } else if tag != "current"@ {
            if i == target {
                assert(new[target].tag->0@ == tag);
            } else {
                assert(new[target].tag->0@ == tag);
            }
        }
    }
}

/// Removing a tag keeps at most one topology current.
pub proof fn lemma_untag_keeps_one_current(old: Seq<TopologyTag>, target: int)
    requires
        0 <= target < old.len(),
        at_most_one_current(old),
    ensures
        at_most_one_current(old.update(target, TopologyTag { id: old[target].id, tag: None })),
{
    let new = old.update(target, TopologyTag { id: old[target].id, tag: None });
    assert forall|i: int, j: int|
        0 <= i < new.len() && 0 <= j < new.len() && is_current(#[trigger] new[i].tag) && is_current(
            #[trigger] new[j].tag,
        ) implies i == j by {
        assert(is_current(old[i].tag) && is_current(old[j].tag));
    }
}

/// A created topology is current only when it is the only topology, so
/// creation keeps at most one topology current.
pub proof fn lemma_create_keeps_one_current(old: Seq<TopologyTag>, t: TopologyTag)
    requires
        at_most_one_current(old),
        old.len() > 0 ==> t.tag is None,
    ensures
        at_most_one_current(old.push(t)),
{
    let new = old.push(t);
    assert forall|i: int, j: int|
        0 <= i < new.len() && 0 <= j < new.len() && is_current(#[trigger] new[i].tag) && is_current(
            #[trigger] new[j].tag,
        ) implies i == j by {
        if i < old.len() && j < old.len() {
            assert(new[i] == old[i] && new[j] == old[j]);
        }
    }
}

// ---------------------------------------------------------------------------
// Names
// ---------------------------------------------------------------------------

/// The `n`-th generated name for a fork of `source`.
pub open spec fn fork_candidate(source: Seq<char>, n: nat) -> Seq<char> {
    source + "-fork-"@ + decimal_text(n)
}

/// The first free name among `<source>-fork-1` to `<source>-fork-99`,
/// given the names already `taken`.
pub fn generate_fork_name(source: &str, taken: &Vec<String>) -> (r: Result<String, TopologyError>)
    ensures
        r is Ok <==> exists|n: nat| 1 <= n <= 99 && !texts(taken@).contains(#[trigger] fork_candidate(source@, n)),
        r matches Ok(name) ==> exists|n: nat|
            1 <= n <= 99 && name@ == #[trigger] fork_candidate(source@, n) && !texts(taken@).contains(name@)
                && forall|m: nat| 1 <= m < n ==> texts(taken@).contains(#[trigger] fork_candidate(source@, m)),
        r matches Err(e) ==> e matches TopologyError::NoForkName(s) && s@ == source@,
{
    let mut n: u64 = 1;
    while n < 100
        invariant
            1 <= n <= 100,
            forall|m: nat| 1 <= m < n ==> texts(taken@).contains(#[trigger] fork_candidate(source@, m)),
        decreases 100 - n,
    {
        let mut candidate = String::from_str(source);
        candidate.append("-fork-");
        let digits = decimal(n);
        candidate.append(digits.as_str());
        proof {
            assert(candidate@ == fork_candidate(source@, n as nat));
        }
        if position_of(taken, candidate.as_str()).is_none() {
            return Ok(candidate);
        }
        n = n + 1;
    }
    Err(TopologyError::NoForkName(source.to_string()))
}

/// Check a requested fork name: it must be a slug that no topology has.
pub fn check_new_name(name: &str, taken: bool) -> (r: Result<(), TopologyError>)
    ensures
        r is Ok <==> is_slug(name@) && !taken,
        !is_slug(name@) ==> r matches Err(TopologyError::InvalidName(_)),
        is_slug(name@) && taken ==> (r matches Err(TopologyError::NameTaken(n)) && n@ == name@),
{
    match validate_slug(name) {
        Err(e) => Err(TopologyError::InvalidName(e)),
        Ok(()) => {
            if taken {
                Err(TopologyError::NameTaken(name.to_string()))
            } else {
                Ok(())
            }
        },
    }
}

/// Check an `update` request: something must change, and a new name must
/// be a slug (checked before the topology is looked up).
pub fn check_update_request(description: Option<&str>, rename: Option<&str>) -> (r: Result<(), TopologyError>)
    ensures
        r is Ok <==> (description is Some || rename is Some) && (rename matches Some(n) ==> is_slug(n@)),
        description is None && rename is None ==> r matches Err(TopologyError::NothingToUpdate),
        (description is Some || rename is Some) && (rename matches Some(n) && !is_slug(n@)) ==> r matches Err(
            TopologyError::InvalidName(_),
        ),
{
    if description.is_none() && rename.is_none() {
        return Err(TopologyError::NothingToUpdate);
    }
    if let Some(n) = rename {
        match validate_slug(n) {
            Err(e) => {
                return Err(TopologyError::InvalidName(e));
            },
            Ok(()) => {},
        }
    }
    Ok(())
}

} // verus!
