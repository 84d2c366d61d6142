//! Field values of entity commands: dataset criticality and link names.

use vstd::prelude::*;
use crate::text::{chars_of, str_eq};

verus! {

/// Why a field value was refused.
#[derive(Debug, Clone)]
pub enum FieldError {
    /// A criticality outside normal, important, critical.
    InvalidCriticality(String),
    /// A link name not of the form `source--target`.
    InvalidLinkName(String),
}

/// The criticality levels of a dataset.
pub open spec fn is_criticality(v: Seq<char>) -> bool {
    v == "normal"@ || v == "important"@ || v == "critical"@
}

/// Refuse a criticality outside normal, important, critical.
pub fn validate_criticality(value: &str) -> (r: Result<(), FieldError>)
    ensures
        r is Ok <==> is_criticality(value@),
        r matches Err(e) ==> e matches FieldError::InvalidCriticality(x) && x@ == value@,
{
    if str_eq(value, "normal") || str_eq(value, "important") || str_eq(value, "critical") {
        Ok(())
    } else {
        Err(FieldError::InvalidCriticality(value.to_string()))
    }
}

/// A "--" starts at position `i` of `s`.
pub open spec fn is_separator_at(s: Seq<char>, i: int) -> bool {
    0 <= i && i + 1 < s.len() && s[i] == '-' && s[i + 1] == '-'
}

/// The first "--" of `s` starts at position `i`.
pub open spec fn is_first_separator(s: Seq<char>, i: int) -> bool {
    is_separator_at(s, i) && forall|j: int| 0 <= j < i ==> !#[trigger] is_separator_at(s, j)
}

/// The parts of `s` around a "--" at position `i`.
pub open spec fn link_parts(s: Seq<char>, i: int) -> (Seq<char>, Seq<char>) {
    (s.subrange(0, i), s.subrange(i + 2, s.len() as int))
}

/// Split a link name `source--target` at its first "--" into the names of
/// its two nodes (the target may itself hold "--"). Both must be
/// non-empty.
pub fn parse_link_name(name: &str) -> (r: Result<(String, String), FieldError>)
    ensures
        r matches Ok((a, b)) ==> exists|i: int|
            #[trigger] is_first_separator(name@, i) && (a@, b@) == link_parts(name@, i) && a@.len() > 0 && b@.len()
                > 0,
        r is Err <==> forall|i: int| #[trigger] is_first_separator(name@, i) ==> (i == 0 || i + 2 == name@.len()),
        r matches Err(e) ==> e matches FieldError::InvalidLinkName(x) && x@ == name@,
{
    let cs = chars_of(name);
    let n = cs.len();
    let mut i: usize = 0;
    while i < n && i + 1 < n
        invariant
            cs@ == name@,
            n == cs@.len(),
            i <= n,
            forall|j: int| 0 <= j < i ==> !#[trigger] is_separator_at(name@, j),
        decreases n - i,
    {
        if cs[i] == '-' && cs[i + 1] == '-' {
            proof {
                assert(is_separator_at(name@, i as int));
                assert(is_first_separator(name@, i as int));
                assert forall|k: int| #[trigger] is_first_separator(name@, k) implies k == i by {
                    if k > i {
                        assert(!is_separator_at(name@, i as int));
                    }
                    if k < i {
                        assert(!is_separator_at(name@, k));
                    }
                }
            }
            if i == 0 || i + 2 == n {
                return Err(FieldError::InvalidLinkName(name.to_string()));
            }
            let a = name.substring_char(0, i);
            let b = name.substring_char(i + 2, n);
            return Ok((a.to_string(), b.to_string()));
        }
        i = i + 1;
    }
    proof {
        assert forall|k: int| #[trigger] is_first_separator(name@, k) implies (k == 0 || k + 2 == name@.len()) by {
            assert(!is_separator_at(name@, k));
        }
    }
    Err(FieldError::InvalidLinkName(name.to_string()))
}

} // verus!
