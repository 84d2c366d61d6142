//! Typed attributes: capacities ("4TB") and speeds ("560MB/s").
//!
//! A capacity text is trimmed and upper-cased, then split before its first
//! alphabetic character into a number and a unit; a text without letters
//! is a number of bytes. The unit picks a decimal (KB, MB, ...) or binary
//! (KIB, MIB, ...) multiplier. Reading the number itself, a decimal
//! fraction, is left to the caller.

use vstd::prelude::*;
use crate::text::{
    chars_of, str_eq, trim_str, is_trim_of, str_to_uppercase, spec_to_uppercase, ends_with_str,
    spec_ends_with,
};

verus! {

/// A capacity in bytes.
#[derive(Debug, Clone, Copy, PartialEq, Eq, Structural)]
pub struct Capacity {
    pub bytes: u64,
}

/// A speed in bytes per second.
#[derive(Debug, Clone, Copy, PartialEq, Eq, Structural)]
pub struct Speed {
    pub bytes_per_sec: u64,
}

pub const KB: u64 = 1_000;
pub const MB: u64 = 1_000_000;
pub const GB: u64 = 1_000_000_000;
pub const TB: u64 = 1_000_000_000_000;
pub const PB: u64 = 1_000_000_000_000_000;
pub const KIB: u64 = 1_024;
pub const MIB: u64 = 1_048_576;
pub const GIB: u64 = 1_073_741_824;
pub const TIB: u64 = 1_099_511_627_776;

impl Capacity {
    /// A capacity of `bytes` bytes.
    pub fn from_bytes(bytes: u64) -> (r: Capacity)
        ensures
            r.bytes == bytes,
    {
        Capacity { bytes }
    }
}

/// What `char::is_alphabetic` says of a character (Unicode `Alphabetic`).
pub uninterp spec fn spec_is_alphabetic(c: char) -> bool;

/// Calls `char::is_alphabetic`. The Unicode `Alphabetic` property is named;
/// for ASCII the documentation fixes it to the letters.
#[verifier::external_body]
fn char_is_alphabetic(c: char) -> (r: bool)
    ensures
        r == spec_is_alphabetic(c),
        (c as u32) < 128 ==> (r == (('a' <= c && c <= 'z') || ('A' <= c && c <= 'Z'))),
{
    c.is_alphabetic()
}

/// Position of the first alphabetic character of `s`, or `s.len()`.
pub open spec fn first_alphabetic(s: Seq<char>) -> int
    decreases s.len(),
{
    if s.len() == 0 {
        0
    } else if spec_is_alphabetic(s[0]) {
        0
    } else {
        1 + first_alphabetic(s.drop_first())
    }
}

/// The two texts a capacity splits into.
#[derive(Debug, Clone)]
pub struct CapacityParts {
    /// The text before the first letter (not yet trimmed).
    pub number: String,
    /// The text from the first letter on (not yet trimmed); `B` when there
    /// is no letter.
    pub unit: String,
}

/// The normalized capacity text: trimmed and upper-cased.
pub open spec fn normalized(s: Seq<char>, n: Seq<char>) -> bool {
    exists|t: Seq<char>| is_trim_of(s, t) && n == spec_to_uppercase(t)
}

/// Split a capacity text into its number and its unit: the text is
/// trimmed and upper-cased, then cut before its first alphabetic
/// character; a text without one is a number of bytes.
pub fn split_capacity(s: &str) -> (r: CapacityParts)
    ensures
        exists|n: Seq<char>|
            normalized(s@, n) && ({
                let i = first_alphabetic(n);
                if i < n.len() {
                    r.number@ == n.subrange(0, i) && r.unit@ == n.subrange(i, n.len() as int)
                } else {
                    r.number@ == n && r.unit@ == "B"@
                }
            }),
{
    let t = trim_str(s);
    let u = str_to_uppercase(t.as_str());
    let cs = chars_of(u.as_str());
    let ghost n = u@;
    assert(is_trim_of(s@, t@) && n == spec_to_uppercase(t@));
    assert(normalized(s@, n));
    let mut i: usize = 0;
    assert(n.skip(0) =~= n);
    while i < cs.len() && !char_is_alphabetic(cs[i])
        invariant
            cs@ == n,
            i <= n.len(),
            first_alphabetic(n) == i + first_alphabetic(n.skip(i as int)),
        decreases cs.len() - i,
    {
        assert(n.skip(i as int).drop_first() =~= n.skip(i + 1));
        i = i + 1;
    }
    proof {
        if i < n.len() {
            assert(n.skip(i as int)[0] == n[i as int]);
        }
    }
    if i < cs.len() {
        let number = String::from_str(u.as_str().substring_char(0, i));
        let unit = String::from_str(u.as_str().substring_char(i, cs.len()));
        let r = CapacityParts { number, unit };
        assert(first_alphabetic(n) == i);
        r
    } else {
        let r = CapacityParts { number: u.clone(), unit: String::from_str("B") };
        r
    }
}

/// The multiplier a (trimmed) unit text stands for.
pub open spec fn unit_value(u: Seq<char>) -> Option<u64> {
    if u == "B"@ || u == ""@ {
        Some(1)
    } else if u == "KB"@ || u == "K"@ {
        Some(KB)
    } else if u == "MB"@ || u == "M"@ {
        Some(MB)
    } else if u == "GB"@ || u == "G"@ {
        Some(GB)
    } else if u == "TB"@ || u == "T"@ {
        Some(TB)
    } else if u == "PB"@ || u == "P"@ {
        Some(PB)
    } else if u == "KIB"@ || u == "KI"@ {
        Some(KIB)
    } else if u == "MIB"@ || u == "MI"@ {
        Some(MIB)
    } else if u == "GIB"@ || u == "GI"@ {
        Some(GIB)
    } else if u == "TIB"@ || u == "TI"@ {
        Some(TIB)
    } else {
        None
    }
}

/// The multiplier of a capacity unit (trimmed first); `None` for an
/// unknown unit.
pub fn unit_multiplier(unit: &str) -> (r: Option<u64>)
    ensures
        exists|t: Seq<char>| is_trim_of(unit@, t) && r == unit_value(t),
{
    let t = trim_str(unit);
    let u = t.as_str();
    assert(is_trim_of(unit@, t@));
    let r = if str_eq(u, "B") || str_eq(u, "") {
        Some(1)
    } else if str_eq(u, "KB") || str_eq(u, "K") {
        Some(KB)
    } else if str_eq(u, "MB") || str_eq(u, "M") {
        Some(MB)
    } else if str_eq(u, "GB") || str_eq(u, "G") {
        Some(GB)
    } else if str_eq(u, "TB") || str_eq(u, "T") {
        Some(TB)
    } else if str_eq(u, "PB") || str_eq(u, "P") {
        Some(PB)
    } else if str_eq(u, "KIB") || str_eq(u, "KI") {
        Some(KIB)
    } else if str_eq(u, "MIB") || str_eq(u, "MI") {
        Some(MIB)
    } else if str_eq(u, "GIB") || str_eq(u, "GI") {
        Some(GIB)
    } else if str_eq(u, "TIB") || str_eq(u, "TI") {
        Some(TIB)
    } else {
        None
    };
    assert(r == unit_value(t@));
    r
}

/// What each capacity unit stands for: bytes for `B` or no unit; a letter
/// and the same letter followed by `B` name the same multiplier, the
/// decimal ones stepping by a thousand (`K` 10^3 up to `P` 10^15); the
/// binary ones (`KI`/`KIB` up to `TI`/`TIB`) stepping by 1024.
pub proof fn lemma_unit_values()
    ensures
        unit_value(seq!['B']) == Some(1u64) && unit_value(Seq::<char>::empty()) == Some(1u64),
        unit_value(seq!['K']) == unit_value(seq!['K', 'B']) && unit_value(seq!['K', 'B']) == Some(1_000u64),
        unit_value(seq!['M']) == unit_value(seq!['M', 'B']) && unit_value(seq!['M', 'B']) == Some(1_000_000u64),
        unit_value(seq!['G']) == unit_value(seq!['G', 'B']) && unit_value(seq!['G', 'B']) == Some(1_000_000_000u64),
        unit_value(seq!['T']) == unit_value(seq!['T', 'B']) && unit_value(seq!['T', 'B']) == Some(1_000_000_000_000u64),
        unit_value(seq!['P']) == unit_value(seq!['P', 'B']) && unit_value(seq!['P', 'B']) == Some(1_000_000_000_000_000u64),
        unit_value(seq!['K', 'I']) == unit_value(seq!['K', 'I', 'B']) && unit_value(seq!['K', 'I', 'B']) == Some(1_024u64),
        unit_value(seq!['M', 'I']) == unit_value(seq!['M', 'I', 'B']) && unit_value(seq!['M', 'I', 'B']) == Some(1_048_576u64),
        unit_value(seq!['G', 'I']) == unit_value(seq!['G', 'I', 'B']) && unit_value(seq!['G', 'I', 'B']) == Some(1_073_741_824u64),
        unit_value(seq!['T', 'I']) == unit_value(seq!['T', 'I', 'B']) && unit_value(seq!['T', 'I', 'B']) == Some(1_099_511_627_776u64),
{
    reveal_strlit("B");
    reveal_strlit("");
    reveal_strlit("KB");
    reveal_strlit("K");
    reveal_strlit("MB");
    reveal_strlit("M");
    reveal_strlit("GB");
    reveal_strlit("G");
    reveal_strlit("TB");
    reveal_strlit("T");
    reveal_strlit("PB");
    reveal_strlit("P");
    reveal_strlit("KIB");
    reveal_strlit("KI");
    reveal_strlit("MIB");
    reveal_strlit("MI");
    reveal_strlit("GIB");
    reveal_strlit("GI");
    reveal_strlit("TIB");
    reveal_strlit("TI");
    assert("B"@ =~= seq!['B']);
    assert(""@ =~= Seq::<char>::empty());
    assert("KB"@ =~= seq!['K', 'B']);
    assert("K"@ =~= seq!['K']);
    assert("MB"@ =~= seq!['M', 'B']);
    assert("M"@ =~= seq!['M']);
    assert("GB"@ =~= seq!['G', 'B']);
    assert("G"@ =~= seq!['G']);
    assert("TB"@ =~= seq!['T', 'B']);
    assert("T"@ =~= seq!['T']);
    assert("PB"@ =~= seq!['P', 'B']);
    assert("P"@ =~= seq!['P']);
    assert("KIB"@ =~= seq!['K', 'I', 'B']);
    assert("KI"@ =~= seq!['K', 'I']);
    assert("MIB"@ =~= seq!['M', 'I', 'B']);
    assert("MI"@ =~= seq!['M', 'I']);
    assert("GIB"@ =~= seq!['G', 'I', 'B']);
    assert("GI"@ =~= seq!['G', 'I']);
    assert("TIB"@ =~= seq!['T', 'I', 'B']);
    assert("TI"@ =~= seq!['T', 'I']);
    assert(seq!['K'][0] != seq!['B'][0]);
    assert(seq!['M', 'B'][0] != seq!['K', 'B'][0]);
    assert(seq!['M'][0] != seq!['B'][0]);
    assert(seq!['M'][0] != seq!['K'][0]);
    assert(seq!['G', 'B'][0] != seq!['K', 'B'][0]);
    assert(seq!['G', 'B'][0] != seq!['M', 'B'][0]);
    assert(seq!['G'][0] != seq!['B'][0]);
    assert(seq!['G'][0] != seq!['K'][0]);
    assert(seq!['G'][0] != seq!['M'][0]);
    assert(seq!['T', 'B'][0] != seq!['K', 'B'][0]);
    assert(seq!['T', 'B'][0] != seq!['M', 'B'][0]);
    assert(seq!['T', 'B'][0] != seq!['G', 'B'][0]);
    assert(seq!['T'][0] != seq!['B'][0]);
    assert(seq!['T'][0] != seq!['K'][0]);
    assert(seq!['T'][0] != seq!['M'][0]);
    assert(seq!['T'][0] != seq!['G'][0]);
    assert(seq!['P', 'B'][0] != seq!['K', 'B'][0]);
    assert(seq!['P', 'B'][0] != seq!['M', 'B'][0]);
    assert(seq!['P', 'B'][0] != seq!['G', 'B'][0]);
    assert(seq!['P', 'B'][0] != seq!['T', 'B'][0]);
    assert(seq!['P'][0] != seq!['B'][0]);
    assert(seq!['P'][0] != seq!['K'][0]);
    assert(seq!['P'][0] != seq!['M'][0]);
    assert(seq!['P'][0] != seq!['G'][0]);
    assert(seq!['P'][0] != seq!['T'][0]);
    assert(seq!['K', 'I'][1] != seq!['K', 'B'][1]);
    assert(seq!['K', 'I'][0] != seq!['M', 'B'][0]);
    assert(seq!['K', 'I'][0] != seq!['G', 'B'][0]);
    assert(seq!['K', 'I'][0] != seq!['T', 'B'][0]);
    assert(seq!['K', 'I'][0] != seq!['P', 'B'][0]);
    assert(seq!['M', 'I', 'B'][0] != seq!['K', 'I', 'B'][0]);
    assert(seq!['M', 'I'][0] != seq!['K', 'B'][0]);
    assert(seq!['M', 'I'][1] != seq!['M', 'B'][1]);
    assert(seq!['M', 'I'][0] != seq!['G', 'B'][0]);
    assert(seq!['M', 'I'][0] != seq!['T', 'B'][0]);
    assert(seq!['M', 'I'][0] != seq!['P', 'B'][0]);
    assert(seq!['M', 'I'][0] != seq!['K', 'I'][0]);
    assert(seq!['G', 'I', 'B'][0] != seq!['K', 'I', 'B'][0]);
    assert(seq!['G', 'I', 'B'][0] != seq!['M', 'I', 'B'][0]);
    assert(seq!['G', 'I'][0] != seq!['K', 'B'][0]);
    assert(seq!['G', 'I'][0] != seq!['M', 'B'][0]);
    assert(seq!['G', 'I'][1] != seq!['G', 'B'][1]);
    assert(seq!['G', 'I'][0] != seq!['T', 'B'][0]);
    assert(seq!['G', 'I'][0] != seq!['P', 'B'][0]);
    assert(seq!['G', 'I'][0] != seq!['K', 'I'][0]);
    assert(seq!['G', 'I'][0] != seq!['M', 'I'][0]);
    assert(seq!['T', 'I', 'B'][0] != seq!['K', 'I', 'B'][0]);
    assert(seq!['T', 'I', 'B'][0] != seq!['M', 'I', 'B'][0]);
    assert(seq!['T', 'I', 'B'][0] != seq!['G', 'I', 'B'][0]);
    assert(seq!['T', 'I'][0] != seq!['K', 'B'][0]);
    assert(seq!['T', 'I'][0] != seq!['M', 'B'][0]);
    assert(seq!['T', 'I'][0] != seq!['G', 'B'][0]);
    assert(seq!['T', 'I'][1] != seq!['T', 'B'][1]);
    assert(seq!['T', 'I'][0] != seq!['P', 'B'][0]);
    assert(seq!['T', 'I'][0] != seq!['K', 'I'][0]);
    assert(seq!['T', 'I'][0] != seq!['M', 'I'][0]);
    assert(seq!['T', 'I'][0] != seq!['G', 'I'][0]);
}

/// `s` with every trailing repetition of `suffix` removed.
pub open spec fn strip_trailing(s: Seq<char>, suffix: Seq<char>) -> Seq<char>
    decreases s.len(),
{
    if suffix.len() > 0 && spec_ends_with(s, suffix) {
        strip_trailing(s.subrange(0, s.len() - suffix.len()), suffix)
    } else {
        s
    }
}

/// Remove every trailing repetition of a non-empty `suffix`.
fn trim_end_matches(s: &str, suffix: &str) -> (r: String)
    requires
        suffix@.len() > 0,
    ensures
        r@ == strip_trailing(s@, suffix@),
{
    let mut cur = s.to_string();
    while ends_with_str(cur.as_str(), suffix)
        invariant
            suffix@.len() > 0,
            strip_trailing(cur@, suffix@) == strip_trailing(s@, suffix@),
        decreases cur@.len(),
    {
        let n = cur.as_str().unicode_len();
        let k = suffix.unicode_len();
        let next = cur.as_str().substring_char(0, n - k).to_string();
        cur = next;
    }
    cur
}

/// The capacity text of a speed: trimmed and upper-cased, with trailing
/// "/S" and then "/SEC" removed.
pub open spec fn speed_capacity_text(s: Seq<char>, r: Seq<char>) -> bool {
    exists|n: Seq<char>| normalized(s, n) && r == strip_trailing(strip_trailing(n, "/S"@), "/SEC"@)
}

/// The capacity part of a speed text ("560MB/s" gives "560MB").
pub fn speed_text(s: &str) -> (r: String)
    ensures
        speed_capacity_text(s@, r@),
{
    proof {
        reveal_strlit("/S");
        reveal_strlit("/SEC");
    }
    let t = trim_str(s);
    let u = str_to_uppercase(t.as_str());
    assert(is_trim_of(s@, t@) && u@ == spec_to_uppercase(t@));
    assert(normalized(s@, u@));
    let a = trim_end_matches(u.as_str(), "/S");
    trim_end_matches(a.as_str(), "/SEC")
}

impl Speed {
    /// A speed of `bytes_per_sec` bytes per second.
    pub fn from_bytes_per_sec(bytes_per_sec: u64) -> (r: Speed)
        ensures
            r.bytes_per_sec == bytes_per_sec,
    {
        Speed { bytes_per_sec }
    }
}

} // verus!
