//! Character and string helpers shared by the rest of the library.

use vstd::prelude::*;
use vstd::utf8::{encode_utf8, decode_utf8, is_char_boundary};
use vstd::string::*;

verus! {

/// True for the ASCII letters and digits.
pub open spec fn is_ascii_alnum(c: char) -> bool {
    ('a' <= c && c <= 'z') || ('A' <= c && c <= 'Z') || ('0' <= c && c <= '9')
}

/// True for characters in the ASCII range.
pub open spec fn is_ascii_char(c: char) -> bool {
    (c as u32) < 128
}

/// Whether `char::is_alphanumeric` holds of a character (Unicode
/// `Alphabetic` or `Numeric`).
pub uninterp spec fn spec_is_alphanumeric(c: char) -> bool;

/// Calls `char::is_alphanumeric`. The contract names the result and states
/// only what the documentation fixes for ASCII: there the alphanumeric
/// characters are exactly the letters and digits. For other characters the
/// Unicode tables decide, which is left to the name.
#[verifier::external_body]
pub(crate) fn char_is_alphanumeric(c: char) -> (r: bool)
    ensures
        r == spec_is_alphanumeric(c),
        is_ascii_char(c) ==> (r == is_ascii_alnum(c)),
{
    c.is_alphanumeric()
}

/// The characters of a string slice, in order.
pub fn chars_of(s: &str) -> (v: Vec<char>)
    ensures
        v@ == s@,
{
    let n = s.unicode_len();
    let mut v: Vec<char> = Vec::new();
    let mut i: usize = 0;
    while i < n
        invariant
            n == s@.len(),
            i <= n,
            v@ == s@.subrange(0, i as int),
        decreases n - i,
    {
        let c = s.get_char(i);
        v.push(c);
        i = i + 1;
    }
    v
}

} // verus!

verus! {

/// `suffix` is a suffix of `s`.
pub open spec fn spec_ends_with(s: Seq<char>, suffix: Seq<char>) -> bool {
    suffix.len() <= s.len() && s.subrange(s.len() - suffix.len(), s.len() as int) == suffix
}

/// Character-wise equality of two sequences held in vectors.
pub fn chars_eq(a: &Vec<char>, b: &Vec<char>) -> (r: bool)
    ensures
        r == (a@ == b@),
{
    if a.len() != b.len() {
        return false;
    }
    let mut i: usize = 0;
    while i < a.len()
        invariant
            a.len() == b.len(),
            i <= a.len(),
            forall|j: int| 0 <= j < i ==> a@[j] == b@[j],
        decreases a.len() - i,
    {
        if a[i] != b[i] {
            return false;
        }
        i = i + 1;
    }
    assert(a@ =~= b@);
    true
}

/// Equality of two string slices, character by character.
pub fn str_eq(a: &str, b: &str) -> (r: bool)
    ensures
        r == (a@ == b@),
{
    let va = chars_of(a);
    let vb = chars_of(b);
    chars_eq(&va, &vb)
}

/// Whether `suffix` ends `s`.
pub fn ends_with_str(s: &str, suffix: &str) -> (r: bool)
    ensures
        r == spec_ends_with(s@, suffix@),
{
    let vs = chars_of(s);
    let vf = chars_of(suffix);
    if vf.len() > vs.len() {
        return false;
    }
    let off = vs.len() - vf.len();
    let mut i: usize = 0;
    while i < vf.len()
        invariant
            vs@ == s@,
            vf@ == suffix@,
            off == vs.len() - vf.len(),
            i <= vf.len(),
            forall|j: int| 0 <= j < i ==> vs@[off + j] == vf@[j],
        decreases vf.len() - i,
    {
        if vs[off + i] != vf[i] {
            assert(s@.subrange(s@.len() - suffix@.len(), s@.len() as int)[i as int] != suffix@[i as int]);
            return false;
        }
        i = i + 1;
    }
    assert(s@.subrange(s@.len() - suffix@.len(), s@.len() as int) =~= suffix@);
    true
}

} // verus!

verus! {

/// ASCII lower-casing of one character; other characters are unchanged.
pub open spec fn ascii_lower(c: char) -> char {
    if 'A' <= c && c <= 'Z' {
        ((c as u32) + 32) as char
    } else {
        c
    }
}

/// ASCII upper-casing of one character; other characters are unchanged.
pub open spec fn ascii_upper(c: char) -> char {
    if 'a' <= c && c <= 'z' {
        ((c as u32) - 32) as char
    } else {
        c
    }
}

/// Every character of `s` is ASCII.
pub open spec fn all_ascii(s: Seq<char>) -> bool {
    forall|i: int| 0 <= i < s.len() ==> #[trigger] is_ascii_char(s[i])
}

/// What `str::to_lowercase` returns for a string.
pub uninterp spec fn spec_to_lowercase(s: Seq<char>) -> Seq<char>;

/// What `str::to_uppercase` returns for a string.
pub uninterp spec fn spec_to_uppercase(s: Seq<char>) -> Seq<char>;

/// Calls `str::to_lowercase`. The result is named; the contract adds
/// what the documentation fixes: for an all-ASCII string each character is
/// lower-cased on its own, and, the result being the lowercase equivalent
/// of the text, no ASCII capital letter is left in it. Non-ASCII case
/// mapping (which may change the length) is left to the name.
#[verifier::external_body]
pub(crate) fn str_to_lowercase(s: &str) -> (r: String)
    ensures
        r@ == spec_to_lowercase(s@),
        all_ascii(s@) ==> r@ == s@.map_values(|c: char| ascii_lower(c)),
        no_upper(r@),
{
    s.to_lowercase()
}

/// Calls `str::to_uppercase`. The result is named; for an all-ASCII string
/// the contract states the per-character ASCII upper-casing that the
/// documentation fixes. Non-ASCII case mapping is left to the name.
#[verifier::external_body]
pub(crate) fn str_to_uppercase(s: &str) -> (r: String)
    ensures
        r@ == spec_to_uppercase(s@),
        all_ascii(s@) ==> r@ == s@.map_values(|c: char| ascii_upper(c)),
{
    s.to_uppercase()
}

} // verus!

verus! {

// ---------------------------------------------------------------------------
// Lexicographic order
// ---------------------------------------------------------------------------

/// `a` sorts strictly before `b`, character by character (the order of
/// `String` in std: UTF-8 preserves the order of code points).
pub open spec fn lex_lt(a: Seq<char>, b: Seq<char>) -> bool
    decreases a.len(),
{
    if a.len() == 0 {
        b.len() > 0
    } else if b.len() == 0 {
        false
    } else if a[0] != b[0] {
        a[0] < b[0]
    } else {
        lex_lt(a.drop_first(), b.drop_first())
    }
}

/// No text sorts before itself.
pub proof fn lemma_lex_lt_irreflexive(a: Seq<char>)
    ensures
        !lex_lt(a, a),
    decreases a.len(),
{
    if a.len() > 0 {
        lemma_lex_lt_irreflexive(a.drop_first());
    }
}

/// The order is transitive.
pub proof fn lemma_lex_lt_transitive(a: Seq<char>, b: Seq<char>, c: Seq<char>)
    requires
        lex_lt(a, b),
        lex_lt(b, c),
    ensures
        lex_lt(a, c),
    decreases a.len(),
{
    if a.len() > 0 && b.len() > 0 && c.len() > 0 && a[0] == b[0] && b[0] == c[0] {
        lemma_lex_lt_transitive(a.drop_first(), b.drop_first(), c.drop_first());
    }
}

/// Two different texts are ordered one way or the other, and never both.
pub proof fn lemma_lex_lt_total(a: Seq<char>, b: Seq<char>)
    ensures
        a != b ==> (lex_lt(a, b) || lex_lt(b, a)),
        !(lex_lt(a, b) && lex_lt(b, a)),
    decreases a.len(),
{
    if a.len() > 0 && b.len() > 0 && a[0] == b[0] {
        lemma_lex_lt_total(a.drop_first(), b.drop_first());
        if a.drop_first() == b.drop_first() {
            assert(a =~= seq![a[0]] + a.drop_first());
            assert(b =~= seq![b[0]] + b.drop_first());
        }
    } else if a.len() == 0 && b.len() == 0 {
        assert(a =~= b);
    }
}

/// Whether `a` sorts strictly before `b`.
pub fn str_lt(a: &str, b: &str) -> (r: bool)
    ensures
        r == lex_lt(a@, b@),
{
    let va = chars_of(a);
    let vb = chars_of(b);
    assert(a@.skip(0) =~= a@);
    assert(b@.skip(0) =~= b@);
    let mut i: usize = 0;
    while i < va.len() && i < vb.len()
        invariant
            va@ == a@,
            vb@ == b@,
            i <= va@.len(),
            i <= vb@.len(),
            lex_lt(a@, b@) == lex_lt(a@.skip(i as int), b@.skip(i as int)),
        decreases va.len() - i,
    {
        let x = va[i];
        let y = vb[i];
        if x != y {
            return x < y;
        }
        proof {
            let sa = a@.skip(i as int);
            let sb = b@.skip(i as int);
            assert(sa.drop_first() =~= a@.skip(i + 1));
            assert(sb.drop_first() =~= b@.skip(i + 1));
        }
        i = i + 1;
    }
    i == va.len() && i < vb.len()
}

} // verus!

verus! {

// ---------------------------------------------------------------------------
// Decimal numbers
// ---------------------------------------------------------------------------

/// Calls `String::push`, which appends one character to the string.
#[verifier::external_body]
pub(crate) fn push_char(s: &mut String, c: char)
    ensures
        final(s)@ == old(s)@.push(c),
{
    s.push(c)
}

/// The decimal digit for `d` (0 to 9).
pub open spec fn digit_char(d: nat) -> char {
    if d == 0 { '0' }
    else if d == 1 { '1' }
    else if d == 2 { '2' }
    else if d == 3 { '3' }
    else if d == 4 { '4' }
    else if d == 5 { '5' }
    else if d == 6 { '6' }
    else if d == 7 { '7' }
    else if d == 8 { '8' }
    else { '9' }
}

/// The decimal text of `n`, without sign or leading zeros.
pub open spec fn decimal_text(n: nat) -> Seq<char>
    decreases n,
{
    if n < 10 {
        seq![digit_char(n)]
    } else {
        decimal_text(n / 10).push(digit_char(n % 10))
    }
}

fn digit(d: u64) -> (c: char)
    requires
        d < 10,
    ensures
        c == digit_char(d as nat),
{
    if d == 0 { '0' }
    else if d == 1 { '1' }
    else if d == 2 { '2' }
    else if d == 3 { '3' }
    else if d == 4 { '4' }
    else if d == 5 { '5' }
    else if d == 6 { '6' }
    else if d == 7 { '7' }
    else if d == 8 { '8' }
    else { '9' }
}

/// The decimal digits of `n`, most significant first.
fn decimal_chars(n: u64) -> (v: Vec<char>)
    ensures
        v@ == decimal_text(n as nat),
    decreases n,
{
    if n < 10 {
        let mut v = Vec::new();
        v.push(digit(n));
        v
    } else {
        let mut v = decimal_chars(n / 10);
        v.push(digit(n % 10));
        v
    }
}

/// The decimal text of `n`.
pub fn decimal(n: u64) -> (r: String)
    ensures
        r@ == decimal_text(n as nat),
{
    let v = decimal_chars(n);
    let mut s = String::new();
    let mut i: usize = 0;
    while i < v.len()
        invariant
            i <= v@.len(),
            s@ == v@.subrange(0, i as int),
        decreases v.len() - i,
    {
        push_char(&mut s, v[i]);
        proof {
            assert(s@ =~= v@.subrange(0, i + 1));
        }
        i = i + 1;
    }
    proof {
        assert(v@.subrange(0, v@.len() as int) =~= v@);
    }
    s
}

} // verus!

verus! {

// ---------------------------------------------------------------------------
// Whitespace and trimming
// ---------------------------------------------------------------------------

/// The Unicode `White_Space` characters, which `char::is_whitespace`
/// accepts.
pub open spec fn is_unicode_whitespace(c: char) -> bool {
    ||| ('\u{9}' <= c && c <= '\u{d}')
    ||| c == ' '
    ||| c == '\u{85}'
    ||| c == '\u{a0}'
    ||| c == '\u{1680}'
    ||| ('\u{2000}' <= c && c <= '\u{200a}')
    ||| c == '\u{2028}'
    ||| c == '\u{2029}'
    ||| c == '\u{202f}'
    ||| c == '\u{205f}'
    ||| c == '\u{3000}'
}

/// `t` is `s` with its leading and trailing whitespace removed.
pub open spec fn is_trim_of(s: Seq<char>, t: Seq<char>) -> bool {
    exists|i: int, j: int|
        0 <= i <= j <= s.len() && t == s.subrange(i, j) && (forall|k: int|
            0 <= k < i ==> is_unicode_whitespace(#[trigger] s[k])) && (forall|k: int|
            j <= k < s.len() ==> is_unicode_whitespace(#[trigger] s[k])) && (t.len() > 0 ==> !is_unicode_whitespace(
            t[0],
        ) && !is_unicode_whitespace(t.last()))
}

/// Whether `c` is Unicode `White_Space`.
fn is_whitespace_char(c: char) -> (r: bool)
    ensures
        r == is_unicode_whitespace(c),
{
    ('\u{9}' <= c && c <= '\u{d}') || c == ' ' || c == '\u{85}' || c == '\u{a0}' || c == '\u{1680}' || ('\u{2000}'
        <= c && c <= '\u{200a}') || c == '\u{2028}' || c == '\u{2029}' || c == '\u{202f}' || c == '\u{205f}' || c
        == '\u{3000}'
}

/// `s` with its leading and trailing whitespace (Unicode `White_Space`, as
/// `str::trim` removes it) removed.
pub fn trim_str(s: &str) -> (r: String)
    ensures
        is_trim_of(s@, r@),
{
    let cs = chars_of(s);
    let n = cs.len();
    let mut i: usize = 0;
    while i < n && is_whitespace_char(cs[i])
        invariant
            cs@ == s@,
            n == cs@.len(),
            i <= n,
            forall|k: int| 0 <= k < i ==> is_unicode_whitespace(#[trigger] cs@[k]),
        decreases n - i,
    {
        i = i + 1;
    }
    let mut j: usize = n;
    while j > i && is_whitespace_char(cs[j - 1])
        invariant
            cs@ == s@,
            n == cs@.len(),
            i <= j <= n,
            i < n ==> !is_unicode_whitespace(cs@[i as int]),
            forall|k: int| j <= k < n ==> is_unicode_whitespace(#[trigger] cs@[k]),
        decreases j - i,
    {
        j = j - 1;
    }
    let r = s.substring_char(i, j).to_string();
    proof {
        let t = s@.subrange(i as int, j as int);
        assert(r@ == t);
        if t.len() > 0 {
            assert(t[0] == s@[i as int]);
            assert(t.last() == s@[j - 1]);
        }
        assert(is_trim_of(s@, r@));
    }
    r
}

/// The trimmed text of a string is unique.
pub proof fn lemma_trim_unique(s: Seq<char>, t1: Seq<char>, t2: Seq<char>)
    requires
        is_trim_of(s, t1),
        is_trim_of(s, t2),
    ensures
        t1 == t2,
{
    let (i1, j1) = choose|i: int, j: int|
        0 <= i <= j <= s.len() && t1 == s.subrange(i, j) && (forall|k: int|
            0 <= k < i ==> is_unicode_whitespace(#[trigger] s[k])) && (forall|k: int|
            j <= k < s.len() ==> is_unicode_whitespace(#[trigger] s[k])) && (t1.len() > 0 ==> !is_unicode_whitespace(
            t1[0],
        ) && !is_unicode_whitespace(t1.last()));
    let (i2, j2) = choose|i: int, j: int|
        0 <= i <= j <= s.len() && t2 == s.subrange(i, j) && (forall|k: int|
            0 <= k < i ==> is_unicode_whitespace(#[trigger] s[k])) && (forall|k: int|
            j <= k < s.len() ==> is_unicode_whitespace(#[trigger] s[k])) && (t2.len() > 0 ==> !is_unicode_whitespace(
            t2[0],
        ) && !is_unicode_whitespace(t2.last()));
    if t1.len() > 0 && t2.len() > 0 {
        if i1 < i2 {
            assert(is_unicode_whitespace(s[i1]));
            assert(t1[0] == s[i1]);
        }
        if i2 < i1 {
            assert(is_unicode_whitespace(s[i2]));
            assert(t2[0] == s[i2]);
        }
        if j1 < j2 {
            assert(is_unicode_whitespace(s[j2 - 1]));
            assert(t2.last() == s[j2 - 1]);
        }
        if j2 < j1 {
            assert(is_unicode_whitespace(s[j1 - 1]));
            assert(t1.last() == s[j1 - 1]);
        }
        assert(t1 =~= t2);
    } else if t1.len() > 0 {
        // t2 is empty: every character is whitespace
        if i2 <= i1 {
            assert(is_unicode_whitespace(s[i1]) || i1 >= j2);
            assert(t1[0] == s[i1]);
        } else {
            assert(t1[0] == s[i1]);
        }
    } else if t2.len() > 0 {
        assert(t2[0] == s[i2]);
    }
}

// ---------------------------------------------------------------------------
// Display helpers
// ---------------------------------------------------------------------------

/// The text of a string cut to at most `max_len` bytes: unchanged when it
/// fits, else its first `max_len - 3` bytes (none when `max_len` < 3)
/// followed by "...".
pub open spec fn truncated(s: Seq<char>, max_len: nat) -> Seq<char> {
    let bytes = encode_utf8(s);
    if bytes.len() <= max_len {
        s
    } else {
        let keep = if max_len >= 3 { max_len - 3 } else { 0 };
        decode_utf8(bytes.subrange(0, keep)) + "..."@
    }
}

/// Cut a string for a table column of `max_len` bytes, marking the cut
/// with "...". The cut must fall between two characters.
pub fn truncate(s: &str, max_len: usize) -> (r: String)
    requires
        s.spec_bytes().len() <= usize::MAX,
        s.spec_bytes().len() > max_len ==> is_char_boundary(
            s.spec_bytes(),
            if max_len >= 3 { max_len - 3 } else { 0 },
        ),
    ensures
        r@ == truncated(s@, max_len as nat),
{
    if s.len() <= max_len {
        proof {
            assert(s.spec_bytes() == encode_utf8(s@));
        }
        return String::from_str(s);
    }
    let keep: usize = if max_len >= 3 { max_len - 3 } else { 0 };
    let (head, _) = s.split_at(keep);
    proof {
        broadcast use vstd::utf8::group_utf8_lib;
        assert(head.spec_bytes() == encode_utf8(head@));
        assert(decode_utf8(encode_utf8(head@)) == head@);
    }
    let mut r = head.to_string();
    r.append("...");
    r
}

/// A character of a slug: an ASCII letter or digit stays, anything else
/// becomes '-'.
pub open spec fn slug_char(c: char) -> char {
    if is_ascii_alnum(c) {
        c
    } else {
        '-'
    }
}

/// The words of `s`: its maximal runs of characters other than '-', in
/// order (splitting at each '-' and dropping the empty pieces).
pub open spec fn dash_words(s: Seq<char>) -> Seq<Seq<char>>
    decreases s.len(),
{
    if s.len() == 0 {
        Seq::empty()
    } else if s.last() == '-' {
        dash_words(s.drop_last())
    } else if s.len() > 1 && s[s.len() - 2] != '-' {
        let w = dash_words(s.drop_last());
        w.update(w.len() - 1, w.last().push(s.last()))
    } else {
        dash_words(s.drop_last()).push(seq![s.last()])
    }
}

/// `words` joined with '-'.
pub open spec fn join_dash(words: Seq<Seq<char>>) -> Seq<char>
    decreases words.len(),
{
    if words.len() == 0 {
        Seq::empty()
    } else if words.len() == 1 {
        words[0]
    } else {
        join_dash(words.drop_last()) + seq!['-'] + words.last()
    }
}

/// The slug of `s`: lower-cased (by `str::to_lowercase`), every character
/// that is not an ASCII letter or digit made a '-', then split at the '-'
/// and the non-empty pieces joined with single '-'.
pub open spec fn slug_of(s: Seq<char>) -> Seq<char> {
    join_dash(dash_words(spec_to_lowercase(s).map_values(|c: char| slug_char(c))))
}

/// The slug of an all-ASCII text, whose lower-casing the documentation of
/// `str::to_lowercase` fixes character by character.
pub open spec fn slug_ascii(s: Seq<char>) -> Seq<char> {
    join_dash(dash_words(s.map_values(|c: char| ascii_lower(c)).map_values(|c: char| slug_char(c))))
}

/// A text ending in something other than '-' has a word.
proof fn lemma_dash_words_nonempty(s: Seq<char>)
    requires
        s.len() > 0,
        s.last() != '-',
    ensures
        dash_words(s).len() > 0,
    decreases s.len(),
{
    if s.len() > 1 && s[s.len() - 2] != '-' {
        assert(s.drop_last().last() == s[s.len() - 2]);
        lemma_dash_words_nonempty(s.drop_last());
    }
}

/// The words have a join that is empty exactly when there are none.
proof fn lemma_join_dash_empty(words: Seq<Seq<char>>)
    requires
        forall|i: int| 0 <= i < words.len() ==> (#[trigger] words[i]).len() > 0,
    ensures
        (join_dash(words).len() == 0) == (words.len() == 0),
{
    if words.len() > 1 {
        assert(words.last() == words[words.len() - 1]);
    } else if words.len() == 1 {
        assert(words[0].len() > 0);
    }
}

/// Every word is non-empty.
proof fn lemma_dash_words_nonempty_words(s: Seq<char>)
    ensures
        forall|i: int| 0 <= i < dash_words(s).len() ==> (#[trigger] dash_words(s)[i]).len() > 0,
    decreases s.len(),
{
    if s.len() > 0 {
        lemma_dash_words_nonempty_words(s.drop_last());
        if s.last() != '-' && s.len() > 1 && s[s.len() - 2] != '-' {
            assert(s.drop_last().last() == s[s.len() - 2]);
            lemma_dash_words_nonempty(s.drop_last());
        }
    }
}

/// A slug from free text: lower-cased, every character that is not an
/// ASCII letter or digit made a '-', runs of '-' squeezed to one and
/// leading and trailing '-' dropped.
///
/// The slug is well shaped and lower-case for every input, and a slug
/// slugified again is itself (`slug_ascii` is what `slugify` returns on
/// ASCII text).
pub fn slugify(s: &str) -> (r: String)
    ensures
        r@ == slug_of(s@),
        all_ascii(s@) ==> r@ == slug_ascii(s@),
        is_slug_shape(r@),
        no_upper(r@),
        all_ascii(r@),
        slug_ascii(r@) == r@,
{
    let lower = str_to_lowercase(s);
    let cs = chars_of(lower.as_str());
    let ghost m = spec_to_lowercase(s@).map_values(|c: char| slug_char(c));
    let mut r = String::new();
    let mut after_dash = false;
    let mut i: usize = 0;
    while i < cs.len()
        invariant
            i <= cs@.len(),
            cs@ == spec_to_lowercase(s@),
            m == cs@.map_values(|c: char| slug_char(c)),
            r@ == join_dash(dash_words(m.subrange(0, i as int))),
            (r@.len() == 0) == (dash_words(m.subrange(0, i as int)).len() == 0),
            after_dash == (i > 0 && m[i - 1] == '-'),
        decreases cs.len() - i,
    {
        let c = cs[i];
        let alnum = ('a' <= c && c <= 'z') || ('A' <= c && c <= 'Z') || ('0' <= c && c <= '9');
        let ghost p = m.subrange(0, i as int);
        let ghost q = m.subrange(0, i + 1);
        proof {
            assert(q.drop_last() =~= p);
            assert(q.last() == m[i as int]);
            lemma_dash_words_nonempty_words(p);
        }
        if !alnum {
            after_dash = true;
        } else {
            let ghost w = dash_words(p);
            if i > 0 && !after_dash {
                proof {
                    assert(q[q.len() - 2] == m[i - 1]);
                    lemma_dash_words_nonempty(p);
                    let w2 = w.update(w.len() - 1, w.last().push(c));
                    assert(dash_words(q) == w2);
                    if w.len() > 1 {
                        assert(w2.drop_last() =~= w.drop_last());
                        assert(join_dash(w2) =~= join_dash(w).push(c));
                    } else {
                        assert(join_dash(w2) =~= join_dash(w).push(c));
                    }
                }
                push_char(&mut r, c);
            } else {
                proof {
                    if i > 0 {
                        assert(q[q.len() - 2] == m[i - 1]);
                    }
                    assert(dash_words(q) == w.push(seq![c]));
                    lemma_join_dash_empty(w);
                    assert(w.push(seq![c]).drop_last() =~= w);
                }
                if r.as_str().unicode_len() > 0 {
                    push_char(&mut r, '-');
                }
                push_char(&mut r, c);
                proof {
                    if w.len() > 0 {
                        assert(r@ =~= join_dash(w) + seq!['-'] + seq![c]);
                    } else {
                        assert(r@ =~= seq![c]);
                    }
                }
            }
            after_dash = false;
        }
        i = i + 1;
    }
    proof {
        assert(m.subrange(0, cs@.len() as int) =~= m);
        if all_ascii(s@) {
            assert(m =~= s@.map_values(|c: char| ascii_lower(c)).map_values(|c: char| slug_char(c)));
        }
        lemma_slug_shape(s@);
        assert forall|i: int| 0 <= i < m.len() implies !('A' <= #[trigger] m[i] && m[i] <= 'Z') by {
            assert(m[i] == slug_char(cs@[i]));
        }
        lemma_dash_words_no_upper(m);
        lemma_join_dash_no_upper(dash_words(m));
        lemma_slug_of_slug(r@);
    }
    r
}

/// A text made of ASCII letters and digits only.
pub open spec fn all_ascii_alnum(w: Seq<char>) -> bool {
    forall|i: int| 0 <= i < w.len() ==> is_ascii_alnum(#[trigger] w[i])
}

/// A well-shaped slug: ASCII letters, digits and '-', with no '-' at
/// either end and never two in a row.
pub open spec fn is_slug_shape(t: Seq<char>) -> bool {
    &&& forall|i: int| 0 <= i < t.len() ==> is_ascii_alnum(#[trigger] t[i]) || t[i] == '-'
    &&& t.len() > 0 ==> is_ascii_alnum(t[0]) && is_ascii_alnum(t.last())
    &&& forall|i: int| 0 <= i < t.len() - 1 && #[trigger] t[i] == '-' ==> t[i + 1] != '-'
}

/// The words of a text of letters, digits and '-' are non-empty runs of
/// letters and digits.
proof fn lemma_dash_words_alnum(s: Seq<char>)
    requires
        forall|i: int| 0 <= i < s.len() ==> is_ascii_alnum(#[trigger] s[i]) || s[i] == '-',
    ensures
        forall|i: int| 0 <= i < dash_words(s).len() ==> all_ascii_alnum(#[trigger] dash_words(s)[i])
            && dash_words(s)[i].len() > 0,
    decreases s.len(),
{
    if s.len() > 0 {
        let d = s.drop_last();
        assert forall|i: int| 0 <= i < d.len() implies is_ascii_alnum(#[trigger] d[i]) || d[i] == '-' by {
            assert(d[i] == s[i]);
        }
        lemma_dash_words_alnum(d);
        let w = dash_words(d);
        if s.last() != '-' {
            assert(is_ascii_alnum(s[s.len() - 1]));
            if s.len() > 1 && s[s.len() - 2] != '-' {
                assert(d.last() == s[s.len() - 2]);
                lemma_dash_words_nonempty(d);
                let nw = w.last().push(s.last());
                assert(all_ascii_alnum(w[w.len() - 1]));
                assert forall|j: int| 0 <= j < nw.len() implies is_ascii_alnum(#[trigger] nw[j]) by {
                    if j < nw.len() - 1 {
                        assert(nw[j] == w.last()[j]);
                    }
                }
                assert forall|i: int| 0 <= i < dash_words(s).len() implies all_ascii_alnum(
                    #[trigger] dash_words(s)[i],
                ) && dash_words(s)[i].len() > 0 by {
                    if i < w.len() - 1 {
                        assert(dash_words(s)[i] == w[i]);
                    }
                }
            } else {
                let nw: Seq<char> = seq![s.last()];
                assert(all_ascii_alnum(nw));
                assert forall|i: int| 0 <= i < dash_words(s).len() implies all_ascii_alnum(
                    #[trigger] dash_words(s)[i],
                ) && dash_words(s)[i].len() > 0 by {
                    if i < w.len() {
                        assert(dash_words(s)[i] == w[i]);
                    }
                }
            }
        }
    }
}

/// Non-empty runs of letters and digits joined with '-' form a
/// well-shaped slug.
proof fn lemma_join_dash_shape(words: Seq<Seq<char>>)
    requires
        forall|i: int| 0 <= i < words.len() ==> all_ascii_alnum(#[trigger] words[i]) && words[i].len() > 0,
    ensures
        is_slug_shape(join_dash(words)),
    decreases words.len(),
{
    if words.len() == 1 {
        let w = words[0];
        assert(all_ascii_alnum(w));
        assert(is_ascii_alnum(w[0]) && is_ascii_alnum(w[w.len() - 1]));
    } else if words.len() > 1 {
        let init = words.drop_last();
        assert forall|i: int| 0 <= i < init.len() implies all_ascii_alnum(#[trigger] init[i]) && init[i].len() > 0 by {
            assert(init[i] == words[i]);
        }
        lemma_join_dash_shape(init);
        let a = join_dash(init);
        let w = words.last();
        assert(all_ascii_alnum(words[words.len() - 1]));
        lemma_join_dash_empty(init);
        let t = a + seq!['-'] + w;
        assert(t == join_dash(words));
        assert forall|i: int| 0 <= i < t.len() implies is_ascii_alnum(#[trigger] t[i]) || t[i] == '-' by {
            if i < a.len() {
                assert(t[i] == a[i]);
            } else if i > a.len() {
                assert(t[i] == w[i - a.len() - 1]);
            }
        }
        assert(t[0] == a[0]);
        assert(t.last() == w[w.len() - 1]);
        assert forall|i: int| 0 <= i < t.len() - 1 && #[trigger] t[i] == '-' implies t[i + 1] != '-' by {
            if i < a.len() - 1 {
                assert(t[i] == a[i] && t[i + 1] == a[i + 1]);
            } else if i == a.len() - 1 {
                assert(t[i] == a.last());
            } else if i == a.len() {
                assert(t[i + 1] == w[0]);
            } else {
                assert(t[i] == w[i - a.len() - 1]);
            }
        }
    }
}

/// Every slug is well shaped: only ASCII letters, digits and single '-'
/// between them.
pub proof fn lemma_slug_shape(s: Seq<char>)
    ensures
        is_slug_shape(slug_of(s)),
{
    let m = spec_to_lowercase(s).map_values(|c: char| slug_char(c));
    assert forall|i: int| 0 <= i < m.len() implies is_ascii_alnum(#[trigger] m[i]) || m[i] == '-' by {}
    lemma_dash_words_alnum(m);
    lemma_join_dash_shape(dash_words(m));
}

/// No character of `t` is an upper-case ASCII letter.
pub open spec fn no_upper(t: Seq<char>) -> bool {
    forall|i: int| 0 <= i < t.len() ==> !('A' <= #[trigger] t[i] && t[i] <= 'Z')
}

proof fn lemma_dash_words_no_upper(s: Seq<char>)
    requires
        no_upper(s),
    ensures
        forall|k: int| 0 <= k < dash_words(s).len() ==> no_upper(#[trigger] dash_words(s)[k]),
    decreases s.len(),
{
    if s.len() > 0 {
        let d = s.drop_last();
        assert forall|i: int| 0 <= i < d.len() implies !('A' <= #[trigger] d[i] && d[i] <= 'Z') by {
            assert(d[i] == s[i]);
        }
        lemma_dash_words_no_upper(d);
        let w = dash_words(d);
        let c = s[s.len() - 1];
        if s.last() != '-' {
            if s.len() > 1 && s[s.len() - 2] != '-' {
                assert(d.last() == s[s.len() - 2]);
                lemma_dash_words_nonempty(d);
                let nw = w.last().push(s.last());
                assert(no_upper(w[w.len() - 1]));
                assert forall|j: int| 0 <= j < nw.len() implies !('A' <= #[trigger] nw[j] && nw[j] <= 'Z') by {
                    if j < nw.len() - 1 {
                        assert(nw[j] == w.last()[j]);
                    }
                }
                assert forall|k: int| 0 <= k < dash_words(s).len() implies no_upper(#[trigger] dash_words(s)[k]) by {
                    if k < w.len() - 1 {
                        assert(dash_words(s)[k] == w[k]);
                    }
                }
            } else {
                let nw: Seq<char> = seq![s.last()];
                assert(no_upper(nw));
                assert forall|k: int| 0 <= k < dash_words(s).len() implies no_upper(#[trigger] dash_words(s)[k]) by {
                    if k < w.len() {
                        assert(dash_words(s)[k] == w[k]);
                    }
                }
            }
        }
    }
}

proof fn lemma_join_dash_no_upper(words: Seq<Seq<char>>)
    requires
        forall|k: int| 0 <= k < words.len() ==> no_upper(#[trigger] words[k]),
    ensures
        no_upper(join_dash(words)),
    decreases words.len(),
{
    if words.len() == 1 {
        assert(no_upper(words[0]));
    } else if words.len() > 1 {
        let init = words.drop_last();
        assert forall|k: int| 0 <= k < init.len() implies no_upper(#[trigger] init[k]) by {
            assert(init[k] == words[k]);
        }
        lemma_join_dash_no_upper(init);
        let a = join_dash(init);
        let w = words.last();
        assert(no_upper(words[words.len() - 1]));
        let t = a + seq!['-'] + w;
        assert(t == join_dash(words));
        assert forall|i: int| 0 <= i < t.len() implies !('A' <= #[trigger] t[i] && t[i] <= 'Z') by {
            if i < a.len() {
                assert(t[i] == a[i]);
            } else if i > a.len() {
                assert(t[i] == w[i - a.len() - 1]);
            }
        }
    }
}

/// The slug of an all-ASCII text is well shaped and has no upper-case
/// letter.
pub proof fn lemma_slug_ascii_shape(s: Seq<char>)
    ensures
        is_slug_shape(slug_ascii(s)),
        no_upper(slug_ascii(s)),
{
    let m = s.map_values(|c: char| ascii_lower(c)).map_values(|c: char| slug_char(c));
    assert forall|i: int| 0 <= i < m.len() implies is_ascii_alnum(#[trigger] m[i]) || m[i] == '-' by {}
    assert forall|i: int| 0 <= i < m.len() implies !('A' <= #[trigger] m[i] && m[i] <= 'Z') by {}
    lemma_dash_words_alnum(m);
    lemma_join_dash_shape(dash_words(m));
    lemma_dash_words_no_upper(m);
    lemma_join_dash_no_upper(dash_words(m));
}

/// A well-shaped text's words, joined again with '-', give it back; more
/// generally a text with no "--" and no leading '-' gives itself back
/// without a trailing '-'.
proof fn lemma_join_dash_words(t: Seq<char>)
    requires
        t.len() > 0 ==> t[0] != '-',
        forall|i: int| 0 <= i < t.len() - 1 && #[trigger] t[i] == '-' ==> t[i + 1] != '-',
    ensures
        join_dash(dash_words(t)) == (if t.len() > 0 && t.last() == '-' { t.drop_last() } else { t }),
    decreases t.len(),
{
    if t.len() > 0 {
        let d = t.drop_last();
        assert forall|i: int| 0 <= i < d.len() - 1 && #[trigger] d[i] == '-' implies d[i + 1] != '-' by {
            assert(d[i] == t[i] && d[i + 1] == t[i + 1]);
        }
        if d.len() > 0 {
            assert(d[0] == t[0]);
        }
        lemma_join_dash_words(d);
        let w = dash_words(d);
        let c = t.last();
        if c == '-' {
            if t.len() > 1 {
                assert(t[t.len() - 2] != '-');
                assert(d.last() == t[t.len() - 2]);
            }
        } else if t.len() > 1 && t[t.len() - 2] != '-' {
            assert(d.last() == t[t.len() - 2]);
            lemma_dash_words_nonempty(d);
            let w2 = w.update(w.len() - 1, w.last().push(c));
            assert(dash_words(t) == w2);
            if w.len() > 1 {
                assert(w2.drop_last() =~= w.drop_last());
            }
            assert(join_dash(w2) =~= join_dash(w).push(c));
            assert(t =~= d.push(c));
        } else {
            assert(dash_words(t) == w.push(seq![c]));
            assert(w.push(seq![c]).drop_last() =~= w);
            if t.len() == 1 {
                assert(d.len() == 0);
                assert(t =~= seq![c]);
            } else {
                assert(d.last() == t[t.len() - 2]);
                let dd = d.drop_last();
                assert(d.len() > 1) by {
                    assert(t[0] != '-');
                }
                assert(t[t.len() - 3] != '-');
                assert(dd.last() == t[t.len() - 3]);
                assert(dash_words(d) == dash_words(dd));
                lemma_dash_words_nonempty(dd);
                assert(join_dash(w.push(seq![c])) == join_dash(w) + seq!['-'] + seq![c]);
                assert(t =~= dd + seq!['-'] + seq![c]);
            }
        }
    }
}

/// A slug gives itself back: a well-shaped text with no upper-case letter
/// is all ASCII, and its slug is itself (so `slugify` of a slug, by its
/// contract for ASCII text, returns it).
pub proof fn lemma_slug_of_slug(t: Seq<char>)
    requires
        is_slug_shape(t),
        no_upper(t),
    ensures
        all_ascii(t),
        slug_ascii(t) == t,
{
    assert forall|i: int| 0 <= i < t.len() implies #[trigger] is_ascii_char(t[i]) by {
        assert(is_ascii_alnum(t[i]) || t[i] == '-');
    }
    let m = t.map_values(|c: char| ascii_lower(c)).map_values(|c: char| slug_char(c));
    assert forall|i: int| 0 <= i < t.len() implies #[trigger] m[i] == t[i] by {
        assert(is_ascii_alnum(t[i]) || t[i] == '-');
    }
    assert(m =~= t);
    if t.len() > 0 {
        assert(is_ascii_alnum(t[0]));
        assert(is_ascii_alnum(t.last()));
    }
    lemma_join_dash_words(t);
}

/// Slugs are idempotent on ASCII text: the slug of a slug is itself.
pub proof fn lemma_slug_idempotent(s: Seq<char>)
    ensures
        slug_ascii(slug_ascii(s)) == slug_ascii(s),
{
    lemma_slug_ascii_shape(s);
    lemma_slug_of_slug(slug_ascii(s));
}

/// How long ago something happened, from a number of days.
pub open spec fn age_text(days: int) -> Seq<char> {
    if days == 0 {
        "today"@
    } else if days == 1 {
        "1 day"@
    } else {
        signed_decimal_text(days) + " days"@
    }
}

/// The decimal text of a signed number.
pub open spec fn signed_decimal_text(n: int) -> Seq<char> {
    if n < 0 {
        seq!['-'] + decimal_text((-n) as nat)
    } else {
        decimal_text(n as nat)
    }
}

/// The decimal text of a signed number.
pub fn signed_decimal(n: i64) -> (r: String)
    ensures
        r@ == signed_decimal_text(n as int),
{
    if n < 0 {
        let m: u64 = if n == i64::MIN {
            9223372036854775808u64
        } else {
            (-n) as u64
        };
        let mut r = String::new();
        push_char(&mut r, '-');
        let d = decimal(m);
        r.append(d.as_str());
        r
    } else {
        decimal(n as u64)
    }
}

/// "today", "1 day" or "<n> days".
pub fn format_age(days: i64) -> (r: String)
    ensures
        r@ == age_text(days as int),
{
    if days == 0 {
        String::from_str("today")
    } else if days == 1 {
        String::from_str("1 day")
    } else {
        let mut r = signed_decimal(days);
        r.append(" days");
        r
    }
}

} // verus!
