//! Spare identifiers.
//!
//! Fresh ids are drawn at random; should a drawn id already be in use, a
//! spare id in version-4 UUID form is picked instead by counting through
//! `xxxxxxxx-xxxx-4000-8000-xxxx00000000`, the `x` digits spelling a
//! counter in hexadecimal. Fewer ids are in use than there are counter
//! values up to their number, so one of them is free.

use vstd::prelude::*;
use crate::remap::{is_lower_hex, is_uuid_v4_text, texts};
use crate::text::{push_char, str_eq};

verus! {

/// The lowercase hexadecimal digits, by value.
pub open spec fn hex_digits() -> Seq<char> {
    seq!['0', '1', '2', '3', '4', '5', '6', '7', '8', '9', 'a', 'b', 'c', 'd', 'e', 'f']
}

/// The last `n` hexadecimal digits of `k`, most significant first.
pub open spec fn hex_text(k: nat, n: nat) -> Seq<char>
    decreases n,
{
    if n == 0 {
        Seq::<char>::empty()
    } else {
        hex_text(k / 16, (n - 1) as nat).push(hex_digits()[(k % 16) as int])
    }
}

/// Sixteen to the power `n`.
pub open spec fn pow16(n: nat) -> nat
    decreases n,
{
    if n == 0 {
        1
    } else {
        16 * pow16((n - 1) as nat)
    }
}

proof fn lemma_hex_text_shape(k: nat, n: nat)
    ensures
        hex_text(k, n).len() == n,
        forall|i: int| 0 <= i < n ==> is_lower_hex(#[trigger] hex_text(k, n)[i]),
    decreases n,
{
    if n > 0 {
        lemma_hex_text_shape(k / 16, (n - 1) as nat);
        let p = hex_text(k / 16, (n - 1) as nat);
        assert forall|i: int| 0 <= i < n implies is_lower_hex(#[trigger] hex_text(k, n)[i]) by {
            if i < n - 1 {
                assert(hex_text(k, n)[i] == p[i]);
            }
        }
    }
}

/// Different numbers below `16^n` have different `n`-digit texts.
proof fn lemma_hex_text_injective(a: nat, b: nat, n: nat)
    requires
        a < pow16(n),
        b < pow16(n),
        hex_text(a, n) == hex_text(b, n),
    ensures
        a == b,
    decreases n,
{
    if n > 0 {
        let pa = hex_text(a / 16, (n - 1) as nat);
        let pb = hex_text(b / 16, (n - 1) as nat);
        assert(hex_text(a, n).drop_last() == pa);
        assert(hex_text(b, n).drop_last() == pb);
        assert(hex_text(a, n).last() == hex_digits()[(a % 16) as int]);
        assert(hex_text(b, n).last() == hex_digits()[(b % 16) as int]);
        assert(a % 16 == b % 16);
        let p = pow16((n - 1) as nat);
        assert(a / 16 < p) by (nonlinear_arith)
            requires
                a < 16 * p,
        ;
        assert(b / 16 < p) by (nonlinear_arith)
            requires
                b < 16 * p,
        ;
        lemma_hex_text_injective(a / 16, b / 16, (n - 1) as nat);
    }
}

/// The spare id numbered `k`.
pub open spec fn spare_text(k: nat) -> Seq<char> {
    let h = hex_text(k, 16);
    h.subrange(0, 8) + seq!['-'] + h.subrange(8, 12) + seq!['-', '4', '0', '0', '0', '-', '8', '0', '0', '0', '-']
        + h.subrange(12, 16) + seq!['0', '0', '0', '0', '0', '0', '0', '0']
}

/// A spare id has the text form of a version-4 UUID.
proof fn lemma_spare_is_uuid(k: nat)
    ensures
        is_uuid_v4_text(spare_text(k)),
{
    let h = hex_text(k, 16);
    lemma_hex_text_shape(k, 16);
    let t = spare_text(k);
    assert(t.len() == 36);
    assert forall|i: int| 0 <= i < 36 implies if i == 8 || i == 13 || i == 18 || i == 23 {
        t[i] == '-'
    } else {
        #[trigger] is_lower_hex(t[i])
    } by {
        if i < 8 {
            assert(t[i] == h[i]);
        } else if 9 <= i < 13 {
            assert(t[i] == h[i - 1]);
        } else if 24 <= i < 28 {
            assert(t[i] == h[i - 12]);
        }
    }
}

/// Spare ids of different numbers below `16^16` differ.
proof fn lemma_spare_injective(a: nat, b: nat)
    requires
        a < pow16(16),
        b < pow16(16),
        spare_text(a) == spare_text(b),
    ensures
        a == b,
{
    lemma_hex_text_shape(a, 16);
    lemma_hex_text_shape(b, 16);
    let ha = hex_text(a, 16);
    let hb = hex_text(b, 16);
    let ta = spare_text(a);
    assert(ha =~= ta.subrange(0, 8) + ta.subrange(9, 13) + ta.subrange(24, 28));
    assert(hb =~= ta.subrange(0, 8) + ta.subrange(9, 13) + ta.subrange(24, 28));
    lemma_hex_text_injective(a, b, 16);
}

/// Every `usize` is below `16^16`.
proof fn lemma_usize_below_pow16(k: usize)
    ensures
        (k as nat) < pow16(16),
{
    reveal_with_fuel(pow16, 17);
    assert(pow16(16) == 18446744073709551616nat);
}

/// When the first `m` spare ids all occur in `taken`, `taken` has at least
/// `m` entries.
proof fn lemma_spares_fit(m: nat, taken: Seq<Seq<char>>)
    requires
        m <= pow16(16),
        forall|j: nat| j < m ==> taken.contains(#[trigger] spare_text(j)),
    ensures
        m <= taken.len(),
{
    let cs = Seq::new(m, |j: int| spare_text(j as nat));
    assert forall|i: int, j: int| 0 <= i < cs.len() && 0 <= j < cs.len() && i != j implies cs[i] != cs[j] by {
        if cs[i] == cs[j] {
            lemma_spare_injective(i as nat, j as nat);
        }
    }
    assert(cs.no_duplicates());
    cs.unique_seq_to_set();
    taken.lemma_cardinality_of_set();
    vstd::seq_lib::seq_to_set_is_finite(taken);
    assert forall|x: Seq<char>| cs.to_set().contains(x) implies taken.to_set().contains(x) by {
        let i = choose|i: int| 0 <= i < cs.len() && cs[i] == x;
        assert(cs[i] == spare_text(i as nat));
    }
    vstd::set_lib::lemma_len_subset(cs.to_set(), taken.to_set());
}

/// The hexadecimal digit of `d`.
fn hex_char(d: usize) -> (c: char)
    requires
        d < 16,
    ensures
        c == hex_digits()[d as int],
{
    let ds = vec!['0', '1', '2', '3', '4', '5', '6', '7', '8', '9', 'a', 'b', 'c', 'd', 'e', 'f'];
    assert(ds@ =~= hex_digits());
    ds[d]
}

/// The last `n` hexadecimal digits of `k`.
fn hex_chars(k: usize, n: usize) -> (r: Vec<char>)
    ensures
        r@ == hex_text(k as nat, n as nat),
    decreases n,
{
    if n == 0 {
        Vec::new()
    } else {
        let mut v = hex_chars(k / 16, n - 1);
        v.push(hex_char(k % 16));
        v
    }
}

/// Append `cs[from..to]` to `s`.
fn push_chars(s: &mut String, cs: &Vec<char>, from: usize, to: usize)
    requires
        from <= to <= cs@.len(),
    ensures
        final(s)@ == old(s)@ + cs@.subrange(from as int, to as int),
{
    let mut i: usize = from;
    while i < to
        invariant
            from <= i <= to,
            to <= cs@.len(),
            s@ == old(s)@ + cs@.subrange(from as int, i as int),
        decreases to - i,
    {
        push_char(s, cs[i]);
        assert(cs@.subrange(from as int, i + 1) =~= cs@.subrange(from as int, i as int).push(cs@[i as int]));
        i = i + 1;
    }
}

/// The spare id numbered `k`.
fn spare_id(k: usize) -> (r: String)
    ensures
        r@ == spare_text(k as nat),
{
    let h = hex_chars(k, 16);
    proof {
        lemma_hex_text_shape(k as nat, 16);
    }
    let middle = vec!['-', '4', '0', '0', '0', '-', '8', '0', '0', '0', '-'];
    let tail = vec!['0', '0', '0', '0', '0', '0', '0', '0'];
    let mut s = String::new();
    push_chars(&mut s, &h, 0, 8);
    push_char(&mut s, '-');
    push_chars(&mut s, &h, 8, 12);
    push_chars(&mut s, &middle, 0, 11);
    push_chars(&mut s, &h, 12, 16);
    push_chars(&mut s, &tail, 0, 8);
    proof {
        assert(middle@.subrange(0, 11) =~= seq!['-', '4', '0', '0', '0', '-', '8', '0', '0', '0', '-']);
        assert(tail@.subrange(0, 8) =~= seq!['0', '0', '0', '0', '0', '0', '0', '0']);
        assert(s@ =~= spare_text(k as nat));
    }
    s
}

/// Whether `s` is one of the texts of `v`.
pub fn text_in(v: &Vec<String>, s: &String) -> (b: bool)
    ensures
        b == texts(v@).contains(s@),
{
    let mut i: usize = 0;
    while i < v.len()
        invariant
            i <= v@.len(),
            forall|j: int| 0 <= j < i ==> v@[j]@ != s@,
        decreases v.len() - i,
    {
        if str_eq(v[i].as_str(), s.as_str()) {
            proof {
                assert(texts(v@)[i as int] == s@);
            }
            return true;
        }
        i = i + 1;
    }
    proof {
        if texts(v@).contains(s@) {
            let j = choose|j: int| 0 <= j < texts(v@).len() && texts(v@)[j] == s@;
            assert(v@[j]@ == s@);
        }
    }
    false
}

/// A spare id in version-4 UUID form that is none of `taken`.
pub fn spare_uuid(taken: &Vec<String>) -> (r: String)
    ensures
        is_uuid_v4_text(r@),
        !texts(taken@).contains(r@),
{
    let ghost tk = texts(taken@);
    let n: usize = taken.len();
    let mut k: usize = 0;
    loop
        invariant
            k <= n,
            n == taken@.len(),
            tk == texts(taken@),
            tk.len() == taken@.len(),
            forall|j: nat| j < k ==> tk.contains(#[trigger] spare_text(j)),
        decreases n - k,
    {
        let c = spare_id(k);
        if !text_in(taken, &c) {
            proof {
                lemma_spare_is_uuid(k as nat);
            }
            return c;
        }
        proof {
            lemma_usize_below_pow16(k);
            assert forall|j: nat| j < k + 1 implies tk.contains(#[trigger] spare_text(j)) by {
                if j == k {
                    assert(c@ == spare_text(j));
                }
            }
            lemma_spares_fit((k + 1) as nat, tk);
        }
        k = k + 1;
    }
}

} // verus!
