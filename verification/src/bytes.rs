//! Byte strings: prefixes, splitting and numbers.

use vstd::prelude::*;

use crate::protocol::copy_bytes;

verus! {

/// The bytes held by each item of a list.
pub open spec fn lists(v: Seq<Vec<u8>>) -> Seq<Seq<u8>> {
    v.map_values(|b: Vec<u8>| b@)
}

pub proof fn lemma_lists_push(v: Seq<Vec<u8>>, b: Vec<u8>)
    ensures
        lists(v.push(b)) == lists(v).push(b@),
{
    assert(lists(v.push(b)) =~= lists(v).push(b@));
}

pub open spec fn starts_with(s: Seq<u8>, p: Seq<u8>) -> bool {
    p.len() <= s.len() && s.take(p.len() as int) == p
}

/// Tells whether the bytes of `s` from `at` on begin with `p`.
pub fn has_bytes_at(s: &[u8], at: usize, p: &Vec<u8>) -> (r: bool)
    requires
        at <= s@.len(),
    ensures
        r == starts_with(s@.skip(at as int), p@),
{
    let ghost t = s@.skip(at as int);
    let n: usize = s.len();
    if n - at < p.len() {
        return false;
    }
    let mut i: usize = 0;
    while i < p.len()
        invariant
            i <= p@.len(),
            at + p@.len() <= n,
            n == s@.len(),
            t == s@.skip(at as int),
            forall|j: int| 0 <= j < i ==> t[j] == p@[j],
        decreases p@.len() - i,
    {
        assert(t[i as int] == s@[at + i]);
        if s[at + i] != p[i] {
            assert(t.take(p@.len() as int)[i as int] != p@[i as int]);
            return false;
        }
        i += 1;
    }
    assert(t.take(p@.len() as int) =~= p@);
    true
}

/// The position of the first `b`, or the length where there is none.
pub open spec fn position(s: Seq<u8>, b: u8) -> nat
    decreases s.len(),
{
    if s.len() == 0 || s[0] == b {
        0
    } else {
        1 + position(s.skip(1), b)
    }
}

pub proof fn lemma_position(s: Seq<u8>, b: u8)
    ensures
        position(s, b) <= s.len(),
        position(s, b) < s.len() ==> s[position(s, b) as int] == b,
        forall|i: int| 0 <= i < position(s, b) ==> s[i] != b,
    decreases s.len(),
{
    if s.len() > 0 && s[0] != b {
        lemma_position(s.skip(1), b);
        assert forall|i: int| 0 <= i < position(s, b) implies s[i] != b by {
            if i > 0 {
                assert(s[i] == s.skip(1)[i - 1]);
            }
        }
    }
}

/// The position of the first `b` from `at` on, or the length.
pub fn find_from(s: &[u8], at: usize, b: u8) -> (r: usize)
    requires
        at <= s@.len(),
    ensures
        r == at + position(s@.skip(at as int), b),
        at <= r <= s@.len(),
        r < s@.len() ==> s@[r as int] == b,
{
    let mut i: usize = at;
    while i < s.len() && s[i] != b
        invariant
            at <= i <= s@.len(),
            at + position(s@.skip(at as int), b) == i + position(s@.skip(i as int), b),
        decreases s@.len() - i,
    {
        assert(s@.skip(i as int).skip(1) =~= s@.skip(i + 1));
        i += 1;
    }
    i
}

/// The pieces between the separators.
pub open spec fn split(s: Seq<u8>, sep: u8) -> Seq<Seq<u8>>
    decreases s.len(),
{
    let p = position(s, sep) as int;
    if p >= s.len() {
        seq![s]
    } else {
        seq![s.take(p)] + split(s.skip(p + 1), sep)
    }
}

/// Splits `s` at each `sep`.
pub fn split_bytes(s: &[u8], sep: u8) -> (r: Vec<Vec<u8>>)
    ensures
        lists(r@) == split(s@, sep),
        r@.len() > 0,
{
    let n: usize = s.len();
    let mut out: Vec<Vec<u8>> = Vec::new();
    let mut at: usize = 0;
    assert(s@.skip(0) =~= s@);
    assert(lists(out@) + split(s@, sep) =~= split(s@, sep));
    loop
        invariant
            at <= n,
            n == s@.len(),
            lists(out@) + split(s@.skip(at as int), sep) == split(s@, sep),
        decreases n - at,
    {
        let p = find_from(s, at, sep);
        let piece = copy_bytes(s, at, p);
        let ghost rest = s@.skip(at as int);
        proof {
            lemma_position(rest, sep);
            lemma_lists_push(out@, piece);
        }
        if p == n {
            proof {
                assert(piece@ =~= rest);
                assert(lists(out@).push(piece@) =~= lists(out@) + seq![rest]);
            }
            out.push(piece);
            return out;
        }
        proof {
            assert(piece@ =~= rest.take(p - at));
            assert(rest.skip(p - at + 1) =~= s@.skip(p + 1));
            assert(lists(out@).push(piece@) + split(s@.skip(p + 1), sep) =~= lists(out@) + (
            seq![piece@] + split(s@.skip(p + 1), sep)));
        }
        out.push(piece);
        at = p + 1;
    }
}

// ─── Numbers ───────────────────────────────────────────────

pub open spec fn is_digit(b: u8) -> bool {
    0x30 <= b <= 0x39
}

pub open spec fn all_digits(s: Seq<u8>) -> bool {
    forall|i: int| 0 <= i < s.len() ==> is_digit(#[trigger] s[i])
}

/// The number that a run of decimal digits writes.
pub open spec fn digits_value(s: Seq<u8>) -> nat
    decreases s.len(),
{
    if s.len() == 0 {
        0
    } else {
        digits_value(s.drop_last()) * 10 + (s.last() - 0x30) as nat
    }
}

/// A number no larger than `max`, written with decimal digits alone.
pub open spec fn number(s: Seq<u8>, max: nat) -> Option<nat> {
    if s.len() > 0 && all_digits(s) && digits_value(s) <= max {
        Some(digits_value(s))
    } else {
        None
    }
}

proof fn lemma_digits_grow(s: Seq<u8>, i: int)
    requires
        0 <= i <= s.len(),
        all_digits(s),
    ensures
        digits_value(s.take(i)) <= digits_value(s),
    decreases s.len() - i,
{
    if i < s.len() {
        lemma_digits_grow(s, i + 1);
        assert(s.take(i + 1).drop_last() =~= s.take(i));
        assert(is_digit(s.take(i + 1).last()));
    } else {
        assert(s.take(i) =~= s);
    }
}

/// Reads a number of 32 bits.
pub fn parse_u32(s: &[u8]) -> (r: Option<u32>)
    ensures
        match r {
            Some(n) => number(s@, 0xffff_ffff) == Some(n as nat),
            None => number(s@, 0xffff_ffff) is None,
        },
{
    if s.len() == 0 {
        return None;
    }
    let mut n: u32 = 0;
    let mut i: usize = 0;
    while i < s.len()
        invariant
            i <= s@.len(),
            s@.len() > 0,
            forall|j: int| 0 <= j < i ==> is_digit(#[trigger] s@[j]),
            n == digits_value(s@.take(i as int)),
        decreases s@.len() - i,
    {
        let b: u8 = s[i];
        if !(0x30 <= b && b <= 0x39) {
            assert(!is_digit(s@[i as int]));
            return None;
        }
        proof {
            assert(s@.take(i + 1).drop_last() =~= s@.take(i as int));
            if all_digits(s@) {
                lemma_digits_grow(s@, i + 1);
            }
        }
        let wide: u64 = n as u64 * 10 + (b - 0x30) as u64;
        if wide > 0xffff_ffff {
            return None;
        }
        n = wide as u32;
        i += 1;
    }
    assert(s@.take(s@.len() as int) =~= s@);
    Some(n)
}

/// Reads a number of 8 bits.
pub fn parse_u8(s: &[u8]) -> (r: Option<u8>)
    ensures
        match r {
            Some(n) => number(s@, 0xff) == Some(n as nat),
            None => number(s@, 0xff) is None,
        },
{
    match parse_u32(s) {
        Some(n) => if n <= 0xff {
            Some(n as u8)
        } else {
            None
        },
        None => None,
    }
}

} // verus!
