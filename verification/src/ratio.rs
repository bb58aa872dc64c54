//! Split ratios: positive numbers with a 24-bit significand over a power of
//! two, the values that single precision holds, computed with integers.
//!
//! Every operation rounds its exact result once, to the nearest value and to
//! the even significand on a tie. A count enters a quotient as single precision
//! holds it, so that a layout of any size has its shares.

use vstd::arithmetic::power2::*;
use vstd::prelude::*;

pub mod proportion;

verus! {

/// The smallest significand of a normalised ratio.
pub const SIG: u32 = 0x80_0000;

/// The number `mant / 2^shift`.
#[derive(Clone, Copy, Debug, PartialEq, Eq, Structural)]
pub struct Ratio {
    pub mant: u32,
    pub shift: u32,
}

/// One tenth: the smallest share a drag or a resize leaves to either side.
#[verifier::allow_in_spec]
pub fn low() -> Ratio
    returns
        (Ratio { mant: 13_421_773, shift: 27 }),
{
    Ratio { mant: 13_421_773, shift: 27 }
}

/// Nine tenths: the largest such share.
#[verifier::allow_in_spec]
pub fn high() -> Ratio
    returns
        (Ratio { mant: 15_099_494, shift: 24 }),
{
    Ratio { mant: 15_099_494, shift: 24 }
}

/// One half.
#[verifier::allow_in_spec]
pub fn half() -> Ratio
    returns
        (Ratio { mant: 8_388_608, shift: 24 }),
{
    Ratio { mant: 8_388_608, shift: 24 }
}

/// One twentieth: how far one resize step moves a separator.
#[verifier::allow_in_spec]
pub fn step() -> Ratio
    returns
        (Ratio { mant: 13_421_773, shift: 28 }),
{
    Ratio { mant: 13_421_773, shift: 28 }
}

/// `n / d` rounded to the nearest integer, a tie to the even one.
pub open spec fn nearest_even(n: int, d: int) -> int {
    let q = n / d;
    let r = n % d;
    if 2 * r > d || (2 * r == d && q % 2 == 1) {
        q + 1
    } else {
        q
    }
}

/// How often `n` is doubled until it is at least `SIG * b`.
pub open spec fn doublings(n: int, b: int) -> nat
    decreases
            (if n < 0x80_0000 * b {
                0x80_0000 * b - n
            } else {
                0
            }),
{
    if n <= 0 || n >= 0x80_0000 * b {
        0
    } else {
        1 + doublings(2 * n, b)
    }
}

/// How often `n` is halved until it is below `2 * SIG`.
pub open spec fn halvings(n: nat) -> nat
    decreases n,
{
    if n < 2 * 0x80_0000 {
        0
    } else {
        1 + halvings(n / 2)
    }
}

/// The significand `m` over `2^s`, with the carry of a rounding up resolved.
pub open spec fn carry(m: int, s: int) -> Ratio {
    if m == 2 * 0x80_0000 {
        Ratio { mant: SIG, shift: (s - 1) as u32 }
    } else {
        Ratio { mant: m as u32, shift: s as u32 }
    }
}

/// The ratio nearest to `a / b`.
pub open spec fn quotient(a: int, b: int) -> Ratio {
    let s = doublings(a, b);
    carry(nearest_even(a * pow2(s), b), s as int)
}

/// A count as single precision holds it: one with more than 24 binary digits is
/// rounded to the nearest that has no more.
pub open spec fn held(n: nat) -> nat {
    let unit = pow2(halvings(n));
    (nearest_even(n as int, unit as int) * unit) as nat
}

/// The share that `a` of `b` panes, or of `b` parts, get: the ratio nearest to
/// the quotient of the two counts, each as single precision holds it.
pub open spec fn share(a: nat, b: nat) -> Ratio {
    quotient(held(a) as int, held(b) as int)
}

/// The ratio nearest to `n / 2^s`.
pub open spec fn pack(n: nat, s: int) -> Ratio {
    let k = halvings(n);
    if k > 0 {
        carry(nearest_even(n as int, pow2(k) as int), s - k)
    } else {
        let d = doublings(n as int, 1);
        Ratio { mant: (n * pow2(d)) as u32, shift: (s + d) as u32 }
    }
}

/// How many of `usable` cells the first side of a split gets: the product,
/// rounded as a ratio is, then to the nearest whole number, halves upward.
pub open spec fn cells(usable: nat, r: Ratio) -> nat {
    let p = usable * r.mant as nat;
    let k = halvings(p);
    let m = nearest_even(p as int, pow2(k) as int);
    let whole = (2 * m * pow2(k) + pow2(r.shift as nat)) / (2 * pow2(r.shift as nat) as int);
    if whole > 0xffff {
        0xffff
    } else {
        whole as nat
    }
}

/// `a < b`, as numbers.
pub open spec fn less(a: Ratio, b: Ratio) -> bool {
    a.mant * pow2(b.shift as nat) < b.mant * pow2(a.shift as nat)
}

/// The nearest value between one tenth and nine tenths.
pub open spec fn clamp(r: Ratio) -> Ratio {
    if less(r, low()) {
        low()
    } else if less(high(), r) {
        high()
    } else {
        r
    }
}

/// The significands of `r` and `d` over their common power of two.
pub open spec fn aligned(r: Ratio, d: Ratio) -> (int, int, nat) {
    let s = if r.shift >= d.shift {
        r.shift as nat
    } else {
        d.shift as nat
    };
    (r.mant * pow2((s - r.shift) as nat), d.mant * pow2((s - d.shift) as nat), s)
}

/// `r` moved by `d`, up or down, and kept between one tenth and nine tenths.
/// Rounding never crosses a bound, so the exact value is held against both.
pub open spec fn nudged(r: Ratio, d: Ratio, up: bool) -> Ratio {
    let (a, b, s) = aligned(r, d);
    let n = if up {
        a + b
    } else {
        a - b
    };
    if n * pow2(low().shift as nat) <= low().mant * pow2(s) {
        low()
    } else if n * pow2(high().shift as nat) >= high().mant * pow2(s) {
        high()
    } else {
        pack(n as nat, s as int)
    }
}

impl Ratio {
    /// A normalised significand over a power of two that keeps the value
    /// below `2^16`.
    pub open spec fn wf(self) -> bool {
        &&& 0x80_0000 <= self.mant < 2 * 0x80_0000
        &&& 8 <= self.shift <= 90
    }
}

/// A twentieth for each of `amount` cells, and at least one.
pub open spec fn steps(amount: u16) -> Ratio {
    pack(
        (step().mant * (if amount == 0 {
            1int
        } else {
            amount as int
        })) as nat,
        28,
    )
}

// ─── Powers of two ─────────────────────────────────────────

/// `2^s`.
fn power(s: u32) -> (r: u128)
    requires
        s <= 100,
    ensures
        r == pow2(s as nat),
        1 <= r,
{
    let mut out: u128 = 1;
    let mut i: u32 = 0;
    proof {
        lemma2_to64();
    }
    while i < s
        invariant
            i <= s <= 100,
            out == pow2(i as nat),
            out >= 1,
        decreases s - i,
    {
        proof {
            lemma_pow2_unfold((i + 1) as nat);
            lemma_pow2_bound(i as nat);
        }
        out = out * 2;
        i += 1;
    }
    out
}

proof fn lemma_pow2_bound(i: nat)
    requires
        i <= 100,
    ensures
        1 <= pow2(i) <= 0x10_0000_0000_0000_0000_0000_0000,
    decreases 100 - i,
{
    lemma_pow2_pos(i);
    if i < 100 {
        lemma_pow2_bound(i + 1);
        lemma_pow2_unfold(i + 1);
    } else {
        lemma2_to64();
        lemma2_to64_rest();
        lemma_pow2_adds(64, 36);
        assert(pow2(64) == 0x1_0000_0000_0000_0000);
        assert(pow2(36) == 0x10_0000_0000);
        assert(pow2(100) == 0x10_0000_0000_0000_0000_0000_0000);
    }
}

// ─── Rounding ──────────────────────────────────────────────

/// `n / d` rounded to the nearest integer, a tie to the even one.
fn round_even(n: u128, d: u128) -> (r: u128)
    requires
        0 < d < 0x8000_0000_0000_0000_0000_0000_0000_0000,
        n < 0x8000_0000_0000_0000_0000_0000_0000_0000,
    ensures
        r == nearest_even(n as int, d as int),
        n / d <= r <= n / d + 1,
{
    let q: u128 = n / d;
    let r: u128 = n % d;
    proof {
        assert(q <= n) by (nonlinear_arith)
            requires
                q == n / d,
                d >= 1,
        ;
    }
    if 2 * r > d || (2 * r == d && q % 2 == 1) {
        q + 1
    } else {
        q
    }
}

proof fn lemma_doublings_unroll(n: int, b: int, s: nat)
    requires
        n > 0,
        b > 0,
        forall|i: nat| i < s ==> #[trigger] (n * pow2(i)) < 0x80_0000 * b,
    ensures
        doublings(n, b) == s + doublings(n * pow2(s), b),
    decreases s,
{
    lemma2_to64();
    if s > 0 {
        let t = (s - 1) as nat;
        lemma_doublings_unroll(n, b, t);
        lemma_pow2_unfold(s);
        lemma_pow2_pos(t);
        assert(n * pow2(t) < 0x80_0000 * b);
        assert(n * pow2(t) > 0) by (nonlinear_arith)
            requires
                n > 0,
                pow2(t) > 0,
        ;
        assert(n * pow2(s) == 2 * (n * pow2(t))) by (nonlinear_arith)
            requires
                pow2(s) == 2 * pow2(t),
        ;
    } else {
        assert(n * pow2(0) == n) by (nonlinear_arith)
            requires
                pow2(0) == 1,
        ;
    }
}

/// How often `n` is halved until it is below `2 * SIG`, with that power of
/// two.
fn count_halvings(n: u128) -> (r: (u32, u128))
    requires
        n < 0x10_0000_0000_0000_0000_0000_0000,
    ensures
        r.0 == halvings(n as nat),
        r.1 == pow2(r.0 as nat),
        r.0 <= 76,
        n / r.1 < 0x100_0000,
        r.0 > 0 ==> n / r.1 >= 0x80_0000,
        1 <= r.1 <= 0x1000_0000_0000_0000_0000,
{
    let mut m: u128 = n;
    let mut k: u32 = 0;
    let mut unit: u128 = 1;
    proof {
        lemma2_to64();
    }
    while m >= 0x100_0000
        invariant
            n < 0x10_0000_0000_0000_0000_0000_0000,
            unit == pow2(k as nat),
            unit >= 1,
            m == n / unit,
            m * unit <= n,
            k > 0 ==> m >= 0x80_0000,
            halvings(n as nat) == k + halvings(m as nat),
            k <= 76,
            unit <= 0x1000_0000_0000_0000_0000,
        decreases m,
    {
        proof {
            assert(unit < 0x1000_0000_0000_0000_0000) by (nonlinear_arith)
                requires
                    m * unit <= n,
                    m >= 0x100_0000,
                    n < 0x10_0000_0000_0000_0000_0000_0000,
            ;
            if k >= 76 {
                lemma_pow2_76();
                if k > 76 {
                    lemma_pow2_strictly_increases(76, k as nat);
                }
                assert(false);
            }
            lemma_pow2_unfold((k + 1) as nat);
            vstd::arithmetic::div_mod::lemma_div_denominator(n as int, unit as int, 2);
            assert((n as int / unit as int) / 2 == n as int / (unit * 2));
            assert((m / 2) * (unit * 2) <= n) by (nonlinear_arith)
                requires
                    m * unit <= n,
                    unit >= 1,
            ;
            assert(unit * 2 <= 0x1000_0000_0000_0000_0000) by {
                lemma_pow2_76();
                if k + 1 < 76 {
                    lemma_pow2_strictly_increases((k + 1) as nat, 76);
                }
            }
        }
        m = m / 2;
        unit = unit * 2;
        k += 1;
    }
    (k, unit)
}

proof fn lemma_pow2_76()
    ensures
        pow2(76) == 0x1000_0000_0000_0000_0000,
{
    lemma2_to64();
    lemma2_to64_rest();
    lemma_pow2_adds(64, 12);
    assert(pow2(64) == 0x1_0000_0000_0000_0000);
    assert(pow2(12) == 0x1000);
}

proof fn lemma_pow2_89()
    ensures
        pow2(89) == 0x200_0000_0000_0000_0000_0000,
{
    lemma2_to64();
    lemma2_to64_rest();
    lemma_pow2_adds(64, 25);
    assert(pow2(64) == 0x1_0000_0000_0000_0000);
    assert(pow2(25) == 0x200_0000);
}

proof fn lemma_held_bounds(n: nat, k: nat, unit: int, m: int)
    requires
        unit >= 1,
        m == nearest_even(n as int, unit),
        n as int / unit <= m <= n as int / unit + 1,
        k == 0 ==> unit == 1,
        k > 0 ==> n as int / unit >= 0x80_0000,
    ensures
        n <= 2 * (m * unit),
        m * unit <= 2 * n,
{
    let q = n as int / unit;
    if k == 0 {
        assert(nearest_even(n as int, 1) == n);
        assert(m * 1 == m) by (nonlinear_arith);
    } else {
        assert(n <= 2 * (m * unit) && m * unit <= 2 * n) by (nonlinear_arith)
            requires
                q == n as int / unit,
                q >= 0x80_0000,
                unit >= 1,
                q <= m <= q + 1,
        ;
    }
}

/// A count as single precision holds it.
fn held_count(n: u64) -> (r: u128)
    ensures
        r == held(n as nat),
        n <= 2 * r,
        r <= 2 * n,
{
    let (k, unit) = count_halvings(n as u128);
    let m: u128 = round_even(n as u128, unit);
    proof {
        lemma2_to64();
        lemma_held_bounds(n as nat, k as nat, unit as int, m as int);
    }
    m * unit
}

/// Counts of up to 24 binary digits are held as they are, so that the share of
/// such counts is the ratio nearest to their quotient.
pub proof fn small_counts_are_exact(a: nat, b: nat)
    requires
        a < 0x100_0000,
        b < 0x100_0000,
    ensures
        held(a) == a,
        share(a, b) == quotient(a as int, b as int),
{
    lemma2_to64();
    assert(nearest_even(a as int, 1) * 1 == a);
    assert(nearest_even(b as int, 1) * 1 == b);
}

impl Ratio {
    /// The share that `count` of `total` get.
    pub fn of(count: u64, total: u64) -> (r: Ratio)
        requires
            1 <= count <= total,
        ensures
            r == share(count as nat, total as nat),
            r.wf(),
    {
        let a: u128 = held_count(count);
        let b: u128 = held_count(total);
        Ratio::nearest(a, b)
    }

    /// The ratio nearest to `a / b`.
    fn nearest(a: u128, b: u128) -> (r: Ratio)
        requires
            1 <= a <= 4 * b,
            1 <= b <= 0x2_0000_0000_0000_0000,
        ensures
            r == quotient(a as int, b as int),
            r.wf(),
    {
        let top: u128 = 0x80_0000u128 * b;
        let mut n: u128 = a;
        let mut s: u32 = 0;
        proof {
            lemma2_to64();
            assert(a * pow2(0) == a) by (nonlinear_arith)
                requires
                    pow2(0) == 1,
            ;
        }
        while n < top
            invariant
                1 <= a <= 4 * b,
                1 <= b <= 0x2_0000_0000_0000_0000,
                top == 0x80_0000 * b,
                1 <= n < 2 * top,
                n == a * pow2(s as nat),
                s <= n,
                s <= 89,
                pow2(s as nat) <= n,
                forall|i: nat| i < s ==> #[trigger] (a * pow2(i)) < 0x80_0000 * b,
            decreases
                    (if n < top {
                        top - n
                    } else {
                        0
                    }),
        {
            proof {
                lemma_pow2_unfold((s + 1) as nat);
                assert(a * pow2((s + 1) as nat) == 2 * (a * pow2(s as nat))) by (nonlinear_arith)
                    requires
                        pow2((s + 1) as nat) == 2 * pow2(s as nat),
                ;
                if s >= 89 {
                    lemma_pow2_89();
                    assert(false);
                }
            }
            n = n * 2;
            s += 1;
        }
        proof {
            lemma_doublings_unroll(a as int, b as int, s as nat);
            assert(doublings(n as int, b as int) == 0);
            assert(0x80_0000 <= n / b && n / (b) < 2 * 0x80_0000) by (nonlinear_arith)
                requires
                    0x80_0000 * b <= n < 2 * (0x80_0000 * b),
                    b > 0,
            ;
            if s < 20 {
                lemma_pow2_strictly_increases(s as nat, 20);
                lemma2_to64();
                assert(a * pow2(s as nat) < b * 0x40_0000) by (nonlinear_arith)
                    requires
                        a <= 4 * b,
                        0 <= pow2(s as nat) < 0x10_0000,
                        b > 0,
                ;
                assert(false);
            }
        }
        let m: u128 = round_even(n, b);
        if m == 2 * SIG as u128 {
            Ratio { mant: SIG, shift: s - 1 }
        } else {
            Ratio { mant: m as u32, shift: s }
        }
    }
}

impl Ratio {
    /// The ratio nearest to `n / 2^s`.
    fn packed(n: u128, s: u32) -> (r: Ratio)
        requires
            0 < n < 0x10_0000_0000_0000_0000_0000_0000,
            s <= 90,
            // the value is at least 2^-36 and below 2^15
            pow2(s as nat) <= n * 0x10_0000_0000,
            n < 0x8000 * pow2(s as nat),
        ensures
            r == pack(n as nat, s as int),
            r.wf(),
    {
        let (k, unit) = count_halvings(n);
        if k > 0 {
            let m: u128 = round_even(n, unit);
            proof {
                lemma_pow2_pos(s as nat);
                // n >= SIG * 2^k and n < 2^15 * 2^s bound k by s
                assert(0x80_0000 * pow2(k as nat) <= n) by (nonlinear_arith)
                    requires
                        n / unit >= 0x80_0000,
                        unit == pow2(k as nat),
                        unit >= 1,
                ;
                if k + 8 >= s {
                    let e = (k + 8) as nat;
                    lemma_pow2_adds(k as nat, 8);
                    lemma2_to64();
                    if e > s {
                        lemma_pow2_strictly_increases(s as nat, e);
                    }
                    assert(pow2(8) == 256);
                    assert(pow2(e) == pow2(k as nat) * 256);
                    assert(false);
                }
            }
            if m == 0x100_0000 {
                Ratio { mant: SIG, shift: s - k - 1 }
            } else {
                Ratio { mant: m as u32, shift: s - k }
            }
        } else {
            let mut m: u128 = n;
            let mut d: u32 = 0;
            proof {
                lemma2_to64();
                assert(n * pow2(0) == n) by (nonlinear_arith)
                    requires
                        pow2(0) == 1,
                ;
                assert(n < 0x100_0000) by (nonlinear_arith)
                    requires
                        n / unit < 0x100_0000,
                        unit == 1,
                ;
            }
            while m < 0x80_0000
                invariant
                    0 < n < 0x100_0000,
                    n <= m < 0x100_0000,
                    m == n * pow2(d as nat),
                    d < 24,
                    pow2(d as nat) <= m,
                    forall|i: nat| i < d ==> #[trigger] (n * pow2(i)) < 0x80_0000,
                decreases
                        (if m < 0x80_0000 {
                            0x80_0000 - m
                        } else {
                            0
                        }),
            {
                proof {
                    lemma_pow2_unfold((d + 1) as nat);
                    assert(n * pow2((d + 1) as nat) == 2 * (n * pow2(d as nat))) by (nonlinear_arith)
                        requires
                            pow2((d + 1) as nat) == 2 * pow2(d as nat),
                    ;
                    if d >= 23 {
                        lemma2_to64();
                        assert(pow2(23) == 0x80_0000);
                        assert(false);
                    }
                }
                m = m * 2;
                d += 1;
            }
            proof {
                lemma_doublings_unroll(n as int, 1, d as nat);
                assert(doublings(m as int, 1) == 0);
                lemma2_to64();
                // value bounds give 8 <= s + d <= 60
                if s + d < 8 {
                    lemma_pow2_adds(s as nat, d as nat);
                    lemma_pow2_strictly_increases((s + d) as nat, 8);
                    assert(m < 0x8000 * (pow2(s as nat) * pow2(d as nat))) by (nonlinear_arith)
                        requires
                            n < 0x8000 * pow2(s as nat),
                            m == n * pow2(d as nat),
                            pow2(d as nat) >= 1,
                    ;
                    assert(pow2(8) == 256);
                    assert(false);
                }
                if s + d > 60 {
                    lemma_pow2_adds(s as nat, d as nat);
                    lemma_pow2_strictly_increases(60, (s + d) as nat);
                    assert(pow2(s as nat) * pow2(d as nat) <= m * 0x10_0000_0000) by (nonlinear_arith)
                        requires
                            pow2(s as nat) <= n * 0x10_0000_0000,
                            m == n * pow2(d as nat),
                            pow2(d as nat) >= 1,
                    ;
                    lemma2_to64_rest();
                    assert(pow2(60) == 0x1000_0000_0000_0000);
                    assert(m * 0x10_0000_0000 <= 0x1000_0000_0000_0000);
                    assert(false);
                }
            }
            Ratio { mant: m as u32, shift: s + d }
        }
    }

    /// How many of `usable` cells the first side of a split gets.
    pub fn cells_of(&self, usable: u16) -> (r: u16)
        requires
            self.wf(),
        ensures
            r == cells(usable as nat, *self),
    {
        proof {
            assert(usable * self.mant < 0x100_0000_0000) by (nonlinear_arith)
                requires
                    usable <= 0xffff,
                    self.mant < 0x100_0000,
            ;
            lemma2_to64();
        }
        let p: u128 = usable as u128 * self.mant as u128;
        let (k, unit) = count_halvings(p);
        let m: u128 = round_even(p, unit);
        let one: u128 = power(self.shift);
        proof {
            assert(unit <= 0x100_0000_0000) by (nonlinear_arith)
                requires
                    k > 0 ==> p / unit >= 0x80_0000,
                    k == 0 ==> unit == 1,
                    p < 0x100_0000_0000,
                    unit >= 1,
            ;
            assert(m * unit <= 0x101_0000 * 0x100_0000_0000) by (nonlinear_arith)
                requires
                    m <= 0x101_0000,
                    0 <= m,
                    1 <= unit <= 0x100_0000_0000,
            ;
            lemma_small_power(self.shift as nat);
            assert(2 * m * unit == 2 * (m * unit)) by (nonlinear_arith);
        }
        let whole: u128 = (2 * (m * unit) + one) / (2 * one);
        if whole > 0xffff {
            0xffff
        } else {
            whole as u16
        }
    }
}

impl Ratio {
    /// Tells whether `self` is below `other`.
    fn below(&self, other: &Ratio) -> (r: bool)
        requires
            self.wf(),
            other.wf(),
        ensures
            r == less(*self, *other),
    {
        let a: u128 = power(self.shift);
        let b: u128 = power(other.shift);
        proof {
            lemma_small_power(self.shift as nat);
            lemma_small_power(other.shift as nat);
            lemma_product_fits(self.mant as int, b as int);
            lemma_product_fits(other.mant as int, a as int);
        }
        self.mant as u128 * b < other.mant as u128 * a
    }

    /// The nearest value between one tenth and nine tenths.
    pub fn clamped(&self) -> (r: Ratio)
        requires
            self.wf(),
        ensures
            r == clamp(*self),
            r.wf(),
    {
        if self.below(&low()) {
            low()
        } else if high().below(self) {
            high()
        } else {
            *self
        }
    }

    /// `self` moved by `d`, up or down, and kept between one tenth and nine
    /// tenths.
    pub fn nudge(&self, d: &Ratio, up: bool) -> (r: Ratio)
        requires
            self.wf(),
            d.wf(),
        ensures
            r == nudged(*self, *d, up),
            r.wf(),
    {
        let s: u32 = if self.shift >= d.shift {
            self.shift
        } else {
            d.shift
        };
        let pa: u128 = power(s - self.shift);
        let pb: u128 = power(s - d.shift);
        let one: u128 = power(s);
        proof {
            lemma_small_power((s - self.shift) as nat);
            lemma_small_power((s - d.shift) as nat);
            lemma_small_power(s as nat);
            lemma_product_fits(self.mant as int, pa as int);
            lemma_product_fits(d.mant as int, pb as int);
            lemma2_to64();
            assert(pow2(27) == 0x800_0000);
            assert(pow2(24) == 0x100_0000);
        }
        let a: u128 = self.mant as u128 * pa;
        let b: u128 = d.mant as u128 * pb;
        if !up && a <= b {
            proof {
                assert((a - b) * pow2(27) <= 0) by (nonlinear_arith)
                    requires
                        a <= b,
                        pow2(27) > 0,
                ;
            }
            return low();
        }
        let n: u128 = if up {
            a + b
        } else {
            a - b
        };
        if n >= one {
            proof {
                assert(n * pow2(27) > 13_421_773 * one && n * pow2(24) >= 15_099_494 * one)
                    by (nonlinear_arith)
                    requires
                        n >= one,
                        one >= 1,
                        pow2(27) == 0x800_0000,
                        pow2(24) == 0x100_0000,
                ;
            }
            return high();
        }
        if n * 0x800_0000 <= 13_421_773 * one {
            low()
        } else if n * 0x100_0000 >= 15_099_494 * one {
            high()
        } else {
            Ratio::packed(n, s)
        }
    }

    /// The distance that a resize by `amount` cells moves a separator:
    /// a twentieth for each, and at least one.
    pub fn resize_step(amount: u16) -> (r: Ratio)
        ensures
            r == steps(amount),
            r.wf(),
    {
        let k: u128 = if amount == 0 {
            1
        } else {
            amount as u128
        };
        let n: u128 = 13_421_773 * k;
        proof {
            lemma2_to64();
            assert(pow2(28) == 0x1000_0000);
        }
        Ratio::packed(n, 28)
    }

    /// The number that the single-precision bit pattern `bits` stands for,
    /// where it is positive and its exponent lies in the range of a ratio.
    pub fn from_bits(bits: u32) -> (r: Option<Ratio>)
        ensures
            r == bits_ratio(bits),
            r matches Some(v) ==> v.wf(),
    {
        let e: u32 = bits / 0x80_0000;
        if 60 <= e && e <= 142 {
            Some(Ratio { mant: 0x80_0000 + bits % 0x80_0000, shift: 150 - e })
        } else {
            None
        }
    }

    /// The single-precision bit pattern of the ratio.
    pub fn to_bits(&self) -> (r: u32)
        requires
            self.wf(),
        ensures
            r == ratio_bits(*self),
    {
        (150 - self.shift) * 0x80_0000 + (self.mant - 0x80_0000)
    }
}

/// The ratio of a single-precision bit pattern: a sign bit, eight exponent
/// bits and 23 fraction bits.
pub open spec fn bits_ratio(bits: u32) -> Option<Ratio> {
    let e = bits / 0x80_0000;
    if 60 <= e <= 142 {
        Some(Ratio { mant: (0x80_0000 + bits % 0x80_0000) as u32, shift: (150 - e) as u32 })
    } else {
        None
    }
}

/// The single-precision bit pattern of a ratio.
pub open spec fn ratio_bits(r: Ratio) -> u32 {
    ((150 - r.shift) * 0x80_0000 + (r.mant - 0x80_0000)) as u32
}

/// The bit pattern of a ratio stands for that ratio.
pub proof fn bits_round_trip(r: Ratio)
    requires
        r.wf(),
    ensures
        bits_ratio(ratio_bits(r)) == Some(r),
{
}

proof fn lemma_small_power(s: nat)
    requires
        s <= 90,
    ensures
        1 <= pow2(s) <= 0x400_0000_0000_0000_0000_0000,
{
    lemma_pow2_pos(s);
    lemma_pow2_89();
    lemma_pow2_unfold(90);
    if s < 90 {
        lemma_pow2_strictly_increases(s, 90);
    }
}

proof fn lemma_product_fits(m: int, p: int)
    requires
        0 <= m < 0x100_0000,
        1 <= p <= 0x400_0000_0000_0000_0000_0000,
    ensures
        0 <= m * p <= 0x100_0000 * 0x400_0000_0000_0000_0000_0000,
        m <= m * p,
{
    assert(0 <= m * p <= 0x100_0000 * 0x400_0000_0000_0000_0000_0000 && m <= m * p)
        by (nonlinear_arith)
        requires
            0 <= m < 0x100_0000,
            1 <= p <= 0x400_0000_0000_0000_0000_0000,
    ;
}

} // verus!
