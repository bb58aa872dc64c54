//! How close the cells of a side come to its share.

use vstd::arithmetic::power2::*;
use vstd::prelude::*;

use crate::ratio;
use crate::ratio::Ratio;

verus! {

proof fn lemma_halvings(n: nat)
    ensures
        ratio::halvings(n) > 0 ==> 0x80_0000 * pow2(ratio::halvings(n)) <= n,
    decreases n,
{
    if n >= 0x100_0000 {
        lemma_halvings(n / 2);
        let k = ratio::halvings(n);
        lemma_pow2_unfold(k);
        lemma2_to64();
    }
}

proof fn lemma_nearest(n: int, d: int)
    requires
        d > 0,
    ensures
        -d <= 2 * (n - d * ratio::nearest_even(n, d)) <= d,
{
    let q = n / d;
    let r = n % d;
    assert(n == d * q + r && 0 <= r < d) by (nonlinear_arith)
        requires
            q == n / d,
            r == n % d,
            d > 0,
    ;
    assert(d * (q + 1) == d * q + d) by (nonlinear_arith);
}

proof fn lemma_doublings(n: int, b: int)
    requires
        0 < n <= b,
    ensures
        ({
            let s = ratio::doublings(n, b);
            &&& n * pow2(s) >= 0x80_0000 * b
            &&& n * pow2(s) < 0x100_0000 * b
        }),
{
    lemma_doublings_from(n, b);
}

proof fn lemma_doublings_from(n: int, b: int)
    requires
        0 < n < 0x100_0000 * b,
        b > 0,
    ensures
        ({
            let s = ratio::doublings(n, b);
            &&& n * pow2(s) >= 0x80_0000 * b
            &&& n * pow2(s) < 0x100_0000 * b
        }),
    decreases
            (if n < 0x80_0000 * b {
                0x80_0000 * b - n
            } else {
                0
            }),
{
    let s = ratio::doublings(n, b);
    lemma2_to64();
    if n < 0x80_0000 * b {
        lemma_doublings_from(2 * n, b);
        lemma_pow2_unfold(s);
        let p = pow2((s - 1) as nat) as int;
        assert(n * (2 * p) == (2 * n) * p) by (nonlinear_arith);
    } else {
        assert(n * 1 == n);
    }
}

/// How far the cells of a side may be from the exact product.
proof fn lemma_cells(u: nat, r: Ratio)
    requires
        u <= 0xffff,
        r.mant < 0x100_0000,
        r.mant <= pow2(r.shift as nat),
        pow2(r.shift as nat) >= 0x40_0000,
    ensures
        ({
            let p = pow2(r.shift as nat) as int;
            let c = ratio::cells(u, r) as int;
            -(p + 0x2_0000) <= 2 * (p * c) - 2 * (u * r.mant) <= p + 0x2_0000
        }),
{
    let one = pow2(r.shift as nat) as int;
    let p = u * r.mant as nat;
    let k = ratio::halvings(p);
    let unit = pow2(k) as int;
    lemma_halvings(p);
    lemma2_to64();
    lemma_pow2_pos(k);
    assert(p <= 0xffff * 0x100_0000) by (nonlinear_arith)
        requires
            p == u * r.mant as nat,
            u <= 0xffff,
            r.mant < 0x100_0000,
    ;
    assert(p <= u * one) by (nonlinear_arith)
        requires
            p == u * r.mant as nat,
            r.mant <= one,
            u >= 0,
    ;
    assert(unit <= 0x2_0000);
    lemma_nearest(p as int, unit);
    let m = ratio::nearest_even(p as int, unit);
    let top = 2 * m * pow2(k) + pow2(r.shift as nat);
    assert(2 * m * pow2(k) == 2 * (unit * m)) by (nonlinear_arith)
        requires
            unit == pow2(k),
    ;
    let whole = top / (2 * one);
    assert((2 * one) * whole <= top < (2 * one) * whole + 2 * one) by (nonlinear_arith)
        requires
            whole == top / (2 * one),
            one > 0,
    ;
    assert((2 * one) * whole == 2 * (one * whole)) by (nonlinear_arith);
    assert(whole <= u) by (nonlinear_arith)
        requires
            2 * (one * whole) <= 2 * (u * one) + 0x2_0000 + one,
            one >= 0x40_0000,
    ;
    assert(whole >= 0) by (nonlinear_arith)
        requires
            top < 2 * (one * whole) + 2 * one,
            top >= 0,
            one > 0,
    ;
    assert(ratio::cells(u, r) == whole);
}

/// How far a share is from the exact quotient.
proof fn lemma_share(a: nat, b: nat)
    requires
        1 <= a <= b,
        b < 0x100_0000,
    ensures
        ({
            let r = ratio::share(a, b);
            let p = pow2(r.shift as nat) as int;
            &&& -b <= 2 * (a * p - b * r.mant) <= b
            &&& p >= 0x40_0000
            &&& r.mant < 0x100_0000
            &&& r.mant <= p
        }),
{
    ratio::small_counts_are_exact(a, b);
    let s = ratio::doublings(a as int, b as int);
    let big = pow2(s) as int;
    lemma_doublings(a as int, b as int);
    lemma_pow2_pos(s);
    lemma2_to64();
    lemma2_to64_rest();
    assert(a * big == a * pow2(s));
    assert(big >= 0x80_0000) by (nonlinear_arith)
        requires
            a * big >= 0x80_0000 * b,
            1 <= a <= b,
    ;
    assert(s < 48) by {
        if s >= 48 {
            if s > 48 {
                lemma_pow2_strictly_increases(48, s);
            }
            assert(big >= 0x1_0000_0000_0000);
            assert(a * big >= 0x1_0000_0000_0000) by (nonlinear_arith)
                requires
                    big >= 0x1_0000_0000_0000,
                    a >= 1,
            ;
            assert(false);
        }
    }
    assert(s > 0);
    lemma_pow2_unfold(s);
    let m = ratio::nearest_even(a * big, b as int);
    lemma_nearest(a * big, b as int);
    let r = ratio::share(a, b);
    assert(r == ratio::carry(m, s as int));
    assert(0 <= m <= 0x100_0000 && m <= big) by (nonlinear_arith)
        requires
            -b <= 2 * (a * big - b * m) <= b,
            0x80_0000 * b <= a * big < 0x100_0000 * b,
            1 <= a <= b,
            big > 0,
    ;
    let p = pow2(r.shift as nat) as int;
    let t = r.mant as int;
    if m == 0x100_0000 {
        assert(2 * p == big && 2 * t == m);
        assert(a * big == 2 * (a * p)) by (nonlinear_arith)
            requires
                2 * p == big,
        ;
        assert(b * m == 2 * (b * t)) by (nonlinear_arith)
            requires
                2 * t == m,
        ;
    } else {
        assert(p == big && t == m);
    }
    assert(-b <= 2 * (a * p - b * t) <= b);
    assert(p >= 0x40_0000);
}

/// The cells that `a` of `b` parts get of `u` are less than one cell off from
/// their exact share.
pub proof fn shares_are_in_proportion(u: nat, a: nat, b: nat)
    requires
        u <= 0xffff,
        1 <= a <= b,
        b < 0x100_0000,
    ensures
        -b < b * ratio::cells(u, ratio::share(a, b)) - u * a < b,
{
    lemma_share(a, b);
    let r = ratio::share(a, b);
    let p = pow2(r.shift as nat) as int;
    let t = r.mant as int;
    lemma_cells(u, r);
    let c = ratio::cells(u, r) as int;
    let q = p * c;
    let w = u * t;
    // both errors over the common denominator
    assert(-(b * (p + 0x2_0000)) <= 2 * (b * q) - 2 * (b * w) <= b * (p + 0x2_0000)) by (nonlinear_arith)
        requires
            -(p + 0x2_0000) <= 2 * q - 2 * w <= p + 0x2_0000,
            b >= 1,
    ;
    assert(-(u * b) <= 2 * (u * (a * p)) - 2 * (u * (b * t)) <= u * b) by (nonlinear_arith)
        requires
            -b <= 2 * (a * p - b * t) <= b,
            u >= 0,
    ;
    assert(b * w == u * (b * t)) by (nonlinear_arith)
        requires
            w == u * t,
    ;
    assert(b * q - u * (a * p) == p * (b * c - u * a)) by (nonlinear_arith)
        requires
            q == p * c,
    ;
    let d = b * c - u * a;
    assert(u * b <= 0x1_0000 * b) by (nonlinear_arith)
        requires
            u <= 0xffff,
    ;
    assert(b * (p + 0x2_0000) == b * p + 0x2_0000 * b) by (nonlinear_arith);
    assert(-b < d < b) by (nonlinear_arith)
        requires
            -(b * p + 0x3_0000 * b) <= 2 * (p * d) <= b * p + 0x3_0000 * b,
            p >= 0x40_0000,
            b >= 1,
    ;
}

/// `n` of `u` cells come to exactly `n` cells.
pub proof fn shares_of_cells_are_exact(u: nat, n: nat)
    requires
        1 <= n <= u,
        u <= 0xffff,
    ensures
        ratio::cells(u, ratio::share(n, u)) == n,
{
    shares_are_in_proportion(u, n, u);
    let c = ratio::cells(u, ratio::share(n, u)) as int;
    assert(c == n) by (nonlinear_arith)
        requires
            -u < u * c - u * n < u,
            u > 0,
    ;
}

/// A share between one ninth and eight ninths is not changed by keeping it
/// between one tenth and nine tenths.
pub proof fn middle_shares_stay(n: nat, u: nat)
    requires
        1 <= n <= u,
        u <= 0xffff,
        u <= 9 * n,
        9 * n <= 8 * u,
    ensures
        ratio::clamp(ratio::share(n, u)) == ratio::share(n, u),
{
    lemma_share(n, u);
    lemma2_to64();
    let r = ratio::share(n, u);
    let p = pow2(r.shift as nat) as int;
    let t = r.mant as int;
    assert(pow2(27) == 0x800_0000);
    assert(pow2(24) == 0x100_0000);
    assert(9 * t + 5 >= p) by (nonlinear_arith)
        requires
            -u <= 2 * (n * p - u * t) <= u,
            u <= 9 * n,
            u >= 1,
            p >= 0,
    ;
    assert(9 * t <= 8 * p + 5) by (nonlinear_arith)
        requires
            -u <= 2 * (n * p - u * t) <= u,
            9 * n <= 8 * u,
            u >= 1,
            p >= 0,
    ;
    let lo = ratio::low();
    let hi = ratio::high();
    assert(r.mant * pow2(lo.shift as nat) == t * 0x800_0000) by (nonlinear_arith)
        requires
            pow2(lo.shift as nat) == 0x800_0000,
            t == r.mant as int,
    ;
    assert(r.mant * pow2(hi.shift as nat) == t * 0x100_0000) by (nonlinear_arith)
        requires
            pow2(hi.shift as nat) == 0x100_0000,
            t == r.mant as int,
    ;
    assert(lo.mant * pow2(r.shift as nat) == 13_421_773 * p);
    assert(hi.mant * pow2(r.shift as nat) == 15_099_494 * p);
}

// ─── Moving a ratio ────────────────────────────────────────

/// `a` is no larger than `b`, as numbers.
pub open spec fn no_larger(a: Ratio, b: Ratio) -> bool {
    a.mant * pow2(b.shift as nat) <= b.mant * pow2(a.shift as nat)
}

/// `q` is the number `v / 2^s`.
spec fn is_over(q: Ratio, v: int, s: nat) -> bool {
    q.mant * pow2(s) == v * pow2(q.shift as nat)
}

proof fn lemma_order(p: Ratio, a: int, q: Ratio, b: int, s: nat)
    requires
        is_over(p, a, s),
        is_over(q, b, s),
        a <= b,
    ensures
        no_larger(p, q),
{
    let one = pow2(s) as int;
    let x = pow2(p.shift as nat) as int;
    let y = pow2(q.shift as nat) as int;
    let m = p.mant as int;
    let n = q.mant as int;
    lemma_pow2_pos(s);
    lemma_pow2_pos(p.shift as nat);
    lemma_pow2_pos(q.shift as nat);
    assert(m * one == a * x);
    assert(n * one == b * y);
    assert((m * y) * one == (a * x) * y) by (nonlinear_arith)
        requires
            m * one == a * x,
    ;
    assert((n * x) * one == (b * y) * x) by (nonlinear_arith)
        requires
            n * one == b * y,
    ;
    assert((a * x) * y <= (b * y) * x) by (nonlinear_arith)
        requires
            a <= b,
            x > 0,
            y > 0,
    ;
    assert(m * y <= n * x) by (nonlinear_arith)
        requires
            (m * y) * one <= (n * x) * one,
            one > 0,
    ;
}

/// A number of at most 24 binary digits that is not above `n` is not above the
/// ratio that `n` is rounded to, and one that is not below `n` is not below it.
proof fn lemma_pack(n: nat, s: nat, mant: int, j: nat) -> (v: int)
    requires
        0 < n,
        n < pow2(s),
        s <= 200,
        0 <= mant < 0x100_0000,
    ensures
        is_over(ratio::pack(n, s as int), v, s),
        mant * pow2(j) <= n ==> mant * pow2(j) <= v,
        mant * pow2(j) >= n ==> mant * pow2(j) >= v,
{
    let k = ratio::halvings(n);
    let q = ratio::pack(n, s as int);
    lemma2_to64();
    if k > 0 {
        let unit = pow2(k) as int;
        let m = ratio::nearest_even(n as int, unit);
        let a = mant * pow2(j);
        lemma_pow2_pos(k);
        lemma_pow2_pos(j);
        lemma_halvings(n);
        lemma_halvings_above(n);
        lemma_nearest(n as int, unit);
        lemma_pow2_adds(23, k);
        assert(k + 23 < s) by {
            if s <= k + 23 {
                if s < k + 23 {
                    lemma_pow2_strictly_increases(s, k + 23);
                }
                assert(false);
            }
        }
        assert(0x80_0000 <= m <= 0x100_0000) by (nonlinear_arith)
            requires
                -unit <= 2 * (n - unit * m) <= unit,
                0x80_0000 * unit <= n < 0x100_0000 * unit,
                unit > 0,
        ;
        let v = unit * m;
        if m == 0x100_0000 {
            let t = (s - k - 1) as nat;
            lemma_pow2_adds(k, t);
            lemma_pow2_unfold(s);
            assert(q.mant == 0x80_0000 && q.shift == t);
            assert(pow2(s) == 2 * pow2((s - 1) as nat));
            assert(pow2((s - 1) as nat) == pow2(k) * pow2(t));
            assert(0x80_0000 * pow2(s) == v * pow2(t)) by (nonlinear_arith)
                requires
                    pow2(s) == 2 * (unit * pow2(t)),
                    v == unit * 0x100_0000,
            ;
        } else {
            let t = (s - k) as nat;
            lemma_pow2_adds(k, t);
            assert(q.mant == m && q.shift == t);
            assert(m * pow2(s) == v * pow2(t)) by (nonlinear_arith)
                requires
                    pow2(s) == unit * pow2(t),
                    v == unit * m,
            ;
        }
        if j >= k {
            let w = pow2((j - k) as nat) as int;
            lemma_pow2_adds(k, (j - k) as nat);
            let c = mant * w;
            assert(a == unit * c) by (nonlinear_arith)
                requires
                    a == mant * pow2(j),
                    pow2(j) == unit * w,
                    c == mant * w,
            ;
            if a <= n {
                assert(c <= m) by (nonlinear_arith)
                    requires
                        unit * c <= n,
                        2 * (n - unit * m) <= unit,
                        unit > 0,
                ;
                assert(unit * c <= unit * m) by (nonlinear_arith)
                    requires
                        c <= m,
                        unit > 0,
                ;
            }
            if a >= n {
                assert(c >= m) by (nonlinear_arith)
                    requires
                        unit * c >= n,
                        -unit <= 2 * (n - unit * m),
                        unit > 0,
                ;
                assert(unit * c >= unit * m) by (nonlinear_arith)
                    requires
                        c >= m,
                        unit > 0,
                ;
            }
        } else {
            // such a number is below the smallest that is rounded
            if j + 1 < k {
                lemma_pow2_strictly_increases(j + 1, k);
            }
            lemma_pow2_unfold(j + 1);
            assert(2 * pow2(j) <= unit);
            assert(a < 0x80_0000 * unit) by (nonlinear_arith)
                requires
                    a == mant * pow2(j),
                    2 * pow2(j) <= unit,
                    0 <= mant < 0x100_0000,
                    pow2(j) > 0,
            ;
            assert(0x80_0000 * unit <= v) by (nonlinear_arith)
                requires
                    v == unit * m,
                    m >= 0x80_0000,
                    unit > 0,
            ;
        }
        v
    } else {
        let d = ratio::doublings(n as int, 1);
        assert(n < 0x100_0000);
        lemma_doublings_from(n as int, 1);
        lemma_pow2_adds(s, d);
        lemma_pow2_pos(d);
        assert(d < 24) by {
            if d >= 24 {
                if d > 24 {
                    lemma_pow2_strictly_increases(24, d);
                }
                assert(n * pow2(d) >= 0x100_0000) by (nonlinear_arith)
                    requires
                        n >= 1,
                        pow2(d) >= 0x100_0000,
                ;
            }
        }
        assert(q.mant == n * pow2(d) && q.shift == s + d);
        assert((n * pow2(d)) * pow2(s) == n * pow2(s + d)) by (nonlinear_arith)
            requires
                pow2(s + d) == pow2(s) * pow2(d),
        ;
        n as int
    }
}

proof fn lemma_halvings_above(n: nat)
    ensures
        n < 0x100_0000 * pow2(ratio::halvings(n)),
    decreases n,
{
    lemma2_to64();
    if n >= 0x100_0000 {
        lemma_halvings_above(n / 2);
        lemma_pow2_unfold(ratio::halvings(n));
    }
}

/// Moving a ratio up never makes it smaller, and moving it down never makes it
/// larger, where it lies between one tenth and nine tenths. There it stays.
pub proof fn nudges_go_their_way(r: Ratio, d: Ratio)
    requires
        r.wf(),
        d.wf(),
        no_larger(ratio::low(), r),
        no_larger(r, ratio::high()),
    ensures
        no_larger(r, ratio::nudged(r, d, true)),
        no_larger(ratio::nudged(r, d, false), r),
{
    lemma_nudge(r, d, true);
    lemma_nudge(r, d, false);
}

proof fn lemma_nudge(r: Ratio, d: Ratio, up: bool)
    requires
        r.wf(),
        d.wf(),
        no_larger(ratio::low(), r),
        no_larger(r, ratio::high()),
    ensures
        up ==> no_larger(r, ratio::nudged(r, d, up)),
        !up ==> no_larger(ratio::nudged(r, d, up), r),
{
    let (a, b, s) = ratio::aligned(r, d);
    let n = if up {
        a + b
    } else {
        a - b
    };
    let j = (s - r.shift) as nat;
    let one = pow2(s) as int;
    lemma2_to64();
    lemma_pow2_pos(s);
    lemma_pow2_pos((s - d.shift) as nat);
    lemma_pow2_adds(j, r.shift as nat);
    assert(b >= 0) by (nonlinear_arith)
        requires
            b == d.mant * pow2((s - d.shift) as nat),
    ;
    assert(is_over(r, a, s)) by {
        assert(r.mant * pow2(s) == (r.mant * pow2(j)) * pow2(r.shift as nat)) by (nonlinear_arith)
            requires
                pow2(s) == pow2(j) * pow2(r.shift as nat),
        ;
    }
    let lo = ratio::low();
    let hi = ratio::high();
    assert(pow2(27) == 0x800_0000 && pow2(24) == 0x100_0000);
    let x = pow2(r.shift as nat) as int;
    lemma_pow2_pos(r.shift as nat);
    if n * pow2(lo.shift as nat) <= lo.mant * pow2(s) {
        if up {
            assert(r.mant * 0x800_0000 <= 13_421_773 * x) by (nonlinear_arith)
                requires
                    r.mant * one == a * x,
                    a * 0x800_0000 <= 13_421_773 * one,
                    one > 0,
                    x > 0,
            ;
        }
    } else if n * pow2(hi.shift as nat) >= hi.mant * pow2(s) {
        if !up {
            assert(15_099_494 * x <= r.mant * 0x100_0000) by (nonlinear_arith)
                requires
                    r.mant * one == a * x,
                    a * 0x100_0000 >= 15_099_494 * one,
                    one > 0,
                    x > 0,
            ;
        }
    } else {
        assert(0 < n < one);
        let q = ratio::nudged(r, d, up);
        let v = lemma_pack(n as nat, s, r.mant as int, j);
        if up {
            lemma_order(r, a, q, v, s);
        } else {
            lemma_order(q, v, r, a, s);
        }
    }
}

} // verus!
