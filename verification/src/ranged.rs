//! Fixed-point stat values and the arithmetic the engine does on them.
//!
//! Every stat value is a range `(min, max)` whose endpoints count millionths
//! of a point: `(1_500_000, 2_000_000)` is the range 1.5 .. 2, and a percent
//! stat of 50% is stored as `50_000_000`.  Endpoints are computed
//! independently.  Sums and products saturate at the bounds of `i64`, which
//! lie far beyond any value a build reaches.  A value multiplied by
//! percents (`flat x (1 + pct%) x (1 + more%)`) is taken exactly and
//! rounded once, down to a whole point where the engine floors it.
use vstd::prelude::*;

verus! {

/// A stat range `(min, max)`, each endpoint in millionths of a point.
pub type Ranged = (i64, i64);

/// One whole point, in millionths.
pub const UNIT: i64 = 1_000_000;

/// One hundred percent, in millionths of a percentage point.
pub const HUNDRED_PERCENT: i128 = 100_000_000i128;

/// The zero range.
pub open spec fn zero() -> Ranged {
    (0i64, 0i64)
}

/// `x` held to the range of `i64`.
pub open spec fn clamp(x: int) -> int {
    if x < i64::MIN {
        i64::MIN as int
    } else if x > i64::MAX {
        i64::MAX as int
    } else {
        x
    }
}

/// `n / d` rounded to the nearest integer, halves away from zero.
pub open spec fn round_div(n: int, d: int) -> int
    recommends
        d > 0,
{
    if n >= 0 {
        (n + d / 2) / d
    } else {
        -((-n + d / 2) / d)
    }
}

/// Saturating sum of two endpoints.
pub open spec fn add_end(a: int, b: int) -> int {
    clamp(a + b)
}

/// Endpoint-wise saturating sum of two ranges.
pub open spec fn range_add(a: Ranged, b: Ranged) -> Ranged {
    (add_end(a.0 as int, b.0 as int) as i64, add_end(a.1 as int, b.1 as int) as i64)
}

/// `(1 + a%) * (1 + m%) - 1` as a percent, to the nearest millionth:
/// `a + m + a * m / 100%`.
pub open spec fn combine_end(a: int, m: int) -> int {
    clamp(a + m + round_div(a * m, 100_000_000))
}

/// Additive percent `add` and multiplicative percent `more` folded into one
/// percent, endpoint by endpoint.
pub open spec fn combine(add: Ranged, more: Ranged) -> Ranged {
    (
        combine_end(add.0 as int, more.0 as int) as i64,
        combine_end(add.1 as int, more.1 as int) as i64,
    )
}

/// `v * (1 + pct%)`, to the nearest millionth.
pub open spec fn scale_end(v: int, pct: int) -> int {
    clamp(round_div(v * (100_000_000 + pct), 100_000_000))
}

/// `v` rounded down to a whole point.
pub open spec fn floor_end(v: int) -> int {
    clamp((v / 1_000_000) * 1_000_000)
}

/// `v / d` rounded down to a whole point (`d` in millionths, non-zero).
pub open spec fn floor_quotient_end(v: int, d: int) -> int {
    if d > 0 {
        clamp((v / d) * 1_000_000)
    } else {
        clamp(((-v) / (-d)) * 1_000_000)
    }
}

/// `pct%` of `v`, to the nearest millionth.
pub open spec fn pct_of_end(v: int, pct: int) -> int {
    clamp(round_div(v * pct, 100_000_000))
}

/// `base + per * rank` percent, with `rank` in millionths of a rank, to the
/// nearest millionth of a percentage point.
pub open spec fn rank_pct_end(base: int, per: int, rank: int) -> int {
    clamp(round_div(base * 1_000_000 + per * rank, 1_000_000))
}

/// `v * (1 + pct%) * (1 + more%)` as an exact product, in millionths times
/// `10^16`.
pub open spec fn twice_scaled(v: int, pct: int, more: int) -> int {
    v * (100_000_000 + pct) * (100_000_000 + more)
}

/// `v * (1 + pct%) * (1 + more%)` taken exactly and rounded once: down to a
/// whole point when `floor` is set, to the nearest millionth otherwise.
pub open spec fn exact_multiplied_end(v: int, pct: int, more: int, floor: bool) -> int {
    let x = twice_scaled(v, pct, more);
    if floor {
        clamp((x / 10_000_000_000_000_000_000_000) * 1_000_000)
    } else {
        clamp(round_div(x, 10_000_000_000_000_000))
    }
}

/// `v * per` where both are in millionths, to the nearest millionth.
pub open spec fn product_end(v: int, per: int) -> int {
    clamp(round_div(v * per, 1_000_000))
}

pub fn clamp_wide(x: i128) -> (r: i64)
    ensures
        r == clamp(x as int),
{
    if x < i64::MIN as i128 {
        i64::MIN
    } else if x > i64::MAX as i128 {
        i64::MAX
    } else {
        x as i64
    }
}

fn round_div_wide(n: i128, d: i128) -> (r: i128)
    requires
        0 < d <= 0x1_0000_0000_0000_0000_0000,
        -0x7000_0000_0000_0000_0000_0000_0000_0000 <= n <= 0x7000_0000_0000_0000_0000_0000_0000_0000,
    ensures
        r == round_div(n as int, d as int),
{
    if n >= 0 {
        (n + d / 2) / d
    } else {
        let p: i128 = -n;
        -((p + d / 2) / d)
    }
}

pub(crate) proof fn lemma_product_bound(a: int, b: int)
    requires
        -0x8000_0000_0000_0000 <= a <= 0x8000_0000_0000_0000,
        -0x8000_0000_0000_0000 - 0x1_0000_0000_0000 <= b <= 0x8000_0000_0000_0000 + 0x1_0000_0000_0000,
    ensures
        -0x7000_0000_0000_0000_0000_0000_0000_0000 <= a * b <= 0x7000_0000_0000_0000_0000_0000_0000_0000,
{
    let ba: int = if a >= 0 { a } else { -a };
    let bb: int = if b >= 0 { b } else { -b };
    assert(ba * bb <= 0x8000_0000_0000_0000 * (0x8000_0000_0000_0000 + 0x1_0000_0000_0000)) by (nonlinear_arith)
        requires
            0 <= ba <= 0x8000_0000_0000_0000,
            0 <= bb <= 0x8000_0000_0000_0000 + 0x1_0000_0000_0000,
    ;
    assert(a * b == ba * bb || a * b == -(ba * bb)) by (nonlinear_arith)
        requires
            ba == a || ba == -a,
            bb == b || bb == -b,
    ;
}

proof fn lemma_i64_product_bound(a: int, b: int)
    requires
        -0x8000_0000_0000_0000 <= a <= 0x8000_0000_0000_0000,
        -0x8000_0000_0000_0000 <= b <= 0x8000_0000_0000_0000,
    ensures
        -0x4000_0000_0000_0000_0000_0000_0000_0000 <= a * b <= 0x4000_0000_0000_0000_0000_0000_0000_0000,
{
    let ba: int = if a >= 0 { a } else { -a };
    let bb: int = if b >= 0 { b } else { -b };
    assert(ba * bb <= 0x8000_0000_0000_0000 * 0x8000_0000_0000_0000) by (nonlinear_arith)
        requires
            0 <= ba <= 0x8000_0000_0000_0000,
            0 <= bb <= 0x8000_0000_0000_0000,
    ;
    assert(a * b == ba * bb || a * b == -(ba * bb)) by (nonlinear_arith)
        requires
            ba == a || ba == -a,
            bb == b || bb == -b,
    ;
}

/// True when both endpoints are zero.
pub fn ranged_is_zero(v: Ranged) -> (b: bool)
    ensures
        b == (v == zero()),
{
    v.0 == 0 && v.1 == 0
}

/// Endpoint-wise sum of two ranges.
pub fn ranged_add(a: Ranged, b: Ranged) -> (r: Ranged)
    ensures
        r == range_add(a, b),
{
    (clamp_wide(a.0 as i128 + b.0 as i128), clamp_wide(a.1 as i128 + b.1 as i128))
}

fn combine_endpoint(a: i64, m: i64) -> (r: i64)
    ensures
        r == combine_end(a as int, m as int),
{
    proof {
        lemma_product_bound(a as int, m as int);
    }
    let prod: i128 = a as i128 * m as i128;
    let rounded = round_div_wide(prod, HUNDRED_PERCENT);
    clamp_wide(a as i128 + m as i128 + rounded)
}

/// Folds an additive percent and a multiplicative ("more") percent into one
/// percent: `((1 + add%) * (1 + more%) - 1)`, to the nearest millionth of a
/// percentage point, each endpoint on its own.
pub fn combine_additive_and_more(add: Ranged, more: Ranged) -> (r: Ranged)
    ensures
        r == combine(add, more),
{
    (combine_endpoint(add.0, more.0), combine_endpoint(add.1, more.1))
}

/// `v * (1 + pct%)` for one endpoint, to the nearest millionth.
pub fn scale_endpoint(v: i64, pct: i64) -> (r: i64)
    ensures
        r == scale_end(v as int, pct as int),
{
    let factor: i128 = HUNDRED_PERCENT + pct as i128;
    proof {
        lemma_product_bound(v as int, factor as int);
    }
    let prod: i128 = v as i128 * factor;
    clamp_wide(round_div_wide(prod, HUNDRED_PERCENT))
}

/// `v` rounded down to a whole point.
pub fn floor_endpoint(v: i64) -> (r: i64)
    ensures
        r == floor_end(v as int),
{
    let w: i128 = v as i128;
    let u: i128 = UNIT as i128;
    if w >= 0 {
        let q: i128 = w / u;
        proof {
            assert(0 <= q * u <= w) by (nonlinear_arith)
                requires
                    q == w / u,
                    w >= 0,
                    u == 1_000_000,
            ;
        }
        clamp_wide(q * u)
    } else {
        let p: i128 = -w;
        let c: i128 = (p + u - 1) / u;
        proof {
            assert(c == -(w / u)) by (nonlinear_arith)
                requires
                    p == -w,
                    p > 0,
                    c as int == (p + u - 1) as int / (u as int),
                    u == 1_000_000,
            {
                vstd::arithmetic::div_mod::lemma_fundamental_div_mod(w as int, u as int);
                vstd::arithmetic::div_mod::lemma_fundamental_div_mod((p + u - 1) as int, u as int);
            }
            assert(0 <= c * u <= p + u) by (nonlinear_arith)
                requires
                    c as int == (p + u - 1) as int / (u as int),
                    p > 0,
                    p <= 0x8000_0000_0000_0000,
                    u == 1_000_000,
            ;
        }
        clamp_wide(-(c * u))
    }
}

/// `n / d` rounded down.
pub fn floor_div_wide(n: i128, d: i128) -> (r: i128)
    requires
        0 < d <= 0x1_0000_0000_0000_0000_0000,
        -0x7000_0000_0000_0000_0000_0000_0000_0000 <= n <= 0x7000_0000_0000_0000_0000_0000_0000_0000,
    ensures
        r == n as int / d as int,
        -0x7000_0000_0000_0000_0000_0000_0000_0000 <= r <= 0x7000_0000_0000_0000_0000_0000_0000_0000,
{
    proof {
        vstd::arithmetic::div_mod::lemma_fundamental_div_mod(n as int, d as int);
        assert(0 <= (n as int) % (d as int) < d);
        assert(-0x7000_0000_0000_0000_0000_0000_0000_0000 <= n as int / d as int
            <= 0x7000_0000_0000_0000_0000_0000_0000_0000) by (nonlinear_arith)
            requires
                n as int == d * (n as int / d as int) + (n as int) % (d as int),
                0 <= (n as int) % (d as int) < d,
                d >= 1,
                -0x7000_0000_0000_0000_0000_0000_0000_0000 <= n <= 0x7000_0000_0000_0000_0000_0000_0000_0000,
        ;
    }
    if n >= 0 {
        n / d
    } else {
        let p: i128 = -n;
        let c: i128 = (p + d - 1) / d;
        proof {
            assert(-c == n as int / d as int) by (nonlinear_arith)
                requires
                    p == -n,
                    p > 0,
                    d > 0,
                    c as int == (p + d - 1) as int / (d as int),
            {
                vstd::arithmetic::div_mod::lemma_fundamental_div_mod(n as int, d as int);
                vstd::arithmetic::div_mod::lemma_fundamental_div_mod((p + d - 1) as int, d as int);
            }
        }
        -c
    }
}

/// `pct%` of `v`, to the nearest millionth.
pub fn pct_of_endpoint(v: i64, pct: i64) -> (r: i64)
    ensures
        r == pct_of_end(v as int, pct as int),
{
    proof {
        lemma_product_bound(v as int, pct as int);
    }
    let prod: i128 = v as i128 * pct as i128;
    clamp_wide(round_div_wide(prod, HUNDRED_PERCENT))
}

/// `v * per` (both in millionths), to the nearest millionth.
pub fn product_endpoint(v: i64, per: i64) -> (r: i64)
    ensures
        r == product_end(v as int, per as int),
{
    proof {
        lemma_product_bound(v as int, per as int);
    }
    let prod: i128 = v as i128 * per as i128;
    clamp_wide(round_div_wide(prod, UNIT as i128))
}

/// `base + per * rank` percent for one rank endpoint (in millionths), to the
/// nearest millionth of a percentage point.
pub fn rank_pct_endpoint(base: i64, per: i64, rank: i64) -> (r: i64)
    ensures
        r == rank_pct_end(base as int, per as int, rank as int),
{
    proof {
        lemma_i64_product_bound(per as int, rank as int);
    }
    let n: i128 = base as i128 * 1_000_000 + per as i128 * rank as i128;
    clamp_wide(round_div_wide(n, UNIT as i128))
}

/// `v / d` rounded down to a whole point; `d` must not be zero.
pub fn floor_quotient_endpoint(v: i64, d: i64) -> (r: i64)
    requires
        d != 0,
    ensures
        r == floor_quotient_end(v as int, d as int),
{
    let (n, m): (i128, i128) = if d > 0 {
        (v as i128, d as i128)
    } else {
        (-(v as i128), -(d as i128))
    };
    let q = floor_div_wide(n, m);
    proof {
        assert(-0x1_0000_0000_0000_0000 <= q <= 0x1_0000_0000_0000_0000) by (nonlinear_arith)
            requires
                q == n as int / m as int,
                m >= 1,
                -0x1_0000_0000_0000_0000 <= n <= 0x1_0000_0000_0000_0000,
        {
            vstd::arithmetic::div_mod::lemma_fundamental_div_mod(n as int, m as int);
        }
    }
    clamp_wide(q * 1_000_000)
}

proof fn lemma_saturated_product(a: int, b: int, floor: bool)
    requires
        a * b > 0x4000_0000_0000_0000_0000_0000_0000_0000 || a * b < -0x4000_0000_0000_0000_0000_0000_0000_0000,
    ensures
        ((a < 0) == (b < 0)) ==> a * b > 0,
        ((a < 0) != (b < 0)) ==> a * b < 0,
        a * b > 0x4000_0000_0000_0000_0000_0000_0000_0000 ==> ((a * b) / 10_000_000_000_000_000_000_000)
            * 1_000_000 > i64::MAX && round_div(a * b, 10_000_000_000_000_000) > i64::MAX,
        a * b < -0x4000_0000_0000_0000_0000_0000_0000_0000 ==> ((a * b) / 10_000_000_000_000_000_000_000)
            * 1_000_000 < i64::MIN && round_div(a * b, 10_000_000_000_000_000) < i64::MIN,
{
    let x = a * b;
    if a == 0 || b == 0 {
        assert(a * b == 0) by (nonlinear_arith)
            requires
                a == 0 || b == 0,
        ;
    }
    assert(((a < 0) == (b < 0)) && a != 0 && b != 0 ==> a * b > 0) by (nonlinear_arith);
    assert(((a < 0) != (b < 0)) && a != 0 && b != 0 ==> a * b < 0) by (nonlinear_arith);
    let big: int = 0x4000_0000_0000_0000_0000_0000_0000_0000;
    let d1: int = 10_000_000_000_000_000_000_000;
    let d2: int = 10_000_000_000_000_000;
    if x > big {
        vstd::arithmetic::div_mod::lemma_div_is_ordered(big, x, d1);
        vstd::arithmetic::div_mod::lemma_div_is_ordered(big, x + d2 / 2, d2);
    }
    if x < -big {
        vstd::arithmetic::div_mod::lemma_div_is_ordered(x, -big, d1);
        vstd::arithmetic::div_mod::lemma_div_is_ordered(big, -x + d2 / 2, d2);
    }
}

/// `v * (1 + pct%) * (1 + more%)` for one endpoint, taken exactly and
/// rounded once: down to a whole point when `floor` is set, to the nearest
/// millionth otherwise.
pub fn exact_multiplied_endpoint(v: i64, pct: i64, more: i64, floor: bool) -> (r: i64)
    ensures
        r == exact_multiplied_end(v as int, pct as int, more as int, floor),
{
    proof {
        lemma_i64_product_bound(v as int, pct as int);
    }
    let a: i128 = v as i128 * 100_000_000 + v as i128 * pct as i128;
    let b: i128 = 100_000_000 + more as i128;
    proof {
        assert(a == v * (100_000_000 + pct)) by (nonlinear_arith)
            requires
                a == v * 100_000_000 + v * pct,
        ;
    }
    let lim: i128 = 0x4000_0000_0000_0000_0000_0000_0000_0000;
    let prod = a.checked_mul(b);
    let small = match prod {
        Some(x) => -lim <= x && x <= lim,
        None => false,
    };
    if small {
        let x = prod.unwrap();
        if floor {
            let q = floor_div_wide(x, 10_000_000_000_000_000_000_000);
            proof {
                assert(-0x1_0000_0000_0000_0000 <= q <= 0x1_0000_0000_0000_0000) by (nonlinear_arith)
                    requires
                        q == x as int / 10_000_000_000_000_000_000_000,
                        -0x4000_0000_0000_0000_0000_0000_0000_0000 <= x <= 0x4000_0000_0000_0000_0000_0000_0000_0000,
                {
                    vstd::arithmetic::div_mod::lemma_fundamental_div_mod(x as int, 10_000_000_000_000_000_000_000);
                }
            }
            clamp_wide(q * 1_000_000)
        } else {
            clamp_wide(round_div_wide(x, 10_000_000_000_000_000))
        }
    } else {
        proof {
            lemma_saturated_product(a as int, b as int, floor);
        }
        if (a < 0) == (b < 0) {
            i64::MAX
        } else {
            i64::MIN
        }
    }
}

} // verus!
