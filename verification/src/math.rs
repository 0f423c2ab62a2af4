//! Exact plane arithmetic: fixed-point vectors, integer square roots and the
//! unit-direction offset used to apply margins.

use vstd::prelude::*;

verus! {

use vstd::arithmetic::div_mod::{lemma_div_is_ordered, lemma_div_multiples_vanish};
use vstd::arithmetic::mul::lemma_mul_upper_bound;

/// A plane vector (or point) with exact integer coordinates.
#[derive(Clone, Copy, PartialEq, Eq, Structural, Debug)]
pub struct Vec2 {
    pub x: i64,
    pub y: i64,
}

/// The zero vector.
pub open spec fn vec2_zero() -> Vec2 {
    Vec2 { x: 0, y: 0 }
}

/// Whether a vector is the zero vector.
pub open spec fn vec2_is_zero(v: Vec2) -> bool {
    v.x == 0 && v.y == 0
}

/// Componentwise sum, meaningful when both components stay in range.
pub open spec fn vec2_add(a: Vec2, b: Vec2) -> Vec2 {
    Vec2 { x: (a.x + b.x) as i64, y: (a.y + b.y) as i64 }
}

/// The squared Euclidean length of a vector.
pub open spec fn norm2(v: Vec2) -> int {
    v.x * v.x + v.y * v.y
}

/// The absolute value of an integer.
pub open spec fn abs_spec(x: int) -> int {
    if x >= 0 {
        x
    } else {
        -x
    }
}

/// `r` is the integer square root of `n`: the largest integer whose square
/// does not exceed `n`.
pub open spec fn is_sqrt(n: int, r: int) -> bool {
    &&& 0 <= r
    &&& r * r <= n
    &&& n < (r + 1) * (r + 1)
}

/// The integer square root of a non-negative integer.
pub open spec fn isqrt_spec(n: int) -> int {
    choose|r: int| is_sqrt(n, r)
}

/// An integer square root exists for every non-negative integer, so
/// `isqrt_spec` denotes it.
pub proof fn lemma_isqrt_exists(n: int)
    requires
        n >= 0,
    ensures
        is_sqrt(n, isqrt_spec(n)),
    decreases n,
{
    if n == 0 {
        assert(is_sqrt(0, 0));
    } else {
        lemma_isqrt_exists(n - 1);
        let r = isqrt_spec(n - 1);
        if (r + 1) * (r + 1) <= n {
            assert(n - 1 < (r + 1) * (r + 1));
            assert(n == (r + 1) * (r + 1));
            assert((r + 1 + 1) * (r + 1 + 1) > n) by (nonlinear_arith)
                requires
                    r >= 0,
                    n == (r + 1) * (r + 1),
            ;
            assert(is_sqrt(n, r + 1));
        } else {
            assert(is_sqrt(n, r));
        }
    }
}

/// The integer square root is unique.
pub proof fn lemma_isqrt_unique(n: int, r1: int, r2: int)
    requires
        is_sqrt(n, r1),
        is_sqrt(n, r2),
    ensures
        r1 == r2,
{
    if r1 < r2 {
        assert((r1 + 1) * (r1 + 1) <= r2 * r2) by (nonlinear_arith)
            requires
                0 <= r1 + 1 <= r2,
        ;
    }
    if r2 < r1 {
        assert((r2 + 1) * (r2 + 1) <= r1 * r1) by (nonlinear_arith)
            requires
                0 <= r2 + 1 <= r1,
        ;
    }
}

/// Squaring is monotone, so a square bounded by `n` has its root bounded by
/// the integer square root of `n`.
pub proof fn lemma_isqrt_dominates(n: int, c: int)
    requires
        n >= 0,
        c >= 0,
        c * c <= n,
    ensures
        c <= isqrt_spec(n),
{
    lemma_isqrt_exists(n);
    let r = isqrt_spec(n);
    if c > r {
        assert((r + 1) * (r + 1) <= c * c) by (nonlinear_arith)
            requires
                0 <= r + 1 <= c,
        ;
    }
}

/// The integer square root, by bisection.
pub fn isqrt(n: u128) -> (r: u64)
    ensures
        r as int == isqrt_spec(n as int),
        is_sqrt(n as int, r as int),
{
    let mut lo: u128 = 0;
    let mut hi: u128 = 0x1_0000_0000_0000_0000;
    proof {
        assert((0x1_0000_0000_0000_0000 as int) * (0x1_0000_0000_0000_0000 as int) > u128::MAX as int)
            by (nonlinear_arith);
    }
    while lo + 1 < hi
        invariant
            lo < hi <= 0x1_0000_0000_0000_0000,
            (lo as int) * (lo as int) <= n as int,
            (n as int) < (hi as int) * (hi as int),
        decreases hi - lo,
    {
        let mid = lo + (hi - lo) / 2;
        assert(lo < mid < hi);
        proof {
            lemma_mul_upper_bound(mid as int, 0xffff_ffff_ffff_ffff, mid as int, 0xffff_ffff_ffff_ffff);
            assert((0xffff_ffff_ffff_ffff as int) * (0xffff_ffff_ffff_ffff as int) <= u128::MAX as int)
                by (nonlinear_arith);
        }
        if mid * mid <= n {
            lo = mid;
        } else {
            hi = mid;
        }
    }
    proof {
        assert(hi == lo + 1);
        assert(is_sqrt(n as int, lo as int));
        lemma_isqrt_exists(n as int);
        lemma_isqrt_unique(n as int, lo as int, isqrt_spec(n as int));
    }
    lo as u64
}

/// The absolute value of a machine integer, exact even at the minimum value.
pub fn abs64(x: i64) -> (r: u64)
    ensures
        r as int == abs_spec(x as int),
{
    if x >= 0 {
        x as u64
    } else {
        let wide: i128 = -(x as i128);
        wide as u64
    }
}

/// The length of a direction vector, rounded down.
pub open spec fn dir_len(d: Vec2) -> int {
    isqrt_spec(norm2(d))
}

/// One coordinate of the margin offset: `c * m / len`, rounded toward zero.
pub open spec fn scaled_coord(c: int, m: int, len: int) -> int {
    if c >= 0 {
        (c * m) / len
    } else {
        -(((-c) * m) / len)
    }
}

/// The margin offset: the direction `d`, normalized and scaled by `m`, with
/// each coordinate rounded toward zero. This is the exact-arithmetic
/// counterpart of `normalize(d) * m`: the direction's length is rounded
/// down before dividing, so each coordinate of the offset stays within
/// `m` in magnitude, and directions given at coarse resolution may see
/// the offset rounded up to that bound.
pub open spec fn margin_offset_spec(d: Vec2, m: i64) -> Vec2 {
    Vec2 {
        x: scaled_coord(d.x as int, m as int, dir_len(d)) as i64,
        y: scaled_coord(d.y as int, m as int, dir_len(d)) as i64,
    }
}

/// A zero margin gives a zero offset, whatever the (non-zero) direction.
pub proof fn lemma_margin_offset_zero(d: Vec2)
    requires
        !vec2_is_zero(d),
    ensures
        margin_offset_spec(d, 0) == vec2_zero(),
{
    lemma_coord_le_len(d);
    let len = dir_len(d);
    assert((d.x as int) * 0 == 0);
    assert((-(d.x as int)) * 0 == 0);
    assert((d.y as int) * 0 == 0);
    assert((-(d.y as int)) * 0 == 0);
    assert(0int / len == 0) by {
        lemma_div_multiples_vanish(0, len);
        assert(len * 0 == 0);
    }
}

/// The squared norm dominates each squared coordinate, so each coordinate's
/// magnitude is bounded by the rounded length.
proof fn lemma_coord_le_len(d: Vec2)
    requires
        !vec2_is_zero(d),
    ensures
        dir_len(d) >= 1,
        abs_spec(d.x as int) <= dir_len(d),
        abs_spec(d.y as int) <= dir_len(d),
{
    let ax = abs_spec(d.x as int);
    let ay = abs_spec(d.y as int);
    assert(norm2(d) == ax * ax + ay * ay) by (nonlinear_arith)
        requires
            ax == abs_spec(d.x as int),
            ay == abs_spec(d.y as int),
            (d.x as int) * (d.x as int) + (d.y as int) * (d.y as int) == norm2(d),
    ;
    assert(ax * ax >= 0 && ay * ay >= 0) by (nonlinear_arith);
    lemma_isqrt_dominates(norm2(d), ax);
    lemma_isqrt_dominates(norm2(d), ay);
    if ax >= 1 {
        assert(ax * ax >= 1) by (nonlinear_arith)
            requires
                ax >= 1,
        ;
        lemma_isqrt_dominates(norm2(d), 1);
    } else {
        assert(ay >= 1);
        assert(ay * ay >= 1) by (nonlinear_arith)
            requires
                ay >= 1,
        ;
        lemma_isqrt_dominates(norm2(d), 1);
    }
}

/// A coordinate bounded by the length keeps the scaled coordinate bounded by
/// the margin.
proof fn lemma_scaled_coord_bounded(c: int, m: int, len: int)
    requires
        m >= 0,
        len >= 1,
        abs_spec(c) <= len,
    ensures
        abs_spec(scaled_coord(c, m, len)) <= m,
        c >= 0 ==> scaled_coord(c, m, len) >= 0,
        c < 0 ==> scaled_coord(c, m, len) <= 0,
{
    let a = abs_spec(c);
    lemma_mul_upper_bound(a, len, m, m);
    lemma_div_is_ordered(a * m, len * m, len);
    lemma_div_multiples_vanish(m, len);
    assert(len * m == m * len) by (nonlinear_arith);
    assert((a * m) / len <= m);
    assert(a * m >= 0) by (nonlinear_arith)
        requires
            a >= 0,
            m >= 0,
    ;
    assert((a * m) / len >= 0) by {
        vstd::arithmetic::div_mod::lemma_div_pos_is_pos(a * m, len);
    }
}

/// Computes the margin offset `normalize(dir) * margin` in exact arithmetic.
pub fn margin_offset(dir: &Vec2, margin: i64) -> (r: Vec2)
    requires
        margin >= 0,
        !vec2_is_zero(*dir),
    ensures
        r == margin_offset_spec(*dir, margin),
        abs_spec(r.x as int) <= margin,
        abs_spec(r.y as int) <= margin,
{
    proof {
        lemma_coord_le_len(*dir);
    }
    let ax = abs64(dir.x);
    let ay = abs64(dir.y);
    proof {
        lemma_mul_upper_bound(ax as int, 0x8000_0000_0000_0000, ax as int, 0x8000_0000_0000_0000);
        lemma_mul_upper_bound(ay as int, 0x8000_0000_0000_0000, ay as int, 0x8000_0000_0000_0000);
        assert(2 * ((0x8000_0000_0000_0000 as int) * (0x8000_0000_0000_0000 as int)) <= u128::MAX as int)
            by (nonlinear_arith);
    }
    let n2: u128 = (ax as u128) * (ax as u128) + (ay as u128) * (ay as u128);
    proof {
        assert(n2 as int == norm2(*dir)) by (nonlinear_arith)
            requires
                ax as int == abs_spec(dir.x as int),
                ay as int == abs_spec(dir.y as int),
                n2 as int == (ax as int) * (ax as int) + (ay as int) * (ay as int),
                norm2(*dir) == (dir.x as int) * (dir.x as int) + (dir.y as int) * (dir.y as int),
        ;
    }
    let len: u64 = isqrt(n2);
    assert(len as int == dir_len(*dir));
    assert(len >= 1);
    proof {
        lemma_mul_upper_bound(ax as int, 0x8000_0000_0000_0000, margin as int, 0x8000_0000_0000_0000);
        lemma_mul_upper_bound(ay as int, 0x8000_0000_0000_0000, margin as int, 0x8000_0000_0000_0000);
        lemma_scaled_coord_bounded(dir.x as int, margin as int, len as int);
        lemma_scaled_coord_bounded(dir.y as int, margin as int, len as int);
    }
    let mx: u128 = (ax as u128) * (margin as u128) / (len as u128);
    let my: u128 = (ay as u128) * (margin as u128) / (len as u128);
    proof {
        if dir.x >= 0 {
            assert(scaled_coord(dir.x as int, margin as int, len as int) == mx as int);
        } else {
            assert(scaled_coord(dir.x as int, margin as int, len as int) == -(mx as int));
        }
        if dir.y >= 0 {
            assert(scaled_coord(dir.y as int, margin as int, len as int) == my as int);
        } else {
            assert(scaled_coord(dir.y as int, margin as int, len as int) == -(my as int));
        }
        assert(mx <= margin as u128);
        assert(my <= margin as u128);
    }
    let ox: i64 = if dir.x >= 0 {
        mx as i64
    } else {
        -(mx as i64)
    };
    let oy: i64 = if dir.y >= 0 {
        my as i64
    } else {
        -(my as i64)
    };
    Vec2 { x: ox, y: oy }
}

} // verus!
