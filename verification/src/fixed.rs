//! Fixed-point scalar math for the velocity model.
//!
//! Velocity components are direction cosines held in thousandths
//! (milli-units): the unit vector pointing straight up is `(0, -1000)`.
//! This module provides truncating division, an integer square root, a
//! rational approximation of the sine, and unit-normalization of a velocity
//! vector, together with the bounds the physics engine relies on.

use vstd::arithmetic::div_mod::lemma_div_is_ordered;
use vstd::arithmetic::div_mod::lemma_div_multiples_vanish;
use vstd::arithmetic::div_mod::lemma_fundamental_div_mod;
use vstd::arithmetic::div_mod::lemma_mod_bound;
use vstd::prelude::*;

verus! {

/// One unit of velocity, in milli-units.
pub const VEL_SCALE: i32 = 1000;

/// Division rounding toward zero, as Rust's `/` on machine integers does,
/// for a positive divisor.  (The spec-level `/` rounds toward negative
/// infinity instead when the dividend is negative.)
pub open spec fn div_to_zero(a: int, d: int) -> int
    recommends
        d > 0,
{
    if a >= 0 {
        a / d
    } else {
        -((-a) / d)
    }
}

/// `|a|` for spec integers.
pub open spec fn abs_i(a: int) -> int {
    if a >= 0 {
        a
    } else {
        -a
    }
}

/// The floor of the square root of `n`.
pub open spec fn sqrt_floor(n: nat) -> nat
    decreases n,
{
    if n == 0 {
        0
    } else {
        let r = sqrt_floor((n - 1) as nat);
        if (r + 1) * (r + 1) <= n {
            r + 1
        } else {
            r
        }
    }
}

/// `sqrt_floor(n)` is the unique integer whose square is at most `n` while
/// the next square is beyond `n`.
pub proof fn lemma_sqrt_floor_bounds(n: nat)
    ensures
        sqrt_floor(n) * sqrt_floor(n) <= n,
        n < (sqrt_floor(n) + 1) * (sqrt_floor(n) + 1),
    decreases n,
{
    if n > 0 {
        lemma_sqrt_floor_bounds((n - 1) as nat);
        let r = sqrt_floor((n - 1) as nat);
        if (r + 1) * (r + 1) <= n {
            assert(sqrt_floor(n) == r + 1);
            assert(n == (r + 1) * (r + 1));
            assert(n < (sqrt_floor(n) + 1) * (sqrt_floor(n) + 1)) by (nonlinear_arith)
                requires
                    r >= 0,
                    sqrt_floor(n) == r + 1,
                    n == (r + 1) * (r + 1),
            ;
        } else {
            assert(sqrt_floor(n) == r);
            assert(n < (sqrt_floor(n) + 1) * (sqrt_floor(n) + 1)) by (nonlinear_arith)
                requires
                    sqrt_floor(n) == r,
                    n < (r + 1) * (r + 1),
            ;
        }
    } else {
        assert(sqrt_floor(0) == 0);
        assert(n < (sqrt_floor(n) + 1) * (sqrt_floor(n) + 1)) by (nonlinear_arith)
            requires
                n == 0,
                sqrt_floor(n) == 0,
        ;
    }
}

/// A scaled numerator divided by a root of at least a thousand keeps the
/// quotient within a thousandth of the numerator's bound.
proof fn lemma_scaled_div_bound(x: int, s: int)
    requires
        0 <= x <= 7_000_000_000,
        1000 <= s,
    ensures
        0 <= x / s <= 7_000_000,
{
    lemma_fundamental_div_mod(x, s);
    lemma_mod_bound(x, s);
    assert(0 <= x / s <= 7_000_000) by (nonlinear_arith)
        requires
            x == s * (x / s) + x % s,
            0 <= x % s < s,
            1000 <= s,
            0 <= x <= 7_000_000_000,
    ;
}

pub proof fn lemma_sqrt_floor_unique(n: nat, s: nat)
    requires
        s * s <= n,
        n < (s + 1) * (s + 1),
    ensures
        s == sqrt_floor(n),
{
    let t = sqrt_floor(n);
    lemma_sqrt_floor_bounds(n);
    if s < t {
        assert((s + 1) * (s + 1) <= t * t) by (nonlinear_arith)
            requires
                0 <= s < t,
        ;
        assert(false);
    }
    if t < s {
        assert((t + 1) * (t + 1) <= s * s) by (nonlinear_arith)
            requires
                0 <= t < s,
        ;
        assert(false);
    }
}

/// Integer square root by bisection; exact floor of the square root.
pub fn isqrt_u64(n: u64) -> (r: u64)
    requires
        n <= 100_000_000_000_000,
    ensures
        r == sqrt_floor(n as nat),
{
    proof {
        assert(n < 10_000_001u64 * 10_000_001u64) by (nonlinear_arith)
            requires
                n <= 100_000_000_000_000,
        ;
    }
    let mut lo: u64 = 0;
    let mut hi: u64 = 10_000_001;
    while lo + 1 < hi
        invariant
            lo < hi <= 10_000_001,
            lo * lo <= n,
            n < hi * hi,
        decreases hi - lo,
    {
        let mid: u64 = lo + (hi - lo) / 2;
        proof {
            assert(mid * mid <= 10_000_001u64 * 10_000_001u64) by (nonlinear_arith)
                requires
                    0 <= mid <= 10_000_001,
            ;
        }
        if mid * mid <= n {
            lo = mid;
        } else {
            hi = mid;
        }
    }
    proof {
        lemma_sqrt_floor_unique(n as nat, lo as nat);
    }
    lo
}

/// Multiply then divide, rounding the quotient toward zero, with all
/// intermediate values exact.
pub fn mul_div_to_zero(a: i64, m: i64, d: i64) -> (r: i64)
    requires
        0 < d <= 1_000_000_000,
        0 <= m <= 1_000_000,
        -1_000_000_000_000 <= a <= 1_000_000_000_000,
    ensures
        r == div_to_zero(a * m, d as int),
{
    if a >= 0 {
        proof {
            assert(a * m >= 0) by (nonlinear_arith)
                requires
                    a >= 0,
                    m >= 0,
            ;
            assert(a * m <= 1_000_000_000_000_000_000) by (nonlinear_arith)
                requires
                    0 <= a <= 1_000_000_000_000,
                    0 <= m <= 1_000_000,
            ;
            lemma_div_is_ordered(a * m, 1_000_000_000_000_000_000, d as int);
            lemma_div_is_ordered(0, a * m, d as int);
        }
        let q: u64 = (a as u64) * (m as u64) / (d as u64);
        q as i64
    } else {
        proof {
            assert((-a) * m >= 0 && (-a) * m == -(a * m)) by (nonlinear_arith)
                requires
                    a < 0,
                    m >= 0,
            ;
            assert((-a) * m <= 1_000_000_000_000_000_000) by (nonlinear_arith)
                requires
                    0 <= -a <= 1_000_000_000_000,
                    0 <= m <= 1_000_000,
            ;
            lemma_div_is_ordered((-a) * m, 1_000_000_000_000_000_000, d as int);
            lemma_div_is_ordered(0, (-a) * m, d as int);
        }
        let q: u64 = ((-a) as u64) * (m as u64) / (d as u64);
        -(q as i64)
    }
}

/// Squared magnitude of a velocity vector.
pub open spec fn mag_sq(vx: int, vy: int) -> int {
    vx * vx + vy * vy
}

/// A velocity is in the unit band when its magnitude is one up to
/// fixed-point rounding: the squared magnitude stays within about half a
/// percent of `1000 * 1000`.
pub open spec fn vel_band(vx: int, vy: int) -> bool {
    990_000 <= mag_sq(vx, vy) <= 1_010_000
}

/// The horizontal component after re-normalizing `(vx, vy)` to unit
/// magnitude; the zero vector is left unchanged.  The squared magnitude
/// is scaled by a million before the square root, so the root carries
/// three extra decimal digits and short vectors lose no precision.
pub open spec fn norm_x(vx: int, vy: int) -> int {
    if mag_sq(vx, vy) == 0 {
        vx
    } else {
        div_to_zero(vx * 1_000_000, sqrt_floor((mag_sq(vx, vy) * 1_000_000) as nat) as int)
    }
}

/// The vertical component after re-normalizing `(vx, vy)`.
pub open spec fn norm_y(vx: int, vy: int) -> int {
    if mag_sq(vx, vy) == 0 {
        vy
    } else {
        div_to_zero(vy * 1_000_000, sqrt_floor((mag_sq(vx, vy) * 1_000_000) as nat) as int)
    }
}

/// Re-normalize a velocity vector to unit magnitude (milli-units): every
/// nonzero admitted vector comes out in the unit band; a zero vector is
/// returned unchanged.
pub fn normalize_milli(vx: i32, vy: i32) -> (r: (i32, i32))
    requires
        -7000 <= vx <= 7000,
        -7000 <= vy <= 7000,
    ensures
        r.0 == norm_x(vx as int, vy as int),
        r.1 == norm_y(vx as int, vy as int),
        mag_sq(vx as int, vy as int) != 0 ==> vel_band(r.0 as int, r.1 as int),
{
    let ax: u64 = if vx >= 0 {
        vx as u64
    } else {
        (-vx) as u64
    };
    let ay: u64 = if vy >= 0 {
        vy as u64
    } else {
        (-vy) as u64
    };
    proof {
        assert(ax * ax == vx * vx && ay * ay == vy * vy) by (nonlinear_arith)
            requires
                ax == abs_i(vx as int),
                ay == abs_i(vy as int),
        ;
        assert(ax * ax <= 49_000_000 && ay * ay <= 49_000_000) by (nonlinear_arith)
            requires
                0 <= ax <= 7000,
                0 <= ay <= 7000,
        ;
    }
    let m: u64 = ax * ax + ay * ay;
    if m == 0 {
        proof {
            assert(vx == 0 && vy == 0) by (nonlinear_arith)
                requires
                    ax * ax + ay * ay == 0,
                    ax == abs_i(vx as int),
                    ay == abs_i(vy as int),
            ;
        }
        (vx, vy)
    } else {
        proof {
            assert(1 <= m <= 98_000_000);
        }
        let s: u64 = isqrt_u64(m * 1_000_000);
        proof {
            lemma_sqrt_floor_bounds((m * 1_000_000) as nat);
            assert(s >= 1000) by (nonlinear_arith)
                requires
                    (s + 1) * (s + 1) > 1_000_000,
                    0 <= s,
            ;
            lemma_scaled_div_bound(ax * 1_000_000, s as int);
            lemma_scaled_div_bound(ay * 1_000_000, s as int);
            lemma_norm_band(vx as int, vy as int);
        }
        let nx: u64 = ax * 1_000_000 / s;
        let ny: u64 = ay * 1_000_000 / s;
        let rx: i32 = if vx >= 0 {
            nx as i32
        } else {
            -(nx as i32)
        };
        let ry: i32 = if vy >= 0 {
            ny as i32
        } else {
            -(ny as i32)
        };
        (rx, ry)
    }
}

/// Normalizing any nonzero vector of the admitted domain lands in the
/// unit band: the scaled square root carries enough precision for short
/// and long vectors alike.
pub proof fn lemma_norm_band(vx: int, vy: int)
    requires
        1 <= mag_sq(vx, vy) <= 98_000_000,
    ensures
        vel_band(norm_x(vx, vy), norm_y(vx, vy)),
{
    let m = mag_sq(vx, vy);
    let big = m * 1_000_000;
    let s = sqrt_floor(big as nat) as int;
    lemma_sqrt_floor_bounds(big as nat);
    assert(1000 <= s < 10_000_000) by (nonlinear_arith)
        requires
            0 <= s,
            s * s <= big,
            big < (s + 1) * (s + 1),
            1_000_000 <= big <= 98_000_000_000_000,
    ;
    let a = abs_i(vx);
    let b = abs_i(vy);
    assert(a * a == vx * vx && b * b == vy * vy) by (nonlinear_arith)
        requires
            a == abs_i(vx),
            b == abs_i(vy),
    ;
    let nx = (a * 1_000_000) / s;
    let ny = (b * 1_000_000) / s;
    lemma_fundamental_div_mod(a * 1_000_000, s);
    lemma_fundamental_div_mod(b * 1_000_000, s);
    lemma_mod_bound(a * 1_000_000, s);
    lemma_mod_bound(b * 1_000_000, s);
    let r1 = (a * 1_000_000) % s;
    let r2 = (b * 1_000_000) % s;
    // the normalized components are nx and ny up to sign
    assert(norm_x(vx, vy) == nx || norm_x(vx, vy) == -nx);
    assert(norm_y(vx, vy) == ny || norm_y(vx, vy) == -ny);
    assert(norm_x(vx, vy) * norm_x(vx, vy) == nx * nx) by (nonlinear_arith)
        requires
            norm_x(vx, vy) == nx || norm_x(vx, vy) == -nx,
    ;
    assert(norm_y(vx, vy) * norm_y(vx, vy) == ny * ny) by (nonlinear_arith)
        requires
            norm_y(vx, vy) == ny || norm_y(vx, vy) == -ny,
    ;
    // nx and ny are nonnegative and at most 1000
    assert(0 <= nx && 0 <= ny) by (nonlinear_arith)
        requires
            a * 1_000_000 == s * nx + r1,
            b * 1_000_000 == s * ny + r2,
            0 <= r1 < s,
            0 <= r2 < s,
            0 <= a,
            0 <= b,
            1000 <= s,
    ;
    assert(a * 1000 <= s && b * 1000 <= s) by (nonlinear_arith)
        requires
            a * a <= m,
            b * b <= m,
            big == m * 1_000_000,
            big < (s + 1) * (s + 1),
            0 <= a,
            0 <= b,
            0 <= s,
    ;
    assert(nx <= 1000 && ny <= 1000) by (nonlinear_arith)
        requires
            a * 1_000_000 == s * nx + r1,
            b * 1_000_000 == s * ny + r2,
            0 <= r1 < s,
            0 <= r2 < s,
            a * 1000 <= s,
            b * 1000 <= s,
            1000 <= s,
    ;
    // upper bound: s^2 (nx^2 + ny^2) <= 10^6 big <= 10^6 (s^2 + 2s) + 10^6
    assert(s * s * (nx * nx + ny * ny) <= 1_000_000 * big) by (nonlinear_arith)
        requires
            a * 1_000_000 == s * nx + r1,
            b * 1_000_000 == s * ny + r2,
            0 <= r1,
            0 <= r2,
            0 <= nx,
            0 <= ny,
            0 < s,
            m == a * a + b * b,
            big == m * 1_000_000,
    ;
    assert(1_000_000 * big <= 1_002_001 * (s * s)) by (nonlinear_arith)
        requires
            big < (s + 1) * (s + 1),
            1000 <= s,
    ;
    assert(nx * nx + ny * ny <= 1_002_001) by (nonlinear_arith)
        requires
            s * s * (nx * nx + ny * ny) <= 1_002_001 * (s * s),
            1000 <= s,
    ;
    // lower bound: 10^6 big < s^2 ((nx+1)^2 + (ny+1)^2) and s^2 <= big
    assert(1_000_000 * big < s * s * ((nx + 1) * (nx + 1) + (ny + 1) * (ny + 1)))
        by (nonlinear_arith)
        requires
            a * 1_000_000 == s * nx + r1,
            b * 1_000_000 == s * ny + r2,
            0 <= r1 < s,
            0 <= r2 < s,
            0 <= a,
            0 <= b,
            0 <= nx,
            0 <= ny,
            0 < s,
            m == a * a + b * b,
            big == m * 1_000_000,
    ;
    assert((nx + 1) * (nx + 1) + (ny + 1) * (ny + 1) > 1_000_000) by (nonlinear_arith)
        requires
            1_000_000 * big < s * s * ((nx + 1) * (nx + 1) + (ny + 1) * (ny + 1)),
            s * s <= big,
            0 < s,
    ;
    assert(nx * nx + ny * ny > 995_998) by (nonlinear_arith)
        requires
            (nx + 1) * (nx + 1) + (ny + 1) * (ny + 1) > 1_000_000,
            0 <= nx <= 1000,
            0 <= ny <= 1000,
    ;
}

/// Bounds on the components of a velocity in the unit band.
pub proof fn lemma_band_bounds(vx: int, vy: int)
    requires
        vel_band(vx, vy),
    ensures
        -1004 <= vx <= 1004,
        -1004 <= vy <= 1004,
{
    assert(-1004 <= vx <= 1004 && -1004 <= vy <= 1004) by (nonlinear_arith)
        requires
            vx * vx + vy * vy <= 1_010_000,
    ;
}

/// Perturbing one component of a unit-band velocity by at most a tenth of a
/// unit keeps the squared magnitude inside the range `lemma_norm_band`
/// accepts.
pub proof fn lemma_mag_after_add(vx: int, vy: int, p: int)
    requires
        vel_band(vx, vy),
        -100 <= p <= 100,
    ensures
        250_000 <= mag_sq(vx + p, vy) <= 8_000_000,
        250_000 <= mag_sq(vx, vy + p) <= 8_000_000,
{
    lemma_band_bounds(vx, vy);
    assert(mag_sq(vx + p, vy) <= 8_000_000 && mag_sq(vx, vy + p) <= 8_000_000) by (nonlinear_arith)
        requires
            -1004 <= vx <= 1004,
            -1004 <= vy <= 1004,
            -100 <= p <= 100,
    ;
    assert(vx * vx >= 495_000 || vy * vy >= 495_000);
    assert(mag_sq(vx + p, vy) >= 250_000 && mag_sq(vx, vy + p) >= 250_000) by (nonlinear_arith)
        requires
            vx * vx + vy * vy >= 990_000,
            -1004 <= vx <= 1004,
            -1004 <= vy <= 1004,
            -100 <= p <= 100,
    ;
}

/// Jittering both components of a roughly unit velocity by at most a
/// twentieth of a unit keeps the squared magnitude inside the range
/// `lemma_norm_band` accepts.
pub proof fn lemma_jitter_mag(vx: int, vy: int, jx: int, jy: int)
    requires
        mag_sq(vx, vy) >= 990_000,
        -1100 <= vx <= 1100,
        -1100 <= vy <= 1100,
        -50 <= jx <= 50,
        -50 <= jy <= 50,
    ensures
        250_000 <= mag_sq(vx + jx, vy + jy) <= 8_000_000,
{
    assert(mag_sq(vx + jx, vy + jy) <= 8_000_000) by (nonlinear_arith)
        requires
            -1100 <= vx <= 1100,
            -1100 <= vy <= 1100,
            -50 <= jx <= 50,
            -50 <= jy <= 50,
    ;
    assert(mag_sq(vx + jx, vy + jy) >= 250_000) by (nonlinear_arith)
        requires
            vx * vx + vy * vy >= 990_000,
            -1100 <= vx <= 1100,
            -1100 <= vy <= 1100,
            -50 <= jx <= 50,
            -50 <= jy <= 50,
    ;
}

/// Flipping the sign of either component leaves the magnitude unchanged.
pub proof fn lemma_mag_flip(vx: int, vy: int)
    ensures
        mag_sq(-vx, vy) == mag_sq(vx, vy),
        mag_sq(vx, -vy) == mag_sq(vx, vy),
        mag_sq(abs_i(vx), vy) == mag_sq(vx, vy),
        mag_sq(vx, abs_i(vy)) == mag_sq(vx, vy),
{
    assert(mag_sq(-vx, vy) == mag_sq(vx, vy) && mag_sq(vx, -vy) == mag_sq(vx, vy)
        && mag_sq(abs_i(vx), vy) == mag_sq(vx, vy) && mag_sq(vx, abs_i(vy)) == mag_sq(vx, vy))
        by (nonlinear_arith);
}

/// Fixed-point sine: the argument is an angle in milliradians, the result
/// the sine in milli-units.  Bhaskara's rational approximation, evaluated
/// in exact integer arithmetic; odd in its argument.
pub open spec fn sin_milli(a: int) -> int
    recommends
        -1100 <= a <= 1100,
    decreases (if a < 0 { 1int } else { 0int }),
{
    if a < 0 {
        -sin_milli(-a)
    } else {
        let p: int = a * (3142 - a);
        (16000 * p) / (49_348_022 - 4 * p)
    }
}

/// For angles up to 1.1 radians in magnitude the fixed-point sine stays
/// within one unit in magnitude, vanishes only at zero, and has the sign of
/// its argument.
pub proof fn lemma_sin_milli_bounds(a: int)
    requires
        -1100 <= a <= 1100,
    ensures
        -1000 <= sin_milli(a) <= 1000,
        a == 0 ==> sin_milli(a) == 0,
{
    if a >= 0 {
        lemma_sin_milli_bounds_nonneg(a);
    } else {
        lemma_sin_milli_bounds_nonneg(-a);
    }
}

/// Range of the product `x * (3142 - x)` over the sine's working domain.
proof fn lemma_sin_arg_range(x: int)
    requires
        0 <= x <= 1100,
    ensures
        0 <= x * (3142 - x) <= 2_246_200,
{
    assert((1100 - x) * (2042 - x) >= 0) by (nonlinear_arith)
        requires
            0 <= x <= 1100,
    ;
    assert((1100 - x) * (2042 - x) == 2_246_200 - 3142 * x + x * x) by (nonlinear_arith);
    assert(x * (3142 - x) == 3142 * x - x * x) by (nonlinear_arith);
    assert(x * (3142 - x) >= 0) by (nonlinear_arith)
        requires
            0 <= x <= 1100,
    ;
}

proof fn lemma_sin_milli_bounds_nonneg(a: int)
    requires
        0 <= a <= 1100,
    ensures
        0 <= sin_milli(a) <= 1000,
        a == 0 ==> sin_milli(a) == 0,
{
    let p: int = a * (3142 - a);
    lemma_sin_arg_range(a);
    let den: int = 49_348_022 - 4 * p;
    assert(den >= 40_363_222);
    assert(16000 * p <= 1000 * den) by (nonlinear_arith)
        requires
            0 <= p <= 2_246_200,
            den == 49_348_022 - 4 * p,
    ;
    lemma_div_is_ordered(16000 * p, 1000 * den, den);
    lemma_div_multiples_vanish(1000, den);
    assert(1000 * den == den * 1000) by (nonlinear_arith);
    lemma_div_is_ordered(0, 16000 * p, den);
    if a == 0 {
        assert(sin_milli(0) == 0);
    }
}

/// The fixed-point sine, exactly as `sin_milli` specifies it.
pub fn sin_milli_fp(a: i32) -> (r: i32)
    requires
        -1100 <= a <= 1100,
    ensures
        r == sin_milli(a as int),
{
    proof {
        lemma_sin_milli_bounds(a as int);
    }
    let x: u64 = if a >= 0 {
        a as u64
    } else {
        (-a) as u64
    };
    proof {
        lemma_sin_milli_bounds_nonneg(x as int);
        lemma_sin_arg_range(x as int);
    }
    let p: u64 = x * (3142 - x);
    let num: u64 = 16000 * p;
    let den: u64 = 49_348_022 - 4 * p;
    let q: u64 = num / den;
    if a >= 0 {
        q as i32
    } else {
        -(q as i32)
    }
}

} // verus!
