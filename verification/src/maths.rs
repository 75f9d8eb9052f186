//! Angles, interpolation and chance.
//!
//! Angles are integers in milliradians. Sine and arctangent are rational
//! approximations on integers (Bhaskara's for the sine, a quadratic one for
//! the arctangent); their contracts fix the formulas, not the functions of
//! analysis they stand for.

use vstd::prelude::*;
use vstd::arithmetic::div_mod::lemma_fundamental_div_mod;
use crate::vector::{floor_div, mag, magnitude, sat, saturate, Vec2};

verus! {

/// Half a turn, in milliradians.
pub const PI: i32 = 3142;

/// A full turn.
pub const TAU: i32 = 6284;

/// A quarter turn.
pub const HALF_PI: i32 = 1571;

/// The angle `a` brought into `[0, TAU)`.
pub open spec fn wrap(a: int) -> int {
    a % (TAU as int)
}

/// A thousand times the sine of `x` milliradians, for `0 <= x <= PI`.
pub open spec fn arch(x: int) -> int {
    (16000 * (x * (PI - x))) / (49360820 - 4 * (x * (PI - x)))
}

/// A thousand times the sine of `a`.
pub open spec fn sine(a: int) -> int {
    let w = wrap(a);
    if w <= PI {
        arch(w)
    } else {
        -arch(w - PI)
    }
}

/// A thousand times the cosine of `a`.
pub open spec fn cosine(a: int) -> int {
    sine(a + HALF_PI)
}

/// The arctangent of `z / 1000` in milliradians, for `0 <= z <= 1000`.
pub open spec fn arc(z: int) -> int {
    (z * (785000 + 273 * (1000 - z))) / 1000000
}

/// The angle of the vector `(x, y)` against the x axis, in `[-PI, PI]`; zero
/// for the zero vector.
pub open spec fn bearing(y: int, x: int) -> int {
    if x == 0 && y == 0 {
        0
    } else {
        let base = if mag(x) >= mag(y) {
            arc((mag(y) * 1000) / mag(x))
        } else {
            HALF_PI - arc((mag(x) * 1000) / mag(y))
        };
        if x >= 0 {
            if y >= 0 {
                base
            } else {
                -base
            }
        } else {
            if y >= 0 {
                PI - base
            } else {
                base - PI
            }
        }
    }
}

/// The point that lies `t` thousandths of the way from `a` to `b`.
pub open spec fn mix(a: int, b: int, t: int) -> int {
    a + ((b - a) * t) / 1000
}

/// `mix` along the shorter way round: where the two angles are more than
/// half a turn apart, `a` is taken a full turn further on.
pub open spec fn angle_mix(a: int, b: int, t: int) -> int {
    if mag(a - b) > PI {
        mix(a + TAU, b, t)
    } else {
        mix(a, b, t)
    }
}

/// Whether `v` lies between `a` and `b`, whichever of the two is smaller.
pub open spec fn between(a: int, v: int, b: int) -> bool {
    (a <= v <= b) || (b <= v <= a)
}

/// The point at distance `dist` from `origin` in the direction `angle`.
pub open spec fn ring(origin: Vec2, angle: int, dist: int) -> Vec2 {
    origin.plus((Vec2 { x: cosine(angle) as i32, y: sine(angle) as i32 }).times(dist, 1000))
}

/// The product of a coordinate and its complement in `[0, PI]` is at most a
/// quarter of the square of `PI`.
proof fn lemma_arch_bounds(x: int)
    requires
        0 <= x <= PI,
    ensures
        0 <= x * (PI - x) <= 2468041,
        0 <= arch(x) <= 1000,
{
    let p = x * (PI - x);
    assert(0 <= p <= 2468041) by (nonlinear_arith)
        requires
            0 <= x <= 3142,
            p == x * (3142 - x),
    {
        assert((2 * x - 3142) * (2 * x - 3142) >= 0);
    }
    let d = 49360820 - 4 * p;
    lemma_fundamental_div_mod(16000 * p, d);
    assert(0 <= (16000 * p) / d <= 1000) by (nonlinear_arith)
        requires
            16000 * p == d * ((16000 * p) / d) + (16000 * p) % d,
            0 <= (16000 * p) % d < d,
            d == 49360820 - 4 * p,
            0 <= p <= 2468041,
    {
        let q = (16000 * p) / d;
        if q > 1000 {
            assert(d * q >= d * 1001);
        }
        if q < 0 {
            assert(d * q <= d * (-1));
        }
    }
}

/// A thousand times the sine of `x` milliradians, for `0 <= x <= PI`.
fn half_wave(x: i64) -> (r: i64)
    requires
        0 <= x <= PI,
    ensures
        r == arch(x as int),
        0 <= r <= 1000,
{
    proof {
        lemma_arch_bounds(x as int);
    }
    let p: i64 = x * (PI as i64 - x);
    (16000 * p) / (49360820 - 4 * p)
}

/// A thousand times the sine of `a` milliradians.
pub fn sin(a: i32) -> (r: i32)
    ensures
        r == sine(a as int),
        -1000 <= r <= 1000,
{
    let w: i64 = a as i64 - floor_div(a as i64, TAU as i64) * (TAU as i64);
    assert(w == wrap(a as int)) by {
        lemma_fundamental_div_mod(a as int, TAU as int);
    }
    if w <= PI as i64 {
        half_wave(w) as i32
    } else {
        (-half_wave(w - PI as i64)) as i32
    }
}

/// A thousand times the cosine of `a` milliradians.
pub fn cos(a: i32) -> (r: i32)
    ensures
        r == cosine(a as int),
        -1000 <= r <= 1000,
{
    let b: i64 = a as i64 + HALF_PI as i64;
    let w: i64 = b - floor_div(b, TAU as i64) * (TAU as i64);
    assert(w == wrap(b as int)) by {
        lemma_fundamental_div_mod(b as int, TAU as int);
    }
    if w <= PI as i64 {
        half_wave(w) as i32
    } else {
        (-half_wave(w - PI as i64)) as i32
    }
}

/// The arctangent of `small / large` in milliradians.
fn octant(small: u64, large: u64) -> (r: i64)
    requires
        small <= large,
        1 <= large <= 0x8000_0000,
    ensures
        r == arc((small * 1000) / large as int),
        0 <= r <= 785,
{
    let z: u64 = (small * 1000) / large;
    proof {
        lemma_fundamental_div_mod((small * 1000) as int, large as int);
        assert(z <= 1000) by (nonlinear_arith)
            requires
                (small * 1000) as int == (large as int) * (z as int) + ((small * 1000) as int % (
                large as int)),
                0 <= (small * 1000) as int % (large as int),
                small <= large,
                large >= 1,
        {
            if z > 1000 {
                assert(large * z >= large * 1001);
            }
        }
        assert(0 <= z * (785000 + 273 * (1000 - z)) <= 785999999) by (nonlinear_arith)
            requires
                0 <= z <= 1000,
        {
            assert((1000 - z) * (785000 - 273 * z) >= 0);
        }
    }
    let zi: i64 = z as i64;
    (zi * (785000 + 273 * (1000 - zi))) / 1000000
}

/// The angle of the vector `(x, y)` against the x axis.
pub fn atan2(y: i32, x: i32) -> (r: i32)
    ensures
        r == bearing(y as int, x as int),
        -PI <= r <= PI,
{
    if x == 0 && y == 0 {
        return 0;
    }
    let ax: u64 = magnitude(x as i64);
    let ay: u64 = magnitude(y as i64);
    let base: i64 = if ax >= ay {
        octant(ay, ax)
    } else {
        HALF_PI as i64 - octant(ax, ay)
    };
    let r: i64 = if x >= 0 {
        if y >= 0 {
            base
        } else {
            -base
        }
    } else {
        if y >= 0 {
            PI as i64 - base
        } else {
            base - PI as i64
        }
    };
    r as i32
}

/// `a + (b - a) * t / 1000`, rounded down.
fn blend(a: i64, b: i64, t: i32) -> (r: i32)
    requires
        -0x1_0000_0000 <= a <= 0x1_0000_0000,
        -0x1_0000_0000 <= b <= 0x1_0000_0000,
    ensures
        r == sat(mix(a as int, b as int, t as int)),
{
    let diff: i128 = b as i128 - a as i128;
    assert(-0x2_0000_0000 * 0x8000_0000 <= diff * t <= 0x2_0000_0000 * 0x8000_0000)
        by (nonlinear_arith)
        requires
            -0x2_0000_0000 <= diff <= 0x2_0000_0000,
            -0x8000_0000 <= t <= 0x8000_0000,
    ;
    let num: i128 = diff * (t as i128);
    let q: i128 = if num >= 0 {
        num / 1000
    } else {
        -((-num + 999) / 1000)
    };
    assert(q == num as int / 1000);
    let v: i128 = a as i128 + q;
    if v < -2147483648 {
        i32::MIN
    } else if v > 2147483647 {
        i32::MAX
    } else {
        v as i32
    }
}

/// The value that lies `t` thousandths of the way from `a` to `b`.
pub fn lerp(a: i32, b: i32, t: i32) -> (r: i32)
    ensures
        r == sat(mix(a as int, b as int, t as int)),
{
    blend(a as i64, b as i64, t)
}

/// `lerp` between two angles along the shorter way round.
pub fn angle_lerp(a: i32, b: i32, t: i32) -> (r: i32)
    ensures
        r == sat(angle_mix(a as int, b as int, t as int)),
{
    let gap: u64 = magnitude(a as i64 - b as i64);
    if gap > PI as u64 {
        blend(a as i64 + TAU as i64, b as i64, t)
    } else {
        blend(a as i64, b as i64, t)
    }
}

impl Vec2 {
    /// The point that lies `t` thousandths of the way to `to`.
    pub open spec fn mixed(self, to: Vec2, t: int) -> Vec2 {
        Vec2 {
            x: sat(mix(self.x as int, to.x as int, t)) as i32,
            y: sat(mix(self.y as int, to.y as int, t)) as i32,
        }
    }

    /// The point that lies `t` thousandths of the way to `to`.
    pub fn lerp(self, to: Vec2, t: i32) -> (v: Vec2)
        ensures
            v == self.mixed(to, t as int),
    {
        Vec2 { x: lerp(self.x, to.x, t), y: lerp(self.y, to.y, t) }
    }

    /// The vector of length one thousand in the direction `angle`.
    pub fn from_angle(angle: i32) -> (v: Vec2)
        ensures
            v == (Vec2 { x: cosine(angle as int) as i32, y: sine(angle as int) as i32 }),
    {
        Vec2 { x: cos(angle), y: sin(angle) }
    }
}

/// `quad_rand::gen_range`, through `macroquad::rand`, for `i32`: the
/// generator's next number, as a fraction in `[0, 1)`, carried from `low`
/// towards `high` and cut to an integer. The result lies between the two
/// bounds; for bounds from zero to a million, where that arithmetic is exact,
/// it stays below `high`. Two calls need not agree.
#[verifier::external_body]
pub(crate) fn gen_range(low: i32, high: i32) -> (r: i32)
    ensures
        between(low as int, r as int, high as int),
        0 <= low < high <= 1000000 ==> r < high,
{
    macroquad::rand::gen_range(low, high)
}

/// A chance angle in `[0, TAU)`.
pub fn random_angle() -> (a: i32)
    ensures
        0 <= a < TAU,
{
    gen_range(0, TAU)
}

/// The point at distance `dist` from `origin` in the direction `angle`.
pub fn ring_point(origin: &Vec2, angle: i32, dist: i32) -> (p: Vec2)
    ensures
        p == ring(*origin, angle as int, dist as int),
{
    origin.add(Vec2::from_angle(angle).scale(dist, 1000))
}

/// A chance point of the ring round `origin` between the distances
/// `min_dist` and `max_dist`.
pub fn random_ring_point(origin: &Vec2, min_dist: i32, max_dist: i32) -> (p: Vec2)
    ensures
        exists|a: int, d: int|
            0 <= a < TAU && between(min_dist as int, d, max_dist as int) && p == #[trigger] ring(
                *origin,
                a,
                d,
            ),
{
    let a: i32 = random_angle();
    let d: i32 = gen_range(min_dist, max_dist);
    ring_point(origin, a, d)
}

} // verus!
