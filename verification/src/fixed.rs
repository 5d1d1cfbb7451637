//! Fixed-point scalars for drawing geometry.
//!
//! Source files carry double-precision values; this library models every
//! coordinate and angle as a signed 64-bit integer holding millionths of a
//! unit (or of a radian).  All geometric reasoning is then exact integer
//! arithmetic.  Converting a raw floating-point value into this scale is the
//! caller's concern and happens outside the library.

use vstd::prelude::*;

verus! {

/// Number of fixed-point steps per whole unit (one unit, one radian, one
/// degree all scale by this factor).
pub const SCALE: i64 = 1_000_000;

/// A full turn (2 * pi) in fixed-point radians, rounded to the nearest step.
pub const FULL_TURN: i64 = 6_283_185;

/// Angles in degrees are accepted in [0, 360] (scaled); anything outside is
/// treated as a malformed record.
pub const MAX_DEGREES: i64 = 360_000_000;

/// Largest magnitude a coordinate or radius may have; keeps midpoint and
/// centroid arithmetic far away from overflow.
pub const MAX_COORD: i64 = 1_000_000_000_000_000;

/// Degrees to radians, in fixed point: `d * FULL_TURN / MAX_DEGREES`, with
/// the division truncating.  Maps 0 to 0 and a whole turn of 360 degrees to
/// exactly `FULL_TURN`.
pub open spec fn spec_deg_to_rad(d: int) -> int {
    d * (FULL_TURN as int) / (MAX_DEGREES as int)
}

/// Converts an angle given in fixed-point degrees to fixed-point radians.
pub fn deg_to_rad(d: i64) -> (r: i64)
    requires
        0 <= d <= MAX_DEGREES,
    ensures
        r == spec_deg_to_rad(d as int),
        0 <= r <= FULL_TURN,
{
    proof {
        lemma_deg_to_rad_bounds(d as int);
    }
    let wide: u64 = (d as u64) * (FULL_TURN as u64);
    (wide / (MAX_DEGREES as u64)) as i64
}

/// A point in three-dimensional space, in fixed-point coordinates.  The same
/// representation serves the source frame (before the axis remap) and the
/// target frame (after it).
#[derive(Clone, Copy, Debug, PartialEq, Eq, Structural)]
pub struct Vec3Fx {
    pub x: i64,
    pub y: i64,
    pub z: i64,
}

/// A point in the plane, in fixed-point coordinates; lightweight polyline
/// vertices carry no depth component.
#[derive(Clone, Copy, Debug, PartialEq, Eq, Structural)]
pub struct Vec2Fx {
    pub x: i64,
    pub y: i64,
}

/// Division truncating toward zero (the rounding used for midpoints and
/// centroids), defined for positive divisors.
pub open spec fn div_trunc(n: int, d: int) -> int
    recommends
        d > 0,
{
    if n >= 0 {
        n / d
    } else {
        -((-n) / d)
    }
}

pub open spec fn coord_ok(c: i64) -> bool {
    -MAX_COORD <= c <= MAX_COORD
}

pub open spec fn point_ok(p: Vec3Fx) -> bool {
    coord_ok(p.x) && coord_ok(p.y) && coord_ok(p.z)
}

pub open spec fn point2_ok(p: Vec2Fx) -> bool {
    coord_ok(p.x) && coord_ok(p.y)
}

/// Halves a (possibly negative) scalar, truncating toward zero.
pub fn half(s: i64) -> (r: i64)
    requires
        -0x4000_0000_0000_0000 <= s <= 0x4000_0000_0000_0000,
    ensures
        r == div_trunc(s as int, 2),
{
    if s >= 0 {
        ((s as u64) / 2) as i64
    } else {
        let m: u64 = (-s) as u64;
        -((m / 2) as i64)
    }
}

/// Coordinate-wise midpoint of two points, truncating toward zero.
pub fn midpoint(a: Vec3Fx, b: Vec3Fx) -> (m: Vec3Fx)
    requires
        point_ok(a),
        point_ok(b),
    ensures
        m.x == div_trunc(a.x + b.x, 2),
        m.y == div_trunc(a.y + b.y, 2),
        m.z == div_trunc(a.z + b.z, 2),
{
    Vec3Fx { x: half(a.x + b.x), y: half(a.y + b.y), z: half(a.z + b.z) }
}

/// Sum of the x coordinates of a sequence of points.
pub open spec fn sum_x(s: Seq<Vec3Fx>) -> int
    decreases s.len(),
{
    if s.len() == 0 {
        0
    } else {
        sum_x(s.drop_last()) + s.last().x
    }
}

/// Sum of the y coordinates of a sequence of points.
pub open spec fn sum_y(s: Seq<Vec3Fx>) -> int
    decreases s.len(),
{
    if s.len() == 0 {
        0
    } else {
        sum_y(s.drop_last()) + s.last().y
    }
}

/// Sum of the z coordinates of a sequence of points.
pub open spec fn sum_z(s: Seq<Vec3Fx>) -> int
    decreases s.len(),
{
    if s.len() == 0 {
        0
    } else {
        sum_z(s.drop_last()) + s.last().z
    }
}

/// Divides a bounded wide scalar by a positive count, truncating toward zero.
fn div_count(n: i128, d: usize) -> (r: i64)
    requires
        d > 0,
        -(MAX_COORD as int) * (d as int) <= n <= (MAX_COORD as int) * (d as int),
    ensures
        r == div_trunc(n as int, d as int),
        coord_ok(r),
{
    proof {
        lemma_div_count_bounds(n as int, d as int);
    }
    if n >= 0 {
        ((n as u128) / (d as u128)) as i64
    } else {
        let m: u128 = (-n) as u128;
        -((m / (d as u128)) as i64)
    }
}

proof fn lemma_div_count_bounds(n: int, d: int)
    requires
        0 < d < 0x2_0000_0000_0000_0000,
        -(MAX_COORD as int) * d <= n <= (MAX_COORD as int) * d,
    ensures
        -(MAX_COORD as int) <= div_trunc(n, d) <= (MAX_COORD as int),
        -0x8000_0000_0000_0000_0000_0000_0000_0000 < n
            < 0x8000_0000_0000_0000_0000_0000_0000_0000,
{
    let m = MAX_COORD as int;
    assert((-m) * d == -(m * d)) by (nonlinear_arith);
    assert(m * d < m * 0x2_0000_0000_0000_0000) by (nonlinear_arith)
        requires
            d < 0x2_0000_0000_0000_0000,
            m > 0,
    ;
    if n >= 0 {
        assert(n / d <= m) by (nonlinear_arith)
            requires
                d > 0,
                n <= m * d,
                n >= 0,
        ;
        assert(n / d >= 0) by (nonlinear_arith)
            requires
                d > 0,
                n >= 0,
        ;
    } else {
        assert((-n) / d <= m) by (nonlinear_arith)
            requires
                d > 0,
                -n <= m * d,
                -n >= 0,
        ;
        assert((-n) / d >= 0) by (nonlinear_arith)
            requires
                d > 0,
                -n >= 0,
        ;
    }
}

#[verifier::nonlinear]
proof fn lemma_sum_step(i: int, s: int, c: int)
    requires
        i >= 0,
        -(MAX_COORD as int) * i <= s <= (MAX_COORD as int) * i,
        -(MAX_COORD as int) <= c <= (MAX_COORD as int),
    ensures
        -(MAX_COORD as int) * (i + 1) <= s + c <= (MAX_COORD as int) * (i + 1),
{
}

/// Unweighted average of the vertices of a non-empty polyline, each
/// coordinate truncating toward zero.
pub fn centroid(vs: &Vec<Vec3Fx>) -> (c: Vec3Fx)
    requires
        vs@.len() >= 1,
        forall|i: int| 0 <= i < vs@.len() ==> point_ok(vs@[i]),
    ensures
        c.x == div_trunc(sum_x(vs@), vs@.len() as int),
        c.y == div_trunc(sum_y(vs@), vs@.len() as int),
        c.z == div_trunc(sum_z(vs@), vs@.len() as int),
        point_ok(c),
{
    let mut sx: i128 = 0;
    let mut sy: i128 = 0;
    let mut sz: i128 = 0;
    let mut i: usize = 0;
    while i < vs.len()
        invariant
            0 <= i <= vs@.len(),
            forall|j: int| 0 <= j < vs@.len() ==> point_ok(vs@[j]),
            sx == sum_x(vs@.take(i as int)),
            sy == sum_y(vs@.take(i as int)),
            sz == sum_z(vs@.take(i as int)),
            -(MAX_COORD as int) * (i as int) <= sx <= (MAX_COORD as int) * (i as int),
            -(MAX_COORD as int) * (i as int) <= sy <= (MAX_COORD as int) * (i as int),
            -(MAX_COORD as int) * (i as int) <= sz <= (MAX_COORD as int) * (i as int),
        decreases vs@.len() - i,
    {
        let v = vs[i];
        proof {
            assert(vs@.take(i + 1).drop_last() =~= vs@.take(i as int));
            assert(vs@.take(i + 1).last() == vs@[i as int]);
            lemma_sum_step(i as int, sx as int, v.x as int);
            lemma_sum_step(i as int, sy as int, v.y as int);
            lemma_sum_step(i as int, sz as int, v.z as int);
            assert((MAX_COORD as int) * ((i as int) + 1) < 0x8000_0000_0000_0000_0000_0000_0000_0000)
                by (nonlinear_arith)
                requires
                    0 <= i < 0x1_0000_0000_0000_0000,
            ;
            assert((-(MAX_COORD as int)) * ((i as int) + 1) == -((MAX_COORD as int) * ((i as int)
                + 1))) by (nonlinear_arith);
        }
        sx = sx + (v.x as i128);
        sy = sy + (v.y as i128);
        sz = sz + (v.z as i128);
        i = i + 1;
    }
    proof {
        assert(vs@.take(vs@.len() as int) =~= vs@);
    }
    Vec3Fx { x: div_count(sx, vs.len()), y: div_count(sy, vs.len()), z: div_count(sz, vs.len()) }
}

/// The conversion is monotone in the angle and stays within one turn.
pub proof fn lemma_deg_to_rad_bounds(d: int)
    requires
        0 <= d <= MAX_DEGREES,
    ensures
        0 <= spec_deg_to_rad(d) <= FULL_TURN,
{
    let f = FULL_TURN as int;
    let m = MAX_DEGREES as int;
    assert(d * f >= 0) by (nonlinear_arith)
        requires
            d >= 0,
            f > 0,
    ;
    assert(d * f <= m * f) by (nonlinear_arith)
        requires
            d <= m,
            f > 0,
    ;
    assert(d * f / m <= m * f / m) by (nonlinear_arith)
        requires
            m > 0,
            d * f <= m * f,
    ;
    assert(m * f / m == f) by (nonlinear_arith)
        requires
            m > 0,
    ;
}

} // verus!
