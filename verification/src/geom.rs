//! Geometry primitives: 2D points, rotations and transforms in fixed-point
//! integer arithmetic, and the flow-curve tangent math.
//!
//! A rotation is stored as a fixed-point unit vector `(cos, sin)` scaled by
//! `UNIT`; composing two rotations is then exact integer arithmetic (complex
//! multiplication) followed by one truncating division, and no trigonometry
//! is needed anywhere in the scene model.

use vstd::prelude::*;
use vstd::arithmetic::div_mod::{lemma_div_by_multiple, lemma_div_is_ordered, lemma_div_pos_is_pos};
use crate::elements::UNIT;

verus! {

/// World coordinates are kept within this bound so that every product
/// taken in this module fits in the machine integers.
pub const COORD_LIMIT: i64 = 0x100_0000_0000;

/// Unzoomed (initial) positions are kept within this tighter bound so that
/// applying any permitted zoom stays within `COORD_LIMIT`.
pub const POS_LIMIT: i64 = 0x10_0000_0000;

/// Default length of the free end of a freshly spawned flow, micro-units.
pub const FLOW_LENGTH: i64 = 100 * 1_000_000;

/// A 2D point or vector in micro-units.
#[derive(Clone, Copy, Debug, PartialEq, Eq, Structural)]
pub struct Point {
    pub x: i64,
    pub y: i64,
}

/// A rotation, stored as the image of the unit x-axis: a fixed-point
/// vector `(x, y)` with `x = cos * UNIT`, `y = sin * UNIT`.
#[derive(Clone, Copy, Debug, PartialEq, Eq, Structural)]
pub struct Rot {
    pub x: i64,
    pub y: i64,
}

/// A 2D placement: translation, depth and rotation.
#[derive(Clone, Copy, Debug, PartialEq, Eq, Structural)]
pub struct Transform {
    pub translation: Point,
    pub z: i64,
    pub rotation: Rot,
}

/// The cubic Bezier geometry of a flow: two endpoints and the directions
/// of its tangent handles.
#[derive(Clone, Copy, Debug, PartialEq, Eq, Structural)]
pub struct FlowCurve {
    pub start: Point,
    pub end: Point,
    pub start_dir: Point,
    pub end_dir: Point,
}

/// Integer division truncated toward zero, the semantics every division in
/// this module uses.
pub open spec fn tdiv(a: int, b: int) -> int
    recommends
        b > 0,
{
    if a >= 0 {
        a / b
    } else {
        -((-a) / b)
    }
}

/// The quotient of `a` by `b` is bounded by `m` whenever `a` is bounded by
/// `m * b`.
pub proof fn lemma_tdiv_bound(a: int, b: int, m: int)
    requires
        b > 0,
        m >= 0,
        -(m * b) <= a <= m * b,
    ensures
        -m <= tdiv(a, b) <= m,
{
    if a >= 0 {
        lemma_div_is_ordered(a, m * b, b);
        lemma_div_by_multiple(m, b);
        lemma_div_pos_is_pos(a, b);
    } else {
        lemma_div_is_ordered(-a, m * b, b);
        lemma_div_by_multiple(m, b);
        lemma_div_pos_is_pos(-a, b);
    }
}

impl Point {
    pub open spec fn in_bounds(self) -> bool {
        -COORD_LIMIT <= self.x <= COORD_LIMIT && -COORD_LIMIT <= self.y <= COORD_LIMIT
    }

    /// The tighter bound kept for unzoomed positions.
    pub open spec fn pos_bounded(self) -> bool {
        -POS_LIMIT <= self.x <= POS_LIMIT && -POS_LIMIT <= self.y <= POS_LIMIT
    }

    pub fn zero() -> (r: Point)
        ensures
            r == (Point { x: 0, y: 0 }),
    {
        Point { x: 0, y: 0 }
    }

    pub fn plus(self, other: Point) -> (r: Point)
        requires
            self.x + other.x <= i64::MAX,
            self.x + other.x >= i64::MIN,
            self.y + other.y <= i64::MAX,
            self.y + other.y >= i64::MIN,
        ensures
            r.x == self.x + other.x,
            r.y == self.y + other.y,
    {
        Point { x: self.x + other.x, y: self.y + other.y }
    }

    pub fn minus(self, other: Point) -> (r: Point)
        requires
            self.x - other.x <= i64::MAX,
            self.x - other.x >= i64::MIN,
            self.y - other.y <= i64::MAX,
            self.y - other.y >= i64::MIN,
        ensures
            r.x == self.x - other.x,
            r.y == self.y - other.y,
    {
        Point { x: self.x - other.x, y: self.y - other.y }
    }

    pub fn negate(self) -> (r: Point)
        requires
            self.x > i64::MIN,
            self.y > i64::MIN,
        ensures
            r.x == -self.x,
            r.y == -self.y,
    {
        Point { x: -self.x, y: -self.y }
    }
}

impl Rot {
    /// A rotation is well formed when both components lie within the
    /// fixed-point unit range.
    pub open spec fn wf(self) -> bool {
        -UNIT <= self.x <= UNIT && -UNIT <= self.y <= UNIT
    }

    /// The identity rotation: the unit x-axis itself.
    pub fn identity() -> (r: Rot)
        ensures
            r == (Rot { x: UNIT, y: 0 }),
            r.wf(),
    {
        Rot { x: 1_000_000, y: 0 }
    }
}

impl Transform {
    pub open spec fn wf(self) -> bool {
        self.translation.in_bounds() && self.rotation.wf()
    }

    pub fn at_origin() -> (r: Transform)
        ensures
            r == (Transform {
                translation: Point { x: 0, y: 0 },
                z: 0,
                rotation: Rot { x: UNIT, y: 0 },
            }),
            r.wf(),
    {
        Transform {
            translation: Point { x: 0, y: 0 },
            z: 0,
            rotation: Rot { x: 1_000_000, y: 0 },
        }
    }
}

/// Division of an `i64` by a positive divisor, truncated toward zero.
pub fn div_trunc(a: i64, b: i64) -> (r: i64)
    requires
        b > 0,
        a > i64::MIN,
    ensures
        r == tdiv(a as int, b as int),
        a >= 0 ==> 0 <= r <= a,
        a < 0 ==> a <= r <= 0,
{
    if a >= 0 {
        ((a as u64) / (b as u64)) as i64
    } else {
        let q: u64 = ((-a) as u64) / (b as u64);
        -(q as i64)
    }
}

/// Division of an `i128` by a positive divisor, truncated toward zero.
pub fn div_trunc_wide(a: i128, b: i128) -> (r: i128)
    requires
        b > 0,
        a > i128::MIN,
    ensures
        r == tdiv(a as int, b as int),
        a >= 0 ==> 0 <= r <= a,
        a < 0 ==> a <= r <= 0,
{
    if a >= 0 {
        ((a as u128) / (b as u128)) as i128
    } else {
        let q: u128 = ((-a) as u128) / (b as u128);
        -(q as i128)
    }
}

/// `r` is the integer square root of `n`.
pub open spec fn is_isqrt(n: int, r: int) -> bool {
    r >= 0 && r * r <= n < (r + 1) * (r + 1)
}

/// Integer square root by bisection.
pub fn isqrt(n: u128) -> (r: u128)
    requires
        n < 0x1_0000_0000_0000_0000_0000_0000_0000,  // 2^112
    ensures
        is_isqrt(n as int, r as int),
        r < 0x100_0000_0000_0000,  // 2^56
{
    if n == 0 {
        return 0;
    }
    let mut lo: u128 = 0;
    let mut hi: u128 = 0x100_0000_0000_0000u128;  // 2^56
    proof {
        assert((0x100_0000_0000_0000u128 as int) * (0x100_0000_0000_0000u128 as int)
            == 0x1_0000_0000_0000_0000_0000_0000_0000);
    }
    // Bisection keeps lo * lo <= n < hi * hi.
    while lo + 1 < hi
        invariant
            lo < hi,
            lo * lo <= n,
            n < hi * hi,
            hi <= 0x100_0000_0000_0000u128,
        decreases hi - lo,
    {
        let mid: u128 = lo + (hi - lo) / 2;
        proof {
            assert(mid * mid <= hi * hi) by (nonlinear_arith)
                requires
                    0 <= mid < hi,
            ;
            assert(hi * hi <= 0x1_0000_0000_0000_0000_0000_0000_0000) by (nonlinear_arith)
                requires
                    0 <= hi <= 0x100_0000_0000_0000u128,
            ;
        }
        if mid * mid <= n {
            lo = mid;
        } else {
            hi = mid;
        }
    }
    lo
}

/// The squared length of a vector, exactly. The inputs may be as large as
/// the difference of two bounded points.
pub fn length_squared(p: Point) -> (r: u128)
    requires
        -2 * COORD_LIMIT <= p.x <= 2 * COORD_LIMIT,
        -2 * COORD_LIMIT <= p.y <= 2 * COORD_LIMIT,
    ensures
        r == p.x * p.x + p.y * p.y,
        r < 0x1_0000_0000_0000_0000_0000_0000_0000,
{
    proof {
        assert(p.x * p.x + p.y * p.y < 0x1_0000_0000_0000_0000_0000_0000_0000
            && p.x * p.x >= 0 && p.y * p.y >= 0 && p.x * p.x < 0x8000_0000_0000_0000_0000_0000_0000
            && p.y * p.y < 0x8000_0000_0000_0000_0000_0000_0000) by (nonlinear_arith)
            requires
                -2 * COORD_LIMIT <= p.x <= 2 * COORD_LIMIT,
                -2 * COORD_LIMIT <= p.y <= 2 * COORD_LIMIT,
        ;
    }
    let xx: i128 = (p.x as i128) * (p.x as i128);
    let yy: i128 = (p.y as i128) * (p.y as i128);
    (xx + yy) as u128
}

/// The length of a vector, rounded down to micro-units.
pub fn length(p: Point) -> (r: u64)
    requires
        -2 * COORD_LIMIT <= p.x <= 2 * COORD_LIMIT,
        -2 * COORD_LIMIT <= p.y <= 2 * COORD_LIMIT,
    ensures
        is_isqrt((p.x * p.x + p.y * p.y) as int, r as int),
{
    let sq = length_squared(p);
    let r = isqrt(sq);
    r as u64
}

/// Bezier handle magnitude for a visually taut S-curve: a third of the
/// distance between the two curve endpoints, rounded down to micro-units.
pub fn compute_tangent_length_from_points(start: Point, end: Point) -> (r: u64)
    requires
        start.in_bounds(),
        end.in_bounds(),
    ensures
        exists|d: int|
            is_isqrt(
                ((end.x - start.x) * (end.x - start.x) + (end.y - start.y) * (end.y - start.y))
                    as int,
                d,
            ) && r == #[trigger] tdiv(d, 3),
{
    let d = end.minus(start);
    let len = length(d);
    let r = len / 3;
    proof {
        let dd = len as int;
        assert(is_isqrt((d.x * d.x + d.y * d.y) as int, dd));
        assert(r == tdiv(dd, 3));
    }
    r
}

impl FlowCurve {
    /// Tangent handle magnitude of this curve.
    pub fn compute_tangent_length(&self) -> (r: u64)
        requires
            self.start.in_bounds(),
            self.end.in_bounds(),
        ensures
            exists|d: int|
                is_isqrt(
                    ((self.end.x - self.start.x) * (self.end.x - self.start.x) + (self.end.y
                        - self.start.y) * (self.end.y - self.start.y)) as int,
                    d,
                ) && r == #[trigger] tdiv(d, 3),
    {
        compute_tangent_length_from_points(self.start, self.end)
    }
}

/// Scale a point by the zoom (hundredths): the world position of an
/// element whose unzoomed position is `p`.
pub fn scale_by_zoom(p: Point, zoom: u32) -> (r: Point)
    requires
        p.pos_bounded(),
        zoom <= 1000,
    ensures
        r.x == tdiv(p.x * zoom, 100),
        r.y == tdiv(p.y * zoom, 100),
        r.in_bounds(),
{
    proof {
        assert(-1000 * POS_LIMIT <= p.x * zoom <= 1000 * POS_LIMIT && -1000 * POS_LIMIT <= p.y
            * zoom <= 1000 * POS_LIMIT) by (nonlinear_arith)
            requires
                -POS_LIMIT <= p.x <= POS_LIMIT,
                -POS_LIMIT <= p.y <= POS_LIMIT,
                0 <= zoom <= 1000,
        ;
        lemma_tdiv_bound(p.x * zoom, 100, 10 * POS_LIMIT as int);
        lemma_tdiv_bound(p.y * zoom, 100, 10 * POS_LIMIT as int);
    }
    let x = div_trunc_wide((p.x as i128) * (zoom as i128), 100);
    let y = div_trunc_wide((p.y as i128) * (zoom as i128), 100);
    Point { x: x as i64, y: y as i64 }
}

/// Undo the zoom on a world position: the unzoomed position of a point
/// placed under the given zoom. The zoom is at least its clamp floor, so
/// the result grows by a factor of five at most.
pub fn unscale_by_zoom(p: Point, zoom: u32) -> (r: Point)
    requires
        -0x2_0000_0000 <= p.x <= 0x2_0000_0000,
        -0x2_0000_0000 <= p.y <= 0x2_0000_0000,
        20 <= zoom <= 1000,
    ensures
        r.x == tdiv(p.x * 100, zoom as int),
        r.y == tdiv(p.y * 100, zoom as int),
        r.pos_bounded(),
{
    proof {
        assert(-(POS_LIMIT as int) * zoom <= p.x * 100 <= (POS_LIMIT as int) * zoom && -(
        POS_LIMIT as int) * zoom <= p.y * 100 <= (POS_LIMIT as int) * zoom) by (nonlinear_arith)
            requires
                -0x2_0000_0000 <= p.x <= 0x2_0000_0000,
                -0x2_0000_0000 <= p.y <= 0x2_0000_0000,
                20 <= zoom <= 1000,
                POS_LIMIT == 0x10_0000_0000i64,
        ;
        lemma_tdiv_bound(p.x * 100, zoom as int, POS_LIMIT as int);
        lemma_tdiv_bound(p.y * 100, zoom as int, POS_LIMIT as int);
    }
    let x = div_trunc_wide((p.x as i128) * 100, zoom as i128);
    let y = div_trunc_wide((p.y as i128) * 100, zoom as i128);
    Point { x: x as i64, y: y as i64 }
}

/// The vector of the given length along a rotation's axis: the rotation
/// applied to `(len, 0)`.
pub fn scale_dir(r: Rot, len: i64) -> (out: Point)
    requires
        r.wf(),
        -COORD_LIMIT <= len <= COORD_LIMIT,
    ensures
        out.x == tdiv(r.x * len, UNIT as int),
        out.y == tdiv(r.y * len, UNIT as int),
        -len <= out.x <= len || -len >= out.x >= len,
        (if len >= 0 {
            -len <= out.x <= len && -len <= out.y <= len
        } else {
            len <= out.x <= -len && len <= out.y <= -len
        }),
{
    proof {
        let m: int = if len >= 0 {
            len as int
        } else {
            -(len as int)
        };
        assert(-(m * UNIT) <= r.x * len <= m * UNIT && -(m * UNIT) <= r.y * len <= m * UNIT)
            by (nonlinear_arith)
            requires
                -UNIT <= r.x <= UNIT,
                -UNIT <= r.y <= UNIT,
                m == (if len >= 0 {
                    len as int
                } else {
                    -(len as int)
                }),
        ;
        lemma_tdiv_bound(r.x * len, UNIT as int, m);
        lemma_tdiv_bound(r.y * len, UNIT as int, m);
    }
    let xx: i128 = (r.x as i128) * (len as i128);
    let yy: i128 = (r.y as i128) * (len as i128);
    let x = div_trunc_wide(xx, UNIT as i128);
    let y = div_trunc_wide(yy, UNIT as i128);
    Point { x: x as i64, y: y as i64 }
}

/// Apply a rotation to a vector: fixed-point complex multiplication.
pub fn rotate_vec(r: Rot, v: Point) -> (out: Point)
    requires
        r.wf(),
        v.in_bounds(),
    ensures
        out.x == tdiv(r.x * v.x - r.y * v.y, UNIT as int),
        out.y == tdiv(r.y * v.x + r.x * v.y, UNIT as int),
        -2 * COORD_LIMIT <= out.x <= 2 * COORD_LIMIT,
        -2 * COORD_LIMIT <= out.y <= 2 * COORD_LIMIT,
{
    proof {
        assert(-(UNIT as int) * COORD_LIMIT <= r.x * v.x <= (UNIT as int) * COORD_LIMIT && -(
        UNIT as int) * COORD_LIMIT <= r.y * v.y <= (UNIT as int) * COORD_LIMIT && -(UNIT as int)
            * COORD_LIMIT <= r.y * v.x <= (UNIT as int) * COORD_LIMIT && -(UNIT as int)
            * COORD_LIMIT <= r.x * v.y <= (UNIT as int) * COORD_LIMIT) by (nonlinear_arith)
            requires
                -UNIT <= r.x <= UNIT,
                -UNIT <= r.y <= UNIT,
                -COORD_LIMIT <= v.x <= COORD_LIMIT,
                -COORD_LIMIT <= v.y <= COORD_LIMIT,
        ;
        lemma_tdiv_bound(r.x * v.x - r.y * v.y, UNIT as int, 2 * COORD_LIMIT as int);
        lemma_tdiv_bound(r.y * v.x + r.x * v.y, UNIT as int, 2 * COORD_LIMIT as int);
    }
    let xx: i128 = (r.x as i128) * (v.x as i128) - (r.y as i128) * (v.y as i128);
    let yy: i128 = (r.y as i128) * (v.x as i128) + (r.x as i128) * (v.y as i128);
    let x = div_trunc_wide(xx, UNIT as i128);
    let y = div_trunc_wide(yy, UNIT as i128);
    Point { x: x as i64, y: y as i64 }
}

/// Clamp a fixed-point value into the unit range `[-UNIT, UNIT]`.
pub open spec fn clamp_unit(a: int) -> int {
    if a < -UNIT {
        -UNIT as int
    } else if a > UNIT {
        UNIT as int
    } else {
        a
    }
}

fn clamp_unit_exec(a: i64) -> (r: i64)
    ensures
        r == clamp_unit(a as int),
        -UNIT <= r <= UNIT,
{
    if a < -UNIT {
        -UNIT
    } else if a > UNIT {
        UNIT
    } else {
        a
    }
}

/// Compose two rotations: the rotation that applies `second` after
/// `first`, again fixed-point complex multiplication. The raw result can
/// overshoot the unit range by the division rounding, so it is clamped
/// back in.
pub fn rot_compose(first: Rot, second: Rot) -> (out: Rot)
    requires
        first.wf(),
        second.wf(),
    ensures
        out.wf(),
        out.x == clamp_unit(tdiv(second.x * first.x - second.y * first.y, UNIT as int)),
        out.y == clamp_unit(tdiv(second.y * first.x + second.x * first.y, UNIT as int)),
{
    proof {
        assert(-(UNIT as int) * UNIT <= second.x * first.x <= (UNIT as int) * UNIT && -(
        UNIT as int) * UNIT <= second.y * first.y <= (UNIT as int) * UNIT && -(UNIT as int) * UNIT
            <= second.y * first.x <= (UNIT as int) * UNIT && -(UNIT as int) * UNIT <= second.x
            * first.y <= (UNIT as int) * UNIT) by (nonlinear_arith)
            requires
                -UNIT <= first.x <= UNIT,
                -UNIT <= first.y <= UNIT,
                -UNIT <= second.x <= UNIT,
                -UNIT <= second.y <= UNIT,
        ;
        lemma_tdiv_bound(second.x * first.x - second.y * first.y, UNIT as int, 2 * UNIT as int);
        lemma_tdiv_bound(second.y * first.x + second.x * first.y, UNIT as int, 2 * UNIT as int);
    }
    let xx: i128 = (second.x as i128) * (first.x as i128) - (second.y as i128) * (first.y as i128);
    let yy: i128 = (second.y as i128) * (first.x as i128) + (second.x as i128) * (first.y as i128);
    let x = div_trunc_wide(xx, UNIT as i128);
    let y = div_trunc_wide(yy, UNIT as i128);
    Rot { x: clamp_unit_exec(x as i64), y: clamp_unit_exec(y as i64) }
}

/// Compose a parent placement with a child placement expressed in the
/// parent's frame: rotate the child's translation into the parent frame
/// and offset it; rotations compose; depths add.
pub fn transform_mul(parent: &Transform, child: &Transform) -> (out: Transform)
    requires
        parent.wf(),
        child.wf(),
        parent.translation.x + 2 * COORD_LIMIT <= i64::MAX,
        parent.translation.x - 2 * COORD_LIMIT >= i64::MIN,
        parent.translation.y + 2 * COORD_LIMIT <= i64::MAX,
        parent.translation.y - 2 * COORD_LIMIT >= i64::MIN,
        parent.z + child.z <= i64::MAX,
        parent.z + child.z >= i64::MIN,
    ensures
        out.translation.x == parent.translation.x + tdiv(
            parent.rotation.x * child.translation.x - parent.rotation.y * child.translation.y,
            UNIT as int,
        ),
        out.translation.y == parent.translation.y + tdiv(
            parent.rotation.y * child.translation.x + parent.rotation.x * child.translation.y,
            UNIT as int,
        ),
        out.z == parent.z + child.z,
        out.rotation.wf(),
        out.rotation.x == clamp_unit(
            tdiv(
                child.rotation.x * parent.rotation.x - child.rotation.y * parent.rotation.y,
                UNIT as int,
            ),
        ),
        out.rotation.y == clamp_unit(
            tdiv(
                child.rotation.y * parent.rotation.x + child.rotation.x * parent.rotation.y,
                UNIT as int,
            ),
        ),
{
    let rotated = rotate_vec(parent.rotation, child.translation);
    let translation = Point {
        x: parent.translation.x + rotated.x,
        y: parent.translation.y + rotated.y,
    };
    let rotation = rot_compose(parent.rotation, child.rotation);
    Transform { translation, z: parent.z + child.z, rotation }
}

/// Attachment of an external anchor `p` to the circumference of a disk at
/// `center` with radius `radius`: the attachment direction is the outward
/// normal through `p`, and the attachment point sits one radius along it.
/// Returns the point, the direction and the distance witness.
pub fn end_and_direction_from_subsystem(center: Point, radius: u64, p: Point) -> (out: (
    Point,
    Rot,
    u64,
))
    requires
        center.in_bounds(),
        p.in_bounds(),
        radius <= COORD_LIMIT,
        !(p.x == center.x && p.y == center.y),
    ensures
        is_isqrt(
            ((p.x - center.x) * (p.x - center.x) + (p.y - center.y) * (p.y - center.y)) as int,
            out.2 as int,
        ),
        out.2 > 0,
        out.1.x == tdiv((p.x - center.x) * UNIT, out.2 as int),
        out.1.y == tdiv((p.y - center.y) * UNIT, out.2 as int),
        out.1.wf(),
        out.0.x == center.x + tdiv((p.x - center.x) * radius, out.2 as int),
        out.0.y == center.y + tdiv((p.y - center.y) * radius, out.2 as int),
        -2 * COORD_LIMIT <= out.0.x <= 2 * COORD_LIMIT,
        -2 * COORD_LIMIT <= out.0.y <= 2 * COORD_LIMIT,
{
    let d = p.minus(center);
    let len = length(d);
    proof {
        // The distance dominates each coordinate, so the normalized
        // direction stays within the unit range.
        assert(len > 0) by (nonlinear_arith)
            requires
                is_isqrt((d.x * d.x + d.y * d.y) as int, len as int),
                !(d.x == 0 && d.y == 0),
        ;
        lemma_abs_le_sqrt(d.x as int, d.y as int, len as int);
        lemma_abs_le_sqrt(d.y as int, d.x as int, len as int);
        assert(-(UNIT as int) * len <= d.x * UNIT <= (UNIT as int) * len && -(UNIT as int) * len
            <= d.y * UNIT <= (UNIT as int) * len) by (nonlinear_arith)
            requires
                -(len as int) <= d.x <= len as int,
                -(len as int) <= d.y <= len as int,
        ;
        lemma_tdiv_bound(d.x * UNIT, len as int, UNIT as int);
        lemma_tdiv_bound(d.y * UNIT, len as int, UNIT as int);
        assert(-((radius as int) * len) <= d.x * radius <= (radius as int) * len && -((
        radius as int) * len) <= d.y * radius <= (radius as int) * len) by (nonlinear_arith)
            requires
                -(len as int) <= d.x <= len as int,
                -(len as int) <= d.y <= len as int,
                radius >= 0,
        ;
        lemma_tdiv_bound(d.x * radius, len as int, radius as int);
        lemma_tdiv_bound(d.y * radius, len as int, radius as int);
        assert(-2 * (COORD_LIMIT as int) * COORD_LIMIT <= d.x * radius <= 2 * (COORD_LIMIT as int)
            * COORD_LIMIT && -2 * (COORD_LIMIT as int) * COORD_LIMIT <= d.y * radius <= 2 * (
        COORD_LIMIT as int) * COORD_LIMIT) by (nonlinear_arith)
            requires
                -2 * COORD_LIMIT <= d.x <= 2 * COORD_LIMIT,
                -2 * COORD_LIMIT <= d.y <= 2 * COORD_LIMIT,
                0 <= radius <= COORD_LIMIT,
        ;
    }
    let dir_x = div_trunc_wide((d.x as i128) * (UNIT as i128), len as i128);
    let dir_y = div_trunc_wide((d.y as i128) * (UNIT as i128), len as i128);
    let off_x = div_trunc_wide((d.x as i128) * (radius as i128), len as i128);
    let off_y = div_trunc_wide((d.y as i128) * (radius as i128), len as i128);
    let point = Point { x: center.x + off_x as i64, y: center.y + off_y as i64 };
    let dir = Rot { x: dir_x as i64, y: dir_y as i64 };
    (point, dir, len)
}

/// Whether a point lies within the world coordinate bound, as executable
/// code.
pub fn point_in_bounds(p: Point) -> (r: bool)
    ensures
        r == p.in_bounds(),
{
    -COORD_LIMIT <= p.x && p.x <= COORD_LIMIT && -COORD_LIMIT <= p.y && p.y <= COORD_LIMIT
}

/// The sum of two points, at the spec level.
pub open spec fn point_plus(a: Point, b: Point) -> Point {
    Point { x: (a.x + b.x) as i64, y: (a.y + b.y) as i64 }
}

/// A point scaled by the zoom (hundredths), at the spec level.
pub open spec fn zoomed(p: Point, zoom: int) -> Point {
    Point { x: tdiv(p.x * zoom, 100) as i64, y: tdiv(p.y * zoom, 100) as i64 }
}

/// The vector of the given length along a rotation's axis, at the spec
/// level.
pub open spec fn dir_scaled(r: Rot, len: int) -> Point {
    Point { x: tdiv(r.x * len, UNIT as int) as i64, y: tdiv(r.y * len, UNIT as int) as i64 }
}

/// Given the transform of the toolbar button that launched a spawn, the
/// world transform and unzoomed position of the element to create: the
/// button's world position is divided by the zoom, moved along the
/// button's facing by `move_right`, then re-scaled by the zoom at depth
/// `z`, keeping the button's rotation.
pub fn ui_transform_from_button(
    button_transform: &Transform,
    z: i64,
    move_right: i64,
    zoom: u32,
) -> (out: (Transform, Point))
    requires
        button_transform.wf(),
        -0x2_0000_0000 <= button_transform.translation.x <= 0x2_0000_0000,
        -0x2_0000_0000 <= button_transform.translation.y <= 0x2_0000_0000,
        -0x2000_0000 <= move_right <= 0x2000_0000,
        20 <= zoom <= 1000,
    ensures
        out.1 == point_plus(
            Point {
                x: tdiv(button_transform.translation.x * 100, zoom as int) as i64,
                y: tdiv(button_transform.translation.y * 100, zoom as int) as i64,
            },
            dir_scaled(button_transform.rotation, move_right as int),
        ),
        out.1.pos_bounded(),
        out.0.translation == zoomed(out.1, zoom as int),
        out.0.z == z,
        out.0.rotation == button_transform.rotation,
        out.0.wf(),
{
    let position0 = unscale_by_zoom(button_transform.translation, zoom);
    let offset = scale_dir(button_transform.rotation, move_right);
    proof {
        assert((-(0x2_0000_0000 * 5i64) - 0x2000_0000) <= position0.x + offset.x <= (0x2_0000_0000
            * 5i64 + 0x2000_0000)) by {
            assert(-(0x2_0000_0000 * 5i64) <= position0.x <= 0x2_0000_0000 * 5i64) by {
                assert(-((0x2_0000_0000 * 5) * zoom) <= button_transform.translation.x * 100 <= (
                0x2_0000_0000 * 5) * zoom) by (nonlinear_arith)
                    requires
                        -0x2_0000_0000 <= button_transform.translation.x <= 0x2_0000_0000,
                        20 <= zoom,
                ;
                lemma_tdiv_bound(
                    button_transform.translation.x * 100,
                    zoom as int,
                    0x2_0000_0000int * 5,
                );
            }
        }
        assert((-(0x2_0000_0000 * 5i64) - 0x2000_0000) <= position0.y + offset.y <= (0x2_0000_0000
            * 5i64 + 0x2000_0000)) by {
            assert(-(0x2_0000_0000 * 5i64) <= position0.y <= 0x2_0000_0000 * 5i64) by {
                assert(-((0x2_0000_0000 * 5) * zoom) <= button_transform.translation.y * 100 <= (
                0x2_0000_0000 * 5) * zoom) by (nonlinear_arith)
                    requires
                        -0x2_0000_0000 <= button_transform.translation.y <= 0x2_0000_0000,
                        20 <= zoom,
                ;
                lemma_tdiv_bound(
                    button_transform.translation.y * 100,
                    zoom as int,
                    0x2_0000_0000int * 5,
                );
            }
        }
    }
    let position = position0.plus(offset);
    let translation = scale_by_zoom(position, zoom);
    (
        Transform { translation, z, rotation: button_transform.rotation },
        position,
    )
}

/// The curve of a freshly spawned inflow: it ends at the spawn position
/// and starts one stub length out along `direction`, with the handles
/// pointing back along the stub.
pub fn flow_curve_inflow(zoom: u32, initial_position: Point, direction: Rot, scale: u32) -> (out:
    FlowCurve)
    requires
        -0x8_0000_0000 <= initial_position.x <= 0x8_0000_0000,
        -0x8_0000_0000 <= initial_position.y <= 0x8_0000_0000,
        direction.wf(),
        scale <= 1000,
        zoom <= 1000,
    ensures
        out.start == zoomed(
            point_plus(
                initial_position,
                dir_scaled(direction, tdiv(FLOW_LENGTH * scale, 100) as int),
            ),
            zoom as int,
        ),
        out.start_dir == (Point { x: (-direction.x) as i64, y: (-direction.y) as i64 }),
        out.end == zoomed(initial_position, zoom as int),
        out.end_dir == (Point { x: direction.x, y: direction.y }),
{
    let stub = flow_stub_length(scale);
    let offset = scale_dir(direction, stub);
    let start = scale_by_zoom(initial_position.plus(offset), zoom);
    let end = scale_by_zoom(initial_position, zoom);
    (FlowCurve {
        start,
        end,
        start_dir: Point { x: -direction.x, y: -direction.y },
        end_dir: Point { x: direction.x, y: direction.y },
    })
}

/// The curve of a freshly spawned outflow: the mirror of the inflow
/// curve. It starts at the spawn position and ends one stub length out.
pub fn flow_curve_outflow(zoom: u32, initial_position: Point, direction: Rot, scale: u32) -> (out:
    FlowCurve)
    requires
        -0x8_0000_0000 <= initial_position.x <= 0x8_0000_0000,
        -0x8_0000_0000 <= initial_position.y <= 0x8_0000_0000,
        direction.wf(),
        scale <= 1000,
        zoom <= 1000,
    ensures
        out.start == zoomed(initial_position, zoom as int),
        out.start_dir == (Point { x: direction.x, y: direction.y }),
        out.end == zoomed(
            point_plus(
                initial_position,
                dir_scaled(direction, tdiv(FLOW_LENGTH * scale, 100) as int),
            ),
            zoom as int,
        ),
        out.end_dir == (Point { x: (-direction.x) as i64, y: (-direction.y) as i64 }),
{
    let stub = flow_stub_length(scale);
    let offset = scale_dir(direction, stub);
    let start = scale_by_zoom(initial_position, zoom);
    let end = scale_by_zoom(initial_position.plus(offset), zoom);
    (FlowCurve {
        start,
        end,
        start_dir: Point { x: direction.x, y: direction.y },
        end_dir: Point { x: -direction.x, y: -direction.y },
    })
}

/// The stub length of a fresh flow at the given nesting scale
/// (hundredths).
fn flow_stub_length(scale: u32) -> (r: i64)
    requires
        scale <= 1000,
    ensures
        r == tdiv(FLOW_LENGTH * scale, 100),
        0 <= r <= 10 * FLOW_LENGTH,
{
    div_trunc(FLOW_LENGTH * (scale as i64), 100)
}

/// If `r` is the integer square root of a sum of squares, each summed
/// coordinate is bounded by `r` in magnitude.
proof fn lemma_abs_le_sqrt(a: int, b: int, r: int)
    requires
        is_isqrt(a * a + b * b, r),
    ensures
        -r <= a <= r,
{
    assert(b * b >= 0) by (nonlinear_arith);
    assert(-r <= a <= r) by (nonlinear_arith)
        requires
            r >= 0,
            r * r <= a * a + b * b < (r + 1) * (r + 1),
            b * b >= 0,
    ;
}

} // verus!
