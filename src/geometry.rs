//! Integer plane geometry: points, rotors, translation and the screen mapping.
//!
//! Coordinates are whole model units. A rotation is carried by a rotor, the
//! pair `(cos, sin)` of the angle in fixed point with `ROTOR_ONE` standing for 1.
//! The exact model of a rotation is the product of complex numbers, `turned`;
//! executable code scales the product back to whole units by rounding to the
//! nearest integer, `round_div`.
use vstd::prelude::*;
use vstd::arithmetic::div_mod::{
    lemma_div_is_ordered,
    lemma_fundamental_div_mod,
    lemma_fundamental_div_mod_converse,
};
use vstd::arithmetic::mul::{
    lemma_mul_is_associative,
    lemma_mul_is_distributive_add,
    lemma_mul_is_distributive_add_other_way,
    lemma_mul_is_distributive_sub,
    lemma_mul_is_distributive_sub_other_way,
};

verus! {

/// The fixed-point value of 1 in a rotor component.
pub const ROTOR_ONE: i64 = 65536;

/// The largest magnitude of a model coordinate that the transforms take.
pub const COORD_LIMIT: i64 = 4294967296;

/// A point of the plane in whole units.
#[derive(Clone, Copy, Debug, PartialEq, Eq, Structural)]
pub struct Point {
    pub x: i64,
    pub y: i64,
}

impl View for Point {
    type V = (int, int);

    open spec fn view(&self) -> (int, int) {
        (self.x as int, self.y as int)
    }
}

/// Both coordinates lie within `COORD_LIMIT` of the origin.
pub open spec fn within_limit(p: (int, int)) -> bool {
    -COORD_LIMIT <= p.0 <= COORD_LIMIT && -COORD_LIMIT <= p.1 <= COORD_LIMIT
}

/// The complex product of `p` and the rotor `r`: `p` turned by the rotor's
/// angle and scaled by its length.
pub open spec fn turned(p: (int, int), r: (int, int)) -> (int, int) {
    (p.0 * r.0 - p.1 * r.1, p.0 * r.1 + p.1 * r.0)
}

/// `p` moved by `d` along the X axis.
pub open spec fn shifted(p: (int, int), d: int) -> (int, int) {
    (p.0 + d, p.1)
}

/// The squared distance of `p` from the origin.
pub open spec fn norm2(p: (int, int)) -> int {
    p.0 * p.0 + p.1 * p.1
}

/// `v / d` rounded to the nearest integer, halves rounded up.
pub open spec fn round_div(v: int, d: int) -> int {
    (v + d / 2) / d
}

/// Both coordinates of `p` divided by `d`, rounded to the nearest integer.
pub open spec fn scaled_down(p: (int, int), d: int) -> (int, int) {
    (round_div(p.0, d), round_div(p.1, d))
}

/// The pipeline before rounding: turn by `spin`, move by `axle` along X, turn
/// by `rev`. The result carries the scale of both rotors.
pub open spec fn pipeline(p: (int, int), spin: (int, int), axle: int, rev: (int, int)) -> (int, int) {
    turned(shifted(turned(p, spin), axle * ROTOR_ONE), rev)
}

/// The pipeline scaled back to whole units.
pub open spec fn placed(p: (int, int), spin: (int, int), axle: int, rev: (int, int)) -> (int, int) {
    scaled_down(pipeline(p, spin, axle, rev), ROTOR_ONE * ROTOR_ONE)
}

/// A model point on a surface of `w` by `h` pixels: the origin moves to the
/// middle and the Y axis points down.
pub open spec fn on_screen(p: (int, int), w: int, h: int) -> (int, int) {
    (p.0 + w / 2, h / 2 - p.1)
}

/// A pixel of a surface of `w` by `h` pixels back in the model plane.
pub open spec fn off_screen(q: (int, int), w: int, h: int) -> (int, int) {
    (q.0 - w / 2, h / 2 - q.1)
}

/// A rotation in fixed point: `cos` and `sin` of the angle times `ROTOR_ONE`.
#[derive(Clone, Copy, Debug)]
pub struct Rotation {
    cos: i64,
    sin: i64,
}

impl View for Rotation {
    type V = (int, int);

    closed spec fn view(&self) -> (int, int) {
        (self.cos as int, self.sin as int)
    }
}

/// Each component of a rotor lies within `ROTOR_ONE` of zero.
pub open spec fn rotor_bounded(r: (int, int)) -> bool {
    -ROTOR_ONE <= r.0 <= ROTOR_ONE && -ROTOR_ONE <= r.1 <= ROTOR_ONE
}

impl Rotation {
    #[verifier::type_invariant]
    spec fn components_bounded(self) -> bool {
        rotor_bounded(self@)
    }

    /// The rotor `(cos, sin)`, when each component lies within `ROTOR_ONE` of zero.
    pub fn new(cos: i64, sin: i64) -> (r: Option<Rotation>)
        ensures
            r is Some <==> rotor_bounded((cos as int, sin as int)),
            r matches Some(rot) ==> rot@ == (cos as int, sin as int),
    {
        if -ROTOR_ONE <= cos && cos <= ROTOR_ONE && -ROTOR_ONE <= sin && sin <= ROTOR_ONE {
            Some(Rotation { cos, sin })
        } else {
            None
        }
    }

    /// The rotor of the zero angle.
    pub fn identity() -> (r: Rotation)
        ensures
            r@ == (ROTOR_ONE as int, 0int),
    {
        Rotation { cos: ROTOR_ONE, sin: 0 }
    }

    pub fn cos(&self) -> (r: i64)
        ensures
            r == self@.0,
    {
        self.cos
    }

    pub fn sin(&self) -> (r: i64)
        ensures
            r == self@.1,
    {
        self.sin
    }
}

impl Point {
    pub fn new(x: i64, y: i64) -> (r: Point)
        ensures
            r@ == (x as int, y as int),
    {
        Point { x, y }
    }

    /// Whether both coordinates lie within `COORD_LIMIT` of the origin.
    pub fn is_within_limit(&self) -> (r: bool)
        ensures
            r == within_limit(self@),
    {
        -COORD_LIMIT <= self.x && self.x <= COORD_LIMIT && -COORD_LIMIT <= self.y && self.y
            <= COORD_LIMIT
    }
}

/// `|a * b| <= ma * mb` when `|a| <= ma` and `|b| <= mb`.
proof fn lemma_product_bound(a: int, b: int, ma: int, mb: int)
    requires
        -ma <= a <= ma,
        -mb <= b <= mb,
    ensures
        -(ma * mb) <= a * b <= ma * mb,
{
    assert(-(ma * mb) <= a * b <= ma * mb) by (nonlinear_arith)
        requires
            -ma <= a <= ma,
            -mb <= b <= mb,
    ;
}

/// Turning a point whose coordinates are at most `m` by a bounded rotor gives
/// coordinates of at most `2 * m * ROTOR_ONE`.
proof fn lemma_turned_bound(p: (int, int), r: (int, int), m: int)
    requires
        -m <= p.0 <= m,
        -m <= p.1 <= m,
        rotor_bounded(r),
    ensures
        -m * ROTOR_ONE <= p.0 * r.0 <= m * ROTOR_ONE,
        -m * ROTOR_ONE <= p.1 * r.1 <= m * ROTOR_ONE,
        -m * ROTOR_ONE <= p.0 * r.1 <= m * ROTOR_ONE,
        -m * ROTOR_ONE <= p.1 * r.0 <= m * ROTOR_ONE,
        -2 * m * ROTOR_ONE <= turned(p, r).0 <= 2 * m * ROTOR_ONE,
        -2 * m * ROTOR_ONE <= turned(p, r).1 <= 2 * m * ROTOR_ONE,
{
    lemma_product_bound(p.0, r.0, m, ROTOR_ONE as int);
    lemma_product_bound(p.1, r.1, m, ROTOR_ONE as int);
    lemma_product_bound(p.0, r.1, m, ROTOR_ONE as int);
    lemma_product_bound(p.1, r.0, m, ROTOR_ONE as int);
}

/// Rounding a value within `m * d` of zero gives a value within `m` of zero.
proof fn lemma_round_div_bound(v: int, d: int, m: int)
    requires
        d > 0,
        m >= 0,
        -(m * d) <= v <= m * d,
    ensures
        -m <= round_div(v, d) <= m,
{
    lemma_fundamental_div_mod_converse(m * d + d / 2, d, m, d / 2);
    assert((-m) * d == -(m * d)) by (nonlinear_arith);
    lemma_fundamental_div_mod_converse(-(m * d) + d / 2, d, -m, d / 2);
    lemma_div_is_ordered(v + d / 2, m * d + d / 2, d);
    lemma_div_is_ordered(-(m * d) + d / 2, v + d / 2, d);
}

/// Rounding to a whole multiple of an even `d` moves a value by at most `d / 2`.
pub proof fn lemma_round_div_error(v: int, d: int)
    requires
        d > 0,
        d % 2 == 0,
    ensures
        -(d / 2) <= d * round_div(v, d) - v <= d / 2,
{
    lemma_fundamental_div_mod(v + d / 2, d);
}

/// `v / d` rounded to the nearest integer.
fn round_div_exec(v: i128, d: i128) -> (r: i128)
    requires
        d > 1,
        -0x1_0000_0000_0000_0000_0000 <= v <= 0x1_0000_0000_0000_0000_0000,
        d <= 0x1_0000_0000_0000_0000_0000,
    ensures
        r == round_div(v as int, d as int),
{
    let half: i128 = match d.checked_div_euclid(2) {
        Some(h) => h,
        None => 0,
    };
    assert(half == d / 2);
    proof {
        let m: int = 0x1_0000_0000_0000_0000_0000;
        assert(m <= m * d) by (nonlinear_arith)
            requires
                d > 1,
                m > 0,
        ;
        lemma_round_div_bound(v as int, d as int, m);
    }
    let shifted_v: i128 = v + half;
    match shifted_v.checked_div_euclid(d) {
        Some(q) => q,
        None => 0,
    }
}

/// The point `p` turned by the rotor `rot`, in whole units.
pub fn rotate(p: Point, rot: Rotation) -> (r: Point)
    requires
        within_limit(p@),
    ensures
        r@ == scaled_down(turned(p@, rot@), ROTOR_ONE as int),
        -(ROTOR_ONE / 2) <= ROTOR_ONE * r.x - turned(p@, rot@).0 <= ROTOR_ONE / 2,
        -(ROTOR_ONE / 2) <= ROTOR_ONE * r.y - turned(p@, rot@).1 <= ROTOR_ONE / 2,
{
    proof {
        use_type_invariant(rot);
        lemma_turned_bound(p@, rot@, COORD_LIMIT as int);
    }
    let (x, y) = (p.x as i128, p.y as i128);
    let (c, s) = (rot.cos as i128, rot.sin as i128);
    let tx: i128 = x * c - y * s;
    let ty: i128 = x * s + y * c;
    let one: i128 = ROTOR_ONE as i128;
    proof {
        lemma_round_div_bound(tx as int, one as int, 2 * COORD_LIMIT);
        lemma_round_div_bound(ty as int, one as int, 2 * COORD_LIMIT);
    }
    let rx: i128 = round_div_exec(tx, one);
    let ry: i128 = round_div_exec(ty, one);
    proof {
        lemma_round_div_error(tx as int, one as int);
        lemma_round_div_error(ty as int, one as int);
    }
    Point { x: rx as i64, y: ry as i64 }
}

/// The point `p` moved by `d` along the X axis.
pub fn translate(p: Point, d: i64) -> (r: Point)
    requires
        i64::MIN <= p.x + d <= i64::MAX,
    ensures
        r@ == shifted(p@, d as int),
{
    Point { x: p.x + d, y: p.y }
}

/// Bounds on the pipeline for a point and an axle within `COORD_LIMIT`.
proof fn lemma_pipeline_bounded(p: (int, int), spin: (int, int), axle: int, rev: (int, int))
    requires
        within_limit(p),
        -COORD_LIMIT <= axle <= COORD_LIMIT,
        rotor_bounded(spin),
        rotor_bounded(rev),
    ensures
        -6 * COORD_LIMIT * ROTOR_ONE * ROTOR_ONE <= pipeline(p, spin, axle, rev).0
            <= 6 * COORD_LIMIT * ROTOR_ONE * ROTOR_ONE,
        -6 * COORD_LIMIT * ROTOR_ONE * ROTOR_ONE <= pipeline(p, spin, axle, rev).1
            <= 6 * COORD_LIMIT * ROTOR_ONE * ROTOR_ONE,
        -6 * COORD_LIMIT <= placed(p, spin, axle, rev).0 <= 6 * COORD_LIMIT,
        -6 * COORD_LIMIT <= placed(p, spin, axle, rev).1 <= 6 * COORD_LIMIT,
{
    let m = COORD_LIMIT as int;
    let one = ROTOR_ONE as int;
    lemma_turned_bound(p, spin, m);
    lemma_product_bound(axle, one, m, one);
    let b = shifted(turned(p, spin), axle * one);
    lemma_turned_bound(b, rev, 3 * m * one);
    assert(2 * (3 * m * one) * one == 6 * m * (one * one)) by (nonlinear_arith);
    lemma_round_div_bound(pipeline(p, spin, axle, rev).0, one * one, 6 * m);
    lemma_round_div_bound(pipeline(p, spin, axle, rev).1, one * one, 6 * m);
}

/// The whole transform of one curve point: turn by `spin` about the origin,
/// move by `axle` along X, turn by `rev` about the origin. Rounding to whole
/// units happens once, at the end.
pub fn transform(p: Point, spin: Rotation, axle: i64, rev: Rotation) -> (r: Point)
    requires
        within_limit(p@),
        -COORD_LIMIT <= axle <= COORD_LIMIT,
    ensures
        r@ == placed(p@, spin@, axle as int, rev@),
        -(ROTOR_ONE * ROTOR_ONE / 2) <= ROTOR_ONE * ROTOR_ONE * r.x - pipeline(
            p@,
            spin@,
            axle as int,
            rev@,
        ).0 <= ROTOR_ONE * ROTOR_ONE / 2,
        -(ROTOR_ONE * ROTOR_ONE / 2) <= ROTOR_ONE * ROTOR_ONE * r.y - pipeline(
            p@,
            spin@,
            axle as int,
            rev@,
        ).1 <= ROTOR_ONE * ROTOR_ONE / 2,
        -6 * COORD_LIMIT <= r.x <= 6 * COORD_LIMIT,
        -6 * COORD_LIMIT <= r.y <= 6 * COORD_LIMIT,
{
    proof {
        use_type_invariant(spin);
        use_type_invariant(rev);
        lemma_pipeline_bounded(p@, spin@, axle as int, rev@);
        lemma_turned_bound(p@, spin@, COORD_LIMIT as int);
        lemma_product_bound(axle as int, ROTOR_ONE as int, COORD_LIMIT as int, ROTOR_ONE as int);
    }
    let one: i128 = ROTOR_ONE as i128;
    let (x, y) = (p.x as i128, p.y as i128);
    let (c1, s1) = (spin.cos as i128, spin.sin as i128);
    let ax: i128 = x * c1 - y * s1;
    let ay: i128 = x * s1 + y * c1;
    let bx: i128 = ax + (axle as i128) * one;
    proof {
        lemma_turned_bound((bx as int, ay as int), rev@, 3 * COORD_LIMIT * ROTOR_ONE);
    }
    let (c2, s2) = (rev.cos as i128, rev.sin as i128);
    let cx: i128 = bx * c2 - ay * s2;
    let cy: i128 = bx * s2 + ay * c2;
    let rx: i128 = round_div_exec(cx, one * one);
    let ry: i128 = round_div_exec(cy, one * one);
    proof {
        lemma_round_div_error(cx as int, (one * one) as int);
        lemma_round_div_error(cy as int, (one * one) as int);
    }
    Point { x: rx as i64, y: ry as i64 }
}

/// The pixel of a surface of `width` by `height` pixels at which the model
/// point `p` is drawn.
pub fn to_screen(p: Point, width: u32, height: u32) -> (r: Point)
    requires
        i64::MIN <= p.x + width / 2 <= i64::MAX,
        i64::MIN <= height / 2 - p.y <= i64::MAX,
    ensures
        r@ == on_screen(p@, width as int, height as int),
{
    let hw: i64 = (width / 2) as i64;
    let hh: i64 = (height / 2) as i64;
    Point { x: p.x + hw, y: hh - p.y }
}

/// The model point drawn at the pixel `q` of a surface of `width` by
/// `height` pixels.
pub fn from_screen(q: Point, width: u32, height: u32) -> (r: Point)
    requires
        i64::MIN <= q.x - width / 2 <= i64::MAX,
        i64::MIN <= height / 2 - q.y <= i64::MAX,
    ensures
        r@ == off_screen(q@, width as int, height as int),
{
    let hw: i64 = (width / 2) as i64;
    let hh: i64 = (height / 2) as i64;
    Point { x: q.x - hw, y: hh - q.y }
}

/// Turning preserves length up to the rotor's own length: the squared length
/// of the turned point is that of the point times that of the rotor. A rotor of
/// length `ROTOR_ONE` keeps every point at its distance from the origin.
pub proof fn lemma_rotation_keeps_length(p: (int, int), r: (int, int))
    ensures
        norm2(turned(p, r)) == norm2(p) * norm2(r),
        norm2(r) == ROTOR_ONE * ROTOR_ONE ==> norm2(turned(p, r)) == norm2(p) * (ROTOR_ONE
            * ROTOR_ONE),
{
    let (x, y, c, s): (int, int, int, int) = (p.0, p.1, r.0, r.1);
    let (a, b, e, f): (int, int, int, int) = (x * c, y * s, x * s, y * c);
    assert((a - b) * (a - b) + (e + f) * (e + f) == a * a + b * b + e * e + f * f - 2 * (a * b)
        + 2 * (e * f)) by (nonlinear_arith);
    assert(a * b == e * f) by (nonlinear_arith)
        requires
            a == x * c,
            b == y * s,
            e == x * s,
            f == y * c,
    ;
    let (xx, yy, cc, ss): (int, int, int, int) = (x * x, y * y, c * c, s * s);
    assert(a * a == xx * cc && b * b == yy * ss && e * e == xx * ss && f * f == yy * cc)
        by (nonlinear_arith)
        requires
            a == x * c,
            b == y * s,
            e == x * s,
            f == y * c,
            xx == x * x,
            yy == y * y,
            cc == c * c,
            ss == s * s,
    ;
    assert((xx + yy) * (cc + ss) == xx * cc + xx * ss + yy * cc + yy * ss) by (nonlinear_arith);
}

/// Turning by `a` and then by `b` is turning once by the rotor `a` turned by
/// `b`, whose angle is the sum of the two angles.
pub proof fn lemma_rotation_composes(p: (int, int), a: (int, int), b: (int, int))
    ensures
        turned(turned(p, a), b) == turned(p, turned(a, b)),
{
    let (x, y, c1, s1, c2, s2): (int, int, int, int, int, int) = (p.0, p.1, a.0, a.1, b.0, b.1);
    lemma_mul_is_distributive_sub_other_way(c2, x * c1, y * s1);
    lemma_mul_is_distributive_add_other_way(s2, x * s1, y * c1);
    lemma_mul_is_distributive_sub_other_way(s2, x * c1, y * s1);
    lemma_mul_is_distributive_add_other_way(c2, x * s1, y * c1);
    lemma_mul_is_distributive_sub(x, c1 * c2, s1 * s2);
    lemma_mul_is_distributive_add(y, c1 * s2, s1 * c2);
    lemma_mul_is_distributive_add(x, c1 * s2, s1 * c2);
    lemma_mul_is_distributive_sub(y, c1 * c2, s1 * s2);
    lemma_mul_is_associative(x, c1, c2);
    lemma_mul_is_associative(x, s1, s2);
    lemma_mul_is_associative(y, c1, s2);
    lemma_mul_is_associative(y, s1, c2);
    lemma_mul_is_associative(x, c1, s2);
    lemma_mul_is_associative(x, s1, c2);
    lemma_mul_is_associative(y, c1, c2);
    lemma_mul_is_associative(y, s1, s2);
}

/// Moving by `d` and then by `-d` gives the point back.
pub proof fn lemma_translate_inverse(p: (int, int), d: int)
    ensures
        shifted(shifted(p, d), -d) == p,
{
}

/// The screen mapping is invertible: `off_screen` undoes `on_screen` and the
/// other way round.
pub proof fn lemma_screen_round_trip(p: (int, int), w: int, h: int)
    ensures
        off_screen(on_screen(p, w, h), w, h) == p,
        on_screen(off_screen(p, w, h), w, h) == p,
{
}

} // verus!
