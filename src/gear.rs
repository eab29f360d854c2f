//! A gear: a closed curve that spins about its own axle while the axle
//! revolves about the origin, both at fixed rates.
//!
//! Time is counted in milliseconds and angles in millidegrees, so a rate in
//! degrees per second times a time gives an angle with no rounding. Angles are
//! reduced to one turn; the rotation they stand for is unchanged by that.
use vstd::prelude::*;
use vstd::arithmetic::div_mod::{
    lemma_add_mod_noop,
    lemma_fundamental_div_mod_converse,
    lemma_mul_mod_noop_general,
    lemma_small_mod,
};
use vstd::arithmetic::mul::lemma_mul_is_distributive_add;
use crate::geometry::{
    COORD_LIMIT,
    Point,
    ROTOR_ONE,
    Rotation,
    on_screen,
    placed,
    shifted,
    to_screen,
    transform,
    within_limit,
};

verus! {

/// One full turn in millidegrees.
pub const FULL_TURN: u32 = 360000;

/// The angle, reduced to one turn, reached after `t` milliseconds at `rate`
/// degrees per second.
pub open spec fn angle_at(rate: int, t: int) -> int {
    (rate * t) % (FULL_TURN as int)
}

/// The parameters of a gear. Its outline is handed in separately.
#[derive(Clone, Copy, Debug, PartialEq, Eq, Structural)]
pub struct Gear {
    /// Distance from the revolution centre to the gear's own axle.
    pub axle_separation: i64,
    /// Turning rate about the gear's own axle, in degrees per second.
    pub spin_rate: i32,
    /// Turning rate of the axle about the origin, in degrees per second.
    pub revolution_rate: i32,
}

/// The angle reached after `t_ms` milliseconds at `rate` degrees per second.
fn turn_angle(rate: i32, t_ms: u64) -> (r: u32)
    ensures
        r == angle_at(rate as int, t_ms as int),
        r < FULL_TURN,
{
    let turn: i64 = FULL_TURN as i64;
    let rate_in_turn: i64 = match (rate as i64).checked_rem_euclid(turn) {
        Some(v) => v,
        None => 0,
    };
    let time_in_turn: u64 = t_ms % (FULL_TURN as u64);
    proof {
        lemma_mul_mod_noop_general(rate as int, t_ms as int, FULL_TURN as int);
        assert(rate_in_turn as u64 * time_in_turn <= 360000 * 360000) by (nonlinear_arith)
            requires
                0 <= rate_in_turn < 360000,
                0 <= time_in_turn < 360000,
        ;
    }
    let product: u64 = (rate_in_turn as u64) * time_in_turn;
    (product % (FULL_TURN as u64)) as u32
}

impl Gear {
    pub fn new(axle_separation: i64, spin_rate: i32, revolution_rate: i32) -> (r: Gear)
        ensures
            r == (Gear { axle_separation, spin_rate, revolution_rate }),
    {
        Gear { axle_separation, spin_rate, revolution_rate }
    }

    /// The spin angle and the revolution angle after `t_ms` milliseconds.
    pub fn angles_at(&self, t_ms: u64) -> (r: (u32, u32))
        ensures
            r.0 == angle_at(self.spin_rate as int, t_ms as int),
            r.1 == angle_at(self.revolution_rate as int, t_ms as int),
    {
        (turn_angle(self.spin_rate, t_ms), turn_angle(self.revolution_rate, t_ms))
    }

    /// The pixels of the gear's polygon on a surface of `width` by `height`
    /// pixels: each outline point turned by `spin`, moved by the axle
    /// separation, turned by `rev` and mapped to the screen, in order.
    /// `None` when the axle separation or an outline point lies beyond
    /// `COORD_LIMIT`.
    pub fn vertices(
        &self,
        outline: &Vec<Point>,
        spin: Rotation,
        rev: Rotation,
        width: u32,
        height: u32,
    ) -> (r: Option<Vec<Point>>)
        ensures
            r is Some <==> (-COORD_LIMIT <= self.axle_separation <= COORD_LIMIT && forall|i: int|
                0 <= i < outline.len() ==> within_limit(#[trigger] outline[i]@)),
            r matches Some(v) ==> v.len() == outline.len() && forall|i: int|
                0 <= i < outline.len() ==> (#[trigger] v[i])@ == on_screen(
                    placed(outline[i]@, spin@, self.axle_separation as int, rev@),
                    width as int,
                    height as int,
                ),
    {
        if self.axle_separation < -COORD_LIMIT || self.axle_separation > COORD_LIMIT {
            return None;
        }
        let mut out: Vec<Point> = Vec::new();
        let mut i: usize = 0;
        while i < outline.len()
            invariant
                i <= outline.len(),
                out.len() == i,
                -COORD_LIMIT <= self.axle_separation <= COORD_LIMIT,
                forall|j: int| 0 <= j < i ==> within_limit(#[trigger] outline[j]@),
                forall|j: int|
                    0 <= j < i ==> (#[trigger] out[j])@ == on_screen(
                        placed(outline[j]@, spin@, self.axle_separation as int, rev@),
                        width as int,
                        height as int,
                    ),
            decreases outline.len() - i,
        {
            let p = outline[i];
            if !p.is_within_limit() {
                return None;
            }
            let q = transform(p, spin, self.axle_separation, rev);
            out.push(to_screen(q, width, height));
            i = i + 1;
        }
        Some(out)
    }
}

/// The curve sampled at `segments` evenly spaced parameters: point `i` is what
/// `curve(i, segments)` gives, the parameter `i / segments` as a fraction.
/// The closing parameter `1` is not repeated.
pub fn sample<F: Fn(u32, u32) -> Point>(curve: F, segments: u32) -> (r: Vec<Point>)
    requires
        forall|i: u32| i < segments ==> curve.requires((i, segments)),
    ensures
        r.len() == segments,
        forall|i: int| 0 <= i < segments ==> curve.ensures((i as u32, segments), #[trigger] r[i]),
{
    let mut out: Vec<Point> = Vec::new();
    let mut i: u32 = 0;
    while i < segments
        invariant
            i <= segments,
            out.len() == i,
            forall|k: u32| k < segments ==> curve.requires((k, segments)),
            forall|j: int| 0 <= j < i ==> curve.ensures((j as u32, segments), #[trigger] out[j]),
        decreases segments - i,
    {
        let p = curve(i, segments);
        out.push(p);
        i = i + 1;
    }
    out
}

/// At time zero both angles are zero, and with the zero-angle rotor for both
/// turns the pipeline is a plain move by the axle separation along X.
pub proof fn lemma_zero_time(g: Gear, p: (int, int))
    ensures
        angle_at(g.spin_rate as int, 0) == 0,
        angle_at(g.revolution_rate as int, 0) == 0,
        placed(p, (ROTOR_ONE as int, 0), g.axle_separation as int, (ROTOR_ONE as int, 0))
            == shifted(p, g.axle_separation as int),
{
    let one = ROTOR_ONE as int;
    let d = one * one;
    let (x, y, a) = (p.0, p.1, g.axle_separation as int);
    assert((x * one - y * 0 + a * one) * one - (x * 0 + y * one) * 0 == (x + a) * d)
        by (nonlinear_arith)
        requires
            d == one * one,
    ;
    assert((x * one - y * 0 + a * one) * 0 + (x * 0 + y * one) * one == y * d)
        by (nonlinear_arith)
        requires
            d == one * one,
    ;
    lemma_fundamental_div_mod_converse((x + a) * d + d / 2, d, x + a, d / 2);
    lemma_fundamental_div_mod_converse(y * d + d / 2, d, y, d / 2);
}

/// Advancing the time by `dt` leaves both angles as they were when each rate
/// times `dt` is a whole number of turns, so every frame repeats after `dt`.
pub proof fn lemma_periodic(g: Gear, t: nat, dt: nat)
    requires
        angle_at(g.spin_rate as int, dt as int) == 0,
        angle_at(g.revolution_rate as int, dt as int) == 0,
    ensures
        angle_at(g.spin_rate as int, (t + dt) as int) == angle_at(g.spin_rate as int, t as int),
        angle_at(g.revolution_rate as int, (t + dt) as int) == angle_at(g.revolution_rate as int, t as int),
{
    let turn = FULL_TURN as int;
    let (s, v) = (g.spin_rate as int, g.revolution_rate as int);
    lemma_mul_is_distributive_add(s, t as int, dt as int);
    lemma_mul_is_distributive_add(v, t as int, dt as int);
    lemma_add_mod_noop(s * t, s * dt, turn);
    lemma_add_mod_noop(v * t, v * dt, turn);
    lemma_small_mod(((s * t) % turn) as nat, turn as nat);
    lemma_small_mod(((v * t) % turn) as nat, turn as nat);
}

} // verus!
