//! The polar point generator of the spiral.
//!
//! The generator's radius and angle start at zero and grow by one unit per
//! step. They are held here as the whole numbers that a single-precision
//! float holds along that walk: exact up to `STEP_LIMIT`, where adding one
//! no longer changes the value. The Cartesian position of a step,
//! `radius * cos(theta)` and `radius * sin(theta)`, is computed by the
//! caller from these two numbers.

use crate::prime::{is_prime, is_prime_spec};
use vstd::prelude::*;

verus! {

/// The largest value that a unit step still reaches: `2^24`. One more is
/// not representable in single precision and rounds back to it.
pub const STEP_LIMIT: u32 = 16777216;

/// The polar state after one step from `v`.
pub open spec fn unit_step(v: nat) -> nat {
    if v < STEP_LIMIT as nat {
        v + 1
    } else {
        v
    }
}

/// The polar state reached from `v` by `k` steps.
pub open spec fn steps_from(v: nat, k: nat) -> nat
    decreases k,
{
    if k == 0 {
        v
    } else {
        unit_step(steps_from(v, (k - 1) as nat))
    }
}

/// The polar state after `k` steps from zero, in closed form.
pub open spec fn state_after(k: nat) -> nat {
    if k <= STEP_LIMIT as nat {
        k
    } else {
        STEP_LIMIT as nat
    }
}

/// The polar coordinates of one step: radius and angle in radians.
#[derive(Clone, Copy, Debug, PartialEq, Eq, Structural)]
pub struct PolarPoint {
    pub radius: u32,
    pub theta: u32,
}

/// The point yielded by the `k`-th step of a fresh generator (`k >= 1`).
pub open spec fn point_after(k: nat) -> PolarPoint {
    PolarPoint { radius: state_after(k) as u32, theta: state_after(k) as u32 }
}

/// Steps along the spiral; see the module documentation.
pub struct PointGenerator {
    radius: u32,
    theta: u32,
}

impl View for PointGenerator {
    type V = (nat, nat);

    closed spec fn view(&self) -> (nat, nat) {
        (self.radius as nat, self.theta as nat)
    }
}

impl PointGenerator {
    /// A generator at the origin.
    pub fn new() -> (r: Self)
        ensures
            r@ == (0nat, 0nat),
    {
        PointGenerator { radius: 0, theta: 0 }
    }

    /// Advances radius and angle by one unit each and returns them.
    pub fn next_point(&mut self) -> (r: PolarPoint)
        ensures
            final(self)@ == (unit_step(old(self)@.0), unit_step(old(self)@.1)),
            r.radius as nat == final(self)@.0,
            r.theta as nat == final(self)@.1,
    {
        if self.radius < STEP_LIMIT {
            self.radius = self.radius + 1;
        }
        if self.theta < STEP_LIMIT {
            self.theta = self.theta + 1;
        }
        PolarPoint { radius: self.radius, theta: self.theta }
    }
}

impl Default for PointGenerator {
    fn default() -> (r: Self)
        ensures
            r@ == (0nat, 0nat),
    {
        PointGenerator::new()
    }
}

/// The closed form of `k` steps from zero.
proof fn lemma_steps_from_zero(k: nat)
    ensures
        steps_from(0, k) == state_after(k),
    decreases k,
{
    if k > 0 {
        lemma_steps_from_zero((k - 1) as nat);
    }
}

/// A fresh generator stepped `k` times, `k` at most `STEP_LIMIT`, has
/// radius and angle both equal to `k`.
pub proof fn lemma_fresh_generator_counts_steps(k: nat)
    requires
        k <= STEP_LIMIT,
    ensures
        steps_from(0, k) == k,
{
    lemma_steps_from_zero(k);
}

/// The points of the first `num_points` steps whose radius is prime, in
/// the order in which they were generated.
pub open spec fn prime_points(num_points: nat) -> Seq<PolarPoint> {
    Seq::new(num_points, |k: int| point_after((k + 1) as nat)).filter(
        |p: PolarPoint| is_prime_spec(p.radius as int),
    )
}

/// Runs a fresh generator for `num_points` steps and returns the points
/// whose radius, truncated to an integer, is prime.
pub fn prime_points_of(num_points: u32) -> (r: Vec<PolarPoint>)
    ensures
        r@ == prime_points(num_points as nat),
{
    let mut generator = PointGenerator::new();
    let mut points: Vec<PolarPoint> = Vec::new();
    let mut k: u32 = 0;
    while k < num_points
        invariant
            k <= num_points,
            generator@ == (state_after(k as nat), state_after(k as nat)),
            points@ == prime_points(k as nat),
        decreases num_points - k,
    {
        let p = generator.next_point();
        proof {
            let f = |j: int| point_after((j + 1) as nat);
            let pred = |q: PolarPoint| is_prime_spec(q.radius as int);
            let s = Seq::new((k + 1) as nat, f);
            assert(s.drop_last() =~= Seq::new(k as nat, f));
            assert(s.last() == point_after((k + 1) as nat));
            reveal(Seq::filter);
            assert(p == point_after((k + 1) as nat));
        }
        if is_prime(p.radius) {
            points.push(p);
        }
        k = k + 1;
    }
    points
}

} // verus!
