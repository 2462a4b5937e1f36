//! Points, point masses and quadrants.
//!
//! Coordinates are points of an integer lattice and masses are whole numbers,
//! both in units that the caller chooses. Every formula here keeps its shape
//! under a change of unit, so a caller may pick the lattice as fine as 32-bit
//! coordinates allow.

use vstd::prelude::*;
use crate::numeric::{integer_sqrt, isqrt, lemma_isqrt_positive, mean_coordinate, weighted_mean};

verus! {

/// The gravitational constant, in the caller's units.
pub const G: u64 = 1;

/// One of the four quarters of a square cell, named by compass direction.
#[derive(Clone, Copy, PartialEq, Eq, Structural, Debug)]
pub enum Quadrant {
    NW,
    NE,
    SW,
    SE,
}

/// A lattice point: its `x` coordinate, then its `y` coordinate.
#[derive(Clone, Copy, PartialEq, Eq, Structural, Debug)]
pub struct Position(pub i32, pub i32);

/// A point mass.
#[derive(Clone, Copy, PartialEq, Eq, Structural, Debug)]
pub struct Particle {
    pub position: Position,
    pub mass: u64,
}

/// The distance that enters a force: never less than one lattice unit.
pub open spec fn at_least_one(d: nat) -> nat {
    if d == 0 {
        1
    } else {
        d
    }
}

fn gap(a: i32, b: i32) -> (g: u64)
    ensures
        g == if a >= b {
            a - b
        } else {
            b - a
        },
{
    if a >= b {
        (a as i64 - b as i64) as u64
    } else {
        (b as i64 - a as i64) as u64
    }
}

impl From<(i32, i32)> for Position {
    fn from(v: (i32, i32)) -> (p: Position) {
        Position(v.0, v.1)
    }
}

impl vstd::std_specs::convert::FromSpecImpl<(i32, i32)> for Position {
    open spec fn obeys_from_spec() -> bool {
        true
    }

    open spec fn from_spec(v: (i32, i32)) -> Position {
        Position(v.0, v.1)
    }
}

/// Whether `v` is a coordinate of the lattice.
pub open spec fn is_coordinate(v: int) -> bool {
    i32::MIN <= v <= i32::MAX
}

/// The quotient of `a` by `b`, rounded toward zero: the quotient of the
/// magnitude of `a`, which `/` rounds toward zero, with the sign of `a` put
/// back.
pub open spec fn truncated_quotient(a: int, b: int) -> int {
    if a >= 0 {
        a / b
    } else {
        -((-a) / b)
    }
}

impl std::ops::Add for Position {
    type Output = Position;

    /// Adds coordinate by coordinate.
    fn add(self, rhs: Position) -> (sum: Position) {
        Position(self.0 + rhs.0, self.1 + rhs.1)
    }
}

impl vstd::std_specs::ops::AddSpecImpl for Position {
    open spec fn obeys_add_spec() -> bool {
        true
    }

    open spec fn add_req(self, rhs: Position) -> bool {
        is_coordinate(self.0 + rhs.0) && is_coordinate(self.1 + rhs.1)
    }

    open spec fn add_spec(self, rhs: Position) -> Position {
        Position((self.0 + rhs.0) as i32, (self.1 + rhs.1) as i32)
    }
}

impl std::ops::Sub for Position {
    type Output = Position;

    /// Subtracts coordinate by coordinate.
    fn sub(self, rhs: Position) -> (difference: Position) {
        Position(self.0 - rhs.0, self.1 - rhs.1)
    }
}

impl vstd::std_specs::ops::SubSpecImpl for Position {
    open spec fn obeys_sub_spec() -> bool {
        true
    }

    open spec fn sub_req(self, rhs: Position) -> bool {
        is_coordinate(self.0 - rhs.0) && is_coordinate(self.1 - rhs.1)
    }

    open spec fn sub_spec(self, rhs: Position) -> Position {
        Position((self.0 - rhs.0) as i32, (self.1 - rhs.1) as i32)
    }
}

impl std::ops::Mul<Position> for i32 {
    type Output = Position;

    /// Scales each coordinate of `rhs` by `self`.
    fn mul(self, rhs: Position) -> (scaled: Position) {
        Position(rhs.0 * self, rhs.1 * self)
    }
}

impl vstd::std_specs::ops::MulSpecImpl<Position> for i32 {
    open spec fn obeys_mul_spec() -> bool {
        true
    }

    open spec fn mul_req(self, rhs: Position) -> bool {
        is_coordinate(rhs.0 * self) && is_coordinate(rhs.1 * self)
    }

    open spec fn mul_spec(self, rhs: Position) -> Position {
        Position((rhs.0 * self) as i32, (rhs.1 * self) as i32)
    }
}

impl std::ops::Div<i32> for Position {
    type Output = Position;

    /// Divides each coordinate by `rhs`, rounding toward zero.
    fn div(self, rhs: i32) -> (quotient: Position) {
        Position(self.0 / rhs, self.1 / rhs)
    }
}

impl vstd::std_specs::ops::DivSpecImpl<i32> for Position {
    open spec fn obeys_div_spec() -> bool {
        true
    }

    open spec fn div_req(self, rhs: i32) -> bool {
        rhs != 0 && !(rhs == -1 && (self.0 == i32::MIN || self.1 == i32::MIN))
    }

    open spec fn div_spec(self, rhs: i32) -> Position {
        Position(
            truncated_quotient(self.0 as int, rhs as int) as i32,
            truncated_quotient(self.1 as int, rhs as int) as i32,
        )
    }
}

impl Position {
    /// The square of the Euclidean distance between two points.
    pub open spec fn squared_distance(self, other: Position) -> nat {
        ((self.0 - other.0) * (self.0 - other.0) + (self.1 - other.1) * (self.1 - other.1)) as nat
    }

    /// The Euclidean distance between two points, rounded down to a whole
    /// number of lattice units.
    pub open spec fn distance(self, other: Position) -> nat {
        isqrt(self.squared_distance(other))
    }

    /// The point between `self` and `other` that divides the segment by the
    /// weights `w` and `other_w`, each coordinate rounded down.
    pub open spec fn weighted_mean(self, w: nat, other: Position, other_w: nat) -> Position {
        Position(
            weighted_mean(self.0 as int, w, other.0 as int, other_w) as i32,
            weighted_mean(self.1 as int, w, other.1 as int, other_w) as i32,
        )
    }

    /// Computes the distance to `other`.
    pub fn distance_to(&self, other: Position) -> (d: u64)
        ensures
            d == self.distance(other),
    {
        let dx: u64 = gap(self.0, other.0);
        let dy: u64 = gap(self.1, other.1);
        assert(dx * dx == (self.0 - other.0) * (self.0 - other.0)) by (nonlinear_arith)
            requires
                dx == self.0 - other.0 || dx == other.0 - self.0,
        ;
        assert(dy * dy == (self.1 - other.1) * (self.1 - other.1)) by (nonlinear_arith)
            requires
                dy == self.1 - other.1 || dy == other.1 - self.1,
        ;
        assert(dx * dx <= 0x1_0000_0000_0000_0000) by (nonlinear_arith)
            requires
                dx <= 0x1_0000_0000,
        ;
        assert(dy * dy <= 0x1_0000_0000_0000_0000) by (nonlinear_arith)
            requires
                dy <= 0x1_0000_0000,
        ;
        integer_sqrt((dx as u128) * (dx as u128) + (dy as u128) * (dy as u128))
    }

    /// Computes the weighted mean of two points.
    pub fn mean_with(&self, w: u64, other: Position, other_w: u64) -> (m: Position)
        requires
            w + other_w > 0,
            w + other_w <= u64::MAX,
        ensures
            m == self.weighted_mean(w as nat, other, other_w as nat),
    {
        Position(
            mean_coordinate(self.0, w, other.0, other_w),
            mean_coordinate(self.1, w, other.1, other_w),
        )
    }

    /// Two points are at distance zero exactly when they are the same point.
    pub proof fn lemma_distance_zero(self, other: Position)
        ensures
            self.distance(other) == 0 <==> self == other,
    {
        let dx = self.0 - other.0;
        let dy = self.1 - other.1;
        assert(dx * dx >= 0 && dy * dy >= 0) by (nonlinear_arith);
        if self == other {
            assert(dx * dx + dy * dy == 0) by (nonlinear_arith)
                requires
                    dx == 0,
                    dy == 0,
            ;
            assert(isqrt(0) == 0);
        } else {
            assert(dx * dx + dy * dy > 0) by (nonlinear_arith)
                requires
                    dx != 0 || dy != 0,
            ;
            lemma_isqrt_positive(self.squared_distance(other));
        }
    }

    /// Distance does not depend on the order of its two points.
    pub proof fn lemma_distance_symmetric(self, other: Position)
        ensures
            self.distance(other) == other.distance(self),
    {
        let dx = self.0 - other.0;
        let dy = self.1 - other.1;
        assert(dx * dx == (-dx) * (-dx)) by (nonlinear_arith);
        assert(dy * dy == (-dy) * (-dy)) by (nonlinear_arith);
    }
}

impl Particle {
    /// The distance between the positions of two particles.
    pub open spec fn distance(self, other: Particle) -> nat {
        self.position.distance(other.position)
    }

    /// The magnitude of the force between two particles: nothing between a
    /// particle and itself, else `G` times both masses over their distance,
    /// rounded down. Two different particles at one point are taken to be
    /// one lattice unit apart.
    pub open spec fn force(self, other: Particle) -> nat {
        if self == other {
            0
        } else {
            ((G * self.mass * other.mass) as nat) / at_least_one(self.distance(other))
        }
    }

    /// Computes the distance to `other`.
    pub fn distance_to(&self, other: &Particle) -> (d: u64)
        ensures
            d == self.distance(*other),
    {
        self.position.distance_to(other.position)
    }

    /// Computes the magnitude of the force that `other` exerts on `self`.
    pub fn calculate_force(&self, other: &Particle) -> (f: u128)
        ensures
            f == self.force(*other),
            self == other ==> f == 0,
    {
        if other != self {
            let d: u64 = self.distance_to(other);
            let floor: u64 = if d == 0 {
                1
            } else {
                d
            };
            assert(G * self.mass * other.mass <= u128::MAX) by (nonlinear_arith)
                requires
                    G == 1,
                    self.mass <= u64::MAX,
                    other.mass <= u64::MAX,
            ;
            (G as u128) * (self.mass as u128) * (other.mass as u128) / (floor as u128)
        } else {
            0
        }
    }

    /// A force is at most the product of the two masses.
    pub proof fn lemma_force_bound(self, other: Particle)
        ensures
            self.force(other) <= self.mass * other.mass,
    {
        let n = (G * self.mass * other.mass) as nat;
        let d = at_least_one(self.distance(other));
        assert(n == self.mass * other.mass) by (nonlinear_arith)
            requires
                n == (G * self.mass * other.mass) as nat,
                G == 1,
                self.mass >= 0,
                other.mass >= 0,
        ;
        assert(n / d <= n) by (nonlinear_arith)
            requires
                d >= 1,
        ;
    }

    /// The force between two particles is the same seen from either.
    pub proof fn lemma_force_symmetric(self, other: Particle)
        ensures
            self.force(other) == other.force(self),
    {
        self.position.lemma_distance_symmetric(other.position);
        assert(G * self.mass * other.mass == G * other.mass * self.mass) by (nonlinear_arith);
    }
}

} // verus!
