//! Random particles: coordinates drawn from a distribution of the caller's,
//! paired up into particles of one mass.

use rand::distributions::Distribution;
use rand::thread_rng;
use vstd::prelude::*;
use crate::types::{Particle, Position};

verus! {

/// The smallest of three lengths.
pub open spec fn shortest(n: nat, x: nat, y: nat) -> nat {
    if n <= x && n <= y {
        n
    } else if x <= y {
        x
    } else {
        y
    }
}

/// Draws one coordinate: `Distribution::sample` of the rand crate, on the
/// generator of the current thread, which its `thread_rng` hands out. The
/// value is a matter of chance and of the caller's distribution, and
/// nothing is claimed of it. The first draw on a thread panics if the
/// system cannot seed the generator.
#[verifier::external_body]
fn sample_coordinate<D: Distribution<i32>>(distribution: &D) -> i32 {
    distribution.sample(&mut thread_rng())
}

/// Draws `n` coordinates, one after the other.
fn sample_coordinates<D: Distribution<i32>>(n: usize, distribution: &D) -> (drawn: Vec<i32>)
    ensures
        drawn@.len() == n,
{
    let mut drawn: Vec<i32> = Vec::new();
    while drawn.len() < n
        invariant
            drawn@.len() <= n,
        decreases n - drawn@.len(),
    {
        drawn.push(sample_coordinate(distribution));
    }
    drawn
}

/// Pairs the first `n` coordinates of `x` with those of `y`, as far as
/// both reach, and makes of each pair a particle of the given mass.
pub fn pair_coordinates(n: usize, x: &Vec<i32>, y: &Vec<i32>, mass: u64) -> (particles: Vec<
    Particle,
>)
    ensures
        particles@.len() == shortest(n as nat, x@.len(), y@.len()),
        forall|i: int|
            0 <= i < particles@.len() ==> particles@[i] == (Particle {
                position: Position(x@[i], y@[i]),
                mass,
            }),
{
    let mut particles: Vec<Particle> = Vec::new();
    let mut i: usize = 0;
    while i < n && i < x.len() && i < y.len()
        invariant
            i <= n,
            i <= x@.len(),
            i <= y@.len(),
            particles@.len() == i,
            forall|j: int|
                0 <= j < i ==> particles@[j] == (Particle {
                    position: Position(x@[j], y@[j]),
                    mass,
                }),
        decreases n - i,
    {
        particles.push(Particle { position: Position::from((x[i], y[i])), mass });
        i += 1;
    }
    particles
}

/// Makes `n` particles of the given mass at random points: first all the
/// `x` coordinates are drawn from `distribution`, then all the `y`
/// coordinates.
pub fn get_distribution<D: Distribution<i32>>(n: usize, distribution: D, mass: u64) -> (particles:
    Vec<Particle>)
    ensures
        particles@.len() == n,
        forall|i: int| 0 <= i < n ==> (#[trigger] particles@[i]).mass == mass,
{
    let x = sample_coordinates(n, &distribution);
    let y = sample_coordinates(n, &distribution);
    pair_coordinates(n, &x, &y, mass)
}

} // verus!
