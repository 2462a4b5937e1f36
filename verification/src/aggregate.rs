//! What a sequence of particles adds up to: its mass, its centre of mass,
//! its force on a target, and its share in each quadrant of a cell.

use vstd::prelude::*;
use crate::cell::Cell;
use crate::numeric::{lemma_weighted_mean_between, weighted_mean};
use crate::types::{Particle, Position, Quadrant};

verus! {

/// The sum of the masses of `s`.
pub open spec fn total_mass(s: Seq<Particle>) -> nat
    decreases s.len(),
{
    if s.len() == 0 {
        0
    } else {
        total_mass(s.drop_last()) + s.last().mass as nat
    }
}

/// The centre of mass of `s` as a running mean: each particle in turn
/// pulls the mean of those before it toward itself by its share of the
/// mass, and each step rounds down.
pub open spec fn centroid(s: Seq<Particle>) -> Position
    decreases s.len(),
{
    if s.len() == 0 {
        Position(0, 0)
    } else {
        centroid(s.drop_last()).weighted_mean(
            total_mass(s.drop_last()),
            s.last().position,
            s.last().mass as nat,
        )
    }
}

/// The sum over `s` of mass times `x` coordinate: what the centre of mass,
/// times the total mass, would be without rounding.
pub open spec fn moment_x(s: Seq<Particle>) -> int
    decreases s.len(),
{
    if s.len() == 0 {
        0
    } else {
        moment_x(s.drop_last()) + s.last().mass * s.last().position.0
    }
}

/// The sum over `s` of mass times `y` coordinate.
pub open spec fn moment_y(s: Seq<Particle>) -> int
    decreases s.len(),
{
    if s.len() == 0 {
        0
    } else {
        moment_y(s.drop_last()) + s.last().mass * s.last().position.1
    }
}

/// The particles of `s` that `cell` puts into its quadrant `q`, in the
/// order in which `s` has them.
pub open spec fn members(s: Seq<Particle>, cell: Cell, q: Quadrant) -> Seq<Particle>
    decreases s.len(),
{
    if s.len() == 0 {
        Seq::empty()
    } else if cell.quadrant_of(s.last().position) == q {
        members(s.drop_last(), cell, q).push(s.last())
    } else {
        members(s.drop_last(), cell, q)
    }
}

/// Appending a particle adds its mass to the total.
pub proof fn lemma_total_mass_push(s: Seq<Particle>, p: Particle)
    ensures
        total_mass(s.push(p)) == total_mass(s) + p.mass,
{
    assert(s.push(p).drop_last() =~= s);
}

/// Appending a particle moves the centre of mass by one step of the
/// running mean.
pub proof fn lemma_centroid_push(s: Seq<Particle>, p: Particle)
    ensures
        centroid(s.push(p)) == centroid(s).weighted_mean(
            total_mass(s),
            p.position,
            p.mass as nat,
        ),
{
    assert(s.push(p).drop_last() =~= s);
}

/// One step of the running mean loses less than the new total mass: with
/// `e` what the mean `c` of weight `w` lacked, the mean with `x` of weight
/// `m` lacks `e` and a remainder below `w + m`.
proof fn lemma_mean_step(c: int, w: nat, x: int, m: nat, e: int, steps: nat)
    requires
        m > 0,
        0 <= e <= steps * w,
    ensures
        0 <= e + (c * w + x * m) - weighted_mean(c, w, x, m) * (w + m) <= (steps + 1) * (w + m),
{
    let d = (w + m) as int;
    let n = c * w + x * m;
    let q = n / d;
    assert(weighted_mean(c, w, x, m) == q);
    assert(d * q <= n < d * q + d) by (nonlinear_arith)
        requires
            q == n / d,
            d > 0,
    ;
    assert(q * d == d * q) by (nonlinear_arith);
    assert(steps * w <= steps * d) by (nonlinear_arith)
        requires
            w <= d,
            steps >= 0,
    ;
    assert((steps + 1) * d == steps * d + d) by (nonlinear_arith);
}

/// The centre of mass lies at or below the exact centroid, on each axis,
/// and less than one lattice unit below it for each particle after the
/// first: rounding down is all that the running mean loses.
pub proof fn lemma_centroid_close(s: Seq<Particle>)
    requires
        s.len() >= 1,
        forall|i: int| 0 <= i < s.len() ==> (#[trigger] s[i]).mass > 0,
    ensures
        0 <= moment_x(s) - centroid(s).0 * total_mass(s) <= (s.len() - 1) * total_mass(s),
        0 <= moment_y(s) - centroid(s).1 * total_mass(s) <= (s.len() - 1) * total_mass(s),
    decreases s.len(),
{
    let front = s.drop_last();
    let p = s.last();
    let c = centroid(front);
    let w = total_mass(front);
    let m = p.mass as nat;
    lemma_weighted_mean_between(c.0 as int, w, p.position.0 as int, m, i32::MIN as int, i32::MAX as int);
    lemma_weighted_mean_between(c.1 as int, w, p.position.1 as int, m, i32::MIN as int, i32::MAX as int);
    assert(m * p.position.0 == p.position.0 * m) by (nonlinear_arith);
    assert(m * p.position.1 == p.position.1 * m) by (nonlinear_arith);
    if s.len() == 1 {
        assert(w == 0);
        assert(moment_x(front) == 0);
        assert(moment_y(front) == 0);
        assert(c.0 * w == 0 && c.1 * w == 0) by (nonlinear_arith)
            requires
                w == 0,
        ;
        lemma_mean_step(c.0 as int, w, p.position.0 as int, m, 0, 0);
        lemma_mean_step(c.1 as int, w, p.position.1 as int, m, 0, 0);
        assert(weighted_mean(c.0 as int, 0, p.position.0 as int, m) == p.position.0) by (nonlinear_arith)
            requires
                m > 0,
        ;
        assert(weighted_mean(c.1 as int, 0, p.position.1 as int, m) == p.position.1) by (nonlinear_arith)
            requires
                m > 0,
        ;
        assert(0 * total_mass(s) == 0) by (nonlinear_arith);
    } else {
        assert forall|i: int| 0 <= i < front.len() implies (#[trigger] front[i]).mass > 0 by {
            assert(front[i] == s[i]);
        }
        lemma_centroid_close(front);
        let steps = (front.len() - 1) as nat;
        lemma_mean_step(
            c.0 as int,
            w,
            p.position.0 as int,
            m,
            moment_x(front) - c.0 * w,
            steps,
        );
        lemma_mean_step(
            c.1 as int,
            w,
            p.position.1 as int,
            m,
            moment_y(front) - c.1 * w,
            steps,
        );
    }
}

/// Appending a particle appends it to the members of its own quadrant and
/// leaves those of the other quadrants as they were.
pub proof fn lemma_members_push(s: Seq<Particle>, p: Particle, cell: Cell, q: Quadrant)
    ensures
        members(s.push(p), cell, q) == if cell.quadrant_of(p.position) == q {
            members(s, cell, q).push(p)
        } else {
            members(s, cell, q)
        },
{
    assert(s.push(p).drop_last() =~= s);
}

/// The members of a quadrant are some of the particles: no more of them,
/// no more mass, and each of them one of `s`.
pub proof fn lemma_members_within(s: Seq<Particle>, cell: Cell, q: Quadrant)
    ensures
        members(s, cell, q).len() <= s.len(),
        total_mass(members(s, cell, q)) <= total_mass(s),
        forall|i: int|
            0 <= i < members(s, cell, q).len() ==> {
                &&& s.contains(#[trigger] members(s, cell, q)[i])
                &&& cell.quadrant_of(members(s, cell, q)[i].position) == q
            },
    decreases s.len(),
{
    if s.len() > 0 {
        let front = s.drop_last();
        lemma_members_within(front, cell, q);
        let m = members(s, cell, q);
        let mf = members(front, cell, q);
        if cell.quadrant_of(s.last().position) == q {
            lemma_total_mass_push(mf, s.last());
        }
        assert forall|i: int| 0 <= i < m.len() implies {
            &&& s.contains(#[trigger] m[i])
            &&& cell.quadrant_of(m[i].position) == q
        } by {
            if i < mf.len() {
                assert(m[i] == mf[i]);
                let j = choose|j: int| 0 <= j < front.len() && front[j] == mf[i];
                assert(s[j] == m[i]);
            } else {
                assert(m[i] == s[s.len() - 1]);
            }
        }
    }
}

/// The quadrants share out the mass of the particles among themselves.
pub proof fn lemma_mass_by_quadrant(s: Seq<Particle>, cell: Cell)
    ensures
        total_mass(s) == total_mass(members(s, cell, Quadrant::NW)) + total_mass(
            members(s, cell, Quadrant::NE),
        ) + total_mass(members(s, cell, Quadrant::SW)) + total_mass(
            members(s, cell, Quadrant::SE),
        ),
    decreases s.len(),
{
    if s.len() > 0 {
        let front = s.drop_last();
        lemma_mass_by_quadrant(front, cell);
        lemma_total_mass_push(members(front, cell, Quadrant::NW), s.last());
        lemma_total_mass_push(members(front, cell, Quadrant::NE), s.last());
        lemma_total_mass_push(members(front, cell, Quadrant::SW), s.last());
        lemma_total_mass_push(members(front, cell, Quadrant::SE), s.last());
    }
}

/// The force on `target` from each particle of `s` by itself, added up.
pub open spec fn brute_force(s: Seq<Particle>, target: Particle) -> nat
    decreases s.len(),
{
    if s.len() == 0 {
        0
    } else {
        brute_force(s.drop_last(), target) + s.last().force(target)
    }
}

/// One more particle adds its force to the sum over all particles.
pub proof fn lemma_brute_force_push(s: Seq<Particle>, p: Particle, target: Particle)
    ensures
        brute_force(s.push(p), target) == brute_force(s, target) + p.force(target),
{
    assert(s.push(p).drop_last() =~= s);
}

/// The sum over all particles is the sum of the sums over the members of
/// the four quadrants.
pub proof fn lemma_force_by_quadrant(s: Seq<Particle>, cell: Cell, target: Particle)
    ensures
        brute_force(s, target) == brute_force(members(s, cell, Quadrant::NW), target)
            + brute_force(members(s, cell, Quadrant::NE), target) + brute_force(
            members(s, cell, Quadrant::SW),
            target,
        ) + brute_force(members(s, cell, Quadrant::SE), target),
    decreases s.len(),
{
    if s.len() > 0 {
        let front = s.drop_last();
        lemma_force_by_quadrant(front, cell, target);
        lemma_brute_force_push(members(front, cell, Quadrant::NW), s.last(), target);
        lemma_brute_force_push(members(front, cell, Quadrant::NE), s.last(), target);
        lemma_brute_force_push(members(front, cell, Quadrant::SW), s.last(), target);
        lemma_brute_force_push(members(front, cell, Quadrant::SE), s.last(), target);
    }
}

} // verus!
