//! What holds of every well-formed tree, whatever was inserted into it.

use vstd::prelude::*;
use crate::numeric::is_power_of_two;
use crate::aggregate::{
    brute_force, lemma_centroid_close, lemma_force_by_quadrant, lemma_members_push,
    lemma_members_within, members, moment_x, moment_y, total_mass,
};
use crate::cell::Cell;
use crate::tree::{far_enough, BHTree};
use crate::types::{Particle, Position, Quadrant};

verus! {

/// A particle exerts no force on itself.
pub proof fn lemma_no_self_force(p: Particle)
    ensures
        p.force(p) == 0,
{
}

/// A tree has added up exactly the masses of the particles inserted into
/// it, and has counted them.
pub proof fn lemma_mass_conserved(tree: BHTree)
    requires
        tree.wf(),
    ensures
        tree.aggregate_mass() == total_mass(tree@),
        tree.count() == tree@.len(),
{
}

/// The centre of mass of a tree lies at or below the exact centroid of its
/// particles, on each axis, and less than one lattice unit below it for
/// each particle after the first.
pub proof fn lemma_center_of_mass_close(tree: BHTree)
    requires
        tree.wf(),
        tree@.len() >= 1,
    ensures
        0 <= moment_x(tree@) - tree.aggregate_center().0 * tree.aggregate_mass() <= (tree@.len()
            - 1) * tree.aggregate_mass(),
        0 <= moment_y(tree@) - tree.aggregate_center().1 * tree.aggregate_mass() <= (tree@.len()
            - 1) * tree.aggregate_mass(),
{
    lemma_centroid_close(tree@);
}

/// A tree with one particle holds that particle itself and has no
/// subtrees.
pub proof fn lemma_one_particle(tree: BHTree, p: Particle)
    requires
        tree.wf(),
        tree@ == seq![p],
    ensures
        tree.count() == 1,
        tree.stored() == Some(p),
        forall|q: Quadrant| tree.child(q) is None,
        tree.children().len() == 0,
{
    assert forall|q: Quadrant| tree.child(q) is None by {
        assert(tree.child_matches(q));
    }
}

/// A tree with two particles holds none itself. It has a subtree in each
/// quadrant that one of the two belongs to and in no other: two subtrees
/// where the quadrants of the two differ, one where they are the same.
pub proof fn lemma_two_particles(tree: BHTree, a: Particle, b: Particle)
    requires
        tree.wf(),
        tree@ == seq![a, b],
    ensures
        tree.count() == 2,
        tree.stored() is None,
        forall|q: Quadrant|
            tree.child(q) is Some <==> (q == tree.region().quadrant_of(a.position) || q
                == tree.region().quadrant_of(b.position)),
        tree.children().len() == if tree.region().quadrant_of(a.position)
            == tree.region().quadrant_of(b.position) {
            1nat
        } else {
            2nat
        },
{
    let cell = tree.region();
    let none = Seq::<Particle>::empty();
    assert(tree@ =~= none.push(a).push(b));
    assert forall|q: Quadrant|
        tree.child(q) is Some <==> (q == cell.quadrant_of(a.position) || q == cell.quadrant_of(
            b.position,
        )) by {
        lemma_members_push(none, a, cell, q);
        lemma_members_push(none.push(a), b, cell, q);
        assert(tree.child_matches(q));
    }
    assert(tree.child(Quadrant::NW) is Some <==> (Quadrant::NW == cell.quadrant_of(a.position)
        || Quadrant::NW == cell.quadrant_of(b.position)));
    assert(tree.child(Quadrant::NE) is Some <==> (Quadrant::NE == cell.quadrant_of(a.position)
        || Quadrant::NE == cell.quadrant_of(b.position)));
    assert(tree.child(Quadrant::SW) is Some <==> (Quadrant::SW == cell.quadrant_of(a.position)
        || Quadrant::SW == cell.quadrant_of(b.position)));
    assert(tree.child(Quadrant::SE) is Some <==> (Quadrant::SE == cell.quadrant_of(a.position)
        || Quadrant::SE == cell.quadrant_of(b.position)));
}

/// What the subtree in the quadrant `q` exerts under the accuracy
/// parameter zero is the sum over the members of that quadrant.
proof fn lemma_slot_exact(tree: BHTree, q: Quadrant, target: Particle, den: u32)
    requires
        tree.wf(),
        tree@.len() != 1,
    ensures
        (match tree.child(q) {
            Some(c) => c.force_at(target, 0, den),
            None => 0,
        }) == brute_force(members(tree@, tree.region(), q), target),
    decreases tree, 0int,
{
    assert(tree.child_matches(q));
    tree.lemma_child_below(q);
    match tree.child(q) {
        Some(c) => {
            lemma_zero_theta_is_brute_force(c, target, den);
        },
        None => {
            assert(members(tree@, tree.region(), q).len() == 0);
        },
    }
}

/// With the accuracy parameter zero no subtree ever stands in for its
/// particles, and the force of the tree on `target` is the sum of the
/// forces of the particles, each by itself.
pub proof fn lemma_zero_theta_is_brute_force(tree: BHTree, target: Particle, den: u32)
    requires
        tree.wf(),
    ensures
        tree.force_at(target, 0, den) == brute_force(tree@, target),
    decreases tree, 1int,
{
    if tree@.len() == 1 {
        assert(tree@.drop_last().len() == 0);
        assert(brute_force(tree@.drop_last(), target) == 0);
        assert(tree@.last() == tree@[0]);
    } else {
        let r = tree.aggregate_center().distance(target.position);
        assert(0 * r == 0) by (nonlinear_arith);
        assert(tree.region().size * den >= 0) by (nonlinear_arith);
        assert(!far_enough(tree.region().size, r, 0, den));
        lemma_slot_exact(tree, Quadrant::NW, target, den);
        lemma_slot_exact(tree, Quadrant::NE, target, den);
        lemma_slot_exact(tree, Quadrant::SW, target, den);
        lemma_slot_exact(tree, Quadrant::SE, target, den);
        lemma_force_by_quadrant(tree@, tree.region(), target);
    }
}

/// An empty tree exerts no force.
pub proof fn lemma_empty_tree_is_inert(tree: BHTree, target: Particle, num: u32, den: u32)
    requires
        tree.wf(),
        tree@.len() == 0,
    ensures
        tree.force_at(target, num, den) == 0,
{
    assert(tree.child_matches(Quadrant::NW));
    assert(tree.child_matches(Quadrant::NE));
    assert(tree.child_matches(Quadrant::SW));
    assert(tree.child_matches(Quadrant::SE));
    let com = Particle { position: tree.aggregate_center(), mass: tree.aggregate_mass() };
    target.lemma_force_bound(com);
    assert(target.mass * 0 == 0) by (nonlinear_arith);
}

/// A point of a cell lies in the quarter that fills its quadrant, as long
/// as the cell can be quartered evenly.
pub proof fn lemma_quarter_contains(cell: Cell, p: Position)
    requires
        cell.fits(),
        cell.size % 4 == 0,
        cell.contains(p),
    ensures
        cell.quarter(cell.quadrant_of(p)).contains(p),
{
}

/// A power of two from four on is a multiple of four, and its half is a
/// power of two.
proof fn lemma_power_of_two_quarters(n: nat)
    requires
        is_power_of_two(n),
        n >= 4,
    ensures
        n % 4 == 0,
        is_power_of_two(n / 2),
{
    assert(is_power_of_two(n / 2));
    assert((n / 2) % 2 == 0);
}

/// Two different points of a cell whose size is a power of two come
/// apart when the cell is halved often enough.
pub proof fn lemma_distinct_points_separate(cell: Cell, a: Position, b: Position)
    requires
        cell.fits(),
        is_power_of_two(cell.size as nat),
        cell.contains(a),
        cell.contains(b),
        a != b,
    ensures
        cell.separates(a, b),
    decreases cell.size,
{
    let q = cell.quadrant_of(a);
    if q == cell.quadrant_of(b) {
        if cell.size >= 4 {
            lemma_power_of_two_quarters(cell.size as nat);
            lemma_quarter_contains(cell, a);
            lemma_quarter_contains(cell, b);
            lemma_distinct_points_separate(cell.quarter(q), a, b);
        }
    }
}

/// A tree over a cell whose size is a power of two can take in every
/// particle of that cell that lies at another point than each of those
/// inserted so far, if these lie in the cell as well.
pub proof fn lemma_admits_distinct(tree: BHTree, p: Particle)
    requires
        tree.wf(),
        is_power_of_two(tree.region().size as nat),
        tree.region().contains(p.position),
        forall|i: int|
            0 <= i < tree@.len() ==> {
                &&& tree.region().contains((#[trigger] tree@[i]).position)
                &&& tree@[i].position != p.position
            },
    ensures
        tree.admits(p),
    decreases tree,
{
    let cell = tree.region();
    let q = cell.quadrant_of(p.position);
    if tree@.len() == 1 {
        lemma_distinct_points_separate(cell, tree@[0].position, p.position);
    } else if tree@.len() >= 2 {
        assert(tree.child_matches(q));
        tree.lemma_child_below(q);
        lemma_members_within(tree@, cell, q);
        match tree.child(q) {
            Some(c) => {
                assert forall|i: int| 0 <= i < c@.len() implies {
                    &&& cell.contains((#[trigger] c@[i]).position)
                    &&& c@[i].position != p.position
                    &&& cell.quadrant_of(c@[i].position) == q
                } by {
                    assert(tree@.contains(c@[i]));
                    let j = choose|j: int| 0 <= j < tree@.len() && tree@[j] == c@[i];
                    assert(cell.contains(tree@[j].position));
                }
                if cell.size >= 4 {
                    lemma_power_of_two_quarters(cell.size as nat);
                    lemma_quarter_contains(cell, p.position);
                    assert forall|i: int| 0 <= i < c@.len() implies {
                        &&& c.region().contains((#[trigger] c@[i]).position)
                        &&& c@[i].position != p.position
                    } by {
                        lemma_quarter_contains(cell, c@[i].position);
                    }
                    lemma_admits_distinct(c, p);
                } else {
                    assert(cell.contains(c@[0].position));
                    assert(c@[0].position == p.position);
                }
            },
            None => {},
        }
    }
}

} // verus!
