//! The quadtree: nodes that hold at most one particle themselves, and the
//! aggregates that stand for a whole subtree.

use vstd::prelude::*;
use crate::aggregate::{
    centroid, lemma_centroid_push, lemma_mass_by_quadrant, lemma_members_push,
    lemma_members_within, lemma_total_mass_push, members, total_mass,
};
use crate::cell::Cell;
use crate::types::{Particle, Position, Quadrant};

verus! {

/// The accuracy parameter: a subtree stands in for its particles when the
/// size of its cell, divided by the distance from its centre of mass to the
/// target, is less than `THETA_NUM / THETA_DEN`.
pub const THETA_NUM: u32 = 1;

pub const THETA_DEN: u32 = 2;

/// Whether a cell of the given size, seen from the distance `r`, is small
/// enough for the ratio `num / den`: whether `size / r < num / den`, which
/// no cell is from the distance zero.
pub open spec fn far_enough(size: u32, r: nat, num: u32, den: u32) -> bool {
    size * den < num * r
}

/// A node of the quadtree, and with it the subtree below.
pub struct BHTree {
    cell: Cell,
    mass: u64,
    center_of_mass: Position,
    num_particles: u32,
    particle: Option<Particle>,
    nw: Option<Box<BHTree>>,
    ne: Option<Box<BHTree>>,
    sw: Option<Box<BHTree>>,
    se: Option<Box<BHTree>>,
    inserted: Ghost<Seq<Particle>>,
}

impl View for BHTree {
    type V = Seq<Particle>;

    /// The particles inserted into this subtree, oldest first.
    closed spec fn view(&self) -> Seq<Particle> {
        self.inserted@
    }
}

impl BHTree {
    /// The region that this node governs.
    pub closed spec fn region(self) -> Cell {
        self.cell
    }

    /// The number of particles that the node has counted.
    pub closed spec fn count(self) -> u32 {
        self.num_particles
    }

    /// The mass that the node has added up.
    pub closed spec fn aggregate_mass(self) -> u64 {
        self.mass
    }

    /// The centre of mass that the node has arrived at.
    pub closed spec fn aggregate_center(self) -> Position {
        self.center_of_mass
    }

    /// The particle that the node holds itself, if it holds one.
    pub closed spec fn stored(self) -> Option<Particle> {
        self.particle
    }

    /// The subtree in the quadrant `q`, if there is one.
    pub closed spec fn child(self, q: Quadrant) -> Option<BHTree> {
        match q {
            Quadrant::NW => Self::open_slot(self.nw),
            Quadrant::NE => Self::open_slot(self.ne),
            Quadrant::SW => Self::open_slot(self.sw),
            Quadrant::SE => Self::open_slot(self.se),
        }
    }

    spec fn open_slot(slot: Option<Box<BHTree>>) -> Option<BHTree> {
        match slot {
            Some(b) => Some(*b),
            None => None,
        }
    }

    /// Whether the subtree in the quadrant `q` is the one that belongs
    /// there: there is one exactly if the node has counted two particles or
    /// more and some of them belong to `q`, and it lies over the quarter `q`
    /// of this node's cell and holds those particles, in their order.
    pub open spec fn child_matches(self, q: Quadrant) -> bool {
        match self.child(q) {
            Some(c) => {
                &&& self@.len() >= 2
                &&& c@.len() > 0
                &&& c@ == members(self@, self.region(), q)
                &&& c.region() == self.region().quarter(q)
            },
            None => self@.len() >= 2 ==> members(self@, self.region(), q).len() == 0,
        }
    }

    /// The invariant of the tree. The count, the mass and the centre of
    /// mass are those of the particles inserted; a node holds a particle
    /// itself exactly while it is the only one; every mass is positive; and
    /// each of the four subtrees is the one that belongs in its quadrant,
    /// and is well formed in turn.
    pub open spec fn wf(self) -> bool
        decreases self,
    {
        &&& self.region().fits()
        &&& self.count() == self@.len()
        &&& self.aggregate_mass() == total_mass(self@)
        &&& self.aggregate_center() == centroid(self@)
        &&& self.stored() == (if self@.len() == 1 {
            Some(self@[0])
        } else {
            None
        })
        &&& forall|i: int| 0 <= i < self@.len() ==> (#[trigger] self@[i]).mass > 0
        &&& self.child_matches(Quadrant::NW)
        &&& self.child_matches(Quadrant::NE)
        &&& self.child_matches(Quadrant::SW)
        &&& self.child_matches(Quadrant::SE)
        &&& (self.child(Quadrant::NW) matches Some(c) ==> c.wf())
        &&& (self.child(Quadrant::NE) matches Some(c) ==> c.wf())
        &&& (self.child(Quadrant::SW) matches Some(c) ==> c.wf())
        &&& (self.child(Quadrant::SE) matches Some(c) ==> c.wf())
    }

    /// Whether the tree can take `p` in: whether the descent that finds
    /// `p` its place comes to an end. It does unless `p` has to share a
    /// cell with a particle from which no further halving tells it apart.
    pub open spec fn admits(self, p: Particle) -> bool
        decreases self,
    {
        if self@.len() == 0 {
            true
        } else if self@.len() == 1 {
            self.region().separates(self@[0].position, p.position)
        } else {
            match self.child(self.region().quadrant_of(p.position)) {
                Some(c) => self.region().size >= 1 && c.admits(p),
                None => true,
            }
        }
    }

    /// The measure by which insertion descends: twice the size of the
    /// cell, and one more for a node that is not empty.
    pub open spec fn rank(self) -> nat {
        2 * (self.region().size as nat) + if self.count() > 0 {
            1nat
        } else {
            0nat
        }
    }

    /// What insertion keeps of a subtree while the node above it is being
    /// rebuilt: it is well formed and sits over the right quarter.
    spec fn slot_wf(self, q: Quadrant) -> bool {
        match self.child(q) {
            Some(c) => c.wf() && c.region() == self.region().quarter(q),
            None => true,
        }
    }

    /// Whether the subtree in the quadrant `q` holds the members of that
    /// quadrant among `s`, and is there exactly if there are any.
    spec fn child_holds(self, q: Quadrant, s: Seq<Particle>) -> bool {
        &&& self.child_view(q) =~= members(s, self.region(), q)
        &&& self.child(q) is Some <==> members(s, self.region(), q).len() > 0
        &&& self.child(q) matches Some(c) ==> c@.len() > 0
    }

    /// The particles of the subtree in the quadrant `q`, none if there is
    /// no such subtree.
    pub open spec fn child_view(self, q: Quadrant) -> Seq<Particle> {
        match self.child(q) {
            Some(c) => c@,
            None => Seq::empty(),
        }
    }

    /// The subtrees that are there, in the order north-west, north-east,
    /// south-west, south-east.
    pub open spec fn children(self) -> Seq<BHTree> {
        Self::slot_seq(self.child(Quadrant::NW)) + Self::slot_seq(self.child(Quadrant::NE))
            + Self::slot_seq(self.child(Quadrant::SW)) + Self::slot_seq(
            self.child(Quadrant::SE),
        )
    }

    /// A subtree as a sequence of one, or of none.
    pub open spec fn slot_seq(slot: Option<BHTree>) -> Seq<BHTree> {
        match slot {
            Some(c) => seq![c],
            None => Seq::empty(),
        }
    }

    /// The force that the tree exerts on `target` under the accuracy
    /// parameter `num / den`. A node with one particle exerts that
    /// particle's force. Any other node that is far enough from the target
    /// acts as one particle at its centre of mass; one that is not exerts
    /// the sum of the forces of its subtrees.
    pub open spec fn force_at(self, target: Particle, num: u32, den: u32) -> nat
        decreases self,
    {
        if self@.len() == 1 {
            self@[0].force(target)
        } else if far_enough(
            self.region().size,
            self.aggregate_center().distance(target.position),
            num,
            den,
        ) {
            target.force(
                Particle { position: self.aggregate_center(), mass: self.aggregate_mass() },
            )
        } else {
            (match self.child(Quadrant::NW) {
                Some(c) => c.force_at(target, num, den),
                None => 0,
            }) + (match self.child(Quadrant::NE) {
                Some(c) => c.force_at(target, num, den),
                None => 0,
            }) + (match self.child(Quadrant::SW) {
                Some(c) => c.force_at(target, num, den),
                None => 0,
            }) + (match self.child(Quadrant::SE) {
                Some(c) => c.force_at(target, num, den),
                None => 0,
            })
        }
    }

    /// The force that the tree exerts on `target` under `THETA_NUM /
    /// THETA_DEN`.
    pub open spec fn force(self, target: Particle) -> nat {
        self.force_at(target, THETA_NUM, THETA_DEN)
    }

    /// The forces that the trees of `trees` exert on `target`, added up.
    spec fn forces(trees: Seq<BHTree>, target: Particle, num: u32, den: u32) -> nat
        decreases trees.len(),
    {
        if trees.len() == 0 {
            0
        } else {
            Self::forces(trees.drop_last(), target, num, den) + trees.last().force_at(
                target,
                num,
                den,
            )
        }
    }

    /// The masses that the trees of `trees` have added up, added up.
    spec fn masses(trees: Seq<BHTree>) -> nat
        decreases trees.len(),
    {
        if trees.len() == 0 {
            0
        } else {
            Self::masses(trees.drop_last()) + trees.last().aggregate_mass() as nat
        }
    }

    /// Adding a slot to a list of trees adds the force of its subtree, if
    /// it has one, and the mass.
    proof fn lemma_append_slot(
        trees: Seq<BHTree>,
        slot: Option<BHTree>,
        target: Particle,
        num: u32,
        den: u32,
    )
        ensures
            Self::forces(trees + Self::slot_seq(slot), target, num, den) == Self::forces(
                trees,
                target,
                num,
                den,
            ) + (match slot {
                Some(c) => c.force_at(target, num, den),
                None => 0,
            }),
            Self::masses(trees + Self::slot_seq(slot)) == Self::masses(trees) + (match slot {
                Some(c) => c.aggregate_mass() as nat,
                None => 0,
            }),
    {
        match slot {
            Some(c) => {
                let all = trees + Self::slot_seq(slot);
                assert(all.drop_last() =~= trees);
                assert(all.last() == c);
            },
            None => {
                assert(trees + Self::slot_seq(slot) =~= trees);
            },
        }
    }

    /// What the list of subtrees adds up to, slot by slot.
    proof fn lemma_children_sums(self, target: Particle, num: u32, den: u32)
        ensures
            Self::forces(self.children(), target, num, den) == (match self.child(Quadrant::NW) {
                Some(c) => c.force_at(target, num, den),
                None => 0,
            }) + (match self.child(Quadrant::NE) {
                Some(c) => c.force_at(target, num, den),
                None => 0,
            }) + (match self.child(Quadrant::SW) {
                Some(c) => c.force_at(target, num, den),
                None => 0,
            }) + (match self.child(Quadrant::SE) {
                Some(c) => c.force_at(target, num, den),
                None => 0,
            }),
            Self::masses(self.children()) == (match self.child(Quadrant::NW) {
                Some(c) => c.aggregate_mass() as nat,
                None => 0,
            }) + (match self.child(Quadrant::NE) {
                Some(c) => c.aggregate_mass() as nat,
                None => 0,
            }) + (match self.child(Quadrant::SW) {
                Some(c) => c.aggregate_mass() as nat,
                None => 0,
            }) + (match self.child(Quadrant::SE) {
                Some(c) => c.aggregate_mass() as nat,
                None => 0,
            }),
    {
        let none = Seq::<BHTree>::empty();
        let a = none + Self::slot_seq(self.child(Quadrant::NW));
        let b = a + Self::slot_seq(self.child(Quadrant::NE));
        let c = b + Self::slot_seq(self.child(Quadrant::SW));
        let d = c + Self::slot_seq(self.child(Quadrant::SE));
        Self::lemma_append_slot(none, self.child(Quadrant::NW), target, num, den);
        Self::lemma_append_slot(a, self.child(Quadrant::NE), target, num, den);
        Self::lemma_append_slot(b, self.child(Quadrant::SW), target, num, den);
        Self::lemma_append_slot(c, self.child(Quadrant::SE), target, num, den);
        assert(a =~= Self::slot_seq(self.child(Quadrant::NW)));
        assert(d == self.children());
    }

    /// The first few trees of a list weigh no more than all of them, and
    /// one more tree adds its force and its mass.
    proof fn lemma_take_next(trees: Seq<BHTree>, i: int, target: Particle, num: u32, den: u32)
        requires
            0 <= i < trees.len(),
        ensures
            Self::forces(trees.take(i + 1), target, num, den) == Self::forces(
                trees.take(i),
                target,
                num,
                den,
            ) + trees[i].force_at(target, num, den),
            Self::masses(trees.take(i + 1)) == Self::masses(trees.take(i))
                + trees[i].aggregate_mass(),
            Self::masses(trees.take(i + 1)) <= Self::masses(trees),
        decreases trees.len() - i,
    {
        assert(trees.take(i + 1).drop_last() =~= trees.take(i));
        if i + 1 < trees.len() {
            Self::lemma_take_next(trees, i + 1, target, num, den);
        } else {
            assert(trees.take(i + 1) =~= trees);
        }
    }

    /// A well-formed subtree has added up the mass of its particles.
    proof fn lemma_slot_mass(slot: Option<BHTree>)
        requires
            slot matches Some(c) ==> c.wf(),
        ensures
            slot matches Some(c) ==> c.aggregate_mass() == total_mass(c@),
    {
    }

    /// A subtree lies below the tree that it belongs to, which is what a
    /// proof by induction over the tree goes by.
    pub proof fn lemma_child_below(self, q: Quadrant)
        ensures
            self.child(q) matches Some(c) ==> decreases_to!(self => c),
    {
    }

    /// Whether each tree of `trees` is well formed and lies below `parent`.
    spec fn sound_below(trees: Seq<BHTree>, parent: BHTree) -> bool {
        forall|i: int|
            0 <= i < trees.len() ==> {
                &&& (#[trigger] trees[i]).wf()
                &&& decreases_to!(parent => trees[i])
            }
    }

    /// A list of sound trees stays one when a sound slot is added to it.
    proof fn lemma_append_sound(trees: Seq<BHTree>, slot: Option<BHTree>, parent: BHTree)
        requires
            Self::sound_below(trees, parent),
            slot matches Some(c) ==> c.wf() && decreases_to!(parent => c),
        ensures
            Self::sound_below(trees + Self::slot_seq(slot), parent),
    {
        let all = trees + Self::slot_seq(slot);
        assert forall|i: int| 0 <= i < all.len() implies {
            &&& (#[trigger] all[i]).wf()
            &&& decreases_to!(parent => all[i])
        } by {
            if i < trees.len() {
                assert(all[i] == trees[i]);
            } else {
                assert(all[i] == slot->0);
            }
        }
    }

    /// The subtrees of a well-formed tree are well formed and lie below
    /// it, and a tree of fewer than two particles has none.
    proof fn lemma_children_sound(self)
        requires
            self.wf(),
        ensures
            Self::sound_below(self.children(), self),
            self@.len() < 2 ==> self.children().len() == 0,
    {
        let none = Seq::<BHTree>::empty();
        let a = none + Self::slot_seq(self.child(Quadrant::NW));
        let b = a + Self::slot_seq(self.child(Quadrant::NE));
        let c = b + Self::slot_seq(self.child(Quadrant::SW));
        Self::lemma_append_sound(none, self.child(Quadrant::NW), self);
        Self::lemma_append_sound(a, self.child(Quadrant::NE), self);
        Self::lemma_append_sound(b, self.child(Quadrant::SW), self);
        Self::lemma_append_sound(c, self.child(Quadrant::SE), self);
        assert(a =~= Self::slot_seq(self.child(Quadrant::NW)));
    }

    /// What the subtrees of a well-formed tree have added up is the mass
    /// of the tree, once it has counted two particles.
    proof fn lemma_children_mass(self)
        requires
            self.wf(),
            self@.len() >= 2,
        ensures
            Self::masses(self.children()) == self.aggregate_mass(),
    {
        let p = Particle { position: Position(0, 0), mass: 0 };
        self.lemma_children_sums(p, 0, 0);
        lemma_mass_by_quadrant(self@, self.region());
        self.lemma_slot_total(Quadrant::NW);
        self.lemma_slot_total(Quadrant::NE);
        self.lemma_slot_total(Quadrant::SW);
        self.lemma_slot_total(Quadrant::SE);
    }

    /// The subtree of a quadrant has added up the mass of the members of
    /// that quadrant, which is nothing where there is no subtree.
    proof fn lemma_slot_total(self, q: Quadrant)
        requires
            self.wf(),
            self@.len() >= 2,
        ensures
            (match self.child(q) {
                Some(c) => c.aggregate_mass() as nat,
                None => 0,
            }) == total_mass(members(self@, self.region(), q)),
    {
        Self::lemma_slot_mass(self.child(q));
        assert(self.child_matches(q));
    }

    /// Makes an empty tree over `cell`.
    pub fn init(cell: Cell) -> (tree: Self)
        requires
            cell.fits(),
        ensures
            tree.wf(),
            tree@ == Seq::<Particle>::empty(),
            tree.region() == cell,
    {
        BHTree {
            cell,
            mass: 0,
            center_of_mass: Position(0, 0),
            num_particles: 0,
            particle: None,
            nw: None,
            ne: None,
            sw: None,
            se: None,
            inserted: Ghost(Seq::empty()),
        }
    }

    /// The quadrant of this node's cell that `particle` belongs to.
    pub fn get_quadrant(&self, particle: &Particle) -> (q: Quadrant)
        ensures
            q == self.region().quadrant_of(particle.position),
    {
        self.cell.classify(particle.position)
    }

    /// The region that this node governs.
    pub fn cell(&self) -> (c: Cell)
        ensures
            c == self.region(),
    {
        self.cell
    }

    /// The number of particles inserted.
    pub fn num_particles(&self) -> (n: u32)
        ensures
            n == self.count(),
    {
        self.num_particles
    }

    /// The particle that the node holds itself, if it holds one.
    pub fn particle(&self) -> (p: Option<Particle>)
        ensures
            p == self.stored(),
    {
        self.particle
    }

    /// The mass of the particles inserted.
    pub fn mass(&self) -> (m: u64)
        ensures
            m == self.aggregate_mass(),
    {
        self.mass
    }

    /// The centre of mass of the particles inserted.
    pub fn center_of_mass(&self) -> (c: Position)
        ensures
            c == self.aggregate_center(),
    {
        self.center_of_mass
    }

    /// Lists the subtrees that are there, in the order north-west,
    /// north-east, south-west, south-east.
    pub fn get_children(&self) -> (children: Vec<&BHTree>)
        ensures
            children@.len() == self.children().len(),
            forall|i: int| 0 <= i < children@.len() ==> *children@[i] == self.children()[i],
    {
        let mut children: Vec<&BHTree> = Vec::with_capacity(4);
        if let Some(child) = &self.nw {
            children.push(&**child);
        }
        if let Some(child) = &self.ne {
            children.push(&**child);
        }
        if let Some(child) = &self.sw {
            children.push(&**child);
        }
        if let Some(child) = &self.se {
            children.push(&**child);
        }
        children
    }

    /// Computes the force that the tree exerts on `target` under the
    /// accuracy parameter `theta_num / theta_den`.
    pub fn calculate_force_with(&self, target: &Particle, theta_num: u32, theta_den: u32) -> (force:
        u128)
        requires
            self.wf(),
        ensures
            force == self.force_at(*target, theta_num, theta_den),
            force <= self.aggregate_mass() * target.mass,
        decreases self,
    {
        let mut force: u128 = 0;
        if self.num_particles == 1 {
            let only = self.particle.unwrap();
            proof {
                only.lemma_force_bound(*target);
                assert(self@ =~= Seq::<Particle>::empty().push(only));
                lemma_total_mass_push(Seq::<Particle>::empty(), only);
            }
            force = only.calculate_force(target);
        } else {
            let r: u64 = self.center_of_mass.distance_to(target.position);
            assert(self.cell.size * theta_den <= u64::MAX) by (nonlinear_arith)
                requires
                    self.cell.size <= u32::MAX,
                    theta_den <= u32::MAX,
            ;
            assert(theta_num * r <= u128::MAX) by (nonlinear_arith)
                requires
                    theta_num <= u32::MAX,
                    r <= u64::MAX,
            ;
            let scaled_size: u64 = (self.cell.size as u64) * (theta_den as u64);
            let scaled_r: u128 = (theta_num as u128) * (r as u128);
            if (scaled_size as u128) < scaled_r {
                let com = Particle { position: self.center_of_mass, mass: self.mass };
                proof {
                    target.lemma_force_bound(com);
                    assert(target.mass * com.mass == com.mass * target.mass) by (nonlinear_arith);
                }
                force = target.calculate_force(&com);
            } else {
                let children = self.get_children();
                proof {
                    self.lemma_children_sound();
                    if self@.len() >= 2 {
                        self.lemma_children_mass();
                    } else {
                        assert(self.children() =~= Seq::<BHTree>::empty());
                    }
                    self.lemma_children_sums(*target, theta_num, theta_den);
                    assert(self.children().take(0) =~= Seq::<BHTree>::empty());
                    assert(0 * target.mass == 0) by (nonlinear_arith);
                }
                let mut i: usize = 0;
                while i < children.len()
                    invariant
                        i <= children@.len(),
                        children@.len() == self.children().len(),
                        forall|j: int|
                            0 <= j < children@.len() ==> *children@[j] == self.children()[j],
                        Self::sound_below(self.children(), *self),
                        force == Self::forces(
                            self.children().take(i as int),
                            *target,
                            theta_num,
                            theta_den,
                        ),
                        force <= Self::masses(self.children().take(i as int)) * target.mass,
                        Self::masses(self.children()) <= self.aggregate_mass(),
                    decreases children@.len() - i,
                {
                    let child: &BHTree = children[i];
                    let f: u128 = child.calculate_force_with(target, theta_num, theta_den);
                    proof {
                        Self::lemma_take_next(
                            self.children(),
                            i as int,
                            *target,
                            theta_num,
                            theta_den,
                        );
                        let sofar = Self::masses(self.children().take(i as int));
                        let next = Self::masses(self.children().take(i + 1));
                        assert(force + f <= next * target.mass) by (nonlinear_arith)
                            requires
                                force <= sofar * target.mass,
                                f <= child.aggregate_mass() * target.mass,
                                next == sofar + child.aggregate_mass(),
                        ;
                        assert(next * target.mass <= u128::MAX) by (nonlinear_arith)
                            requires
                                next <= u64::MAX,
                                target.mass <= u64::MAX,
                        ;
                    }
                    force = force + f;
                    i += 1;
                }
                proof {
                    assert(self.children().take(i as int) =~= self.children());
                    assert(Self::masses(self.children()) * target.mass <= self.aggregate_mass()
                        * target.mass) by (nonlinear_arith)
                        requires
                            Self::masses(self.children()) <= self.aggregate_mass(),
                    ;
                }
            }
        }
        force
    }

    /// Computes the force that the tree exerts on `target` under the
    /// accuracy parameter `THETA_NUM / THETA_DEN`. An empty tree exerts
    /// none.
    pub fn calculate_force(&self, target: &Particle) -> (force: u128)
        requires
            self.wf(),
        ensures
            force == self.force(*target),
            force <= self.aggregate_mass() * target.mass,
    {
        self.calculate_force_with(target, THETA_NUM, THETA_DEN)
    }

    /// Decides whether the tree can take `particle` in.
    pub fn can_insert(&self, particle: &Particle) -> (r: bool)
        requires
            self.wf(),
        ensures
            r == self.admits(*particle),
        decreases self,
    {
        if self.num_particles == 0 {
            true
        } else if self.num_particles == 1 {
            self.cell.tells_apart(self.particle.unwrap().position, particle.position)
        } else {
            let slot = match self.get_quadrant(particle) {
                Quadrant::NW => &self.nw,
                Quadrant::NE => &self.ne,
                Quadrant::SW => &self.sw,
                Quadrant::SE => &self.se,
            };
            match slot {
                Some(child) => self.cell.size >= 1 && child.can_insert(particle),
                None => true,
            }
        }
    }

    /// Inserts `particle` if the tree can take it in, and says whether it
    /// did. It cannot where the mass is zero, where the count or the mass
    /// of the tree would leave the range of its type, or where no halving
    /// of the cells tells the particle from one that is there. The tree is
    /// then left as it was.
    pub fn try_insert(&mut self, particle: Particle) -> (inserted: bool)
        requires
            old(self).wf(),
        ensures
            inserted == {
                &&& particle.mass > 0
                &&& total_mass(old(self)@) + particle.mass <= u64::MAX
                &&& old(self)@.len() < u32::MAX
                &&& old(self).admits(particle)
            },
            inserted ==> final(self)@ == old(self)@.push(particle),
            !inserted ==> *final(self) == *old(self),
            final(self).wf(),
            final(self).region() == old(self).region(),
    {
        if particle.mass > 0 && particle.mass <= u64::MAX - self.mass && self.num_particles
            < u32::MAX && self.can_insert(&particle) {
            self.insert_particle(particle);
            true
        } else {
            false
        }
    }

    /// Hands `particle` to the subtree in `quadrant`, which is made first
    /// if it is not there yet. The node itself is left as it was.
    fn create_and_insert(&mut self, particle: Particle, quadrant: Quadrant)
        requires
            old(self).region().fits(),
            old(self).count() >= 1,
            particle.mass > 0,
            old(self).slot_wf(Quadrant::NW),
            old(self).slot_wf(Quadrant::NE),
            old(self).slot_wf(Quadrant::SW),
            old(self).slot_wf(Quadrant::SE),
            match old(self).child(quadrant) {
                Some(c) => {
                    &&& old(self).region().size >= 1
                    &&& c.admits(particle)
                    &&& total_mass(c@) + particle.mass <= u64::MAX
                    &&& c@.len() < u32::MAX
                },
                None => true,
            },
        ensures
            final(self).region() == old(self).region(),
            final(self).count() == old(self).count(),
            final(self).aggregate_mass() == old(self).aggregate_mass(),
            final(self).aggregate_center() == old(self).aggregate_center(),
            final(self).stored() == old(self).stored(),
            final(self)@ == old(self)@,
            forall|q: Quadrant| q != quadrant ==> final(self).child(q) == old(self).child(q),
            final(self).child(quadrant) is Some,
            final(self).child_view(quadrant) == old(self).child_view(quadrant).push(particle),
            final(self).slot_wf(quadrant),
        decreases 2 * (old(self).region().size as nat) + 1, 0int,
    {
        let child_cell = self.cell.subdivide(quadrant);
        let slot = match quadrant {
            Quadrant::NW => self.nw.take(),
            Quadrant::NE => self.ne.take(),
            Quadrant::SW => self.sw.take(),
            Quadrant::SE => self.se.take(),
        };
        let mut child: Box<BHTree> = match slot {
            Some(b) => b,
            None => Box::new(BHTree::init(child_cell)),
        };
        (&mut *child).insert_particle(particle);
        match quadrant {
            Quadrant::NW => {
                self.nw = Some(child);
            },
            Quadrant::NE => {
                self.ne = Some(child);
            },
            Quadrant::SW => {
                self.sw = Some(child);
            },
            Quadrant::SE => {
                self.se = Some(child);
            },
        }
    }

    /// Inserts `particle`. An empty node keeps it. A node that holds one
    /// particle hands that one and the new one down to its quadrants, and
    /// holds none itself from then on. Any other node hands the new one
    /// down. Then the node adds the particle to its count, its mass and its
    /// centre of mass.
    ///
    /// The cell is not checked to contain the particle: one outside of it
    /// is placed by the same comparisons with the centres. What is asked
    /// is that the particle has mass, that the count and the mass of the
    /// tree stay within their types, and that the descent ends (`admits`);
    /// `try_insert` tests all of this itself.
    pub fn insert_particle(&mut self, particle: Particle)
        requires
            old(self).wf(),
            particle.mass > 0,
            total_mass(old(self)@) + particle.mass <= u64::MAX,
            old(self)@.len() < u32::MAX,
            old(self).admits(particle),
        ensures
            final(self).wf(),
            final(self)@ == old(self)@.push(particle),
            final(self).region() == old(self).region(),
            final(self).count() == old(self).count() + 1,
            final(self).aggregate_mass() == old(self).aggregate_mass() + particle.mass,
            final(self).aggregate_center() == old(self).aggregate_center().weighted_mean(
                old(self).aggregate_mass() as nat,
                particle.position,
                particle.mass as nat,
            ),
        decreases old(self).rank(), 1int,
    {
        let ghost before = self@;
        let ghost cell = self.cell;
        proof {
            lemma_total_mass_push(before, particle);
            lemma_centroid_push(before, particle);
            lemma_members_push(before, particle, cell, Quadrant::NW);
            lemma_members_push(before, particle, cell, Quadrant::NE);
            lemma_members_push(before, particle, cell, Quadrant::SW);
            lemma_members_push(before, particle, cell, Quadrant::SE);
            lemma_members_within(before, cell, Quadrant::NW);
            lemma_members_within(before, cell, Quadrant::NE);
            lemma_members_within(before, cell, Quadrant::SW);
            lemma_members_within(before, cell, Quadrant::SE);
        }
        match self.num_particles {
            0 => {
                self.particle = Some(particle);
            },
            1 => {
                let existing = self.particle.unwrap();
                proof {
                    assert(existing == before[0]);
                    assert(before =~= Seq::<Particle>::empty().push(existing));
                    lemma_total_mass_push(Seq::<Particle>::empty(), existing);
                    lemma_members_push(Seq::<Particle>::empty(), existing, cell, Quadrant::NW);
                    lemma_members_push(Seq::<Particle>::empty(), existing, cell, Quadrant::NE);
                    lemma_members_push(Seq::<Particle>::empty(), existing, cell, Quadrant::SW);
                    lemma_members_push(Seq::<Particle>::empty(), existing, cell, Quadrant::SE);
                }
                let q = self.get_quadrant(&existing);
                self.create_and_insert(existing, q);
                let q = self.get_quadrant(&particle);
                self.create_and_insert(particle, q);
                self.particle = None;
                proof {
                    assert(self.child_holds(Quadrant::NW, before.push(particle)));
                    assert(self.child_holds(Quadrant::NE, before.push(particle)));
                    assert(self.child_holds(Quadrant::SW, before.push(particle)));
                    assert(self.child_holds(Quadrant::SE, before.push(particle)));
                }
            },
            _ => {
                let q = self.get_quadrant(&particle);
                self.create_and_insert(particle, q);
                proof {
                    assert(self.child_holds(Quadrant::NW, before.push(particle)));
                    assert(self.child_holds(Quadrant::NE, before.push(particle)));
                    assert(self.child_holds(Quadrant::SW, before.push(particle)));
                    assert(self.child_holds(Quadrant::SE, before.push(particle)));
                }
            },
        }
        self.center_of_mass = self.center_of_mass.mean_with(
            self.mass,
            particle.position,
            particle.mass,
        );
        self.mass += particle.mass;
        self.num_particles += 1;
        proof {
            self.inserted@ = before.push(particle);
        }
    }
}

} // verus!
