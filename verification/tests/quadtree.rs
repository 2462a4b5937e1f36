use barnes_hut::{
    get_distribution, pair_coordinates, BHTree, Cell, Particle, Position, Quadrant, THETA_DEN,
    THETA_NUM,
};
use rand::distributions::{Distribution, Uniform};
use rand::Rng;
use rand_distr::Normal;
use std::cell::Cell as Counter;

/// Lattice points per unit of length, and mass per unit of mass.
const UNIT: f64 = 1048576.0;

fn lattice(v: f64) -> i32 {
    (v * UNIT).round() as i32
}

fn at(x: f64, y: f64) -> Position {
    Position(lattice(x), lattice(y))
}

fn mass(m: f64) -> u64 {
    (m * UNIT).round() as u64
}

/// Real-valued samples, rounded to the lattice.
struct OnLattice<D>(D);

impl<D: Distribution<f64>> Distribution<i32> for OnLattice<D> {
    fn sample<R: Rng + ?Sized>(&self, rng: &mut R) -> i32 {
        lattice(self.0.sample(rng))
    }
}

/// Counts up from zero, whatever the generator.
struct Counting(Counter<i32>);

impl Distribution<i32> for Counting {
    fn sample<R: Rng + ?Sized>(&self, _rng: &mut R) -> i32 {
        let next = self.0.get();
        self.0.set(next + 1);
        next
    }
}

fn root() -> BHTree {
    BHTree::init(Cell {
        position: at(0.0, 0.0),
        size: lattice(1.0) as u32,
    })
}

#[test]
fn gets_right_quadrant() {
    let bht = root();

    let nw = Particle {
        position: at(-0.5, 0.5),
        mass: mass(1.0),
    };
    let ne = Particle {
        position: at(0.5, 0.5),
        mass: mass(1.0),
    };
    let sw = Particle {
        position: at(-0.5, -0.5),
        mass: mass(1.0),
    };
    let se = Particle {
        position: at(0.5, -0.5),
        mass: mass(1.0),
    };

    assert_eq!(bht.get_quadrant(&nw), Quadrant::NW);
    assert_eq!(bht.get_quadrant(&ne), Quadrant::NE);
    assert_eq!(bht.get_quadrant(&sw), Quadrant::SW);
    assert_eq!(bht.get_quadrant(&se), Quadrant::SE);
}

#[test]
fn inserts_particles() {
    let mut bht = root();

    let nw = Particle {
        position: at(-0.75, 0.75),
        mass: mass(1.0),
    };

    let se = Particle {
        position: at(0.5, -0.5),
        mass: mass(1.0),
    };

    bht.insert_particle(se);

    assert_eq!(bht.num_particles(), 1);
    assert_eq!(bht.particle().unwrap(), se);

    bht.insert_particle(nw);

    let nwse = Particle {
        position: at(-0.25, 0.25),
        mass: mass(3.0),
    };

    bht.insert_particle(nwse);

    assert_eq!(bht.mass(), mass(5.0));
}

#[test]
fn calculates_force() {
    let distribution = Normal::new(0.0, 0.1).unwrap();
    let particles = get_distribution(100, OnLattice(distribution), mass(1.0));

    // Construct tree
    let mut bht = root();

    for particle in &particles {
        bht.insert_particle(*particle)
    }

    // Compute forces
    for particle in &particles {
        // With Barnes-Hut
        let bh_force = bht.calculate_force(particle) as f64;

        // With Brute-Force
        let mut bf_force = 0.0;
        for target in &particles {
            bf_force += particle.calculate_force(target) as f64;
        }

        if f64::abs(bh_force - bf_force) / bf_force > 0.1 {
            panic!(
                "Unreasonably large error deviation: got {}, expected {} (theta {})",
                bh_force,
                bf_force,
                THETA_NUM as f64 / THETA_DEN as f64
            );
        }
    }
}

#[test]
fn aggregates_mass_after_each_insertion() {
    let mut bht = root();
    bht.insert_particle(Particle {
        position: at(-0.75, 0.75),
        mass: mass(1.0),
    });
    bht.insert_particle(Particle {
        position: at(0.5, -0.5),
        mass: mass(1.0),
    });
    assert_eq!(bht.mass(), mass(2.0));
    bht.insert_particle(Particle {
        position: at(-0.25, 0.25),
        mass: mass(3.0),
    });
    assert_eq!(bht.mass(), mass(5.0));
    assert_eq!(bht.num_particles(), 3);
}

#[test]
fn empty_tree_has_nothing() {
    let bht = root();
    assert_eq!(bht.num_particles(), 0);
    assert_eq!(bht.particle(), None);
    assert_eq!(bht.mass(), 0);
    assert_eq!(bht.center_of_mass(), Position(0, 0));
    assert_eq!(bht.get_children().len(), 0);
    assert_eq!(bht.cell(), Cell { position: Position(0, 0), size: 1 << 20 });
}

#[test]
fn first_particle_stays_in_the_node() {
    let mut bht = BHTree::init(Cell { position: Position(0, 0), size: 16 });
    let p = Particle { position: Position(3, -4), mass: 7 };
    bht.insert_particle(p);
    assert_eq!(bht.num_particles(), 1);
    assert_eq!(bht.particle(), Some(p));
    assert_eq!(bht.get_children().len(), 0);
    assert_eq!(bht.mass(), 7);
    assert_eq!(bht.center_of_mass(), Position(3, -4));
}

#[test]
fn second_particle_splits_the_node() {
    let mut bht = BHTree::init(Cell { position: Position(0, 0), size: 16 });
    let a = Particle { position: Position(-3, 4), mass: 1 };
    let b = Particle { position: Position(5, -6), mass: 2 };
    bht.insert_particle(a);
    bht.insert_particle(b);
    assert_eq!(bht.num_particles(), 2);
    assert_eq!(bht.particle(), None);
    let children = bht.get_children();
    assert_eq!(children.len(), 2);
    // north-west comes before south-east
    assert_eq!(children[0].particle(), Some(a));
    assert_eq!(children[0].cell(), Cell { position: Position(-4, 4), size: 8 });
    assert_eq!(children[1].particle(), Some(b));
    assert_eq!(children[1].cell(), Cell { position: Position(4, -4), size: 8 });
}

#[test]
fn particles_of_one_quadrant_split_further_down() {
    let mut bht = BHTree::init(Cell { position: Position(0, 0), size: 32 });
    // both north-east of (0, 0) and of (8, 8); apart at (12, 12)
    let a = Particle { position: Position(9, 9), mass: 1 };
    let b = Particle { position: Position(14, 13), mass: 1 };
    bht.insert_particle(a);
    bht.insert_particle(b);
    assert_eq!(bht.particle(), None);
    let first = bht.get_children();
    assert_eq!(first.len(), 1);
    assert_eq!(first[0].cell(), Cell { position: Position(8, 8), size: 16 });
    assert_eq!(first[0].num_particles(), 2);
    assert_eq!(first[0].particle(), None);
    assert_eq!(first[0].mass(), 2);
    let second = first[0].get_children();
    assert_eq!(second.len(), 1);
    assert_eq!(second[0].cell(), Cell { position: Position(12, 12), size: 8 });
    let third = second[0].get_children();
    assert_eq!(third.len(), 2);
    assert_eq!(third[0].particle(), Some(b));
    assert_eq!(third[0].cell(), Cell { position: Position(14, 14), size: 4 });
    assert_eq!(third[1].particle(), Some(a));
    assert_eq!(third[1].cell(), Cell { position: Position(10, 10), size: 4 });
}

#[test]
fn third_particle_goes_down_into_its_quadrant() {
    let mut bht = BHTree::init(Cell { position: Position(0, 0), size: 16 });
    let a = Particle { position: Position(-3, 4), mass: 1 };
    let b = Particle { position: Position(5, -6), mass: 2 };
    let c = Particle { position: Position(-12, 12), mass: 4 };
    bht.insert_particle(a);
    bht.insert_particle(b);
    bht.insert_particle(c);
    assert_eq!(bht.num_particles(), 3);
    let children = bht.get_children();
    assert_eq!(children.len(), 2);
    assert_eq!(children[0].num_particles(), 2);
    assert_eq!(children[0].mass(), 5);
    assert_eq!(children[0].particle(), None);
    assert_eq!(children[1].particle(), Some(b));
}

#[test]
fn mass_is_the_sum_of_the_masses() {
    let mut bht = BHTree::init(Cell { position: Position(0, 0), size: 2048 });
    let masses: [u64; 6] = [5, 1, 40, 7, 300, 2];
    let mut sum = 0;
    for (i, m) in masses.iter().enumerate() {
        let k = i as i32;
        bht.insert_particle(Particle { position: Position(37 * k - 90, 500 - 211 * k), mass: *m });
        sum += *m;
        assert_eq!(bht.mass(), sum);
        assert_eq!(bht.num_particles(), k as u32 + 1);
    }
    assert_eq!(bht.mass(), 355);
    let below: u64 = bht.get_children().iter().map(|c| c.mass()).sum();
    assert_eq!(below, 355);
}

#[test]
fn center_of_mass_is_the_running_mean() {
    let mut bht = BHTree::init(Cell { position: Position(0, 0), size: 64 });
    bht.insert_particle(Particle { position: Position(0, 0), mass: 1 });
    assert_eq!(bht.center_of_mass(), Position(0, 0));
    bht.insert_particle(Particle { position: Position(10, -10), mass: 3 });
    // (0 * 1 + 10 * 3) / 4 = 7.5 and (0 * 1 - 10 * 3) / 4 = -7.5, rounded down
    assert_eq!(bht.center_of_mass(), Position(7, -8));
    bht.insert_particle(Particle { position: Position(-20, 5), mass: 4 });
    // (7 * 4 - 20 * 4) / 8 = -6.5 and (-8 * 4 + 5 * 4) / 8 = -1.5, rounded down
    assert_eq!(bht.center_of_mass(), Position(-7, -2));
}

#[test]
fn center_of_mass_stays_close_to_the_centroid() {
    let mut bht = BHTree::init(Cell { position: Position(0, 0), size: 1 << 13 });
    let mut moment: (i128, i128) = (0, 0);
    let mut count: i128 = 0;
    let mut k: i32 = 0;
    while k < 60 {
        let p = Particle {
            position: Position((k * 7919 + 13) % 8001 - 4000, (k * 104729 + 7) % 7993 - 3996),
            mass: 1 + ((k as u64) * 37) % 11,
        };
        assert!(bht.try_insert(p));
        moment.0 += p.mass as i128 * p.position.0 as i128;
        moment.1 += p.mass as i128 * p.position.1 as i128;
        count += 1;
        let total = bht.mass() as i128;
        let lack_x = moment.0 - bht.center_of_mass().0 as i128 * total;
        let lack_y = moment.1 - bht.center_of_mass().1 as i128 * total;
        assert!(0 <= lack_x && lack_x <= (count - 1) * total);
        assert!(0 <= lack_y && lack_y <= (count - 1) * total);
        k += 1;
    }
}

#[test]
fn particle_outside_the_cell_is_placed_all_the_same() {
    let mut bht = BHTree::init(Cell { position: Position(0, 0), size: 4 });
    let inside = Particle { position: Position(1, 1), mass: 1 };
    let outside = Particle { position: Position(100, -100), mass: 1 };
    bht.insert_particle(inside);
    assert!(bht.can_insert(&outside));
    bht.insert_particle(outside);
    assert_eq!(bht.num_particles(), 2);
    assert_eq!(bht.get_children().len(), 2);
    assert_eq!(bht.get_quadrant(&outside), Quadrant::SE);
}

#[test]
fn particles_beyond_the_reach_of_the_quarters_stay_together() {
    let mut bht = BHTree::init(Cell { position: Position(0, 0), size: 16 });
    // the centres of the quarters never pass (7, 7)
    let a = Particle { position: Position(100, 100), mass: 1 };
    let b = Particle { position: Position(200, 300), mass: 1 };
    assert!(bht.try_insert(a));
    assert!(!bht.can_insert(&b));
    assert!(!bht.try_insert(b));
    assert_eq!(bht.num_particles(), 1);
    assert_eq!(bht.particle(), Some(a));
    assert_eq!(bht.get_children().len(), 0);
}

#[test]
fn try_insert_turns_down_what_cannot_be_placed() {
    let mut bht = BHTree::init(Cell { position: Position(0, 0), size: 16 });
    let a = Particle { position: Position(2, 3), mass: 5 };
    assert!(bht.try_insert(a));
    // no mass
    assert!(!bht.try_insert(Particle { position: Position(-2, 3), mass: 0 }));
    // the same point as a particle that is there
    assert!(!bht.can_insert(&Particle { position: Position(2, 3), mass: 9 }));
    assert!(!bht.try_insert(Particle { position: Position(2, 3), mass: 9 }));
    // more mass than the tree can add up
    assert!(!bht.try_insert(Particle { position: Position(-2, 3), mass: u64::MAX - 4 }));
    assert_eq!(bht.num_particles(), 1);
    assert_eq!(bht.particle(), Some(a));
    assert_eq!(bht.mass(), 5);
    assert!(bht.try_insert(Particle { position: Position(-2, 3), mass: u64::MAX - 5 }));
    assert_eq!(bht.mass(), u64::MAX);
    assert_eq!(bht.num_particles(), 2);
}

#[test]
fn neighbours_on_the_lattice_come_apart() {
    let mut bht = BHTree::init(Cell { position: Position(0, 0), size: 16 });
    let points = [Position(-1, -1), Position(-1, 0), Position(0, -1), Position(0, 0), Position(7, 7), Position(6, 7), Position(-8, -8), Position(-8, -7)];
    for p in points {
        assert!(bht.try_insert(Particle { position: p, mass: 1 }));
    }
    assert_eq!(bht.num_particles(), 8);
    assert_eq!(bht.mass(), 8);
}

#[test]
fn pairing_follows_the_coordinates() {
    let x = vec![1, 2, 3, 4];
    let y = vec![-1, -2, -3];
    let all = pair_coordinates(10, &x, &y, 6);
    assert_eq!(all.len(), 3);
    assert_eq!(all[0], Particle { position: Position(1, -1), mass: 6 });
    assert_eq!(all[2], Particle { position: Position(3, -3), mass: 6 });
    let two = pair_coordinates(2, &x, &y, 1);
    assert_eq!(two, vec![
        Particle { position: Position(1, -1), mass: 1 },
        Particle { position: Position(2, -2), mass: 1 },
    ]);
    assert_eq!(pair_coordinates(0, &x, &y, 1).len(), 0);
    assert_eq!(pair_coordinates(5, &Vec::new(), &y, 1).len(), 0);
}

#[test]
fn distribution_draws_every_x_before_any_y() {
    let particles = get_distribution(4, Counting(Counter::new(0)), 9);
    assert_eq!(particles, vec![
        Particle { position: Position(0, 4), mass: 9 },
        Particle { position: Position(1, 5), mass: 9 },
        Particle { position: Position(2, 6), mass: 9 },
        Particle { position: Position(3, 7), mass: 9 },
    ]);
    assert_eq!(get_distribution(0, Counting(Counter::new(0)), 9).len(), 0);
}

#[test]
fn distribution_draws_from_the_range_given() {
    let particles = get_distribution(200, Uniform::new(-50, 50), 3);
    assert_eq!(particles.len(), 200);
    for p in &particles {
        assert!(-50 <= p.position.0 && p.position.0 < 50);
        assert!(-50 <= p.position.1 && p.position.1 < 50);
        assert_eq!(p.mass, 3);
    }
    let fixed = get_distribution(3, Uniform::new_inclusive(7, 7), 1);
    assert_eq!(fixed, vec![Particle { position: Position(7, 7), mass: 1 }; 3]);
}
