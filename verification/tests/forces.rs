use barnes_hut::{BHTree, Cell, Particle, Position, THETA_DEN, THETA_NUM};

fn cluster() -> Vec<Particle> {
    let mut particles = Vec::new();
    let mut k: i32 = 0;
    while k < 40 {
        // a fixed scatter over the cell, no two at one point
        let x = (k * 7919 + 13) % 2001 - 1000;
        let y = (k * 104729 + 7) % 1999 - 999;
        particles.push(Particle { position: Position(x, y), mass: 1000 + (k as u64) * 37 });
        k += 1;
    }
    particles
}

fn tree_of(particles: &[Particle]) -> BHTree {
    let mut bht = BHTree::init(Cell { position: Position(0, 0), size: 2048 });
    for p in particles {
        assert!(bht.try_insert(*p));
    }
    bht
}

fn brute_force(particles: &[Particle], target: &Particle) -> u128 {
    particles.iter().map(|p| p.calculate_force(target)).sum()
}

#[test]
fn empty_tree_exerts_no_force() {
    let bht = BHTree::init(Cell { position: Position(0, 0), size: 1024 });
    let target = Particle { position: Position(5, 5), mass: 100 };
    assert_eq!(bht.calculate_force(&target), 0);
    assert_eq!(bht.calculate_force_with(&target, 0, 1), 0);
    assert_eq!(bht.calculate_force_with(&target, 1000, 1), 0);
    let at_origin = Particle { position: Position(0, 0), mass: 0 };
    assert_eq!(bht.calculate_force(&at_origin), 0);
}

#[test]
fn leaf_exerts_the_force_of_its_particle() {
    let p = Particle { position: Position(0, 0), mass: 6 };
    let bht = tree_of(&[p]);
    let target = Particle { position: Position(3, 4), mass: 10 };
    assert_eq!(bht.calculate_force(&target), 12);
    assert_eq!(bht.calculate_force(&p), 0);
}

#[test]
fn distant_cluster_acts_as_one_particle() {
    let a = Particle { position: Position(-6, 0), mass: 30 };
    let b = Particle { position: Position(6, 0), mass: 30 };
    let mut bht = BHTree::init(Cell { position: Position(0, 0), size: 16 });
    bht.insert_particle(a);
    bht.insert_particle(b);
    assert_eq!(bht.center_of_mass(), Position(0, 0));
    // 16 / 40 < 1 / 2: one particle of mass 60 at distance 40
    let far = Particle { position: Position(0, 40), mass: 100 };
    assert_eq!(bht.calculate_force(&far), 60 * 100 / 40);
    // each by itself is at distance 40, the root of 1636 rounded down
    assert_eq!(a.calculate_force(&far) + b.calculate_force(&far), 2 * (30 * 100 / 40));
    // under a stricter parameter the two are taken one by one
    let farther = Particle { position: Position(0, 80), mass: 100 };
    assert_eq!(bht.calculate_force(&farther), 60 * 100 / 80);
    assert_eq!(bht.calculate_force_with(&farther, 1, 4), 60 * 100 / 80);
    // 16 / 80 is not less than 1 / 5
    assert_eq!(bht.calculate_force_with(&farther, 1, 5), 2 * (30 * 100 / 80));
    assert_eq!(bht.calculate_force_with(&farther, 0, 1), 2 * (30 * 100 / 80));
}

#[test]
fn near_cluster_is_taken_apart() {
    let a = Particle { position: Position(-6, 0), mass: 30 };
    let b = Particle { position: Position(6, 0), mass: 30 };
    let mut bht = BHTree::init(Cell { position: Position(0, 0), size: 16 });
    bht.insert_particle(a);
    bht.insert_particle(b);
    // 16 / 32 is not less than 1 / 2
    let near = Particle { position: Position(0, 32), mass: 100 };
    // each is at distance 32, the root of 1060 rounded down
    assert_eq!(bht.calculate_force(&near), 2 * (30 * 100 / 32));
    // one more lattice unit and the cluster is far enough
    let farther = Particle { position: Position(0, 33), mass: 100 };
    assert_eq!(bht.calculate_force(&farther), 60 * 100 / 33);
}

#[test]
fn theta_of_zero_is_brute_force() {
    let particles = cluster();
    let bht = tree_of(&particles);
    for target in &particles {
        assert_eq!(bht.calculate_force_with(target, 0, 1), brute_force(&particles, target));
        assert_eq!(bht.calculate_force_with(target, 0, THETA_DEN), brute_force(&particles, target));
    }
    let elsewhere = Particle { position: Position(5000, -7000), mass: 12345 };
    assert_eq!(bht.calculate_force_with(&elsewhere, 0, 1), brute_force(&particles, &elsewhere));
}

#[test]
fn default_theta_is_one_half() {
    assert_eq!((THETA_NUM, THETA_DEN), (1, 2));
    let particles = cluster();
    let bht = tree_of(&particles);
    for target in &particles {
        assert_eq!(bht.calculate_force(target), bht.calculate_force_with(target, 1, 2));
    }
}

#[test]
fn approximation_stays_close_to_brute_force() {
    let particles = cluster();
    let bht = tree_of(&particles);
    for target in &particles {
        let approximate = bht.calculate_force(target) as f64;
        let exact = brute_force(&particles, target) as f64;
        assert!(f64::abs(approximate - exact) / exact <= 0.1);
    }
}

#[test]
fn force_never_exceeds_the_product_of_the_masses() {
    let particles = cluster();
    let bht = tree_of(&particles);
    let target = Particle { position: Position(1, 1), mass: u64::MAX / 2 };
    let bound = (bht.mass() as u128) * (target.mass as u128);
    assert!(bht.calculate_force(&target) <= bound);
    assert!(bht.calculate_force_with(&target, 0, 1) <= bound);
}
