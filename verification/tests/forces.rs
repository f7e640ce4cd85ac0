use cgmath::Array;
use cgmath::EuclideanSpace;
use cgmath::InnerSpace;
use cgmath::Point3;
use cgmath::Vector3;
use cgmath::Zero;

use moldyn::forces::accumulate_rows;
use moldyn::forces::apply_pair_force;
use moldyn::forces::compute_forces;
use moldyn::types::Particle;

const BOX_SIZE: f64 = 1000.0;
const CUTOFF: f64 = 2.5;

type Vector = Vector3<f64>;
type Point = Point3<f64>;

fn lj_energy(dr: f64) -> f64 {
    4.0 * (dr.powi(-12) - dr.powi(-6))
}

fn lj_force(dr: f64) -> f64 {
    48.0 * (-dr.powi(-13) + 0.5 * dr.powi(-7))
}

fn minimum_image(v: Vector, box_size: f64) -> Vector {
    v.map(|x| (x / box_size).round())
}

fn lennard_jones(first: &Point, second: &Point) -> Option<(Vector, f64)> {
    let mut dr = first - second;
    dr -= BOX_SIZE * minimum_image(dr, BOX_SIZE);
    let r2: f64 = dr.magnitude2();
    if r2 < CUTOFF * CUTOFF {
        let dr_magnitude = dr.magnitude();
        Some((dr.normalize_to(lj_force(dr_magnitude)), lj_energy(dr_magnitude)))
    } else {
        None
    }
}

fn at_rest(position: Point) -> Particle<Point, Vector> {
    Particle {
        old_position: position,
        position,
        velocity: Vector::zero(),
        force: Vector::zero(),
    }
}

fn close(a: Vector, b: Vector, tolerance: f64) -> bool {
    (a.x - b.x).abs() <= tolerance && (a.y - b.y).abs() <= tolerance && (a.z - b.z).abs() <= tolerance
}

#[test]
fn force() {
    let mut particles = vec![
        Particle {
            old_position: Point::origin(),
            position: Point::origin(),
            velocity: Vector::zero(),
            force: Vector::zero(),
        },
        Particle {
            old_position: Point::from_value(1.0),
            position: Point::from_value(1.0),
            velocity: Vector::zero(),
            force: Vector::zero(),
        },
    ];

    compute_forces(&mut particles, 1, Vector::zero(), 0.0, &lennard_jones);
    let dr = particles[0].position - particles[1].position;

    // Newton's third law
    assert_eq!(particles[0].force, -particles[1].force);

    // Check force value
    assert!(close(
        particles[0].force,
        -lj_force(dr.magnitude()) * dr.normalize(),
        f64::EPSILON
    ));
}

#[test]
fn two_particles_at_distance_root_three() {
    let mut particles = vec![at_rest(Point::origin()), at_rest(Point::new(1.0, 1.0, 1.0))];
    let potential = compute_forces(&mut particles, 1, Vector::zero(), 0.0, &lennard_jones);

    let r = 3.0f64.sqrt();
    let magnitude = 48.0 * (-r.powi(-13) + 0.5 * r.powi(-7));
    assert!((particles[0].force.magnitude() - magnitude.abs()).abs() < 1e-12);
    assert_eq!(particles[0].force, -particles[1].force);
    // directed along the separation
    let along = Vector::new(1.0, 1.0, 1.0).normalize();
    assert!(close(particles[0].force, magnitude * along, 1e-12));
    assert!((potential - 4.0 * (r.powi(-12) - r.powi(-6))).abs() < 1e-12);
    // the attraction at this distance pulls each towards the other
    assert!(particles[0].force.x > 0.0 && particles[1].force.x < 0.0);
}

#[test]
fn third_law_holds_for_every_worker_count() {
    for workers in 1..6 {
        let mut particles = vec![at_rest(Point::new(0.2, 0.1, 0.0)), at_rest(Point::new(1.0, 1.3, 0.9))];
        compute_forces(&mut particles, workers, Vector::zero(), 0.0, &lennard_jones);
        assert_eq!(particles[0].force, -particles[1].force);
        assert!(particles[0].force != Vector::zero());
    }
}

#[test]
fn a_pair_beyond_the_cutoff_adds_nothing() {
    let mut particles = vec![at_rest(Point::origin()), at_rest(Point::new(3.0, 0.0, 0.0))];
    particles[0].force = Vector::new(1.0, 2.0, 3.0);
    let potential = compute_forces(&mut particles, 1, Vector::zero(), 0.0, &lennard_jones);
    assert_eq!(potential, 0.0);
    assert_eq!(particles[0].force, Vector::zero());
    assert_eq!(particles[1].force, Vector::zero());
}

#[test]
fn a_pair_at_the_cutoff_is_excluded() {
    let mut particles = vec![at_rest(Point::origin()), at_rest(Point::new(CUTOFF, 0.0, 0.0))];
    let potential = compute_forces(&mut particles, 2, Vector::zero(), 0.0, &lennard_jones);
    assert_eq!(potential, 0.0);
    assert_eq!(particles[0].force, Vector::zero());
    assert_eq!(particles[1].force, Vector::zero());

    let mut particles = vec![at_rest(Point::origin()), at_rest(Point::new(2.4999, 0.0, 0.0))];
    let potential = compute_forces(&mut particles, 2, Vector::zero(), 0.0, &lennard_jones);
    assert!(potential != 0.0);
    assert!(particles[0].force != Vector::zero());
}

#[test]
fn an_excluded_pair_leaves_the_other_pairs_alone() {
    let near = vec![at_rest(Point::origin()), at_rest(Point::new(1.1, 0.0, 0.0))];
    let mut alone = near.clone();
    let alone_potential = compute_forces(&mut alone, 1, Vector::zero(), 0.0, &lennard_jones);

    let mut with_far = near.clone();
    with_far.push(at_rest(Point::new(0.0, 50.0, 0.0)));
    let potential = compute_forces(&mut with_far, 1, Vector::zero(), 0.0, &lennard_jones);

    assert_eq!(potential, alone_potential);
    assert_eq!(with_far[0].force, alone[0].force);
    assert_eq!(with_far[1].force, alone[1].force);
    assert_eq!(with_far[2].force, Vector::zero());
}

#[test]
fn interaction_across_the_periodic_boundary() {
    let mut particles = vec![at_rest(Point::new(0.5, 0.0, 0.0)), at_rest(Point::new(BOX_SIZE - 0.5, 0.0, 0.0))];
    let potential = compute_forces(&mut particles, 1, Vector::zero(), 0.0, &lennard_jones);
    assert_eq!(potential, lj_energy(1.0));
    assert_eq!(potential, 0.0);
    // at distance 1 the pair repels: the first particle is pushed inwards, to larger x
    assert!((particles[0].force.x - 24.0).abs() < 1e-9);
    assert_eq!(particles[0].force, -particles[1].force);
}

#[test]
fn positions_and_velocities_are_kept() {
    let mut particles = vec![at_rest(Point::origin()), at_rest(Point::new(1.0, 0.5, 0.0))];
    particles[0].velocity = Vector::new(1.0, 2.0, 3.0);
    particles[1].old_position = Point::new(9.0, 9.0, 9.0);
    let before = particles.clone();
    compute_forces(&mut particles, 3, Vector::zero(), 0.0, &lennard_jones);
    for (p, q) in particles.iter().zip(before.iter()) {
        assert_eq!(p.position, q.position);
        assert_eq!(p.old_position, q.old_position);
        assert_eq!(p.velocity, q.velocity);
    }
}

fn cluster() -> Vec<Particle<Point, Vector>> {
    let mut particles = Vec::new();
    for k in 0..27 {
        let (x, y, z) = (k % 3, (k / 3) % 3, k / 9);
        let jitter = 0.01 * (k as f64);
        particles.push(at_rest(Point::new(
            1.1 * x as f64 + jitter,
            1.2 * y as f64 - jitter,
            1.3 * z as f64 + 0.5 * jitter,
        )));
    }
    particles
}

#[test]
fn worker_count_changes_the_forces_by_rounding_only() {
    let mut reference = cluster();
    let reference_potential = compute_forces(&mut reference, 1, Vector::zero(), 0.0, &lennard_jones);
    for workers in [2usize, 3, 4, 7, 27, 64] {
        let mut particles = cluster();
        let potential = compute_forces(&mut particles, workers, Vector::zero(), 0.0, &lennard_jones);
        assert!((potential - reference_potential).abs() <= 1e-9 * reference_potential.abs());
        for (p, q) in particles.iter().zip(reference.iter()) {
            let scale = q.force.magnitude().max(1.0);
            assert!(close(p.force, q.force, 1e-9 * scale));
        }
    }
}

#[test]
fn forces_of_a_cluster_sum_to_zero() {
    let mut particles = cluster();
    compute_forces(&mut particles, 4, Vector::zero(), 0.0, &lennard_jones);
    let mut total = Vector::zero();
    let mut largest: f64 = 0.0;
    for p in &particles {
        total += p.force;
        largest = largest.max(p.force.magnitude());
    }
    assert!(largest > 0.0);
    assert!(total.magnitude() <= 1e-9 * largest);
}

#[test]
fn integer_forces_with_two_workers() {
    // three particles on a line; neighbours exchange the distance between them
    let law = |a: &i64, b: &i64| if (a - b).abs() <= 2 { Some((a - b, 1i64)) } else { None };
    let mut particles: Vec<Particle<i64, i64>> = [0i64, 2, 5]
        .iter()
        .map(|&x| Particle { old_position: x, position: x, velocity: 0, force: 99 })
        .collect();
    let potential = compute_forces(&mut particles, 2, 0, 0, &law);
    assert_eq!(potential, 1);
    let forces: Vec<i64> = particles.iter().map(|p| p.force).collect();
    assert_eq!(forces, [2, -2, 0]);
}

#[test]
fn one_worker_owns_every_second_row() {
    let law = |a: &i64, b: &i64| Some((10 * a + b, 1u32));
    let particles: Vec<Particle<i64, i64>> = (0..4i64)
        .map(|x| Particle { old_position: x, position: x, velocity: 0, force: 0 })
        .collect();

    // worker 1 of 2 owns the rows 1 and 3: the pairs (1,0), (3,0), (3,1), (3,2)
    let mut force = vec![0i64; 4];
    let energy = accumulate_rows(&mut force, &particles, 1, 2, 0u32, &law);
    assert_eq!(energy, 4);
    assert_eq!(force, [10 + 30, -10 + 31, 32, -30 - 31 - 32]);

    // worker 0 of 2 owns the rows 0 and 2: the pairs (2,0), (2,1)
    let mut force = vec![0i64; 4];
    let energy = accumulate_rows(&mut force, &particles, 0, 2, 0u32, &law);
    assert_eq!(energy, 2);
    assert_eq!(force, [20, 21, -41, 0]);
}

#[test]
fn pair_force_is_taken_from_one_and_given_to_the_other() {
    let mut force = vec![1, 2, 3, 4];
    apply_pair_force(&mut force, 2, 0, 10);
    assert_eq!(force, [11, 2, -7, 4]);
}

#[test]
fn integer_forces_do_not_depend_on_the_workers() {
    let law = |a: &i64, b: &i64| {
        if (a - b) % 3 == 0 {
            None
        } else {
            Some((a * a - b, a + b))
        }
    };
    let start: Vec<Particle<i64, i64>> = (0..17i64)
        .map(|x| Particle { old_position: 0, position: 5 * x - 7, velocity: 0, force: 0 })
        .collect();
    let mut reference = start.clone();
    let reference_potential = compute_forces(&mut reference, 1, 0, 0, &law);
    let reference_forces: Vec<i64> = reference.iter().map(|p| p.force).collect();
    assert!(reference_forces.iter().any(|f| *f != 0));
    assert_eq!(reference_forces.iter().sum::<i64>(), 0);
    for workers in [2usize, 3, 5, 16, 17, 18, 1000] {
        let mut particles = start.clone();
        let potential = compute_forces(&mut particles, workers, 0, 0, &law);
        let forces: Vec<i64> = particles.iter().map(|p| p.force).collect();
        assert_eq!(potential, reference_potential);
        assert_eq!(forces, reference_forces);
    }
}

#[test]
fn a_single_particle_feels_no_force() {
    let mut particles = vec![at_rest(Point::new(1.0, 2.0, 3.0))];
    particles[0].force = Vector::new(9.0, 9.0, 9.0);
    let potential = compute_forces(&mut particles, 4, Vector::zero(), 0.0, &lennard_jones);
    assert_eq!(potential, 0.0);
    assert_eq!(particles[0].force, Vector::zero());
}

#[test]
fn minimum_image_in_a_box_of_ten() {
    // in a box of size 10 the displacement (9, 0, 0) counts as (-1, 0, 0)
    let image = minimum_image(Vector::new(9.0, 0.0, 0.0), 10.0);
    assert_eq!(image, Vector::new(1.0, 0.0, 0.0));
    let law = |first: &Point, second: &Point| {
        let mut dr = first - second;
        dr -= 10.0 * minimum_image(dr, 10.0);
        if dr.magnitude2() < CUTOFF * CUTOFF {
            Some((dr.normalize_to(lj_force(dr.magnitude())), lj_energy(dr.magnitude())))
        } else {
            None
        }
    };
    let mut particles = vec![at_rest(Point::new(0.0, 0.0, 0.0)), at_rest(Point::new(9.0, 0.0, 0.0))];
    let potential = compute_forces(&mut particles, 1, Vector::zero(), 0.0, &law);
    // the pair interacts at distance 1, not 9, and repels across the boundary
    assert_eq!(potential, lj_energy(1.0));
    assert!((particles[0].force.x - 24.0).abs() < 1e-9);
    assert!((particles[1].force.x + 24.0).abs() < 1e-9);
}

#[test]
fn no_particles_no_energy() {
    let mut particles: Vec<Particle<Point, Vector>> = Vec::new();
    let potential = compute_forces(&mut particles, 3, Vector::zero(), 0.0, &lennard_jones);
    assert_eq!(potential, 0.0);
    assert!(particles.is_empty());
}
