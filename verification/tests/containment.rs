//! Invariant tests over whole random runs: positions stay inside the
//! domain, and degenerate geometry does not break a tick.

use particle_3d::fixed::SCALE;
use particle_3d::particle::Particle;
use particle_3d::rng::generate_particles;
use particle_3d::vec3::Vec3;
use particle_3d::Particles;

fn random_system(walls: bool, count: usize) -> Particles {
    Particles {
        world_size: 10 * SCALE,
        active_particles: generate_particles(10 * SCALE, count, 3),
        past_particles: Vec::new(),
        id_count: 3,
        attraction_matrix: vec![
            500_000, SCALE, -500_000,
            SCALE, -SCALE, 0,
            0, 250_000, -250_000,
        ],
        colors: vec![Vec3::new(SCALE, 0, 0), Vec3::new(0, SCALE, 0), Vec3::new(0, 0, SCALE)],
        coefficient: 970_000,
        interaction_force: SCALE,
        min_pull_ratio: 300_000,
        particle_effect_radius: 2 * SCALE,
        walls,
        acceleration: Vec3::new(0, -50_000, 0),
    }
}

fn assert_contained(ps: &Vec<Particle>, world_size: i64) {
    let half = world_size / 2;
    for p in ps {
        assert!(-half <= p.position.x && p.position.x <= half);
        assert!(-half <= p.position.y && p.position.y <= half);
        assert!(-half <= p.position.z && p.position.z <= half);
    }
}

#[test]
fn periodic_run_stays_inside_domain() {
    let mut sim = random_system(false, 150);
    assert!(sim.valid());
    let dt = SCALE / 60;
    for _ in 0..10 {
        let snapshot = sim.update(dt);
        assert_contained(&snapshot, sim.world_size);
    }
}

#[test]
fn solid_run_stays_inside_domain() {
    let mut sim = random_system(true, 150);
    assert!(sim.valid());
    let dt = SCALE / 60;
    for _ in 0..10 {
        let snapshot = sim.update(dt);
        assert_contained(&snapshot, sim.world_size);
    }
}

#[test]
fn coincident_particles_do_not_interact() {
    // two particles at exactly the same point: the zero-distance
    // guard excludes the pair, so neither feels a force
    let mut sim = random_system(false, 0);
    sim.acceleration = Vec3::zero();
    sim.coefficient = 0;
    sim.active_particles = vec![
        Particle { position: Vec3::new(SCALE, SCALE, SCALE), velocity: Vec3::zero(), id: 0 },
        Particle { position: Vec3::new(SCALE, SCALE, SCALE), velocity: Vec3::zero(), id: 1 },
    ];
    assert!(sim.valid());
    let snapshot = sim.update(SCALE);
    assert_eq!(snapshot[0].position, Vec3::new(SCALE, SCALE, SCALE));
    assert_eq!(snapshot[1].position, Vec3::new(SCALE, SCALE, SCALE));
    assert_eq!(snapshot[0].velocity, Vec3::zero());
    assert_eq!(snapshot[1].velocity, Vec3::zero());
}

#[test]
fn population_changes_between_ticks() {
    let mut sim = random_system(false, 50);
    assert!(sim.valid());
    let dt = SCALE / 60;
    sim.update(dt);
    // truncate, then append newly generated particles, as the
    // surrounding application does between ticks
    sim.active_particles.truncate(20);
    let more = generate_particles(sim.world_size, 40, sim.id_count);
    sim.active_particles.extend(more);
    assert_eq!(sim.active_particles.len(), 60);
    assert!(sim.valid());
    let snapshot = sim.update(dt);
    assert_eq!(snapshot.len(), 60);
}
