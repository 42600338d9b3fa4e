//! Scenario tests for whole ticks: boundary handling, lone-particle
//! behaviour, force symmetry, and degenerate populations.

use particle_3d::fixed::SCALE;
use particle_3d::force::{net_force, Params};
use particle_3d::index::build_index;
use particle_3d::particle::Particle;
use particle_3d::vec3::Vec3;
use particle_3d::Particles;

fn lone_system(position: Vec3, velocity: Vec3) -> Particles {
    Particles {
        world_size: 10 * SCALE,
        active_particles: vec![Particle { position, velocity, id: 0 }],
        past_particles: Vec::new(),
        id_count: 1,
        attraction_matrix: vec![SCALE],
        colors: vec![Vec3::new(SCALE, 0, 0)],
        coefficient: 0,
        interaction_force: SCALE,
        min_pull_ratio: 300_000,
        particle_effect_radius: 2 * SCALE,
        walls: false,
        acceleration: Vec3::zero(),
    }
}

#[test]
fn periodic_wrap_scenario() {
    // world_size = 10, radius = 2, one particle at (4.9, 0, 0) with
    // velocity (1, 0, 0), periodic mode, dt = 1: the position
    // advances to 5.9 and wraps to -4.1.
    let mut sim = lone_system(
        Vec3::new(4_900_000, 0, 0),
        Vec3::new(SCALE, 0, 0),
    );
    assert!(sim.valid());
    let snapshot = sim.update(SCALE);
    assert_eq!(snapshot.len(), 1);
    assert_eq!(snapshot[0].position, Vec3::new(-4_100_000, 0, 0));
    assert_eq!(snapshot[0].velocity, Vec3::new(SCALE, 0, 0));
}

#[test]
fn solid_wall_clamps_and_stops() {
    let mut sim = lone_system(
        Vec3::new(4_900_000, 0, 0),
        Vec3::new(SCALE, 0, 0),
    );
    sim.walls = true;
    assert!(sim.valid());
    let snapshot = sim.update(SCALE);
    // clamped to the wall at world_size / 2 = 5; the outward velocity
    // component is zeroed
    assert_eq!(snapshot[0].position, Vec3::new(5_000_000, 0, 0));
    assert_eq!(snapshot[0].velocity, Vec3::new(0, 0, 0));
}

#[test]
fn lone_particle_feels_no_force_and_decays() {
    // N = 1, zero gravity: zero net force; under friction 0.5 and
    // dt = 1 the velocity halves and the position drifts by the
    // damped velocity.
    let mut sim = lone_system(Vec3::new(0, 0, 0), Vec3::new(SCALE, 0, 0));
    sim.coefficient = 500_000;
    assert!(sim.valid());
    let snapshot = sim.update(SCALE);
    assert_eq!(snapshot[0].velocity, Vec3::new(500_000, 0, 0));
    assert_eq!(snapshot[0].position, Vec3::new(500_000, 0, 0));
    // a second tick decays further and keeps drifting
    let snapshot2 = sim.update(SCALE);
    assert_eq!(snapshot2[0].velocity, Vec3::new(250_000, 0, 0));
    assert_eq!(snapshot2[0].position, Vec3::new(750_000, 0, 0));
}

#[test]
fn overdamped_tick_stops_particle() {
    // friction * dt = 0.100001 * 10 > 1: damping must stop the
    // particle outright, even where the velocity is so small that a
    // rounded-down loss could otherwise miss it; the position only
    // undergoes boundary resolution.
    let mut sim = lone_system(Vec3::new(SCALE, 0, 0), Vec3::new(3, 0, 0));
    sim.coefficient = 100_001;
    assert!(sim.valid());
    let snapshot = sim.update(10 * SCALE);
    assert_eq!(snapshot[0].velocity, Vec3::zero());
    assert_eq!(snapshot[0].position, Vec3::new(SCALE, 0, 0));
}

#[test]
fn strong_friction_stops_any_velocity() {
    // friction 2.0 over a whole step stops every component
    let mut sim = lone_system(
        Vec3::new(0, 0, 0),
        Vec3::new(SCALE, -2 * SCALE, 5),
    );
    sim.coefficient = 2 * SCALE;
    assert!(sim.valid());
    let snapshot = sim.update(SCALE);
    assert_eq!(snapshot[0].velocity, Vec3::zero());
    assert_eq!(snapshot[0].position, Vec3::zero());
}

#[test]
fn gravity_accelerates() {
    let mut sim = lone_system(Vec3::new(0, 0, 0), Vec3::new(0, 0, 0));
    sim.acceleration = Vec3::new(0, -100_000, 0);
    assert!(sim.valid());
    let snapshot = sim.update(SCALE);
    assert_eq!(snapshot[0].velocity, Vec3::new(0, -100_000, 0));
    assert_eq!(snapshot[0].position, Vec3::new(0, -100_000, 0));
}

#[test]
fn empty_population_ticks_as_no_op() {
    let mut sim = lone_system(Vec3::zero(), Vec3::zero());
    sim.active_particles = Vec::new();
    assert!(sim.valid());
    let snapshot = sim.update(SCALE);
    assert!(snapshot.is_empty());
    assert!(sim.active_particles.is_empty());
}

#[test]
fn undersized_world_is_rejected() {
    let mut sim = lone_system(Vec3::zero(), Vec3::zero());
    sim.world_size = 3 * SCALE;  // smaller than 2 * radius = 4
    assert!(!sim.valid());
    sim.world_size = 4 * SCALE;
    assert!(sim.valid());
}

#[test]
fn mismatched_matrix_is_rejected() {
    let mut sim = lone_system(Vec3::zero(), Vec3::zero());
    sim.attraction_matrix = vec![SCALE, SCALE];  // not K * K entries
    assert!(!sim.valid());
}

#[test]
fn out_of_range_type_is_rejected() {
    let mut sim = lone_system(Vec3::zero(), Vec3::zero());
    sim.active_particles[0].id = 7;
    assert!(!sim.valid());
}

fn two_particle_params() -> Params {
    Params {
        world_size: 10 * SCALE,
        particle_effect_radius: 2 * SCALE,
        min_pull_ratio: 300_000,
        coefficient: 0,
        interaction_force: SCALE,
        acceleration: Vec3::zero(),
        walls: false,
        id_count: 1,
        attraction_matrix: vec![SCALE],
    }
}

#[test]
fn interaction_forces_are_equal_and_opposite() {
    // Two particles of the same type inside one grid cell, a
    // symmetric (single-entry) attraction matrix: Newton's third law
    // holds for the interaction term.
    let params = two_particle_params();
    let particles = vec![
        Particle { position: Vec3::new(0, 0, 0), velocity: Vec3::zero(), id: 0 },
        Particle { position: Vec3::new(SCALE, 0, 0), velocity: Vec3::zero(), id: 0 },
    ];
    let idx = build_index(&particles, params.particle_effect_radius);
    let f0 = net_force(&params, &particles, &idx, 0);
    let f1 = net_force(&params, &particles, &idx, 1);
    assert_ne!(f0, Vec3::zero());
    assert_eq!(f0.x, -f1.x);
    assert_eq!(f0.y, -f1.y);
    assert_eq!(f0.z, -f1.z);
}

#[test]
fn close_particles_repel() {
    // distance 0.2 = 0.1 * radius, r_norm = 0.1 < beta: the pair
    // repels even though the attraction coefficient is positive.
    let params = two_particle_params();
    let particles = vec![
        Particle { position: Vec3::new(0, 0, 0), velocity: Vec3::zero(), id: 0 },
        Particle { position: Vec3::new(200_000, 0, 0), velocity: Vec3::zero(), id: 0 },
    ];
    let idx = build_index(&particles, params.particle_effect_radius);
    let f0 = net_force(&params, &particles, &idx, 0);
    let f1 = net_force(&params, &particles, &idx, 1);
    assert!(f0.x < 0);
    assert!(f1.x > 0);
}

#[test]
fn buffers_swap_and_parameters_survive() {
    let mut sim = lone_system(Vec3::new(SCALE, 0, 0), Vec3::zero());
    assert!(sim.valid());
    let before = sim.active_particles.clone();
    sim.update(SCALE);
    assert_eq!(sim.past_particles.len(), before.len());
    assert_eq!(sim.past_particles[0].position, before[0].position);
    assert_eq!(sim.world_size, 10 * SCALE);
    assert_eq!(sim.id_count, 1);
    assert!(sim.valid());
}
