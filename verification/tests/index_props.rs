//! Tests for the spatial index: the bucket slices partition the
//! particle indices, and every slot agrees with its bucket.

use particle_3d::fixed::SCALE;
use particle_3d::grid::{bucket_for_cell, cell_coord, hash_cell};
use particle_3d::index::build_index;
use particle_3d::particle::Particle;
use particle_3d::rng::generate_particles;
use particle_3d::vec3::Vec3;

fn at(x: i64, y: i64, z: i64) -> Particle {
    Particle { position: Vec3::new(x, y, z), velocity: Vec3::zero(), id: 0 }
}

fn check_partition(particles: &Vec<Particle>, radius: i64) {
    let n = particles.len();
    let idx = build_index(particles, radius);
    assert_eq!(idx.starts.len(), n + 1);
    assert_eq!(idx.indices.len(), n);
    assert_eq!(idx.starts[0], 0);
    assert_eq!(idx.starts[n], n);
    // each particle index appears exactly once over all bucket slices
    let mut seen = vec![false; n];
    for b in 0..n {
        assert!(idx.starts[b] <= idx.starts[b + 1]);
        for k in idx.starts[b]..idx.starts[b + 1] {
            let j = idx.indices[k];
            assert!(j < n);
            assert!(!seen[j]);
            seen[j] = true;
            // the slot's bucket is the hash of the particle's cell
            let cell = cell_coord(particles[j].position, radius);
            assert_eq!(bucket_for_cell(cell, n), b);
        }
    }
    assert!(seen.iter().all(|&s| s));
}

#[test]
fn index_partitions_handmade_particles() {
    let particles = vec![
        at(0, 0, 0),
        at(SCALE, 0, 0),
        at(-3 * SCALE, 2 * SCALE, 0),
        at(4 * SCALE, -4 * SCALE, 4 * SCALE),
        at(-4 * SCALE, -4 * SCALE, -4 * SCALE),
        at(1, 2, 3),
        at(0, 0, 0),
    ];
    check_partition(&particles, 2 * SCALE);
}

#[test]
fn index_partitions_random_particles() {
    let particles = generate_particles(10 * SCALE, 200, 5);
    check_partition(&particles, 2 * SCALE);
    let few = generate_particles(6 * SCALE, 3, 2);
    check_partition(&few, 3 * SCALE);
}

#[test]
fn index_of_empty_population() {
    let particles: Vec<Particle> = Vec::new();
    let idx = build_index(&particles, SCALE);
    assert_eq!(idx.starts, vec![0]);
    assert!(idx.indices.is_empty());
}

#[test]
fn hash_is_deterministic_and_diffuses() {
    let c1 = Vec3::new(0, 0, 0);
    let c2 = Vec3::new(1, 0, 0);
    let c3 = Vec3::new(0, 1, 0);
    assert_eq!(hash_cell(c1), hash_cell(c1));
    assert_ne!(hash_cell(c1), hash_cell(c2));
    assert_ne!(hash_cell(c2), hash_cell(c3));
    assert!(bucket_for_cell(c1, 7) < 7);
}

#[test]
fn generated_particles_are_well_formed() {
    let ps = generate_particles(10 * SCALE, 100, 5);
    assert_eq!(ps.len(), 100);
    for p in &ps {
        assert!(p.id < 5);
        assert_eq!(p.velocity, Vec3::zero());
        assert!(-5 * SCALE <= p.position.x && p.position.x <= 5 * SCALE);
        assert!(-5 * SCALE <= p.position.y && p.position.y <= 5 * SCALE);
        assert!(-5 * SCALE <= p.position.z && p.position.z <= 5 * SCALE);
    }
    // the types are random: with 100 draws over 5 types, more than
    // one type appears (this would fail if the generator ignored its
    // randomness source and returned a constant)
    let first = ps[0].id;
    assert!(ps.iter().any(|p| p.id != first));
    // positions spread out rather than collapsing to one point
    let firstpos = ps[0].position;
    assert!(ps.iter().any(|p| p.position != firstpos));
}
