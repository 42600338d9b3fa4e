//! Creation of randomly placed particles.

use vstd::prelude::*;
use crate::grid::floor_div;
use crate::particle::{Particle, in_domain};
use crate::vec3::{Vec3, v3_zero};

verus! {

/// Relies on `rand::Rng::gen_range` over the inclusive range
/// `lo ..= hi`: the sampled value lies within the range (and the
/// range is non-empty, so the call does not panic).
#[verifier::external_body]
fn random_in_range(lo: i64, hi: i64) -> (r: i64)
    requires
        lo <= hi,
    ensures
        lo <= r <= hi,
{
    rand::Rng::gen_range(&mut rand::thread_rng(), lo..=hi)
}

/// Relies on `rand::Rng::gen_range` over the half-open range
/// `0 .. n`: the sampled value lies below the bound (and the range is
/// non-empty, so the call does not panic).
#[verifier::external_body]
fn random_below(n: u32) -> (r: u32)
    requires
        n > 0,
    ensures
        r < n,
{
    rand::Rng::gen_range(&mut rand::thread_rng(), 0..n)
}

/// Create `count` particles placed at random inside the cubic domain
/// of the given edge length, at rest, each of a random type among the
/// `id_count` configured types.
pub fn generate_particles(world_size: i64, count: usize, id_count: u32) -> (ps: Vec<Particle>)
    requires
        0 < world_size,
        0 < id_count,
    ensures
        ps@.len() == count as int,
        forall|i: int|
            0 <= i < count as int ==> {
                let p = (#[trigger] ps@[i])@;
                &&& p.velocity == v3_zero()
                &&& 0 <= p.id < id_count as int
                &&& in_domain(p.position, world_size as int)
            },
{
    let half: i64 = floor_div(world_size, 2);
    let mut ps: Vec<Particle> = Vec::new();
    let mut i: usize = 0;
    while i < count
        invariant
            ps@.len() == i as int,
            i <= count,
            half as int == world_size as int / 2,
            half >= 0,
            0 < id_count,
            forall|t: int|
                0 <= t < i as int ==> {
                    let p = (#[trigger] ps@[t])@;
                    &&& p.velocity == v3_zero()
                    &&& 0 <= p.id < id_count as int
                    &&& in_domain(p.position, world_size as int)
                },
        decreases count - i,
    {
        let position = Vec3 {
            x: random_in_range(-half, half),
            y: random_in_range(-half, half),
            z: random_in_range(-half, half),
        };
        let p = Particle { position, velocity: Vec3::zero(), id: random_below(id_count) };
        ps.push(p);
        i = i + 1;
    }
    ps
}

} // verus!
