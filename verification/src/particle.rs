//! Particles and the simulation parameters, with their mathematical
//! models.

use vstd::prelude::*;
use crate::fixed::SCALE;
use crate::vec3::{V3, Vec3};

verus! {

/// The mathematical value of a particle.
pub ghost struct ParticleG {
    pub position: V3,
    pub velocity: V3,
    pub id: int,
}

/// A single particle: where it is, how it moves, and which of the K
/// particle types it belongs to.
#[derive(Clone, Copy, PartialEq, Eq, Structural, Debug)]
pub struct Particle {
    pub position: Vec3,
    pub velocity: Vec3,
    pub id: u32,
}

impl View for Particle {
    type V = ParticleG;

    open spec fn view(&self) -> ParticleG {
        ParticleG { position: self.position@, velocity: self.velocity@, id: self.id as int }
    }
}

/// The views of a sequence of particles.
pub open spec fn views_of(ps: Seq<Particle>) -> Seq<ParticleG> {
    ps.map_values(|p: Particle| p@)
}

/// The mathematical value of the simulation parameters read during a
/// tick.
pub ghost struct CfgG {
    /// Edge length of the cubic domain.
    pub world_size: int,
    /// Interaction radius: particles farther apart exert no force.
    pub radius: int,
    /// Repulsion-to-attraction transition point, in `(0, 1)` scaled.
    pub beta: int,
    /// Friction coefficient (non-negative).
    pub friction: int,
    /// Global force scale (non-negative).
    pub force_scale: int,
    /// Gravitational acceleration.
    pub gravity: V3,
    /// `true` for solid walls, `false` for a periodic domain.
    pub walls: bool,
    /// Number K of particle types.
    pub id_count: int,
    /// Row-major K x K attraction table: entry `a * K + b` is the
    /// influence of type `b` on a particle of type `a`.
    pub attraction: Seq<int>,
}

/// Largest admissible domain edge (2^61 fixed-point units): keeps a
/// position plus a whole domain width exactly representable.
pub const MAX_WORLD: i64 = 0x2000000000000000;

/// Well-formed simulation parameters.
pub open spec fn cfg_wf(c: CfgG) -> bool {
    &&& 0 < c.radius
    &&& 2 * c.radius <= c.world_size <= MAX_WORLD
    &&& 0 < c.beta < SCALE
    &&& 0 <= c.friction
    &&& 0 <= c.force_scale
    &&& 0 <= c.id_count
    &&& c.attraction.len() == c.id_count * c.id_count
}

/// Every particle's type is one of the K configured types.
pub open spec fn ids_ok(parts: Seq<ParticleG>, id_count: int) -> bool {
    forall|i: int| 0 <= i < parts.len() ==> 0 <= (#[trigger] parts[i]).id < id_count
}

/// All position components lie inside the domain `[-w/2, w/2]`
/// (with the half-width rounded toward zero).
pub open spec fn in_domain(p: V3, world_size: int) -> bool {
    let half = world_size / 2;
    &&& -half <= p.x <= half
    &&& -half <= p.y <= half
    &&& -half <= p.z <= half
}

} // verus!
