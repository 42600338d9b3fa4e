//! A verified core for a 3D "particle life" simulation.
//!
//! N point particles of K discrete types move inside a cubic domain.
//! Each tick builds a spatial hash index over grid cells, accumulates an
//! attraction/repulsion force for every particle from its neighbours
//! (including across periodic domain images), integrates velocity and
//! position, and resolves the domain boundary.
//!
//! All quantities are fixed-point numbers: an `i64` counts units of
//! `1 / SCALE`, so the value `1.0` is stored as `SCALE`. Arithmetic
//! saturates at the `i64` range and divisions truncate toward zero.

pub mod fixed;
pub mod force;
pub mod grid;
pub mod index;
pub mod integrate;
pub mod kernel;
pub mod laws;
pub mod particle;
pub mod rng;
pub mod vec3;

use vstd::prelude::*;
use crate::particle::{CfgG, Particle, ParticleG, cfg_wf, ids_ok, views_of, MAX_WORLD};
use crate::vec3::Vec3;
use crate::force::{Params, net_force, net_force_s};
use crate::integrate::{integrate, integrate_s};
use crate::index::build_index;

verus! {

/// The state of particle `i` after one tick of length `dt` from the
/// snapshot `parts` under the parameters `cfg`.
pub open spec fn tick_particle_s(cfg: CfgG, parts: Seq<ParticleG>, i: int, dt: int) -> ParticleG {
    integrate_s(cfg, parts[i], net_force_s(cfg, parts, i), dt)
}

/// The particle system: the double-buffered particle arrays and the
/// simulation parameters, which the surrounding application may
/// change between ticks.
pub struct Particles {
    /// Edge length of the cubic simulation domain.
    pub world_size: i64,
    /// The authoritative snapshot between ticks.
    pub active_particles: Vec<Particle>,
    /// The previous snapshot, read during a tick.
    pub past_particles: Vec<Particle>,
    /// Number K of particle types.
    pub id_count: u32,
    /// Row-major K x K table of attraction coefficients.
    pub attraction_matrix: Vec<i64>,
    /// Display colour per particle type, for the renderer snapshot.
    pub colors: Vec<Vec3>,
    /// Friction coefficient.
    pub coefficient: i64,
    /// Global force scale.
    pub interaction_force: i64,
    /// Repulsion-to-attraction transition point, in `(0, 1)` scaled.
    pub min_pull_ratio: i64,
    /// Interaction radius.
    pub particle_effect_radius: i64,
    /// `true` for solid walls, `false` for a periodic domain.
    pub walls: bool,
    /// Gravitational acceleration.
    pub acceleration: Vec3,
}

impl Particles {
    /// The simulation parameters currently configured.
    pub open spec fn cfg(self) -> CfgG {
        CfgG {
            world_size: self.world_size as int,
            radius: self.particle_effect_radius as int,
            beta: self.min_pull_ratio as int,
            friction: self.coefficient as int,
            force_scale: self.interaction_force as int,
            gravity: self.acceleration@,
            walls: self.walls,
            id_count: self.id_count as int,
            attraction: self.attraction_matrix@.map_values(|v: i64| v as int),
        }
    }

    /// Parameters and particles are fit to tick: the configuration is
    /// well-formed and every particle's type is one of the K
    /// configured types.
    pub open spec fn wf(self) -> bool {
        &&& cfg_wf(self.cfg())
        &&& ids_ok(views_of(self.active_particles@), self.id_count as int)
    }

    /// The parameters as one value, for the per-tick functions.
    fn params(&self) -> (p: Params)
        ensures
            p@ == self.cfg(),
    {
        let mut attraction: Vec<i64> = Vec::new();
        let mut i: usize = 0;
        let klen: usize = self.attraction_matrix.len();
        while i < klen
            invariant
                attraction@.len() == i as int,
                i <= klen,
                klen == self.attraction_matrix@.len(),
                forall|t: int|
                    0 <= t < i as int ==> #[trigger] attraction@[t] == self.attraction_matrix@[t],
            decreases klen - i,
        {
            attraction.push(self.attraction_matrix[i]);
            i = i + 1;
        }
        proof {
            assert(attraction@ =~= self.attraction_matrix@);
        }
        Params {
            world_size: self.world_size,
            particle_effect_radius: self.particle_effect_radius,
            min_pull_ratio: self.min_pull_ratio,
            coefficient: self.coefficient,
            interaction_force: self.interaction_force,
            acceleration: self.acceleration,
            walls: self.walls,
            id_count: self.id_count,
            attraction_matrix: attraction,
        }
    }

    /// Validate the configuration and the particle types: exactly the
    /// tick's precondition. A violation (for instance a domain
    /// smaller than twice the interaction radius) must be rejected
    /// before a tick is started.
    pub fn valid(&self) -> (ok: bool)
        ensures
            ok == self.wf(),
    {
        let cfg_ok: bool = 0 < self.particle_effect_radius
            && (self.particle_effect_radius as i128) * 2 <= self.world_size as i128
            && self.world_size <= MAX_WORLD && 0 < self.min_pull_ratio
            && self.min_pull_ratio < crate::fixed::SCALE && 0 <= self.coefficient
            && 0 <= self.interaction_force;
        let k64: u64 = self.id_count as u64;
        proof {
            assert((k64 as int) * (k64 as int) <= u64::MAX as int) by (nonlinear_arith)
                requires
                    k64 <= u32::MAX as u64,
            ;
        }
        let matrix_ok: bool = (self.attraction_matrix.len() as u64) == k64 * k64;
        proof {
            assert((k64 * k64) as int == (self.id_count as int) * (self.id_count as int))
                by (nonlinear_arith)
                requires
                    k64 == self.id_count as u64,
                    self.id_count <= u32::MAX,
            ;
            assert((self.cfg().attraction.len() == self.cfg().id_count * self.cfg().id_count)
                == matrix_ok);
        }
        if !(cfg_ok && matrix_ok) {
            return false;
        }
        let n: usize = self.active_particles.len();
        let mut i: usize = 0;
        while i < n
            invariant
                i <= n,
                n == self.active_particles@.len(),
                forall|t: int|
                    0 <= t < i as int ==> 0 <= (#[trigger] views_of(self.active_particles@)[t]).id
                        < self.id_count as int,
            decreases n - i,
        {
            if self.active_particles[i].id >= self.id_count {
                proof {
                    assert(views_of(self.active_particles@)[i as int]
                        == self.active_particles@[i as int]@);
                }
                return false;
            }
            proof {
                assert(views_of(self.active_particles@)[i as int]
                    == self.active_particles@[i as int]@);
            }
            i = i + 1;
        }
        true
    }

    /// One tick: build the spatial index from the current snapshot,
    /// swap the double buffers, and write, for every particle, its
    /// next state computed from the previous snapshot; return a copy
    /// of the new snapshot. Particle order is kept, and the
    /// parameters are not touched.
    pub fn update(&mut self, ts: i64) -> (snapshot: Vec<Particle>)
        requires
            old(self).wf(),
        ensures
            final(self).past_particles@ == old(self).active_particles@,
            final(self).active_particles@.len() == old(self).active_particles@.len(),
            forall|i: int|
                0 <= i < final(self).active_particles@.len()
                    ==> (#[trigger] final(self).active_particles@[i])@ == tick_particle_s(
                    old(self).cfg(),
                    views_of(old(self).active_particles@),
                    i,
                    ts as int,
                ),
            snapshot@ == final(self).active_particles@,
            final(self).cfg() == old(self).cfg(),
            final(self).colors@ == old(self).colors@,
            final(self).wf(),
    {
        let params: Params = self.params();
        let idx = build_index(&self.active_particles, self.particle_effect_radius);
        std::mem::swap(&mut self.active_particles, &mut self.past_particles);
        let n: usize = self.past_particles.len();
        let mut next: Vec<Particle> = Vec::new();
        let mut i: usize = 0;
        while i < n
            invariant
                next@.len() == i as int,
                i <= n,
                n == self.past_particles@.len(),
                cfg_wf(params@),
                params@ == old(self).cfg(),
                self.past_particles@ == old(self).active_particles@,
                idx.wf(views_of(self.past_particles@), params@.radius),
                ids_ok(views_of(self.past_particles@), params@.id_count),
                forall|t: int|
                    0 <= t < i as int ==> (#[trigger] next@[t])@ == tick_particle_s(
                        params@,
                        views_of(self.past_particles@),
                        t,
                        ts as int,
                    ),
            decreases n - i,
        {
            let f: Vec3 = net_force(&params, &self.past_particles, &idx, i);
            let q: Particle = integrate(&params, self.past_particles[i], f, ts);
            proof {
                assert(views_of(self.past_particles@)[i as int] == self.past_particles@[i as int]@);
            }
            next.push(q);
            i = i + 1;
        }
        let mut snapshot: Vec<Particle> = Vec::new();
        let mut t: usize = 0;
        while t < n
            invariant
                snapshot@.len() == t as int,
                t <= n,
                n == next@.len(),
                forall|u: int| 0 <= u < t as int ==> #[trigger] snapshot@[u] == next@[u],
            decreases n - t,
        {
            snapshot.push(next[t]);
            t = t + 1;
        }
        proof {
            assert(snapshot@ =~= next@);
        }
        self.active_particles = next;
        proof {
            assert forall|i2: int|
                0 <= i2 < views_of(self.active_particles@).len() implies 0 <= (#[trigger] views_of(
                self.active_particles@,
            )[i2]).id < self.id_count as int by {
                assert(views_of(self.active_particles@)[i2] == self.active_particles@[i2]@);
                assert(self.active_particles@[i2]@ == tick_particle_s(
                    old(self).cfg(),
                    views_of(old(self).active_particles@),
                    i2,
                    ts as int,
                ));
                assert(views_of(old(self).active_particles@)[i2]
                    == old(self).active_particles@[i2]@);
            }
        }
        snapshot
    }
}

} // verus!
