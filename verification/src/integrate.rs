//! The integrator: applies the accumulated force, gravity and
//! damping to the velocity, advances the position, and resolves the
//! domain boundary per axis.

use vstd::prelude::*;
use crate::fixed::{fix_mul, fix_mul_s};
use crate::vec3::{V3, Vec3, v3_add, v3_mag2, v3_scale, v3_sub, v3_zero};
use crate::grid::floor_div;
use crate::particle::{CfgG, Particle, ParticleG, cfg_wf};
use crate::force::Params;

verus! {

/// Velocity after the interaction force (scaled by the force scale,
/// the interaction radius and the time step) and gravity are applied.
pub open spec fn vel_after_force(cfg: CfgG, p: ParticleG, force: V3, dt: int) -> V3 {
    let dv = V3 {
        x: fix_mul_s(fix_mul_s(fix_mul_s(force.x, cfg.force_scale), cfg.radius), dt),
        y: fix_mul_s(fix_mul_s(fix_mul_s(force.y, cfg.force_scale), cfg.radius), dt),
        z: fix_mul_s(fix_mul_s(fix_mul_s(force.z, cfg.force_scale), cfg.radius), dt),
    };
    v3_add(v3_add(p.velocity, dv), v3_scale(cfg.gravity, dt))
}

/// Velocity after damping. The loss factor `friction * dt` is formed
/// first, as one fixed-point product, and then applied to each
/// component: a factor above one thus yields a per-axis loss of at
/// least the component itself. The loss is subtracted unless it
/// would exceed the velocity, in which case the particle stops
/// (friction cannot reverse direction in one step).
pub open spec fn vel_damped(cfg: CfgG, v: V3, dt: int) -> V3 {
    let k = fix_mul_s(cfg.friction, dt);
    let dv = V3 { x: fix_mul_s(v.x, k), y: fix_mul_s(v.y, k), z: fix_mul_s(v.z, k) };
    if v3_mag2(dv) > v3_mag2(v) {
        v3_zero()
    } else {
        v3_sub(v, dv)
    }
}

/// Boundary resolution for one axis. Periodic: a position beyond a
/// half-width is translated by one domain width. Solid: it is clamped
/// to the wall and the velocity component that points further outward
/// is zeroed.
pub open spec fn wall_axis_s(pos: int, vel: int, world: int, walls: bool) -> (int, int) {
    let half = world / 2;
    if pos > half {
        if walls {
            (half, if vel < 0 {
                vel
            } else {
                0
            })
        } else {
            (pos - world, vel)
        }
    } else if pos < -half {
        if walls {
            (-half, if vel > 0 {
                vel
            } else {
                0
            })
        } else {
            (pos + world, vel)
        }
    } else {
        (pos, vel)
    }
}

/// The next-tick particle: force, gravity, damping, drift, boundary.
pub open spec fn integrate_s(cfg: CfgG, p: ParticleG, force: V3, dt: int) -> ParticleG {
    let v1 = vel_after_force(cfg, p, force, dt);
    let v2 = vel_damped(cfg, v1, dt);
    let pos1 = v3_add(p.position, v3_scale(v2, dt));
    let rx = wall_axis_s(pos1.x, v2.x, cfg.world_size, cfg.walls);
    let ry = wall_axis_s(pos1.y, v2.y, cfg.world_size, cfg.walls);
    let rz = wall_axis_s(pos1.z, v2.z, cfg.world_size, cfg.walls);
    ParticleG {
        position: V3 { x: rx.0, y: ry.0, z: rz.0 },
        velocity: V3 { x: rx.1, y: ry.1, z: rz.1 },
        id: p.id,
    }
}

/// Boundary resolution for one axis, as `wall_axis_s` states it.
fn wall_axis(pos: i64, vel: i64, world: i64, walls: bool) -> (r: (i64, i64))
    requires
        0 < world <= crate::particle::MAX_WORLD,
    ensures
        r.0 as int == wall_axis_s(pos as int, vel as int, world as int, walls).0,
        r.1 as int == wall_axis_s(pos as int, vel as int, world as int, walls).1,
{
    let half: i64 = floor_div(world, 2);
    if pos > half {
        if walls {
            (half, if vel < 0 {
                vel
            } else {
                0
            })
        } else {
            (pos - world, vel)
        }
    } else if pos < -half {
        if walls {
            (-half, if vel > 0 {
                vel
            } else {
                0
            })
        } else {
            (pos + world, vel)
        }
    } else {
        (pos, vel)
    }
}

/// Advance one particle by one time step under the given net force,
/// exactly as the model `integrate_s` states it.
pub fn integrate(params: &Params, p: Particle, force: Vec3, dt: i64) -> (r: Particle)
    requires
        cfg_wf(params@),
    ensures
        r@ == integrate_s(params@, p@, force@, dt as int),
{
    let dv = Vec3 {
        x: fix_mul(fix_mul(fix_mul(force.x, params.interaction_force), params.particle_effect_radius), dt),
        y: fix_mul(fix_mul(fix_mul(force.y, params.interaction_force), params.particle_effect_radius), dt),
        z: fix_mul(fix_mul(fix_mul(force.z, params.interaction_force), params.particle_effect_radius), dt),
    };
    let v1: Vec3 = p.velocity.vadd(dv).vadd(params.acceleration.vscale(dt));
    let k: i64 = fix_mul(params.coefficient, dt);
    let loss = Vec3 {
        x: fix_mul(v1.x, k),
        y: fix_mul(v1.y, k),
        z: fix_mul(v1.z, k),
    };
    let v2: Vec3 = if loss.vmag2() > v1.vmag2() {
        Vec3::zero()
    } else {
        v1.vsub(loss)
    };
    let pos1: Vec3 = p.position.vadd(v2.vscale(dt));
    let rx: (i64, i64) = wall_axis(pos1.x, v2.x, params.world_size, params.walls);
    let ry: (i64, i64) = wall_axis(pos1.y, v2.y, params.world_size, params.walls);
    let rz: (i64, i64) = wall_axis(pos1.z, v2.z, params.world_size, params.walls);
    Particle {
        position: Vec3 { x: rx.0, y: ry.0, z: rz.0 },
        velocity: Vec3 { x: rx.1, y: ry.1, z: rz.1 },
        id: p.id,
    }
}

} // verus!
