//! Properties of the simulation, proved of the same models that the
//! executable functions are verified against.

use vstd::prelude::*;
use crate::fixed::{
    SCALE, abs_i, fix_div_s, fix_mul_s, is_isqrt, isqrt_s, lemma_fix_mul_between,
    lemma_isqrt_exists, lemma_tdiv_neg, lemma_tdiv_shrink, sat_add_s, sat_sub_s, tdiv,
};
use crate::vec3::{V3, v3_add, v3_mag2, v3_neg, v3_scale, v3_sub, v3_zero};
use crate::particle::{CfgG, MAX_WORLD, ParticleG, cfg_wf, in_domain};
use crate::kernel::{kernel_s, lemma_kernel_bound};
use crate::force::{
    fold_bucket, fold_cells, fold_offsets, net_force_s, pair_force_s,
};
use crate::integrate::{integrate_s, vel_after_force, vel_damped, wall_axis_s};
use crate::index::{bucket_seq, lemma_upto_elems};

verus! {

/// Periodic wrapping of one axis lands in `[-w/2, w/2]`, provided the
/// incoming position is within one domain width of the domain.
proof fn lemma_wrap_axis(pos: int, vel: int, world: int)
    requires
        0 < world,
        -(world / 2) - world <= pos <= world / 2 + world,
    ensures
        -(world / 2) <= wall_axis_s(pos, vel, world, false).0 <= world / 2,
        wall_axis_s(pos, vel, world, false).1 == vel,
{
    vstd::arithmetic::div_mod::lemma_fundamental_div_mod(world, 2);
}

/// Invariant under a periodic boundary: a particle that starts inside
/// the domain ends the tick inside `[-w/2, w/2]` on every axis, as
/// long as no axis drifts farther than one domain width in the step.
/// (A particle fast enough to cross more than a whole domain width in
/// one tick is wrapped only once and can land outside.)
pub proof fn lemma_periodic_containment(cfg: CfgG, p: ParticleG, force: V3, dt: int)
    requires
        cfg_wf(cfg),
        !cfg.walls,
        in_domain(p.position, cfg.world_size),
        ({
            let v2 = vel_damped(cfg, vel_after_force(cfg, p, force, dt), dt);
            &&& abs_i(fix_mul_s(v2.x, dt)) <= cfg.world_size
            &&& abs_i(fix_mul_s(v2.y, dt)) <= cfg.world_size
            &&& abs_i(fix_mul_s(v2.z, dt)) <= cfg.world_size
        }),
    ensures
        in_domain(integrate_s(cfg, p, force, dt).position, cfg.world_size),
{
    let v2 = vel_damped(cfg, vel_after_force(cfg, p, force, dt), dt);
    let drift = v3_scale(v2, dt);
    let pos1 = v3_add(p.position, drift);
    assert(pos1.x == p.position.x + drift.x);
    assert(pos1.y == p.position.y + drift.y);
    assert(pos1.z == p.position.z + drift.z);
    lemma_wrap_axis(pos1.x, v2.x, cfg.world_size);
    lemma_wrap_axis(pos1.y, v2.y, cfg.world_size);
    lemma_wrap_axis(pos1.z, v2.z, cfg.world_size);
}

/// The domain invariant, stated of a whole tick: after the tick,
/// under a periodic boundary, particle `i`'s position lies in
/// `[-w/2, w/2]` on every axis, as long as no axis drifts farther
/// than one domain width during the step.
pub proof fn lemma_tick_periodic_containment(
    cfg: CfgG,
    parts: Seq<ParticleG>,
    i: int,
    dt: int,
)
    requires
        cfg_wf(cfg),
        !cfg.walls,
        0 <= i < parts.len(),
        in_domain(parts[i].position, cfg.world_size),
        ({
            let v2 = vel_damped(
                cfg,
                vel_after_force(cfg, parts[i], net_force_s(cfg, parts, i), dt),
                dt,
            );
            &&& abs_i(fix_mul_s(v2.x, dt)) <= cfg.world_size
            &&& abs_i(fix_mul_s(v2.y, dt)) <= cfg.world_size
            &&& abs_i(fix_mul_s(v2.z, dt)) <= cfg.world_size
        }),
    ensures
        in_domain(crate::tick_particle_s(cfg, parts, i, dt).position, cfg.world_size),
{
    lemma_periodic_containment(cfg, parts[i], net_force_s(cfg, parts, i), dt);
}

/// Under solid walls every tick ends inside `[-w/2, w/2]` on every
/// axis, unconditionally: positions beyond a wall are clamped to it.
pub proof fn lemma_solid_containment(cfg: CfgG, p: ParticleG, force: V3, dt: int)
    requires
        cfg_wf(cfg),
        cfg.walls,
    ensures
        in_domain(integrate_s(cfg, p, force, dt).position, cfg.world_size),
{
    vstd::arithmetic::div_mod::lemma_fundamental_div_mod(cfg.world_size, 2);
}

/// The quotient of `-u` by the distance, scaled by the kernel value,
/// is the exact negation of the quotient of `u` — no saturation can
/// occur when `|u|` is at most the distance and the kernel value at
/// most one.
proof fn lemma_unit_scale_neg(u: int, dist: int, f: int)
    requires
        0 < dist,
        abs_i(u) <= dist,
        abs_i(f) <= SCALE,
    ensures
        fix_mul_s(fix_div_s(-u, dist), f) == -fix_mul_s(fix_div_s(u, dist), f),
{
    assert(abs_i(u * SCALE) <= dist * (SCALE as int)) by (nonlinear_arith)
        requires
            abs_i(u) <= dist,
            SCALE == 1_000_000,
    ;
    lemma_tdiv_shrink(u * SCALE, dist, SCALE as int);
    lemma_tdiv_neg(u * SCALE, dist);
    assert((-u) * SCALE == -(u * SCALE)) by (nonlinear_arith);
    let unit = tdiv(u * SCALE, dist);
    assert(fix_div_s(u, dist) == unit);
    assert(fix_div_s(-u, dist) == -unit);
    assert(abs_i(unit * f) <= SCALE * (SCALE as int)) by (nonlinear_arith)
        requires
            abs_i(unit) <= SCALE,
            abs_i(f) <= SCALE,
    ;
    lemma_tdiv_shrink(unit * f, SCALE as int, SCALE as int);
    lemma_tdiv_neg(unit * f, SCALE as int);
    assert((-unit) * f == -(unit * f)) by (nonlinear_arith);
}

/// Newton's third law for the interaction term: under a symmetric
/// attraction entry pair of magnitude at most one, the force `q`
/// exerts on `p` through a domain image is exactly opposite to the
/// force `p` exerts on `q` through the opposite image. (Positions
/// inside the domain and an image offset of at most one domain width
/// per axis keep the arithmetic exact.)
pub proof fn lemma_pair_force_antisymmetric(cfg: CfgG, p: ParticleG, q: ParticleG, offset: V3)
    requires
        cfg_wf(cfg),
        0 <= p.id < cfg.id_count,
        0 <= q.id < cfg.id_count,
        cfg.attraction[p.id * cfg.id_count + q.id] == cfg.attraction[q.id * cfg.id_count + p.id],
        abs_i(cfg.attraction[p.id * cfg.id_count + q.id]) <= SCALE,
        in_domain(p.position, cfg.world_size),
        in_domain(q.position, cfg.world_size),
        abs_i(offset.x) <= cfg.world_size,
        abs_i(offset.y) <= cfg.world_size,
        abs_i(offset.z) <= cfg.world_size,
    ensures
        pair_force_s(cfg, p, q, offset) == v3_neg(pair_force_s(cfg, q, p, v3_neg(offset))),
{
    let rel = v3_sub(q.position, v3_add(p.position, offset));
    let rel2 = v3_sub(p.position, v3_add(q.position, v3_neg(offset)));
    vstd::arithmetic::div_mod::lemma_fundamental_div_mod(cfg.world_size, 2);
    assert(rel2.x == -rel.x && rel2.y == -rel.y && rel2.z == -rel.z);
    assert(rel2 == v3_neg(rel));
    let sqr = v3_mag2(rel);
    assert((-rel.x) * (-rel.x) == rel.x * rel.x) by (nonlinear_arith);
    assert((-rel.y) * (-rel.y) == rel.y * rel.y) by (nonlinear_arith);
    assert((-rel.z) * (-rel.z) == rel.z * rel.z) by (nonlinear_arith);
    assert(v3_mag2(v3_neg(rel)) == sqr);
    if 0 < sqr && sqr < cfg.radius * cfg.radius {
        lemma_isqrt_exists(sqr);
        let dist = isqrt_s(sqr);
        assert(dist >= 1) by (nonlinear_arith)
            requires
                is_isqrt(sqr, dist),
                sqr >= 1,
        ;
        assert(abs_i(rel.x) <= dist && abs_i(rel.y) <= dist && abs_i(rel.z) <= dist)
            by (nonlinear_arith)
            requires
                is_isqrt(sqr, dist),
                sqr == rel.x * rel.x + rel.y * rel.y + rel.z * rel.z,
        ;
        let r_norm = fix_div_s(dist, cfg.radius);
        assert(r_norm >= 0) by {
            assert(abs_i(dist * SCALE) <= cfg.radius * (SCALE as int)) by (nonlinear_arith)
                requires
                    is_isqrt(sqr, dist),
                    sqr < cfg.radius * cfg.radius,
                    0 < cfg.radius,
                    SCALE == 1_000_000,
            ;
            lemma_tdiv_shrink(dist * SCALE, cfg.radius, SCALE as int);
        }
        let a = cfg.attraction[p.id * cfg.id_count + q.id];
        let f = kernel_s(r_norm, a, cfg.beta);
        lemma_kernel_bound(r_norm, a, cfg.beta);
        lemma_unit_scale_neg(rel.x, dist, f);
        lemma_unit_scale_neg(rel.y, dist, f);
        lemma_unit_scale_neg(rel.z, dist, f);
    } else {
    }
}

/// With a single particle, every bucket sequence folds to the
/// accumulator unchanged: the only candidate is the particle itself,
/// excluded by index.
proof fn lemma_fold_bucket_lone(
    cfg: CfgG,
    parts: Seq<ParticleG>,
    offset: V3,
    s: Seq<int>,
    i: int,
    acc: V3,
)
    requires
        forall|t: int| 0 <= t < s.len() ==> #[trigger] s[t] == 0,
    ensures
        fold_bucket(cfg, parts, 0, offset, s, i, acc) == acc,
    decreases s.len() - i,
{
    if i < 0 || i >= s.len() {
    } else {
        assert(s[i] == 0);
        lemma_fold_bucket_lone(cfg, parts, offset, s, i + 1, acc);
    }
}

proof fn lemma_fold_cells_lone(
    cfg: CfgG,
    parts: Seq<ParticleG>,
    offset: V3,
    base_cell: V3,
    c: int,
    acc: V3,
)
    requires
        cfg_wf(cfg),
        parts.len() == 1,
    ensures
        fold_cells(cfg, parts, 0, offset, base_cell, c, acc) == acc,
    decreases 27 - c,
{
    if c < 0 || c >= 27 {
    } else {
        let d = crate::force::cell_offset(c);
        let cell = V3 {
            x: sat_add_s(base_cell.x, d.x),
            y: sat_add_s(base_cell.y, d.y),
            z: sat_add_s(base_cell.z, d.z),
        };
        let b = crate::grid::bucket_for_cell_s(cell, 1);
        lemma_upto_elems(parts, cfg.radius, b, 1);
        let s = bucket_seq(parts, cfg.radius, b);
        assert(forall|t: int| 0 <= t < s.len() ==> #[trigger] s[t] == 0);
        lemma_fold_bucket_lone(cfg, parts, offset, s, 0, acc);
        lemma_fold_cells_lone(cfg, parts, offset, base_cell, c + 1, acc);
    }
}

proof fn lemma_fold_offsets_lone(cfg: CfgG, parts: Seq<ParticleG>, o: int, acc: V3)
    requires
        cfg_wf(cfg),
        parts.len() == 1,
    ensures
        fold_offsets(cfg, parts, 0, o, acc) == acc,
    decreases 27 - o,
{
    if o < 0 || o >= 27 {
    } else {
        let off = crate::force::image_offset(o, cfg.world_size);
        let base = crate::grid::cell_s(v3_add(parts[0].position, off), cfg.radius);
        lemma_fold_cells_lone(cfg, parts, off, base, 0, acc);
        lemma_fold_offsets_lone(cfg, parts, o + 1, acc);
    }
}

/// A lone particle feels no interaction force: with N = 1 the only
/// candidate the index can yield is the particle itself, which the
/// neighbour enumeration excludes by index.
pub proof fn lemma_lone_particle_no_force(cfg: CfgG, parts: Seq<ParticleG>)
    requires
        cfg_wf(cfg),
        parts.len() == 1,
    ensures
        net_force_s(cfg, parts, 0) == v3_zero(),
{
    if cfg.walls {
        lemma_fold_cells_lone(
            cfg,
            parts,
            v3_zero(),
            crate::grid::cell_s(parts[0].position, cfg.radius),
            0,
            v3_zero(),
        );
    } else {
        lemma_fold_offsets_lone(cfg, parts, 0, v3_zero());
    }
}

/// The damping's loss factor `friction * dt` is nonnegative, and at
/// most `friction * dt / SCALE` itself.
proof fn lemma_loss_factor_nonneg(cfg: CfgG, dt: int)
    requires
        cfg_wf(cfg),
        0 <= dt,
    ensures
        0 <= fix_mul_s(cfg.friction, dt),
{
    assert(0 <= cfg.friction * dt) by (nonlinear_arith)
        requires
            cfg.friction >= 0,
            dt >= 0,
    ;
    assert(abs_i(cfg.friction * dt) <= SCALE * (cfg.friction * dt)) by (nonlinear_arith)
        requires
            0 <= cfg.friction * dt,
            SCALE == 1_000_000,
    ;
    lemma_tdiv_shrink(cfg.friction * dt, SCALE as int, cfg.friction * dt);
}

/// When the loss factor reaches one, damping is a full stop: the
/// per-axis loss is at least the velocity component itself, so
/// either the magnitude test zeroes the velocity or the subtraction
/// cancels it exactly. Friction cannot reverse direction in one step.
pub proof fn lemma_full_stop_damped(cfg: CfgG, v: V3, dt: int)
    requires
        cfg_wf(cfg),
        0 <= dt,
        fix_mul_s(cfg.friction, dt) >= SCALE,
        i64::MIN <= v.x <= i64::MAX,
        i64::MIN <= v.y <= i64::MAX,
        i64::MIN <= v.z <= i64::MAX,
    ensures
        vel_damped(cfg, v, dt) == v3_zero(),
{
    let k = fix_mul_s(cfg.friction, dt);
    let dv = V3 { x: fix_mul_s(v.x, k), y: fix_mul_s(v.y, k), z: fix_mul_s(v.z, k) };
    crate::fixed::lemma_fix_mul_dominates(v.x, k);
    crate::fixed::lemma_fix_mul_dominates(v.y, k);
    crate::fixed::lemma_fix_mul_dominates(v.z, k);
    assert(dv.x * dv.x >= v.x * v.x) by (nonlinear_arith)
        requires
            v.x >= 0 ==> dv.x >= v.x,
            v.x <= 0 ==> dv.x <= v.x,
    ;
    assert(dv.y * dv.y >= v.y * v.y) by (nonlinear_arith)
        requires
            v.y >= 0 ==> dv.y >= v.y,
            v.y <= 0 ==> dv.y <= v.y,
    ;
    assert(dv.z * dv.z >= v.z * v.z) by (nonlinear_arith)
        requires
            v.z >= 0 ==> dv.z >= v.z,
            v.z <= 0 ==> dv.z <= v.z,
    ;
    if v3_mag2(dv) > v3_mag2(v) {
    } else {
        assert(dv.x * dv.x == v.x * v.x);
        assert(dv.y * dv.y == v.y * v.y);
        assert(dv.z * dv.z == v.z * v.z);
        assert(dv.x == v.x) by (nonlinear_arith)
            requires
                dv.x * dv.x == v.x * v.x,
                v.x >= 0 ==> dv.x >= v.x,
                v.x <= 0 ==> dv.x <= v.x,
        ;
        assert(dv.y == v.y) by (nonlinear_arith)
            requires
                dv.y * dv.y == v.y * v.y,
                v.y >= 0 ==> dv.y >= v.y,
                v.y <= 0 ==> dv.y <= v.y,
        ;
        assert(dv.z == v.z) by (nonlinear_arith)
            requires
                dv.z * dv.z == v.z * v.z,
                v.z >= 0 ==> dv.z >= v.z,
                v.z <= 0 ==> dv.z <= v.z,
        ;
        assert(vel_damped(cfg, v, dt) == v3_zero());
    }
}

/// Damping only moves each velocity component toward zero, never
/// past it, whatever the friction coefficient and the time step:
/// below a loss factor of one each loss rounds down, at or above it
/// the particle stops.
pub proof fn lemma_velocity_decay(cfg: CfgG, v: V3, dt: int)
    requires
        cfg_wf(cfg),
        0 <= dt,
        i64::MIN <= v.x <= i64::MAX,
        i64::MIN <= v.y <= i64::MAX,
        i64::MIN <= v.z <= i64::MAX,
    ensures
        v.x >= 0 ==> 0 <= vel_damped(cfg, v, dt).x <= v.x,
        v.x <= 0 ==> v.x <= vel_damped(cfg, v, dt).x <= 0,
        v.y >= 0 ==> 0 <= vel_damped(cfg, v, dt).y <= v.y,
        v.y <= 0 ==> v.y <= vel_damped(cfg, v, dt).y <= 0,
        v.z >= 0 ==> 0 <= vel_damped(cfg, v, dt).z <= v.z,
        v.z <= 0 ==> v.z <= vel_damped(cfg, v, dt).z <= 0,
{
    let k = fix_mul_s(cfg.friction, dt);
    lemma_loss_factor_nonneg(cfg, dt);
    if k <= SCALE {
        lemma_fix_mul_between(v.x, k);
        lemma_fix_mul_between(v.y, k);
        lemma_fix_mul_between(v.z, k);
    } else {
        lemma_full_stop_damped(cfg, v, dt);
    }
}

/// A lone particle's tick: the net force is zero, and with zero
/// gravity each velocity component only decays toward zero — through
/// the damping and, at a solid wall, the outward-velocity clamp.
pub proof fn lemma_lone_particle_tick(cfg: CfgG, parts: Seq<ParticleG>, dt: int)
    requires
        cfg_wf(cfg),
        parts.len() == 1,
        cfg.gravity == v3_zero(),
        0 <= dt,
        i64::MIN <= parts[0].velocity.x <= i64::MAX,
        i64::MIN <= parts[0].velocity.y <= i64::MAX,
        i64::MIN <= parts[0].velocity.z <= i64::MAX,
    ensures
        net_force_s(cfg, parts, 0) == v3_zero(),
        ({
            let v = parts[0].velocity;
            let w = crate::tick_particle_s(cfg, parts, 0, dt).velocity;
            &&& v.x >= 0 ==> 0 <= w.x <= v.x
            &&& v.x <= 0 ==> v.x <= w.x <= 0
            &&& v.y >= 0 ==> 0 <= w.y <= v.y
            &&& v.y <= 0 ==> v.y <= w.y <= 0
            &&& v.z >= 0 ==> 0 <= w.z <= v.z
            &&& v.z <= 0 ==> v.z <= w.z <= 0
        }),
{
    lemma_lone_particle_no_force(cfg, parts);
    let p = parts[0];
    let v = p.velocity;
    let v1 = vel_after_force(cfg, p, v3_zero(), dt);
    crate::fixed::lemma_tdiv_bounds(0, SCALE as int, 1);
    assert(0 * cfg.force_scale == 0) by (nonlinear_arith);
    assert(0 * cfg.radius == 0) by (nonlinear_arith);
    assert(0 * dt == 0) by (nonlinear_arith);
    assert(fix_mul_s(0, cfg.force_scale) == 0);
    assert(fix_mul_s(0, cfg.radius) == 0);
    assert(fix_mul_s(0, dt) == 0);
    assert(v1.x == v.x && v1.y == v.y && v1.z == v.z);
    assert(v1 == v);
    lemma_velocity_decay(cfg, v1, dt);
}

/// Per component, two positions inside one grid cell are closer than
/// the cell edge.
proof fn lemma_same_cell_close(a: int, b: int, r: int)
    requires
        0 < r,
        a / r == b / r,
    ensures
        abs_i(a - b) < r,
{
    vstd::arithmetic::div_mod::lemma_fundamental_div_mod(a, r);
    vstd::arithmetic::div_mod::lemma_fundamental_div_mod(b, r);
    vstd::arithmetic::div_mod::lemma_mod_bound(a, r);
    vstd::arithmetic::div_mod::lemma_mod_bound(b, r);
}

/// The quotient of `u` by the distance, scaled by a kernel value of
/// magnitude at most one, has magnitude at most one.
proof fn lemma_unit_mul_bound(u: int, dist: int, f: int)
    requires
        0 < dist,
        abs_i(u) <= dist,
        abs_i(f) <= SCALE,
    ensures
        abs_i(fix_mul_s(fix_div_s(u, dist), f)) <= SCALE,
{
    assert(abs_i(u * SCALE) <= dist * (SCALE as int)) by (nonlinear_arith)
        requires
            abs_i(u) <= dist,
            SCALE == 1_000_000,
    ;
    lemma_tdiv_shrink(u * SCALE, dist, SCALE as int);
    assert(abs_i(fix_div_s(u, dist)) <= SCALE);
    assert(abs_i(fix_div_s(u, dist) * f) <= SCALE * (SCALE as int)) by (nonlinear_arith)
        requires
            abs_i(fix_div_s(u, dist)) <= SCALE,
            abs_i(f) <= SCALE,
    ;
    lemma_tdiv_shrink(fix_div_s(u, dist) * f, SCALE as int, SCALE as int);
}

/// The force one candidate exerts has magnitude at most one per
/// component, for an attraction coefficient of magnitude at most one.
proof fn lemma_pair_force_bound(cfg: CfgG, p: ParticleG, q: ParticleG, offset: V3)
    requires
        cfg_wf(cfg),
        0 <= p.id < cfg.id_count,
        0 <= q.id < cfg.id_count,
        abs_i(cfg.attraction[p.id * cfg.id_count + q.id]) <= SCALE,
    ensures
        abs_i(pair_force_s(cfg, p, q, offset).x) <= SCALE,
        abs_i(pair_force_s(cfg, p, q, offset).y) <= SCALE,
        abs_i(pair_force_s(cfg, p, q, offset).z) <= SCALE,
{
    let rel = v3_sub(q.position, v3_add(p.position, offset));
    let sqr = v3_mag2(rel);
    if 0 < sqr && sqr < cfg.radius * cfg.radius {
        lemma_isqrt_exists(sqr);
        let dist = isqrt_s(sqr);
        assert(dist >= 1) by (nonlinear_arith)
            requires
                is_isqrt(sqr, dist),
                sqr >= 1,
        ;
        assert(abs_i(rel.x) <= dist && abs_i(rel.y) <= dist && abs_i(rel.z) <= dist)
            by (nonlinear_arith)
            requires
                is_isqrt(sqr, dist),
                sqr == rel.x * rel.x + rel.y * rel.y + rel.z * rel.z,
        ;
        assert(dist <= cfg.radius) by (nonlinear_arith)
            requires
                is_isqrt(sqr, dist),
                sqr < cfg.radius * cfg.radius,
                dist >= 0,
                cfg.radius > 0,
        ;
        let r_norm = fix_div_s(dist, cfg.radius);
        assert(abs_i(dist * SCALE) <= cfg.radius * (SCALE as int)) by (nonlinear_arith)
            requires
                0 <= dist <= cfg.radius,
                SCALE == 1_000_000,
        ;
        lemma_tdiv_shrink(dist * SCALE, cfg.radius, SCALE as int);
        assert(0 <= r_norm);
        let a = cfg.attraction[p.id * cfg.id_count + q.id];
        let f = kernel_s(r_norm, a, cfg.beta);
        lemma_kernel_bound(r_norm, a, cfg.beta);
        lemma_unit_mul_bound(rel.x, dist, f);
        lemma_unit_mul_bound(rel.y, dist, f);
        lemma_unit_mul_bound(rel.z, dist, f);
    } else {
    }
}

/// With both particles in one bucket, that bucket's sequence is
/// exactly `[0, 1]`; any other bucket's is empty.
proof fn lemma_bucket_seq_two(parts: Seq<ParticleG>, radius: int, b: int)
    requires
        parts.len() == 2,
        crate::grid::bucket_of_s(parts[0].position, radius, 2) == crate::grid::bucket_of_s(
            parts[1].position,
            radius,
            2,
        ),
    ensures
        bucket_seq(parts, radius, b) == if crate::grid::bucket_of_s(parts[0].position, radius, 2)
            == b {
            seq![0int, 1int]
        } else {
            Seq::<int>::empty()
        },
{
    crate::index::lemma_upto_zero(parts, radius, b);
    crate::index::lemma_upto_step(parts, radius, b, 0);
    crate::index::lemma_upto_step(parts, radius, b, 1);
    if crate::grid::bucket_of_s(parts[0].position, radius, 2) == b {
        assert(Seq::<int>::empty().push(0).push(1) =~= seq![0int, 1int]);
    }
}

/// Folding the bucket holding exactly the two particles adds the one
/// cross pair force onto the accumulator; the particle itself is
/// skipped.
proof fn lemma_fold_bucket_pair(cfg: CfgG, parts: Seq<ParticleG>, pi: int, offset: V3, acc: V3)
    requires
        parts.len() == 2,
        0 <= pi <= 1,
    ensures
        fold_bucket(cfg, parts, pi, offset, seq![0int, 1int], 0, acc) == v3_add(
            acc,
            pair_force_s(cfg, parts[pi], parts[1 - pi], offset),
        ),
{
    let s = seq![0int, 1int];
    assert(s.len() == 2 && s[0] == 0 && s[1] == 1);
    if pi == 0 {
        let acc2 = v3_add(acc, pair_force_s(cfg, parts[0], parts[1], offset));
        assert(fold_bucket(cfg, parts, 0, offset, s, 2, acc2) == acc2);
        assert(fold_bucket(cfg, parts, 0, offset, s, 1, acc) == acc2);
        assert(fold_bucket(cfg, parts, 0, offset, s, 0, acc) == acc2);
    } else {
        let acc2 = v3_add(acc, pair_force_s(cfg, parts[1], parts[0], offset));
        assert(fold_bucket(cfg, parts, 1, offset, s, 2, acc2) == acc2);
        assert(fold_bucket(cfg, parts, 1, offset, s, 1, acc2) == acc2);
        assert(fold_bucket(cfg, parts, 1, offset, s, 0, acc) == acc2);
    }
}

proof fn lemma_fold_bucket_empty_acc(cfg: CfgG, parts: Seq<ParticleG>, pi: int, offset: V3, acc: V3)
    ensures
        fold_bucket(cfg, parts, pi, offset, Seq::<int>::empty(), 0, acc) == acc,
{
}

/// Sums of opposite vectors are opposite when no saturation occurs.
proof fn lemma_add_opposite(a: V3, b: V3)
    requires
        abs_i(a.x) + abs_i(b.x) <= i64::MAX,
        abs_i(a.y) + abs_i(b.y) <= i64::MAX,
        abs_i(a.z) + abs_i(b.z) <= i64::MAX,
    ensures
        v3_add(v3_neg(a), v3_neg(b)) == v3_neg(v3_add(a, b)),
        v3_add(a, b) == (V3 { x: a.x + b.x, y: a.y + b.y, z: a.z + b.z }),
{
}

/// Through a non-centre domain image, two particles closer than the
/// radius on every axis are out of range of each other: some axis of
/// the offset is a whole domain width.
proof fn lemma_image_pair_vanishes(cfg: CfgG, p: ParticleG, q: ParticleG, o: int)
    requires
        cfg_wf(cfg),
        0 <= o < 27,
        o != 13,
        in_domain(p.position, cfg.world_size),
        in_domain(q.position, cfg.world_size),
        abs_i(q.position.x - p.position.x) < cfg.radius,
        abs_i(q.position.y - p.position.y) < cfg.radius,
        abs_i(q.position.z - p.position.z) < cfg.radius,
    ensures
        pair_force_s(cfg, p, q, crate::force::image_offset(o, cfg.world_size)) == v3_zero(),
{
    let w = cfg.world_size;
    let r = cfg.radius;
    let off = crate::force::image_offset(o, w);
    let fx = o / 9 - 1;
    let fy = (o % 9) / 3 - 1;
    let fz = o % 3 - 1;
    crate::fixed::lemma_tdiv_bounds(o, 9, 3);
    vstd::arithmetic::div_mod::lemma_mod_bound(o, 9);
    crate::fixed::lemma_tdiv_bounds(o % 9, 3, 3);
    vstd::arithmetic::div_mod::lemma_mod_bound(o, 3);
    assert(-1 <= fx <= 1 && -1 <= fy <= 1 && -1 <= fz <= 1);
    if fx == 0 && fy == 0 && fz == 0 {
        vstd::arithmetic::div_mod::lemma_fundamental_div_mod(o, 9);
        vstd::arithmetic::div_mod::lemma_fundamental_div_mod(o % 9, 3);
        vstd::arithmetic::div_mod::lemma_mod_bound(o % 9, 3);
        let r9 = (o % 9) % 3;
        assert(o == 4 * 3 + r9);
        vstd::arithmetic::div_mod::lemma_fundamental_div_mod_converse(o, 3, 4, r9);
        assert(o == 13);
        assert(false);
    } else {
        assert(fx * w == off.x && fy * w == off.y && fz * w == off.z);
        assert forall|f: int| -1 <= f <= 1 && f != 0 implies abs_i(#[trigger] (f * w)) == w by {
            assert(f == 1 || f == -1);
            assert(1 * w == w) by (nonlinear_arith);
            assert((-1) * w == -w) by (nonlinear_arith);
        }
        let rel = v3_sub(q.position, v3_add(p.position, off));
        if fx != 0 {
            lemma_axis_out_of_range(p.position.x, q.position.x, off.x, w, r);
            assert(abs_i(rel.x) > r);
            lemma_mag_exceeds(rel, rel.x, r);
        } else if fy != 0 {
            lemma_axis_out_of_range(p.position.y, q.position.y, off.y, w, r);
            assert(abs_i(rel.y) > r);
            lemma_mag_exceeds(rel, rel.y, r);
        } else {
            lemma_axis_out_of_range(p.position.z, q.position.z, off.z, w, r);
            assert(abs_i(rel.z) > r);
            lemma_mag_exceeds(rel, rel.z, r);
        }
        assert(!(v3_mag2(rel) < r * r));
    }
}

/// If one axis of the offset is a whole domain width, the imaged
/// separation on that axis exceeds the radius (with no saturation).
proof fn lemma_axis_out_of_range(pc: int, qc: int, offc: int, w: int, r: int)
    requires
        0 < r,
        2 * r <= w <= MAX_WORLD as int,
        -(w / 2) <= pc <= w / 2,
        -(w / 2) <= qc <= w / 2,
        abs_i(qc - pc) < r,
        abs_i(offc) == w,
    ensures
        abs_i(sat_sub_s(qc, sat_add_s(pc, offc))) > r,
{
    vstd::arithmetic::div_mod::lemma_fundamental_div_mod(w, 2);
    vstd::arithmetic::div_mod::lemma_mod_bound(w, 2);
    assert(sat_add_s(pc, offc) == pc + offc);
    assert(sat_sub_s(qc, pc + offc) == qc - pc - offc);
}

/// A squared magnitude is at least the square of any one component;
/// a component beyond the radius puts the whole vector beyond it.
proof fn lemma_mag_exceeds(rel: V3, comp: int, r: int)
    requires
        comp == rel.x || comp == rel.y || comp == rel.z,
        0 < r,
        abs_i(comp) > r,
    ensures
        v3_mag2(rel) > r * r,
{
    assert(rel.x * rel.x >= 0 && rel.y * rel.y >= 0 && rel.z * rel.z >= 0) by (nonlinear_arith);
    assert(comp * comp > r * r) by (nonlinear_arith)
        requires
            abs_i(comp) > r,
            r > 0,
    ;
}

/// Folding any bucket changes nothing when both cross pair forces
/// vanish: candidates are either the particle itself or a zero
/// contribution.
proof fn lemma_fold_bucket_noop(
    cfg: CfgG,
    parts: Seq<ParticleG>,
    pi: int,
    offset: V3,
    s: Seq<int>,
    i: int,
    acc: V3,
)
    requires
        parts.len() == 2,
        0 <= pi <= 1,
        forall|t: int| 0 <= t < s.len() ==> 0 <= #[trigger] s[t] <= 1,
        pair_force_s(cfg, parts[0], parts[1], offset) == v3_zero(),
        pair_force_s(cfg, parts[1], parts[0], offset) == v3_zero(),
        i64::MIN <= acc.x <= i64::MAX,
        i64::MIN <= acc.y <= i64::MAX,
        i64::MIN <= acc.z <= i64::MAX,
    ensures
        fold_bucket(cfg, parts, pi, offset, s, i, acc) == acc,
    decreases s.len() - i,
{
    if i < 0 || i >= s.len() {
    } else {
        let j = s[i];
        if j != pi {
            assert(j == 1 - pi);
            assert(pair_force_s(cfg, parts[pi], parts[j], offset) == v3_zero());
            assert(v3_add(acc, v3_zero()) == acc);
        }
        lemma_fold_bucket_noop(cfg, parts, pi, offset, s, i + 1, acc);
    }
}

/// Enumerating cells changes nothing when both cross pair forces
/// vanish at this offset.
proof fn lemma_fold_cells_noop(
    cfg: CfgG,
    parts: Seq<ParticleG>,
    pi: int,
    offset: V3,
    base: V3,
    c: int,
    acc: V3,
)
    requires
        parts.len() == 2,
        0 <= pi <= 1,
        pair_force_s(cfg, parts[0], parts[1], offset) == v3_zero(),
        pair_force_s(cfg, parts[1], parts[0], offset) == v3_zero(),
        i64::MIN <= acc.x <= i64::MAX,
        i64::MIN <= acc.y <= i64::MAX,
        i64::MIN <= acc.z <= i64::MAX,
    ensures
        fold_cells(cfg, parts, pi, offset, base, c, acc) == acc,
    decreases 27 - c,
{
    if c < 0 || c >= 27 {
    } else {
        let d = crate::force::cell_offset(c);
        let cell = V3 {
            x: sat_add_s(base.x, d.x),
            y: sat_add_s(base.y, d.y),
            z: sat_add_s(base.z, d.z),
        };
        let b = crate::grid::bucket_for_cell_s(cell, 2);
        lemma_upto_elems(parts, cfg.radius, b, 2);
        lemma_fold_bucket_noop(cfg, parts, pi, offset, bucket_seq(parts, cfg.radius, b), 0, acc);
        lemma_fold_cells_noop(cfg, parts, pi, offset, base, c + 1, acc);
    }
}

/// Enumerating the shared cell neighbourhood of the two particles
/// keeps the two accumulators exactly opposite: every cell yields
/// either both cross contributions, which are opposite, or none.
proof fn lemma_fold_cells_mirror(
    cfg: CfgG,
    parts: Seq<ParticleG>,
    base: V3,
    c: int,
    acc0: V3,
    acc1: V3,
    bound: int,
)
    requires
        cfg_wf(cfg),
        parts.len() == 2,
        crate::grid::bucket_of_s(parts[0].position, cfg.radius, 2) == crate::grid::bucket_of_s(
            parts[1].position,
            cfg.radius,
            2,
        ),
        pair_force_s(cfg, parts[0], parts[1], v3_zero()) == v3_neg(
            pair_force_s(cfg, parts[1], parts[0], v3_zero()),
        ),
        abs_i(pair_force_s(cfg, parts[0], parts[1], v3_zero()).x) <= SCALE,
        abs_i(pair_force_s(cfg, parts[0], parts[1], v3_zero()).y) <= SCALE,
        abs_i(pair_force_s(cfg, parts[0], parts[1], v3_zero()).z) <= SCALE,
        acc1 == v3_neg(acc0),
        abs_i(acc0.x) <= bound,
        abs_i(acc0.y) <= bound,
        abs_i(acc0.z) <= bound,
        0 <= c <= 27,
        0 <= bound,
        bound + (27 - c) * SCALE <= i64::MAX,
    ensures
        fold_cells(cfg, parts, 0, v3_zero(), base, c, acc0) == v3_neg(
            fold_cells(cfg, parts, 1, v3_zero(), base, c, acc1),
        ),
        abs_i(fold_cells(cfg, parts, 0, v3_zero(), base, c, acc0).x) <= bound + (27 - c) * SCALE,
        abs_i(fold_cells(cfg, parts, 0, v3_zero(), base, c, acc0).y) <= bound + (27 - c) * SCALE,
        abs_i(fold_cells(cfg, parts, 0, v3_zero(), base, c, acc0).z) <= bound + (27 - c) * SCALE,
    decreases 27 - c,
{
    if c < 0 || c >= 27 {
    } else {
        let d = crate::force::cell_offset(c);
        let cell = V3 {
            x: sat_add_s(base.x, d.x),
            y: sat_add_s(base.y, d.y),
            z: sat_add_s(base.z, d.z),
        };
        let b = crate::grid::bucket_for_cell_s(cell, 2);
        lemma_bucket_seq_two(parts, cfg.radius, b);
        let p01 = pair_force_s(cfg, parts[0], parts[1], v3_zero());
        let p10 = pair_force_s(cfg, parts[1], parts[0], v3_zero());
        assert(p10 == v3_neg(p01));
        if crate::grid::bucket_of_s(parts[0].position, cfg.radius, 2) == b {
            lemma_fold_bucket_pair(cfg, parts, 0, v3_zero(), acc0);
            lemma_fold_bucket_pair(cfg, parts, 1, v3_zero(), acc1);
            lemma_add_opposite(acc0, p01);
            let acc0n = v3_add(acc0, p01);
            let acc1n = v3_add(acc1, p10);
            assert(acc1n == v3_neg(acc0n));
            assert(abs_i(acc0n.x) <= bound + SCALE);
            assert(abs_i(acc0n.y) <= bound + SCALE);
            assert(abs_i(acc0n.z) <= bound + SCALE);
            lemma_fold_cells_mirror(cfg, parts, base, c + 1, acc0n, acc1n, bound + SCALE);
        } else {
            lemma_fold_bucket_empty_acc(cfg, parts, 0, v3_zero(), acc0);
            lemma_fold_bucket_empty_acc(cfg, parts, 1, v3_zero(), acc1);
            lemma_fold_cells_mirror(cfg, parts, base, c + 1, acc0, acc1, bound);
        }
    }
}

/// Past the centre image, the remaining domain images contribute
/// nothing for two particles closer than the radius on every axis.
proof fn lemma_fold_offsets_tail(cfg: CfgG, parts: Seq<ParticleG>, pi: int, o: int, acc: V3)
    requires
        cfg_wf(cfg),
        parts.len() == 2,
        0 <= pi <= 1,
        14 <= o <= 27,
        in_domain(parts[0].position, cfg.world_size),
        in_domain(parts[1].position, cfg.world_size),
        abs_i(parts[1].position.x - parts[0].position.x) < cfg.radius,
        abs_i(parts[1].position.y - parts[0].position.y) < cfg.radius,
        abs_i(parts[1].position.z - parts[0].position.z) < cfg.radius,
        i64::MIN <= acc.x <= i64::MAX,
        i64::MIN <= acc.y <= i64::MAX,
        i64::MIN <= acc.z <= i64::MAX,
    ensures
        fold_offsets(cfg, parts, pi, o, acc) == acc,
    decreases 27 - o,
{
    if o >= 27 {
    } else {
        lemma_image_pair_vanishes(cfg, parts[0], parts[1], o);
        lemma_image_pair_vanishes(cfg, parts[1], parts[0], o);
        let off = crate::force::image_offset(o, cfg.world_size);
        let base = crate::grid::cell_s(v3_add(parts[pi].position, off), cfg.radius);
        lemma_fold_cells_noop(cfg, parts, pi, off, base, 0, acc);
        lemma_fold_offsets_tail(cfg, parts, pi, o + 1, acc);
    }
}

/// Walking the domain images keeps the two accumulators exactly
/// opposite: only the centre image contributes, and it contributes
/// mirrored sums.
proof fn lemma_fold_offsets_mirror(
    cfg: CfgG,
    parts: Seq<ParticleG>,
    o: int,
    acc0: V3,
    acc1: V3,
    bound: int,
)
    requires
        cfg_wf(cfg),
        parts.len() == 2,
        0 <= o <= 13,
        crate::grid::cell_s(parts[0].position, cfg.radius) == crate::grid::cell_s(
            parts[1].position,
            cfg.radius,
        ),
        in_domain(parts[0].position, cfg.world_size),
        in_domain(parts[1].position, cfg.world_size),
        abs_i(parts[1].position.x - parts[0].position.x) < cfg.radius,
        abs_i(parts[1].position.y - parts[0].position.y) < cfg.radius,
        abs_i(parts[1].position.z - parts[0].position.z) < cfg.radius,
        pair_force_s(cfg, parts[0], parts[1], v3_zero()) == v3_neg(
            pair_force_s(cfg, parts[1], parts[0], v3_zero()),
        ),
        abs_i(pair_force_s(cfg, parts[0], parts[1], v3_zero()).x) <= SCALE,
        abs_i(pair_force_s(cfg, parts[0], parts[1], v3_zero()).y) <= SCALE,
        abs_i(pair_force_s(cfg, parts[0], parts[1], v3_zero()).z) <= SCALE,
        acc1 == v3_neg(acc0),
        abs_i(acc0.x) <= bound,
        abs_i(acc0.y) <= bound,
        abs_i(acc0.z) <= bound,
        0 <= bound,
        bound + 27 * SCALE <= i64::MAX,
    ensures
        fold_offsets(cfg, parts, 0, o, acc0) == v3_neg(fold_offsets(cfg, parts, 1, o, acc1)),
    decreases 27 - o,
{
    let w = cfg.world_size;
    let off = crate::force::image_offset(o, w);
    let base0 = crate::grid::cell_s(v3_add(parts[0].position, off), cfg.radius);
    let base1 = crate::grid::cell_s(v3_add(parts[1].position, off), cfg.radius);
    if o == 13 {
        assert(13int / 9 - 1 == 0 && (13int % 9) / 3 - 1 == 0 && 13int % 3 - 1 == 0);
        assert(0 * w == 0) by (nonlinear_arith);
        assert(off == v3_zero());
        assert(v3_add(parts[0].position, off) == parts[0].position);
        assert(v3_add(parts[1].position, off) == parts[1].position);
        assert(base0 == base1);
        crate::grid::lemma_bucket_in_range(base0, 2);
        lemma_fold_cells_mirror(cfg, parts, base0, 0, acc0, acc1, bound);
        let acc0n = fold_cells(cfg, parts, 0, off, base0, 0, acc0);
        let acc1n = fold_cells(cfg, parts, 1, off, base1, 0, acc1);
        assert(acc0n == v3_neg(acc1n));
        assert(acc1n == v3_neg(acc0n));
        assert(abs_i(acc0n.x) <= i64::MAX && abs_i(acc0n.y) <= i64::MAX && abs_i(acc0n.z)
            <= i64::MAX);
        assert(i64::MIN <= acc1n.x <= i64::MAX && i64::MIN <= acc1n.y <= i64::MAX && i64::MIN
            <= acc1n.z <= i64::MAX);
        lemma_fold_offsets_tail(cfg, parts, 0, 14, acc0n);
        lemma_fold_offsets_tail(cfg, parts, 1, 14, acc1n);
    } else {
        lemma_image_pair_vanishes(cfg, parts[0], parts[1], o);
        lemma_image_pair_vanishes(cfg, parts[1], parts[0], o);
        lemma_fold_cells_noop(cfg, parts, 0, off, base0, 0, acc0);
        lemma_fold_cells_noop(cfg, parts, 1, off, base1, 0, acc1);
        lemma_fold_offsets_mirror(cfg, parts, o + 1, acc0, acc1, bound);
    }
}

/// Newton's third law for the whole interaction sum of two
/// particles sharing a grid cell: with a symmetric attraction pair of
/// magnitude at most one, the two net forces are exactly opposite,
/// in either boundary mode. (When the two cells differ, hash
/// collisions among the enumerated cells can repeat the pair's
/// contribution unequally on the two sides, so the law is stated of
/// particles in one cell.)
pub proof fn lemma_two_particle_forces_opposite(cfg: CfgG, parts: Seq<ParticleG>)
    requires
        cfg_wf(cfg),
        parts.len() == 2,
        0 <= parts[0].id < cfg.id_count,
        0 <= parts[1].id < cfg.id_count,
        cfg.attraction[parts[0].id * cfg.id_count + parts[1].id] == cfg.attraction[parts[1].id
            * cfg.id_count + parts[0].id],
        abs_i(cfg.attraction[parts[0].id * cfg.id_count + parts[1].id]) <= SCALE,
        in_domain(parts[0].position, cfg.world_size),
        in_domain(parts[1].position, cfg.world_size),
        crate::grid::cell_s(parts[0].position, cfg.radius) == crate::grid::cell_s(
            parts[1].position,
            cfg.radius,
        ),
    ensures
        net_force_s(cfg, parts, 0) == v3_neg(net_force_s(cfg, parts, 1)),
{
    lemma_same_cell_close(parts[0].position.x, parts[1].position.x, cfg.radius);
    lemma_same_cell_close(parts[0].position.y, parts[1].position.y, cfg.radius);
    lemma_same_cell_close(parts[0].position.z, parts[1].position.z, cfg.radius);
    assert(crate::grid::bucket_of_s(parts[0].position, cfg.radius, 2) == crate::grid::bucket_of_s(
        parts[1].position,
        cfg.radius,
        2,
    ));
    lemma_pair_force_antisymmetric(cfg, parts[0], parts[1], v3_zero());
    assert(v3_neg(v3_zero()) == v3_zero());
    lemma_pair_force_bound(cfg, parts[0], parts[1], v3_zero());
    if cfg.walls {
        assert(v3_zero() == v3_neg(v3_zero()));
        lemma_fold_cells_mirror(
            cfg,
            parts,
            crate::grid::cell_s(parts[0].position, cfg.radius),
            0,
            v3_zero(),
            v3_zero(),
            0,
        );
    } else {
        lemma_fold_offsets_mirror(cfg, parts, 0, v3_zero(), v3_zero(), 0);
    }
}

/// An overdamped tick is a full stop: when `friction * dt` exceeds
/// one, every particle ends the tick with zero velocity — whatever
/// force and gravity acted on it — and its position undergoes only
/// the boundary resolution.
pub proof fn lemma_overdamped_tick(cfg: CfgG, parts: Seq<ParticleG>, i: int, dt: int)
    requires
        cfg_wf(cfg),
        0 <= i < parts.len(),
        0 <= dt,
        cfg.friction * dt > SCALE * (SCALE as int),
        i64::MIN <= parts[i].position.x <= i64::MAX,
        i64::MIN <= parts[i].position.y <= i64::MAX,
        i64::MIN <= parts[i].position.z <= i64::MAX,
    ensures
        crate::tick_particle_s(cfg, parts, i, dt).velocity == v3_zero(),
        crate::tick_particle_s(cfg, parts, i, dt).position == (V3 {
            x: wall_axis_s(parts[i].position.x, 0, cfg.world_size, cfg.walls).0,
            y: wall_axis_s(parts[i].position.y, 0, cfg.world_size, cfg.walls).0,
            z: wall_axis_s(parts[i].position.z, 0, cfg.world_size, cfg.walls).0,
        }),
{
    let p = parts[i];
    let force = net_force_s(cfg, parts, i);
    let v1 = vel_after_force(cfg, p, force, dt);
    // the intermediate velocity is a sum of clamped components, so it
    // lies in the i64 range whatever acted on the particle
    assert(i64::MIN <= v1.x <= i64::MAX && i64::MIN <= v1.y <= i64::MAX && i64::MIN <= v1.z
        <= i64::MAX);
    // a product above one stays above one after the truncating
    // division by the scale
    assert(SCALE * (SCALE as int) == (SCALE as int) * SCALE);
    vstd::arithmetic::div_mod::lemma_div_is_ordered(
        SCALE * (SCALE as int),
        cfg.friction * dt,
        SCALE as int,
    );
    vstd::arithmetic::div_mod::lemma_div_multiples_vanish(SCALE as int, SCALE as int);
    assert(abs_i(cfg.friction * dt) == cfg.friction * dt);
    assert(tdiv(cfg.friction * dt, SCALE as int) >= SCALE);
    assert(fix_mul_s(cfg.friction, dt) >= SCALE);
    lemma_full_stop_damped(cfg, v1, dt);
    // with the velocity stopped, the drift is zero and the boundary
    // step sees the old position and a zero velocity
    crate::fixed::lemma_tdiv_bounds(0, SCALE as int, 1);
    assert(0 * dt == 0) by (nonlinear_arith);
    assert(fix_mul_s(0, dt) == 0);
    let pos1 = v3_add(p.position, v3_scale(vel_damped(cfg, v1, dt), dt));
    assert(pos1.x == p.position.x && pos1.y == p.position.y && pos1.z == p.position.z);
}

} // verus!
