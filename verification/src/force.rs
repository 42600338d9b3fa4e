//! Net interaction force on a particle.
//!
//! For every domain image (all 27 under a periodic boundary, only the
//! centre one under solid walls) the 27 grid cells around the imaged
//! position are enumerated; each cell's bucket of the spatial index
//! supplies candidate particles, and every candidate other than the
//! particle itself that lies strictly within the interaction radius
//! contributes the kernel force along the line between the two.

use vstd::prelude::*;
use crate::fixed::{
    SCALE, fix_div, fix_div_s, fix_mul, fix_mul_s, isqrt_s, isqrt, lemma_tdiv_bounds, sat_add_s,
};
use crate::vec3::{V3, Vec3, v3_add, v3_mag2, v3_sub, v3_zero, sq_u128};
use crate::grid::{bucket_for_cell, bucket_for_cell_s, cell_coord, cell_s};
use crate::kernel::{calculate_force, kernel_s};
use crate::particle::{CfgG, Particle, ParticleG, cfg_wf, ids_ok, views_of};
use crate::index::{SpatialIndex, bucket_seq, to_ints};

verus! {

/// The force that candidate `q` exerts on `p`, with `p` viewed
/// through the given domain-image offset; zero unless the two are
/// distinct points strictly within the interaction radius.
pub open spec fn pair_force_s(cfg: CfgG, p: ParticleG, q: ParticleG, offset: V3) -> V3 {
    let rel = v3_sub(q.position, v3_add(p.position, offset));
    let sqr = v3_mag2(rel);
    if 0 < sqr && sqr < cfg.radius * cfg.radius {
        let dist = isqrt_s(sqr);
        let r_norm = fix_div_s(dist, cfg.radius);
        let a = cfg.attraction[p.id * cfg.id_count + q.id];
        let f = kernel_s(r_norm, a, cfg.beta);
        V3 {
            x: fix_mul_s(fix_div_s(rel.x, dist), f),
            y: fix_mul_s(fix_div_s(rel.y, dist), f),
            z: fix_mul_s(fix_div_s(rel.z, dist), f),
        }
    } else {
        v3_zero()
    }
}

/// Contributions of the candidates `s[i ..]` of one bucket, folded
/// onto `acc` in slice order; the particle itself is excluded by
/// index.
pub open spec fn fold_bucket(
    cfg: CfgG,
    parts: Seq<ParticleG>,
    pi: int,
    offset: V3,
    s: Seq<int>,
    i: int,
    acc: V3,
) -> V3
    decreases s.len() - i,
{
    if i < 0 || i >= s.len() {
        acc
    } else {
        let j = s[i];
        let acc2 = if j == pi {
            acc
        } else {
            v3_add(acc, pair_force_s(cfg, parts[pi], parts[j], offset))
        };
        fold_bucket(cfg, parts, pi, offset, s, i + 1, acc2)
    }
}

/// Offset of neighbouring cell number `c` (0 .. 27): each component
/// in `{-1, 0, 1}`.
pub open spec fn cell_offset(c: int) -> V3 {
    V3 { x: c / 9 - 1, y: (c % 9) / 3 - 1, z: c % 3 - 1 }
}

/// Contributions of cells number `c .. 27` around `base_cell`, folded
/// onto `acc`.
pub open spec fn fold_cells(
    cfg: CfgG,
    parts: Seq<ParticleG>,
    pi: int,
    offset: V3,
    base_cell: V3,
    c: int,
    acc: V3,
) -> V3
    decreases 27 - c,
{
    if c < 0 || c >= 27 {
        acc
    } else {
        let d = cell_offset(c);
        let cell = V3 {
            x: sat_add_s(base_cell.x, d.x),
            y: sat_add_s(base_cell.y, d.y),
            z: sat_add_s(base_cell.z, d.z),
        };
        let b = bucket_for_cell_s(cell, parts.len() as int);
        let acc2 = fold_bucket(cfg, parts, pi, offset, bucket_seq(parts, cfg.radius, b), 0, acc);
        fold_cells(cfg, parts, pi, offset, base_cell, c + 1, acc2)
    }
}

/// Domain-image offset number `o` (0 .. 27): each component in
/// `{-1, 0, 1}` times the domain edge. Number 13 is the zero offset.
pub open spec fn image_offset(o: int, world: int) -> V3 {
    V3 { x: (o / 9 - 1) * world, y: ((o % 9) / 3 - 1) * world, z: (o % 3 - 1) * world }
}

/// Contributions reached through domain images number `o .. 27`,
/// folded onto `acc`.
pub open spec fn fold_offsets(cfg: CfgG, parts: Seq<ParticleG>, pi: int, o: int, acc: V3) -> V3
    decreases 27 - o,
{
    if o < 0 || o >= 27 {
        acc
    } else {
        let off = image_offset(o, cfg.world_size);
        let base = cell_s(v3_add(parts[pi].position, off), cfg.radius);
        let acc2 = fold_cells(cfg, parts, pi, off, base, 0, acc);
        fold_offsets(cfg, parts, pi, o + 1, acc2)
    }
}

/// The net force on particle `pi`: over all domain images under a
/// periodic boundary, over the centre image alone under solid walls.
pub open spec fn net_force_s(cfg: CfgG, parts: Seq<ParticleG>, pi: int) -> V3 {
    if cfg.walls {
        fold_cells(
            cfg,
            parts,
            pi,
            v3_zero(),
            cell_s(parts[pi].position, cfg.radius),
            0,
            v3_zero(),
        )
    } else {
        fold_offsets(cfg, parts, pi, 0, v3_zero())
    }
}

/// The simulation parameters in executable form.
#[derive(Debug)]
pub struct Params {
    pub world_size: i64,
    pub particle_effect_radius: i64,
    pub min_pull_ratio: i64,
    pub coefficient: i64,
    pub interaction_force: i64,
    pub acceleration: Vec3,
    pub walls: bool,
    pub id_count: u32,
    pub attraction_matrix: Vec<i64>,
}

impl View for Params {
    type V = CfgG;

    open spec fn view(&self) -> CfgG {
        CfgG {
            world_size: self.world_size as int,
            radius: self.particle_effect_radius as int,
            beta: self.min_pull_ratio as int,
            friction: self.coefficient as int,
            force_scale: self.interaction_force as int,
            gravity: self.acceleration@,
            walls: self.walls,
            id_count: self.id_count as int,
            attraction: self.attraction_matrix@.map_values(|v: i64| v as int),
        }
    }
}

/// The force one candidate exerts, computed exactly as the model
/// states it.
fn candidate_force(params: &Params, p: Particle, q: Particle, offset: Vec3) -> (f: Vec3)
    requires
        cfg_wf(params@),
        0 <= p@.id < params@.id_count,
        0 <= q@.id < params@.id_count,
    ensures
        f@ == pair_force_s(params@, p@, q@, offset@),
{
    let rel: Vec3 = q.position.vsub(p.position.vadd(offset));
    let sqr: u128 = rel.vmag2();
    let r2: u128 = sq_u128(params.particle_effect_radius);
    proof {
        assert((params.particle_effect_radius as int) * (params.particle_effect_radius as int)
            < 0x40000000000000000000000000000000) by (nonlinear_arith)
            requires
                0 < params.particle_effect_radius <= i64::MAX,
        ;
    }
    if 0 < sqr && sqr < r2 {
        let dist_u: u128 = isqrt(sqr);
        proof {
            assert((dist_u as int) * (dist_u as int) <= v3_mag2(rel@));
            assert(dist_u as int >= 1) by (nonlinear_arith)
                requires
                    (dist_u as int + 1) * (dist_u as int + 1) > sqr as int,
                    dist_u as int >= 0,
                    sqr >= 1,
            ;
            assert((dist_u as int) < (params.particle_effect_radius as int)) by (nonlinear_arith)
                requires
                    (dist_u as int) * (dist_u as int) < (params.particle_effect_radius as int) * (
                    params.particle_effect_radius as int),
                    dist_u as int >= 0,
                    params.particle_effect_radius > 0,
            ;
        }
        let dist: i64 = dist_u as i64;
        let r_norm: i64 = fix_div(dist, params.particle_effect_radius);
        proof {
            assert(((dist as int) * (SCALE as int)) < ((params.particle_effect_radius as int) * (SCALE as int)))
                by (nonlinear_arith)
                requires
                    0 <= (dist as int) < (params.particle_effect_radius as int),
                    SCALE == 1_000_000,
            ;
            lemma_tdiv_bounds(
                dist as int * SCALE as int,
                params.particle_effect_radius as int,
                SCALE as int,
            );
        }
        let ki: usize = params.id_count as usize;
        let alen: usize = params.attraction_matrix.len();
        proof {
            assert((p.id as int) * (ki as int) + (q.id as int) < (ki as int) * (ki as int))
                by (nonlinear_arith)
                requires
                    0 <= (p.id as int) < (ki as int),
                    0 <= (q.id as int) < (ki as int),
            ;
            assert((ki as int) * (ki as int) == alen as int);
        }
        let ai: usize = (p.id as usize) * ki + (q.id as usize);
        let a: i64 = params.attraction_matrix[ai];
        let f: i64 = calculate_force(r_norm, a, params.min_pull_ratio);
        Vec3 {
            x: fix_mul(fix_div(rel.x, dist), f),
            y: fix_mul(fix_div(rel.y, dist), f),
            z: fix_mul(fix_div(rel.z, dist), f),
        }
    } else {
        Vec3::zero()
    }
}

/// Fold the candidates of bucket `b`'s slice of the index onto `acc`.
fn accumulate_bucket(
    params: &Params,
    particles: &Vec<Particle>,
    idx: &SpatialIndex,
    pi: usize,
    offset: Vec3,
    b: usize,
    acc: Vec3,
) -> (r: Vec3)
    requires
        cfg_wf(params@),
        idx.wf(views_of(particles@), params@.radius),
        ids_ok(views_of(particles@), params@.id_count),
        (pi as int) < particles@.len(),
        (b as int) < particles@.len(),
    ensures
        r@ == fold_bucket(
            params@,
            views_of(particles@),
            pi as int,
            offset@,
            bucket_seq(views_of(particles@), params@.radius, b as int),
            0,
            acc@,
        ),
{
    let ghost parts = views_of(particles@);
    let ghost cfg = params@;
    let ghost bs = bucket_seq(parts, cfg.radius, b as int);
    let n: usize = particles.len();
    proof {
        crate::index::lemma_wf_bounds(*idx, parts, cfg.radius, b as int);
    }
    let start_k: usize = idx.starts[b];
    let end_k: usize = idx.starts[b + 1];
    let mut k: usize = start_k;
    let mut acc2: Vec3 = acc;
    while k < end_k
        invariant
            cfg_wf(cfg),
            cfg == params@,
            parts == views_of(particles@),
            bs == bucket_seq(parts, cfg.radius, b as int),
            idx.wf(parts, cfg.radius),
            ids_ok(parts, cfg.id_count),
            (pi as int) < parts.len(),
            (b as int) < parts.len(),
            n == parts.len(),
            n == particles@.len(),
            start_k as int == idx.starts@[b as int] as int,
            end_k as int == start_k as int + bs.len(),
            end_k <= n,
            start_k <= k <= end_k,
            fold_bucket(cfg, parts, pi as int, offset@, bs, k - start_k, acc2@) == fold_bucket(
                cfg,
                parts,
                pi as int,
                offset@,
                bs,
                0,
                acc@,
            ),
        decreases end_k - k,
    {
        proof {
            crate::index::lemma_wf_bounds(*idx, parts, cfg.radius, b as int);
            assert(bs[k - start_k as int] == to_ints(idx.indices@)[k as int]);
            assert(to_ints(idx.indices@)[k as int] == idx.indices@[k as int] as int);
        }
        let j: usize = idx.indices[k];
        proof {
            assert(0 <= (j as int) < parts.len());
            assert(parts[j as int] == particles@[j as int]@);
            assert(parts[pi as int] == particles@[pi as int]@);
        }
        if j != pi {
            let pf: Vec3 = candidate_force(params, particles[pi], particles[j], offset);
            acc2 = acc2.vadd(pf);
        }
        k = k + 1;
    }
    acc2
}

/// Fold the buckets of the 27 cells around `base_cell` onto `acc`.
fn accumulate_cells(
    params: &Params,
    particles: &Vec<Particle>,
    idx: &SpatialIndex,
    pi: usize,
    offset: Vec3,
    base_cell: Vec3,
    acc: Vec3,
) -> (r: Vec3)
    requires
        cfg_wf(params@),
        idx.wf(views_of(particles@), params@.radius),
        ids_ok(views_of(particles@), params@.id_count),
        (pi as int) < particles@.len(),
    ensures
        r@ == fold_cells(
            params@,
            views_of(particles@),
            pi as int,
            offset@,
            base_cell@,
            0,
            acc@,
        ),
{
    let ghost parts = views_of(particles@);
    let ghost cfg = params@;
    let n: usize = particles.len();
    let mut acc2: Vec3 = acc;
    let mut c: usize = 0;
    while c < 27
        invariant
            cfg_wf(cfg),
            cfg == params@,
            parts == views_of(particles@),
            idx.wf(parts, cfg.radius),
            ids_ok(parts, cfg.id_count),
            (pi as int) < parts.len(),
            n == parts.len(),
            n == particles@.len(),
            c <= 27,
            fold_cells(cfg, parts, pi as int, offset@, base_cell@, c as int, acc2@) == fold_cells(
                cfg,
                parts,
                pi as int,
                offset@,
                base_cell@,
                0,
                acc@,
            ),
        decreases 27 - c,
    {
        let dx: i64 = (c / 9) as i64 - 1;
        let dy: i64 = ((c % 9) / 3) as i64 - 1;
        let dz: i64 = (c % 3) as i64 - 1;
        let cell = Vec3 {
            x: crate::fixed::sat_add(base_cell.x, dx),
            y: crate::fixed::sat_add(base_cell.y, dy),
            z: crate::fixed::sat_add(base_cell.z, dz),
        };
        let b: usize = bucket_for_cell(cell, n);
        proof {
            assert(cell@ == (V3 {
                x: sat_add_s(base_cell@.x, cell_offset(c as int).x),
                y: sat_add_s(base_cell@.y, cell_offset(c as int).y),
                z: sat_add_s(base_cell@.z, cell_offset(c as int).z),
            }));
        }
        acc2 = accumulate_bucket(params, particles, idx, pi, offset, b, acc2);
        c = c + 1;
    }
    acc2
}

/// The net interaction force on particle `pi`, exactly as the model
/// `net_force_s` states it.
pub fn net_force(params: &Params, particles: &Vec<Particle>, idx: &SpatialIndex, pi: usize) -> (f:
    Vec3)
    requires
        cfg_wf(params@),
        idx.wf(views_of(particles@), params@.radius),
        ids_ok(views_of(particles@), params@.id_count),
        (pi as int) < particles@.len(),
    ensures
        f@ == net_force_s(params@, views_of(particles@), pi as int),
{
    let ghost parts = views_of(particles@);
    let ghost cfg = params@;
    let p: Particle = particles[pi];
    proof {
        assert(parts[pi as int] == particles@[pi as int]@);
    }
    if params.walls {
        let base: Vec3 = cell_coord(p.position, params.particle_effect_radius);
        accumulate_cells(params, particles, idx, pi, Vec3::zero(), base, Vec3::zero())
    } else {
        let mut acc: Vec3 = Vec3::zero();
        let mut o: usize = 0;
        while o < 27
            invariant
                cfg_wf(cfg),
                cfg == params@,
                parts == views_of(particles@),
                idx.wf(parts, cfg.radius),
                ids_ok(parts, cfg.id_count),
                (pi as int) < parts.len(),
                parts[pi as int] == particles@[pi as int]@,
                p == particles@[pi as int],
                o <= 27,
                fold_offsets(cfg, parts, pi as int, o as int, acc@) == fold_offsets(
                    cfg,
                    parts,
                    pi as int,
                    0,
                    v3_zero(),
                ),
            decreases 27 - o,
        {
            let fx: i64 = (o / 9) as i64 - 1;
            let fy: i64 = ((o % 9) / 3) as i64 - 1;
            let fz: i64 = (o % 3) as i64 - 1;
            proof {
                assert forall|f: int, w: int| -1 <= f <= 1 && 0 < w <= i64::MAX implies -w <= #[trigger] (f * w) <= w by {
                    assert(-w <= f * w <= w) by (nonlinear_arith)
                        requires
                            -1 <= f <= 1,
                            0 < w,
                    ;
                }
            }
            let off = Vec3 {
                x: fx * params.world_size,
                y: fy * params.world_size,
                z: fz * params.world_size,
            };
            let pos_o: Vec3 = p.position.vadd(off);
            let base: Vec3 = cell_coord(pos_o, params.particle_effect_radius);
            proof {
                assert(off@ == image_offset(o as int, cfg.world_size));
                assert(base@ == cell_s(v3_add(parts[pi as int].position, off@), cfg.radius));
            }
            acc = accumulate_cells(params, particles, idx, pi, off, base, acc);
            o = o + 1;
        }
        acc
    }
}

} // verus!
