//! Grid cells and the spatial hash.
//!
//! A particle's cell is the floor of its position divided by the
//! interaction radius, component-wise. The three (possibly negative)
//! cell coordinates are combined into a `u64` by a deterministic
//! diffusing hash; a cell's bucket is that hash modulo the particle
//! count. Distinct cells may share a bucket: the bucket table is a
//! hash table, not a literal grid, and the distance check filters the
//! resulting false-positive candidates.

use vstd::prelude::*;
use vstd::arithmetic::div_mod::{lemma_fundamental_div_mod, lemma_fundamental_div_mod_converse};
use crate::vec3::{V3, Vec3};

verus! {

/// Floor of `a / b` for a positive divisor (the spec `/` itself).
pub fn floor_div(a: i64, b: i64) -> (r: i64)
    requires
        b > 0,
    ensures
        r as int == a as int / b as int,
{
    let bm: u128 = b as u128;
    if a >= 0 {
        let q: u128 = (a as u128) / bm;
        proof {
            lemma_fundamental_div_mod((a as u128) as int, bm as int);
            lemma_fundamental_div_mod_converse(
                a as int,
                b as int,
                q as int,
                ((a as u128) % bm) as int,
            );
        }
        q as i64
    } else {
        let m: u128 = (-(a as i128)) as u128;
        let q: u128 = m / bm;
        let rem: u128 = m % bm;
        proof {
            lemma_fundamental_div_mod(m as int, bm as int);
            if rem == 0 {
                assert(a as int == (-(q as int)) * (b as int) + 0) by (nonlinear_arith)
                    requires
                        m as int == (bm as int) * (q as int) + (rem as int),
                        rem == 0,
                        m as int == -(a as int),
                        bm as int == b as int,
                ;
                lemma_fundamental_div_mod_converse(a as int, b as int, -(q as int), 0);
            } else {
                assert(a as int == (-(q as int) - 1) * (b as int) + (b as int - rem as int))
                    by (nonlinear_arith)
                    requires
                        m as int == (bm as int) * (q as int) + (rem as int),
                        m as int == -(a as int),
                        bm as int == b as int,
                ;
                lemma_fundamental_div_mod_converse(
                    a as int,
                    b as int,
                    -(q as int) - 1,
                    b as int - rem as int,
                );
            }
        }
        let qi: i128 = q as i128;
        let res: i128 = if rem == 0 {
            -qi
        } else {
            -qi - 1
        };
        proof {
            assert(res == a as int / b as int);
            lemma_fundamental_div_mod(a as int, b as int);
            assert(a as int / b as int >= a as int) by (nonlinear_arith)
                requires
                    a < 0,
                    b >= 1,
                    (a as int) == (b as int) * (a as int / b as int) + (a as int % b as int),
                    0 <= (a as int % b as int) < (b as int),
            ;
        }
        res as i64
    }
}

/// A particle's grid cell: floor of the position over the radius,
/// component-wise.
pub open spec fn cell_s(pos: V3, radius: int) -> V3 {
    V3 { x: pos.x / radius, y: pos.y / radius, z: pos.z / radius }
}

pub fn cell_coord(pos: Vec3, radius: i64) -> (r: Vec3)
    requires
        radius > 0,
    ensures
        r@ == cell_s(pos@, radius as int),
{
    Vec3 { x: floor_div(pos.x, radius), y: floor_div(pos.y, radius), z: floor_div(pos.z, radius) }
}

/// An `i64` re-centred into `[0, 2^64)` so it can feed the hash.
pub open spec fn key64_s(x: int) -> u64 {
    (x + 0x8000000000000000) as u64
}

fn key64(x: i64) -> (r: u64)
    ensures
        r == key64_s(x as int),
{
    let v: i128 = (x as i128) + 0x8000000000000000i128;
    v as u64
}

/// One odd multiplier per axis, then an xor-shift finisher: a
/// deterministic diffusing combination of the three cell coordinates.
pub open spec fn hash3_s(a: u64, b: u64, c: u64) -> u64 {
    let h1 = a.wrapping_mul(0x9E3779B97F4A7C15u64);
    let h2 = h1 ^ b.wrapping_mul(0xC2B2AE3D27D4EB4Fu64);
    let h3 = h2 ^ c.wrapping_mul(0x165667B19E3779F9u64);
    let h4 = (h3 ^ (h3 >> 31)).wrapping_mul(0xFF51AFD7ED558CCDu64);
    h4 ^ (h4 >> 33)
}

/// The hash of a grid cell.
pub open spec fn hash_cell_s(cell: V3) -> u64 {
    hash3_s(key64_s(cell.x), key64_s(cell.y), key64_s(cell.z))
}

pub fn hash_cell(cell: Vec3) -> (h: u64)
    ensures
        h == hash_cell_s(cell@),
{
    let a: u64 = key64(cell.x);
    let b: u64 = key64(cell.y);
    let c: u64 = key64(cell.z);
    let h1: u64 = a.wrapping_mul(0x9E3779B97F4A7C15u64);
    let h2: u64 = h1 ^ b.wrapping_mul(0xC2B2AE3D27D4EB4Fu64);
    let h3: u64 = h2 ^ c.wrapping_mul(0x165667B19E3779F9u64);
    let h4: u64 = (h3 ^ (h3 >> 31u64)).wrapping_mul(0xFF51AFD7ED558CCDu64);
    h4 ^ (h4 >> 33u64)
}

/// The bucket a cell hashes to, among `n` buckets.
pub open spec fn bucket_for_cell_s(cell: V3, n: int) -> int {
    (hash_cell_s(cell) as int) % n
}

/// The bucket of the cell of a position.
pub open spec fn bucket_of_s(pos: V3, radius: int, n: int) -> int {
    bucket_for_cell_s(cell_s(pos, radius), n)
}

pub fn bucket_for_cell(cell: Vec3, n: usize) -> (b: usize)
    requires
        n > 0,
    ensures
        b as int == bucket_for_cell_s(cell@, n as int),
        b < n,
{
    let h: u64 = hash_cell(cell);
    let m: u64 = h % (n as u64);
    m as usize
}

pub proof fn lemma_bucket_in_range(cell: V3, n: int)
    requires
        n > 0,
    ensures
        0 <= bucket_for_cell_s(cell, n) < n,
{
    vstd::arithmetic::div_mod::lemma_mod_pos_bound(hash_cell_s(cell) as int, n);
}

} // verus!
