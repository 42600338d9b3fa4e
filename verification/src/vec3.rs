//! 3D vectors of fixed-point scalars, with their mathematical model.

use vstd::prelude::*;
use crate::fixed::{sat_add_s, sat_sub_s, fix_mul_s, sat_add, sat_sub, fix_mul};

verus! {

/// The mathematical value of a vector: three unbounded integers.
pub ghost struct V3 {
    pub x: int,
    pub y: int,
    pub z: int,
}

/// A 3D vector of fixed-point scalars.
#[derive(Clone, Copy, PartialEq, Eq, Structural, Debug)]
pub struct Vec3 {
    pub x: i64,
    pub y: i64,
    pub z: i64,
}

impl View for Vec3 {
    type V = V3;

    open spec fn view(&self) -> V3 {
        V3 { x: self.x as int, y: self.y as int, z: self.z as int }
    }
}

pub open spec fn v3_zero() -> V3 {
    V3 { x: 0, y: 0, z: 0 }
}

/// Component-wise saturating sum.
pub open spec fn v3_add(a: V3, b: V3) -> V3 {
    V3 { x: sat_add_s(a.x, b.x), y: sat_add_s(a.y, b.y), z: sat_add_s(a.z, b.z) }
}

/// Component-wise saturating difference.
pub open spec fn v3_sub(a: V3, b: V3) -> V3 {
    V3 { x: sat_sub_s(a.x, b.x), y: sat_sub_s(a.y, b.y), z: sat_sub_s(a.z, b.z) }
}

/// Component-wise saturating fixed-point scaling.
pub open spec fn v3_scale(a: V3, s: int) -> V3 {
    V3 { x: fix_mul_s(a.x, s), y: fix_mul_s(a.y, s), z: fix_mul_s(a.z, s) }
}

pub open spec fn v3_neg(a: V3) -> V3 {
    V3 { x: -a.x, y: -a.y, z: -a.z }
}

/// The exact squared magnitude (never clamped).
pub open spec fn v3_mag2(a: V3) -> int {
    a.x * a.x + a.y * a.y + a.z * a.z
}

/// The exact square of a scalar, as an unsigned 128-bit value.
pub fn sq_u128(a: i64) -> (r: u128)
    ensures
        r as int == (a as int) * (a as int),
{
    proof {
        assert(0 <= (a as int) * (a as int) <= 0x40000000000000000000000000000000) by (nonlinear_arith)
            requires
                i64::MIN <= a <= i64::MAX,
        ;
    }
    let p: i128 = (a as i128) * (a as i128);
    p as u128
}

impl Vec3 {
    pub fn zero() -> (r: Vec3)
        ensures
            r@ == v3_zero(),
    {
        Vec3 { x: 0, y: 0, z: 0 }
    }

    pub fn new(x: i64, y: i64, z: i64) -> (r: Vec3)
        ensures
            r@ == (V3 { x: x as int, y: y as int, z: z as int }),
    {
        Vec3 { x, y, z }
    }

    pub fn vadd(self, o: Vec3) -> (r: Vec3)
        ensures
            r@ == v3_add(self@, o@),
    {
        Vec3 { x: sat_add(self.x, o.x), y: sat_add(self.y, o.y), z: sat_add(self.z, o.z) }
    }

    pub fn vsub(self, o: Vec3) -> (r: Vec3)
        ensures
            r@ == v3_sub(self@, o@),
    {
        Vec3 { x: sat_sub(self.x, o.x), y: sat_sub(self.y, o.y), z: sat_sub(self.z, o.z) }
    }

    pub fn vscale(self, s: i64) -> (r: Vec3)
        ensures
            r@ == v3_scale(self@, s as int),
    {
        Vec3 { x: fix_mul(self.x, s), y: fix_mul(self.y, s), z: fix_mul(self.z, s) }
    }

    /// The exact squared magnitude, computed without loss in `u128`.
    pub fn vmag2(self) -> (r: u128)
        ensures
            r as int == v3_mag2(self@),
            r as int <= 0xC0000000000000000000000000000000,
    {
        let sx: u128 = sq_u128(self.x);
        let sy: u128 = sq_u128(self.y);
        let sz: u128 = sq_u128(self.z);
        proof {
            assert(0 <= (self.x as int) * (self.x as int) <= 0x40000000000000000000000000000000)
                by (nonlinear_arith)
                requires
                    i64::MIN <= self.x <= i64::MAX,
            ;
            assert(0 <= (self.y as int) * (self.y as int) <= 0x40000000000000000000000000000000)
                by (nonlinear_arith)
                requires
                    i64::MIN <= self.y <= i64::MAX,
            ;
            assert(0 <= (self.z as int) * (self.z as int) <= 0x40000000000000000000000000000000)
                by (nonlinear_arith)
                requires
                    i64::MIN <= self.z <= i64::MAX,
            ;
        }
        sx + sy + sz
    }
}

} // verus!
