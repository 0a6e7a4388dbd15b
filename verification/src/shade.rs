//! Shading evaluator: a flat face normal from the fixed edge order
//! `cross(p2 - p0, p1 - p0)`, and a scalar intensity from a directional
//! light.  The normalization of the real-number formula is folded into one
//! division by the product of the two integer norms, so the sign of the
//! intensity is exactly the sign of the unnormalized dot product.

use crate::fixed::{
    abs_int, div_trunc_i128, isqrt_u128, lemma_sqrt_floor_converse, lemma_sqrt_floor_mono,
    lemma_trunc_div_bound, sqrt_floor, trunc_div, COORD_LIMIT, FP,
};
use crate::model::{vertex_in_range, Vertex};
use vstd::prelude::*;

verus! {

/// The unnormalized flat normal of the face `(p0, p1, p2)`:
/// `cross(p2 - p0, p1 - p0)`, edge order fixed by convention.
pub open spec fn spec_normal(p0: Vertex, p1: Vertex, p2: Vertex) -> (int, int, int) {
    let ax = p2.x - p0.x;
    let ay = p2.y - p0.y;
    let az = p2.z - p0.z;
    let bx = p1.x - p0.x;
    let by = p1.y - p0.y;
    let bz = p1.z - p0.z;
    (ay * bz - az * by, az * bx - ax * bz, ax * by - ay * bx)
}

pub open spec fn spec_dot3(a: (int, int, int), b: (int, int, int)) -> int {
    a.0 * b.0 + a.1 * b.1 + a.2 * b.2
}

pub open spec fn spec_norm2(a: (int, int, int)) -> int {
    a.0 * a.0 + a.1 * a.1 + a.2 * a.2
}

/// The fixed-point lighting intensity of a face: the cosine between the
/// flat normal and the light, scaled by `FP`, both norms taken as integer
/// square-root floors.  Zero when the normal or the light is the zero
/// vector (a degenerate face lights nothing, a zero light lights nothing);
/// the sign is exactly the sign of `dot(normal, light)`.
pub open spec fn spec_intensity(p0: Vertex, p1: Vertex, p2: Vertex, light: Vertex) -> int {
    let n = spec_normal(p0, p1, p2);
    let l = (light.x as int, light.y as int, light.z as int);
    if spec_norm2(n) == 0 || spec_norm2(l) == 0 {
        0
    } else {
        let sn = sqrt_floor(spec_norm2(n) as nat) as int;
        let sl = sqrt_floor(spec_norm2(l) as nat) as int;
        trunc_div(spec_dot3(n, l) * FP, sn * sl)
    }
}

/// A component is bounded by the square-root floor of any sum of squares it
/// contributes to.
proof fn lemma_component_le_sqrt(c: int, n2: int)
    requires
        c * c <= n2,
    ensures
        abs_int(c) <= sqrt_floor(n2 as nat),
{
    let a = abs_int(c);
    assert(a * a == c * c && a * a < (a + 1) * (a + 1)) by (nonlinear_arith)
        requires
            a == abs_int(c),
    ;
    lemma_sqrt_floor_converse((a * a) as nat, a as nat);
    lemma_sqrt_floor_mono((a * a) as nat, n2 as nat);
}

/// Computes the face intensity.  The result is exactly
/// [`spec_intensity`], and never exceeds `3 * FP` in magnitude.
pub fn face_intensity(p0: Vertex, p1: Vertex, p2: Vertex, light: Vertex) -> (r: i64)
    requires
        vertex_in_range(p0),
        vertex_in_range(p1),
        vertex_in_range(p2),
        vertex_in_range(light),
    ensures
        r == spec_intensity(p0, p1, p2, light),
        -3 * FP <= r <= 3 * FP,
{
    let ax: i64 = p2.x - p0.x;
    let ay: i64 = p2.y - p0.y;
    let az: i64 = p2.z - p0.z;
    let bx: i64 = p1.x - p0.x;
    let by: i64 = p1.y - p0.y;
    let bz: i64 = p1.z - p0.z;
    proof {
        let cc = 536870912int;
        assert(ay * bz <= cc * cc && -(cc * cc) <= ay * bz && az * by <= cc * cc && -(cc * cc)
            <= az * by && az * bx <= cc * cc && -(cc * cc) <= az * bx && ax * bz <= cc * cc && -(cc
            * cc) <= ax * bz && ax * by <= cc * cc && -(cc * cc) <= ax * by && ay * bx <= cc * cc
            && -(cc * cc) <= ay * bx) by (nonlinear_arith)
            requires
                -cc <= ax <= cc,
                -cc <= ay <= cc,
                -cc <= az <= cc,
                -cc <= bx <= cc,
                -cc <= by <= cc,
                -cc <= bz <= cc,
        ;
    }
    let nx: i128 = (ay as i128) * (bz as i128) - (az as i128) * (by as i128);
    let ny: i128 = (az as i128) * (bx as i128) - (ax as i128) * (bz as i128);
    let nz: i128 = (ax as i128) * (by as i128) - (ay as i128) * (bx as i128);
    proof {
        let nb = 576460752303423488int;  // 2^59
        assert(nx * nx <= nb * nb && 0 <= nx * nx && ny * ny <= nb * nb && 0 <= ny * ny && nz * nz
            <= nb * nb && 0 <= nz * nz) by (nonlinear_arith)
            requires
                -nb <= nx <= nb,
                -nb <= ny <= nb,
                -nb <= nz <= nb,
        ;
    }
    let n2: i128 = nx * nx + ny * ny + nz * nz;
    proof {
        let lc = 268435456int;
        assert(light.x * light.x <= lc * lc && 0 <= light.x * light.x && light.y * light.y <= lc
            * lc && 0 <= light.y * light.y && light.z * light.z <= lc * lc && 0 <= light.z * light.z)
            by (nonlinear_arith)
            requires
                -lc <= light.x <= lc,
                -lc <= light.y <= lc,
                -lc <= light.z <= lc,
        ;
    }
    let l2: i128 = (light.x as i128) * (light.x as i128) + (light.y as i128) * (light.y as i128) + (
    light.z as i128) * (light.z as i128);
    if n2 == 0 || l2 == 0 {
        return 0;
    }
    let sn: u128 = isqrt_u128(n2 as u128);
    let sl: u128 = isqrt_u128(l2 as u128);
    proof {
        crate::fixed::lemma_sqrt_floor((n2 as u128) as nat);
        crate::fixed::lemma_sqrt_floor((l2 as u128) as nat);
        assert(sn >= 1) by (nonlinear_arith)
            requires
                (n2 as int) < ((sn as int) + 1) * ((sn as int) + 1),
                n2 >= 1,
                sn >= 0,
        ;
        assert(sl >= 1) by (nonlinear_arith)
            requires
                (l2 as int) < ((sl as int) + 1) * ((sl as int) + 1),
                l2 >= 1,
                sl >= 0,
        ;
        assert(sn <= 1152921504606846976int) by (nonlinear_arith)
            requires
                (sn as int) * (sn as int) <= n2 as int,
                n2 <= 3 * 576460752303423488int * 576460752303423488int,
                sn >= 0,
        ;
        assert(sl <= 1073741824int) by (nonlinear_arith)
            requires
                (sl as int) * (sl as int) <= l2 as int,
                l2 <= 3 * 268435456int * 268435456int,
                sl >= 0,
        ;
        lemma_component_le_sqrt(nx as int, n2 as int);
        lemma_component_le_sqrt(ny as int, n2 as int);
        lemma_component_le_sqrt(nz as int, n2 as int);
        lemma_component_le_sqrt(light.x as int, l2 as int);
        lemma_component_le_sqrt(light.y as int, l2 as int);
        lemma_component_le_sqrt(light.z as int, l2 as int);
        assert(abs_int(nx * (light.x as i128)) <= (sn as int) * (sl as int) && abs_int(
            ny * (light.y as i128),
        ) <= (sn as int) * (sl as int) && abs_int(nz * (light.z as i128)) <= (sn as int) * (
        sl as int)) by (nonlinear_arith)
            requires
                abs_int(nx as int) <= sn as int,
                abs_int(ny as int) <= sn as int,
                abs_int(nz as int) <= sn as int,
                abs_int(light.x as int) <= sl as int,
                abs_int(light.y as int) <= sl as int,
                abs_int(light.z as int) <= sl as int,
                0 <= sn as int,
                0 <= sl as int,
        ;
        // numeric headroom for the products below
        let nb = 576460752303423488int;
        let lc = 268435456int;
        assert(nx * (light.x as i128) <= nb * lc && -(nb * lc) <= nx * (light.x as i128) && ny * (
        light.y as i128) <= nb * lc && -(nb * lc) <= ny * (light.y as i128) && nz * (
        light.z as i128) <= nb * lc && -(nb * lc) <= nz * (light.z as i128)) by (nonlinear_arith)
            requires
                -nb <= nx <= nb,
                -nb <= ny <= nb,
                -nb <= nz <= nb,
                -lc <= light.x <= lc,
                -lc <= light.y <= lc,
                -lc <= light.z <= lc,
        ;
        assert((sn as int) * (sl as int) <= 1152921504606846976int * 1073741824int && 1 <= (
        sn as int) * (sl as int)) by (nonlinear_arith)
            requires
                1 <= sn as int <= 1152921504606846976int,  // 2^60
                1 <= sl as int <= 1073741824int,  // 2^30
        ;
    }
    let d: i128 = nx * (light.x as i128) + ny * (light.y as i128) + nz * (light.z as i128);
    let denom: i128 = (sn as i128) * (sl as i128);
    proof {
        let db = 30423614405477505635920876929024int;  // 3 * 2^59 * 2^28 * 2^16
        assert(d * (FP as i128) <= db && -db <= d * (FP as i128)) by (nonlinear_arith)
            requires
                -3 * 576460752303423488int * 268435456int <= d <= 3 * 576460752303423488int
                    * 268435456int,
                FP == 65536,
                db == 30423614405477505635920876929024int,
        ;
        assert(abs_int(d * (FP as i128)) <= abs_int(denom as int) * (3 * FP)) by (nonlinear_arith)
            requires
                abs_int(d as int) <= 3 * (denom as int),
                1 <= denom as int,
                FP == 65536,
        ;
        lemma_trunc_div_bound(d * (FP as i128), denom as int, 3 * FP);
    }
    let q: i128 = div_trunc_i128(d * FP as i128, denom);
    proof {
        assert(q == spec_intensity(p0, p1, p2, light));
    }
    q as i64
}

} // verus!
