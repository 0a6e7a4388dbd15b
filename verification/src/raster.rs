//! Rasterizer: barycentric weights over integer pixel coordinates, the
//! depth-tested triangle fill, and nearest-neighbour texture sampling.
//!
//! Projected corners land on integer pixels, so the signed-area quantities
//! here are exact integers; a triangle is degenerate exactly when its signed
//! area is zero, and the barycentric weights are kept as exact rationals
//! (numerators over the signed area) instead of floats.

use crate::fixed::{abs_int, div_trunc_i128, lemma_trunc_div_bound, trunc_div, COORD_LIMIT, FP};
use crate::model::{texture_wf, Texture};
use crate::utils::Colour;
use vstd::arithmetic::div_mod::lemma_div_is_ordered;
use vstd::prelude::*;

verus! {

/// A fill-ready triangle: projected pixel coordinates of the three corners
/// and their retained world-space depths (fixed-point).
#[derive(Clone, Copy, Debug)]
pub struct ProjTri {
    pub x0: i64,
    pub y0: i64,
    pub z0: i64,
    pub x1: i64,
    pub y1: i64,
    pub z1: i64,
    pub x2: i64,
    pub y2: i64,
    pub z2: i64,
}

/// Texture coordinates of the three corners, fixed-point.
#[derive(Clone, Copy, Debug)]
pub struct TexTri {
    pub u0: i64,
    pub v0: i64,
    pub u1: i64,
    pub v1: i64,
    pub u2: i64,
    pub v2: i64,
}

/// Projected coordinates stay well below this bound, which keeps every
/// product of the fill arithmetic inside 128 bits.
pub const PROJ_LIMIT: i64 = 8589934592;

/// Bound on every barycentric weight numerator and on the signed area, for
/// triangles and pixels within `PROJ_LIMIT`.
pub const BARY_BOUND: i128 = 1770887431076116955136;

pub open spec fn tri_in_range(t: ProjTri) -> bool {
    &&& -PROJ_LIMIT <= t.x0 <= PROJ_LIMIT && -PROJ_LIMIT <= t.y0 <= PROJ_LIMIT
    &&& -PROJ_LIMIT <= t.x1 <= PROJ_LIMIT && -PROJ_LIMIT <= t.y1 <= PROJ_LIMIT
    &&& -PROJ_LIMIT <= t.x2 <= PROJ_LIMIT && -PROJ_LIMIT <= t.y2 <= PROJ_LIMIT
    &&& -COORD_LIMIT <= t.z0 <= COORD_LIMIT
    &&& -COORD_LIMIT <= t.z1 <= COORD_LIMIT
    &&& -COORD_LIMIT <= t.z2 <= COORD_LIMIT
}

pub open spec fn tex_tri_in_range(tc: TexTri) -> bool {
    &&& -COORD_LIMIT <= tc.u0 <= COORD_LIMIT && -COORD_LIMIT <= tc.v0 <= COORD_LIMIT
    &&& -COORD_LIMIT <= tc.u1 <= COORD_LIMIT && -COORD_LIMIT <= tc.v1 <= COORD_LIMIT
    &&& -COORD_LIMIT <= tc.u2 <= COORD_LIMIT && -COORD_LIMIT <= tc.v2 <= COORD_LIMIT
}

/// Twice the signed area of the projected triangle.  Zero exactly when the
/// three projected corners are collinear.
pub open spec fn bary_den(t: ProjTri) -> int {
    (t.x2 - t.x0) * (t.y1 - t.y0) - (t.x1 - t.x0) * (t.y2 - t.y0)
}

/// Numerator of the third barycentric weight at pixel `(px, py)`.
pub open spec fn bary_ux(t: ProjTri, px: int, py: int) -> int {
    (t.x1 - t.x0) * (t.y0 - py) - (t.x0 - px) * (t.y1 - t.y0)
}

/// Numerator of the second barycentric weight at pixel `(px, py)`.
pub open spec fn bary_uy(t: ProjTri, px: int, py: int) -> int {
    (t.x0 - px) * (t.y2 - t.y0) - (t.x2 - t.x0) * (t.y0 - py)
}

/// Numerator of the first barycentric weight: the three numerators sum to
/// the denominator, so the three weights sum to one.
pub open spec fn bary_w0(t: ProjTri, px: int, py: int) -> int {
    bary_den(t) - bary_ux(t, px, py) - bary_uy(t, px, py)
}

/// The pixel lies in the triangle: the triangle is not degenerate and all
/// three weights are at least zero (each numerator has the sign of the
/// denominator).  Edge pixels belong to every triangle they touch; ties
/// between neighbours sharing an edge are deliberately left unresolved.
pub open spec fn covers(t: ProjTri, px: int, py: int) -> bool {
    let d = bary_den(t);
    let ux = bary_ux(t, px, py);
    let uy = bary_uy(t, px, py);
    let w0 = bary_w0(t, px, py);
    &&& d != 0
    &&& if d > 0 {
        ux >= 0 && uy >= 0 && w0 >= 0
    } else {
        ux <= 0 && uy <= 0 && w0 <= 0
    }
}

/// Depth interpolated across the triangle at pixel `(px, py)`: the
/// barycentric combination of the three corner depths, truncated.
pub open spec fn spec_depth(t: ProjTri, px: int, py: int) -> int {
    trunc_div(
        bary_w0(t, px, py) * t.z0 + bary_uy(t, px, py) * t.z1 + bary_ux(t, px, py) * t.z2,
        bary_den(t),
    )
}

/// Exact barycentric weight numerators, or `None` when the projected
/// triangle is degenerate.  With integer corners the coarse epsilon of a
/// float signed-area test collapses to an exact zero test.
pub fn barycentric(t: &ProjTri, px: i64, py: i64) -> (r: Option<(i128, i128, i128, i128)>)
    requires
        tri_in_range(*t),
        -PROJ_LIMIT <= px <= PROJ_LIMIT,
        -PROJ_LIMIT <= py <= PROJ_LIMIT,
    ensures
        r.is_some() <==> bary_den(*t) != 0,
        match r {
            Some(b) => b.0 == bary_w0(*t, px as int, py as int) && b.1 == bary_uy(
                *t,
                px as int,
                py as int,
            ) && b.2 == bary_ux(*t, px as int, py as int) && b.3 == bary_den(*t)
                && -BARY_BOUND <= b.0 <= BARY_BOUND && -BARY_BOUND <= b.1 <= BARY_BOUND
                && -BARY_BOUND <= b.2 <= BARY_BOUND && -BARY_BOUND <= b.3 <= BARY_BOUND,
            None => true,
        },
{
    let x0 = t.x0 as i128;
    let y0 = t.y0 as i128;
    let x1 = t.x1 as i128;
    let y1 = t.y1 as i128;
    let x2 = t.x2 as i128;
    let y2 = t.y2 as i128;
    let p0 = px as i128;
    let p1 = py as i128;
    proof {
        let bb = 17179869184int;
        assert((x2 - x0) * (y1 - y0) <= bb * bb && -(bb * bb) <= (x2 - x0) * (y1 - y0) && (x1
            - x0) * (y2 - y0) <= bb * bb && -(bb * bb) <= (x1 - x0) * (y2 - y0) && (x1 - x0) * (y0
            - p1) <= bb * bb && -(bb * bb) <= (x1 - x0) * (y0 - p1) && (x0 - p0) * (y1 - y0) <= bb
            * bb && -(bb * bb) <= (x0 - p0) * (y1 - y0) && (x0 - p0) * (y2 - y0) <= bb * bb && -(bb
            * bb) <= (x0 - p0) * (y2 - y0) && (x2 - x0) * (y0 - p1) <= bb * bb && -(bb * bb) <= (x2
            - x0) * (y0 - p1)) by (nonlinear_arith)
            requires
                -bb <= x2 - x0 <= bb,
                -bb <= y1 - y0 <= bb,
                -bb <= x1 - x0 <= bb,
                -bb <= y2 - y0 <= bb,
                -bb <= y0 - p1 <= bb,
                -bb <= x0 - p0 <= bb,
        ;
    }
    let den: i128 = (x2 - x0) * (y1 - y0) - (x1 - x0) * (y2 - y0);
    if den == 0 {
        None
    } else {
        let ux: i128 = (x1 - x0) * (y0 - p1) - (x0 - p0) * (y1 - y0);
        let uy: i128 = (x0 - p0) * (y2 - y0) - (x2 - x0) * (y0 - p1);
        let w0: i128 = den - ux - uy;
        Some((w0, uy, ux, den))
    }
}

/// At the triangle's own corners the weight numerators are exactly
/// `(den, 0, 0)`, `(0, den, 0)` and `(0, 0, den)`: dividing by the signed
/// area, the barycentric weights evaluate to `(1, 0, 0)`, `(0, 1, 0)` and
/// `(0, 0, 1)` respectively.
pub proof fn lemma_barycentric_at_vertices(t: ProjTri)
    requires
        bary_den(t) != 0,
    ensures
        bary_w0(t, t.x0 as int, t.y0 as int) == bary_den(t),
        bary_uy(t, t.x0 as int, t.y0 as int) == 0,
        bary_ux(t, t.x0 as int, t.y0 as int) == 0,
        bary_w0(t, t.x1 as int, t.y1 as int) == 0,
        bary_uy(t, t.x1 as int, t.y1 as int) == bary_den(t),
        bary_ux(t, t.x1 as int, t.y1 as int) == 0,
        bary_w0(t, t.x2 as int, t.y2 as int) == 0,
        bary_uy(t, t.x2 as int, t.y2 as int) == 0,
        bary_ux(t, t.x2 as int, t.y2 as int) == bary_den(t),
        covers(t, t.x0 as int, t.y0 as int),
        covers(t, t.x1 as int, t.y1 as int),
        covers(t, t.x2 as int, t.y2 as int),
{
    let x0 = t.x0 as int;
    let y0 = t.y0 as int;
    let x1 = t.x1 as int;
    let y1 = t.y1 as int;
    let x2 = t.x2 as int;
    let y2 = t.y2 as int;
    assert((x1 - x0) * (y0 - y0) - (x0 - x0) * (y1 - y0) == 0) by (nonlinear_arith);
    assert((x0 - x0) * (y2 - y0) - (x2 - x0) * (y0 - y0) == 0) by (nonlinear_arith);
    assert((x1 - x0) * (y0 - y1) - (x0 - x1) * (y1 - y0) == 0) by (nonlinear_arith);
    assert((x0 - x1) * (y2 - y0) - (x2 - x0) * (y0 - y1) == (x2 - x0) * (y1 - y0) - (x1 - x0) * (y2
        - y0)) by (nonlinear_arith);
    assert((x0 - x2) * (y2 - y0) - (x2 - x0) * (y0 - y2) == 0) by (nonlinear_arith);
    assert((x1 - x0) * (y0 - y2) - (x0 - x2) * (y1 - y0) == (x2 - x0) * (y1 - y0) - (x1 - x0) * (y2
        - y0)) by (nonlinear_arith);
}

/// Wrapping fraction of a fixed-point value: `|a| mod FP`, mirroring
/// `fract(|a|)` on reals.
pub open spec fn frac_units(a: int) -> int {
    abs_int(a) % (FP as int)
}

/// Nearest-neighbour texel index along one axis: the wrapped fraction scaled
/// by the texture size, truncated and clamped to the last texel.
pub open spec fn tex_axis_index(a: int, size: int) -> int {
    let i = frac_units(a) * size / (FP as int);
    if i <= size - 1 {
        i
    } else {
        size - 1
    }
}

/// The texel sampled at interpolated texture coordinates `(u, v)`; `v` is
/// flipped to match image row order.
pub open spec fn spec_texel(tex: Texture, u: int, v: int) -> Colour {
    let tx = tex_axis_index(u, tex.width as int);
    let ty = tex_axis_index(FP - v, tex.height as int);
    tex.pixels@[ty * tex.width + tx]
}

/// One colour channel scaled by the face intensity, clamped to 255.
pub open spec fn modulate_channel(c: int, intensity: int) -> int {
    let m = c * intensity / (FP as int);
    if m <= 255 {
        m
    } else {
        255
    }
}

/// The flat greyscale shade of an untextured face of the given intensity.
pub open spec fn spec_shade_flat(intensity: int) -> Colour {
    let v = modulate_channel(255, intensity);
    Colour { r: v as u8, g: v as u8, b: v as u8 }
}

pub fn shade_flat(intensity: i64) -> (c: Colour)
    requires
        0 <= intensity <= 3 * FP,
    ensures
        c == spec_shade_flat(intensity as int),
{
    let m = intensity * 255 / FP;
    let v: u8 = if m <= 255 {
        m as u8
    } else {
        255
    };
    proof {
        assert(intensity * 255 == 255 * intensity) by (nonlinear_arith);
        assert(0 <= 255 * intensity <= 255 * 3 * 65536) by (nonlinear_arith)
            requires
                0 <= intensity <= 3 * 65536,
        ;
        lemma_div_is_ordered(0, 255 * (intensity as int), FP as int);
    }
    Colour { r: v, g: v, b: v }
}

pub fn modulate(c: u8, intensity: i64) -> (r: u8)
    requires
        0 <= intensity <= 3 * FP,
    ensures
        r == modulate_channel(c as int, intensity as int),
{
    proof {
        assert(0 <= (c as int) * intensity <= 255 * 3 * 65536) by (nonlinear_arith)
            requires
                0 <= intensity <= 3 * 65536,
                0 <= (c as int) <= 255,
        ;
        lemma_div_is_ordered(0, (c as int) * (intensity as int), FP as int);
    }
    let m = (c as i64) * intensity / FP;
    if m <= 255 {
        m as u8
    } else {
        255
    }
}

/// Samples the texture at fixed-point coordinates `(u, v)` by
/// nearest-neighbour lookup with fractional wrap.
pub fn sample_texel(tex: &Texture, u: i64, v: i64) -> (c: Colour)
    requires
        texture_wf(*tex),
        -4 * COORD_LIMIT <= u <= 4 * COORD_LIMIT,
        -4 * COORD_LIMIT <= v <= 4 * COORD_LIMIT,
    ensures
        c == spec_texel(*tex, u as int, v as int),
{
    let tw = tex.width as u64;
    let th = tex.height as u64;
    let au: u64 = if u < 0 {
        (-u) as u64
    } else {
        u as u64
    };
    let fu: u64 = au % (FP as u64);
    proof {
        assert(fu * tw <= 65535 * 4294967295 && 0 <= fu * tw) by (nonlinear_arith)
            requires
                0 <= fu <= 65535,
                0 <= tw <= 4294967295,
        ;
    }
    let txq: u64 = fu * tw / (FP as u64);
    let tx: u64 = if txq <= tw - 1 {
        txq
    } else {
        tw - 1
    };
    let vflip: i64 = FP - v;
    let av: u64 = if vflip < 0 {
        (-vflip) as u64
    } else {
        vflip as u64
    };
    let fv: u64 = av % (FP as u64);
    proof {
        assert(fv * th <= 65535 * 4294967295 && 0 <= fv * th) by (nonlinear_arith)
            requires
                0 <= fv <= 65535,
                0 <= th <= 4294967295,
        ;
    }
    let tyq: u64 = fv * th / (FP as u64);
    let ty: u64 = if tyq <= th - 1 {
        tyq
    } else {
        th - 1
    };
    proof {
        assert(ty * tw + tx < tw * th) by (nonlinear_arith)
            requires
                0 <= tx < tw,
                0 <= ty < th,
        ;
        assert(ty * tw + tx <= 4294967295 * 4294967295) by (nonlinear_arith)
            requires
                0 <= tx < tw <= 4294967295,
                0 <= ty < th <= 4294967295,
        ;
    }
    proof {
        assert(au as int == abs_int(u as int));
        assert(fu as int == frac_units(u as int));
        assert(txq as int == frac_units(u as int) * (tex.width as int) / (FP as int));
        assert(tx as int == tex_axis_index(u as int, tex.width as int));
        assert(av as int == abs_int(FP - v as int));
        assert(fv as int == frac_units(FP - v as int));
        assert(ty as int == tex_axis_index(FP - v as int, tex.height as int));
    }
    let idx: u64 = ty * tw + tx;
    let n = tex.pixels.len();
    proof {
        assert((idx as int) < (n as int));
    }
    let c = tex.pixels[idx as usize];
    proof {
        assert(tex.pixels@[idx as int] == spec_texel(*tex, u as int, v as int));
    }
    c
}

/// Row-major index of pixel `(px, py)` in a buffer of width `w`.
pub open spec fn pix(w: int, px: int, py: int) -> int {
    py * w + px
}

pub proof fn lemma_pix_injective(w: int, px1: int, py1: int, px2: int, py2: int)
    requires
        0 <= px1 < w,
        0 <= px2 < w,
        pix(w, px1, py1) == pix(w, px2, py2),
    ensures
        px1 == px2,
        py1 == py2,
{
    assert(px1 == px2 && py1 == py2) by (nonlinear_arith)
        requires
            py1 * w + px1 == py2 * w + px2,
            0 <= px1 < w,
            0 <= px2 < w,
    ;
}

pub proof fn lemma_pix_bound(w: int, h: int, px: int, py: int)
    requires
        0 <= px < w,
        0 <= py < h,
    ensures
        0 <= pix(w, px, py) < w * h,
{
    assert(0 <= py * w + px < w * h) by (nonlinear_arith)
        requires
            0 <= px < w,
            0 <= py < h,
    ;
}

pub open spec fn min3(a: int, b: int, c: int) -> int {
    if a <= b && a <= c {
        a
    } else if b <= c {
        b
    } else {
        c
    }
}

pub open spec fn max3(a: int, b: int, c: int) -> int {
    if a >= b && a >= c {
        a
    } else if b >= c {
        b
    } else {
        c
    }
}

/// Left edge of the clipped pixel bounding box of the triangle.
pub open spec fn bbox_min_x(t: ProjTri) -> int {
    let m = min3(t.x0 as int, t.x1 as int, t.x2 as int);
    if m >= 0 {
        m
    } else {
        0
    }
}

pub open spec fn bbox_max_x(t: ProjTri, w: int) -> int {
    let m = max3(t.x0 as int, t.x1 as int, t.x2 as int);
    if m <= w - 1 {
        m
    } else {
        w - 1
    }
}

pub open spec fn bbox_min_y(t: ProjTri) -> int {
    let m = min3(t.y0 as int, t.y1 as int, t.y2 as int);
    if m >= 0 {
        m
    } else {
        0
    }
}

pub open spec fn bbox_max_y(t: ProjTri, h: int) -> int {
    let m = max3(t.y0 as int, t.y1 as int, t.y2 as int);
    if m <= h - 1 {
        m
    } else {
        h - 1
    }
}

pub open spec fn in_bbox(t: ProjTri, w: int, h: int, px: int, py: int) -> bool {
    bbox_min_x(t) <= px <= bbox_max_x(t, w) && bbox_min_y(t) <= py <= bbox_max_y(t, h)
}

/// The fill visits pixel `(px, py)` and its depth beats the buffer: the
/// pixel is inside the clipped bounding box, the weights admit it, and its
/// interpolated depth is strictly greater than the depth stored before the
/// call.
pub open spec fn draws(t: ProjTri, w: int, h: int, oldz: int, px: int, py: int) -> bool {
    in_bbox(t, w, h, px, py) && covers(t, px, py) && spec_depth(t, px, py) > oldz
}

/// Interpolated texture coordinate across the triangle (`cs` holds the
/// values at the three corners in corner order).
pub open spec fn spec_interp(t: ProjTri, px: int, py: int, c0: int, c1: int, c2: int) -> int {
    trunc_div(
        bary_w0(t, px, py) * c0 + bary_uy(t, px, py) * c1 + bary_ux(t, px, py) * c2,
        bary_den(t),
    )
}

/// Plain values behind optional references, for use in specifications.
pub open spec fn opt_tex(o: Option<&Texture>) -> Option<Texture> {
    match o {
        Some(t) => Some(*t),
        None => None,
    }
}

pub open spec fn opt_tc(o: Option<&TexTri>) -> Option<TexTri> {
    match o {
        Some(t) => Some(*t),
        None => None,
    }
}

/// The colour the fill writes at a drawn pixel: a sampled texel modulated by
/// the face intensity when a texture and coordinates are both at hand, the
/// flat greyscale shade otherwise.
pub open spec fn spec_pixel_colour(
    t: ProjTri,
    texture: Option<Texture>,
    tcs: Option<TexTri>,
    intensity: int,
    px: int,
    py: int,
) -> Colour {
    match (texture, tcs) {
        (Some(tex), Some(tc)) => {
            let u = spec_interp(t, px, py, tc.u0 as int, tc.u1 as int, tc.u2 as int);
            let v = spec_interp(t, px, py, tc.v0 as int, tc.v1 as int, tc.v2 as int);
            let s = spec_texel(tex, u, v);
            Colour {
                r: modulate_channel(s.r as int, intensity) as u8,
                g: modulate_channel(s.g as int, intensity) as u8,
                b: modulate_channel(s.b as int, intensity) as u8,
            }
        },
        _ => spec_shade_flat(intensity),
    }
}

/// What holds of one pixel after the fill: drawn pixels carry the
/// interpolated depth and the resolved colour, all others are untouched.
pub open spec fn filled_at(
    t: ProjTri,
    texture: Option<Texture>,
    tcs: Option<TexTri>,
    intensity: int,
    w: int,
    h: int,
    old_img: Seq<Colour>,
    old_z: Seq<i64>,
    img: Seq<Colour>,
    z: Seq<i64>,
    px: int,
    py: int,
) -> bool {
    let i = pix(w, px, py);
    if draws(t, w, h, old_z[i] as int, px, py) {
        img[i] == spec_pixel_colour(t, texture, tcs, intensity, px, py) && z[i] == spec_depth(
            t,
            px,
            py,
        )
    } else {
        img[i] == old_img[i] && z[i] == old_z[i]
    }
}

pub open spec fn untouched_at(
    old_img: Seq<Colour>,
    old_z: Seq<i64>,
    img: Seq<Colour>,
    z: Seq<i64>,
    w: int,
    px: int,
    py: int,
) -> bool {
    let i = pix(w, px, py);
    img[i] == old_img[i] && z[i] == old_z[i]
}

/// A degenerate triangle (collinear projected corners, zero signed area)
/// admits no pixel at all: the fill draws nothing.
pub proof fn lemma_degenerate_covers_nothing(t: ProjTri, px: int, py: int)
    requires
        bary_den(t) == 0,
    ensures
        !covers(t, px, py),
{
}

/// The weight numerators reconstruct the pixel: weighting each corner
/// coordinate and summing gives the pixel coordinate times the signed area.
proof fn lemma_bary_reconstruct(t: ProjTri, px: int, py: int)
    ensures
        bary_w0(t, px, py) * t.x0 + bary_uy(t, px, py) * t.x1 + bary_ux(t, px, py) * t.x2 == px
            * bary_den(t),
        bary_w0(t, px, py) * t.y0 + bary_uy(t, px, py) * t.y1 + bary_ux(t, px, py) * t.y2 == py
            * bary_den(t),
{
    let x0 = t.x0 as int;
    let y0 = t.y0 as int;
    let u1 = t.x1 - x0;
    let u2 = t.x2 - x0;
    let v1 = t.y1 - y0;
    let v2 = t.y2 - y0;
    let qx = x0 - px;
    let qy = y0 - py;
    let d = bary_den(t);
    let nx = bary_ux(t, px, py);
    let ny = bary_uy(t, px, py);
    assert(ny * u1 + nx * u2 + qx * d == 0) by (nonlinear_arith)
        requires
            d == u2 * v1 - u1 * v2,
            nx == u1 * qy - qx * v1,
            ny == qx * v2 - u2 * qy,
    ;
    assert(ny * v1 + nx * v2 + qy * d == 0) by (nonlinear_arith)
        requires
            d == u2 * v1 - u1 * v2,
            nx == u1 * qy - qx * v1,
            ny == qx * v2 - u2 * qy,
    ;
    assert((d - nx - ny) * x0 + ny * (x0 + u1) + nx * (x0 + u2) - (x0 - qx) * d == ny * u1 + nx
        * u2 + qx * d) by (nonlinear_arith);
    assert((d - nx - ny) * y0 + ny * (y0 + v1) + nx * (y0 + v2) - (y0 - qy) * d == ny * v1 + nx
        * v2 + qy * d) by (nonlinear_arith);
}

/// A convex combination is bounded by a bound on its points: if the three
/// weight numerators have the sign of `d` and sum to it, the combined value
/// stays at or below any common upper bound of the three points.
proof fn lemma_convex_le(
    n0: int,
    n1: int,
    n2: int,
    a0: int,
    a1: int,
    a2: int,
    d: int,
    p: int,
    hi: int,
)
    requires
        p * d == n0 * a0 + n1 * a1 + n2 * a2,
        d == n0 + n1 + n2,
        d != 0,
        d > 0 ==> n0 >= 0 && n1 >= 0 && n2 >= 0,
        d < 0 ==> n0 <= 0 && n1 <= 0 && n2 <= 0,
        a0 <= hi,
        a1 <= hi,
        a2 <= hi,
    ensures
        p <= hi,
{
    assert(n0 * hi + n1 * hi + n2 * hi == d * hi) by (nonlinear_arith)
        requires
            d == n0 + n1 + n2,
    ;
    if d > 0 {
        assert(n0 * a0 <= n0 * hi) by (nonlinear_arith)
            requires
                n0 >= 0,
                a0 <= hi,
        ;
        assert(n1 * a1 <= n1 * hi) by (nonlinear_arith)
            requires
                n1 >= 0,
                a1 <= hi,
        ;
        assert(n2 * a2 <= n2 * hi) by (nonlinear_arith)
            requires
                n2 >= 0,
                a2 <= hi,
        ;
        if p > hi {
            assert(hi * d < p * d) by (nonlinear_arith)
                requires
                    hi < p,
                    d > 0,
            ;
            assert(hi * d == d * hi) by (nonlinear_arith);
            assert(false);
        }
    } else {
        assert(n0 * a0 >= n0 * hi) by (nonlinear_arith)
            requires
                n0 <= 0,
                a0 <= hi,
        ;
        assert(n1 * a1 >= n1 * hi) by (nonlinear_arith)
            requires
                n1 <= 0,
                a1 <= hi,
        ;
        assert(n2 * a2 >= n2 * hi) by (nonlinear_arith)
            requires
                n2 <= 0,
                a2 <= hi,
        ;
        if p > hi {
            assert(hi * d > p * d) by (nonlinear_arith)
                requires
                    hi < p,
                    d < 0,
            ;
            assert(hi * d == d * hi) by (nonlinear_arith);
            assert(false);
        }
    }
}

/// Mirror of [`lemma_convex_le`] for a common lower bound.
proof fn lemma_convex_ge(
    n0: int,
    n1: int,
    n2: int,
    a0: int,
    a1: int,
    a2: int,
    d: int,
    p: int,
    lo: int,
)
    requires
        p * d == n0 * a0 + n1 * a1 + n2 * a2,
        d == n0 + n1 + n2,
        d != 0,
        d > 0 ==> n0 >= 0 && n1 >= 0 && n2 >= 0,
        d < 0 ==> n0 <= 0 && n1 <= 0 && n2 <= 0,
        a0 >= lo,
        a1 >= lo,
        a2 >= lo,
    ensures
        p >= lo,
{
    assert(n0 * lo + n1 * lo + n2 * lo == d * lo) by (nonlinear_arith)
        requires
            d == n0 + n1 + n2,
    ;
    if d > 0 {
        assert(n0 * a0 >= n0 * lo) by (nonlinear_arith)
            requires
                n0 >= 0,
                a0 >= lo,
        ;
        assert(n1 * a1 >= n1 * lo) by (nonlinear_arith)
            requires
                n1 >= 0,
                a1 >= lo,
        ;
        assert(n2 * a2 >= n2 * lo) by (nonlinear_arith)
            requires
                n2 >= 0,
                a2 >= lo,
        ;
        if p < lo {
            assert(lo * d > p * d) by (nonlinear_arith)
                requires
                    lo > p,
                    d > 0,
            ;
            assert(lo * d == d * lo) by (nonlinear_arith);
            assert(false);
        }
    } else {
        assert(n0 * a0 <= n0 * lo) by (nonlinear_arith)
            requires
                n0 <= 0,
                a0 >= lo,
        ;
        assert(n1 * a1 <= n1 * lo) by (nonlinear_arith)
            requires
                n1 <= 0,
                a1 >= lo,
        ;
        assert(n2 * a2 <= n2 * lo) by (nonlinear_arith)
            requires
                n2 <= 0,
                a2 >= lo,
        ;
        if p < lo {
            assert(lo * d < p * d) by (nonlinear_arith)
                requires
                    lo > p,
                    d < 0,
            ;
            assert(lo * d == d * lo) by (nonlinear_arith);
            assert(false);
        }
    }
}

/// A covered pixel lies between the extreme corner coordinates on each
/// axis (nonnegative weights make it a convex combination of the corners),
/// so inside the viewport it lies in the clipped bounding box.
pub proof fn lemma_covers_in_bbox(t: ProjTri, w: int, h: int, px: int, py: int)
    requires
        covers(t, px, py),
        0 <= px < w,
        0 <= py < h,
    ensures
        in_bbox(t, w, h, px, py),
{
    lemma_bary_reconstruct(t, px, py);
    let d = bary_den(t);
    let n0 = bary_w0(t, px, py);
    let n1 = bary_uy(t, px, py);
    let n2 = bary_ux(t, px, py);
    let lo_x = min3(t.x0 as int, t.x1 as int, t.x2 as int);
    let hi_x = max3(t.x0 as int, t.x1 as int, t.x2 as int);
    let lo_y = min3(t.y0 as int, t.y1 as int, t.y2 as int);
    let hi_y = max3(t.y0 as int, t.y1 as int, t.y2 as int);
    lemma_convex_le(n0, n1, n2, t.x0 as int, t.x1 as int, t.x2 as int, d, px, hi_x);
    lemma_convex_ge(n0, n1, n2, t.x0 as int, t.x1 as int, t.x2 as int, d, px, lo_x);
    lemma_convex_le(n0, n1, n2, t.y0 as int, t.y1 as int, t.y2 as int, d, py, hi_y);
    lemma_convex_ge(n0, n1, n2, t.y0 as int, t.y1 as int, t.y2 as int, d, py, lo_y);
}

/// The interpolated depth of a covered pixel stays between the corner
/// depth bounds; in particular it always beats the depth-buffer sentinel.
pub proof fn lemma_depth_bounded(t: ProjTri, px: int, py: int)
    requires
        covers(t, px, py),
        tri_in_range(t),
    ensures
        -3 * COORD_LIMIT <= spec_depth(t, px, py) <= 3 * COORD_LIMIT,
        spec_depth(t, px, py) > i64::MIN,
{
    let d = bary_den(t);
    let n0 = bary_w0(t, px, py);
    let n1 = bary_uy(t, px, py);
    let n2 = bary_ux(t, px, py);
    let num = n0 * t.z0 + n1 * t.z1 + n2 * t.z2;
    assert(abs_int(n0) <= abs_int(d) && abs_int(n1) <= abs_int(d) && abs_int(n2) <= abs_int(d));
    assert(abs_int(num) <= abs_int(d) * (3 * COORD_LIMIT)) by (nonlinear_arith)
        requires
            num == n0 * t.z0 + n1 * t.z1 + n2 * t.z2,
            abs_int(n0) <= abs_int(d),
            abs_int(n1) <= abs_int(d),
            abs_int(n2) <= abs_int(d),
            -COORD_LIMIT <= t.z0 <= COORD_LIMIT,
            -COORD_LIMIT <= t.z1 <= COORD_LIMIT,
            -COORD_LIMIT <= t.z2 <= COORD_LIMIT,
            COORD_LIMIT == 268435456,
    ;
    lemma_trunc_div_bound(num, d, 3 * COORD_LIMIT);
}

/// Depth resolution is order-independent.  Start from a fresh depth slot
/// (the sentinel) and fill two triangles that both admit a pixel, one after
/// the other: the pixel ends up with the colour and depth of the triangle
/// whose interpolated depth is larger — whichever of the two was filled
/// first.  On a depth tie the first-filled triangle keeps the pixel (the
/// strictly-greater test rejects the second).
pub proof fn lemma_fill_order_independent(
    ta: ProjTri,
    texa: Option<Texture>,
    tca: Option<TexTri>,
    ia: int,
    tb: ProjTri,
    texb: Option<Texture>,
    tcb: Option<TexTri>,
    ib: int,
    w: int,
    h: int,
    img0: Seq<Colour>,
    z0: Seq<i64>,
    img1: Seq<Colour>,
    z1: Seq<i64>,
    img2: Seq<Colour>,
    z2: Seq<i64>,
    px: int,
    py: int,
)
    requires
        0 <= px < w,
        0 <= py < h,
        tri_in_range(ta),
        tri_in_range(tb),
        covers(ta, px, py),
        covers(tb, px, py),
        z0[pix(w, px, py)] == i64::MIN,
        filled_at(ta, texa, tca, ia, w, h, img0, z0, img1, z1, px, py),
        filled_at(tb, texb, tcb, ib, w, h, img1, z1, img2, z2, px, py),
    ensures
        spec_depth(ta, px, py) >= spec_depth(tb, px, py) ==> img2[pix(w, px, py)]
            == spec_pixel_colour(ta, texa, tca, ia, px, py) && z2[pix(w, px, py)] == spec_depth(
            ta,
            px,
            py,
        ),
        spec_depth(ta, px, py) < spec_depth(tb, px, py) ==> img2[pix(w, px, py)]
            == spec_pixel_colour(tb, texb, tcb, ib, px, py) && z2[pix(w, px, py)] == spec_depth(
            tb,
            px,
            py,
        ),
{
    lemma_covers_in_bbox(ta, w, h, px, py);
    lemma_covers_in_bbox(tb, w, h, px, py);
    lemma_depth_bounded(ta, px, py);
    lemma_depth_bounded(tb, px, py);
    assert(draws(ta, w, h, z0[pix(w, px, py)] as int, px, py));
}

/// Depth-tested barycentric fill of one triangle, optionally sampling a
/// texture.  Every pixel of the clipped bounding box whose weights admit it
/// and whose interpolated depth strictly beats the depth buffer receives its
/// resolved colour and depth; every other pixel of both buffers is left
/// exactly as it was.
pub fn draw_triangle(
    img: &mut Vec<Colour>,
    z_buffer: &mut Vec<i64>,
    w: u32,
    h: u32,
    t: &ProjTri,
    texture: Option<&Texture>,
    tcs: Option<&TexTri>,
    light_intensity: i64,
)
    requires
        old(img)@.len() == (w as int) * (h as int),
        old(z_buffer)@.len() == (w as int) * (h as int),
        tri_in_range(*t),
        match texture {
            Some(tex) => texture_wf(*tex),
            None => true,
        },
        match tcs {
            Some(tc) => tex_tri_in_range(*tc),
            None => true,
        },
        0 < light_intensity <= 3 * FP,
    ensures
        final(img)@.len() == old(img)@.len(),
        final(z_buffer)@.len() == old(z_buffer)@.len(),
        forall|px: int, py: int|
            #![trigger pix(w as int, px, py)]
            0 <= px < w && 0 <= py < h ==> filled_at(
                *t,
                opt_tex(texture),
                opt_tc(tcs),
                light_intensity as int,
                w as int,
                h as int,
                old(img)@,
                old(z_buffer)@,
                final(img)@,
                final(z_buffer)@,
                px,
                py,
            ),
{
    let wi = w as i64;
    let hi = h as i64;
    let mut mnx = t.x0;
    if t.x1 < mnx {
        mnx = t.x1;
    }
    if t.x2 < mnx {
        mnx = t.x2;
    }
    let mut mxx = t.x0;
    if t.x1 > mxx {
        mxx = t.x1;
    }
    if t.x2 > mxx {
        mxx = t.x2;
    }
    let mut mny = t.y0;
    if t.y1 < mny {
        mny = t.y1;
    }
    if t.y2 < mny {
        mny = t.y2;
    }
    let mut mxy = t.y0;
    if t.y1 > mxy {
        mxy = t.y1;
    }
    if t.y2 > mxy {
        mxy = t.y2;
    }
    let min_x: i64 = if mnx < 0 {
        0
    } else {
        mnx
    };
    let max_x: i64 = if mxx > wi - 1 {
        wi - 1
    } else {
        mxx
    };
    let min_y: i64 = if mny < 0 {
        0
    } else {
        mny
    };
    let max_y: i64 = if mxy > hi - 1 {
        hi - 1
    } else {
        mxy
    };
    proof {
        assert(min_x == bbox_min_x(*t));
        assert(max_x == bbox_max_x(*t, w as int));
        assert(min_y == bbox_min_y(*t));
        assert(max_y == bbox_max_y(*t, h as int));
    }
    let mut y: i64 = min_y;
    while y <= max_y
        invariant
            old(img)@.len() == (w as int) * (h as int),
            old(z_buffer)@.len() == (w as int) * (h as int),
            img@.len() == old(img)@.len(),
            z_buffer@.len() == old(z_buffer)@.len(),
            tri_in_range(*t),
            match texture {
                Some(tex) => texture_wf(*tex),
                None => true,
            },
            match tcs {
                Some(tc) => tex_tri_in_range(*tc),
                None => true,
            },
            0 < light_intensity <= 3 * FP,
            wi == w as i64,
            hi == h as i64,
            min_x == bbox_min_x(*t),
            max_x == bbox_max_x(*t, w as int),
            min_y == bbox_min_y(*t),
            max_y == bbox_max_y(*t, h as int),
            min_y <= y,
            y <= max_y + 1 || y == min_y,
            forall|px: int, py: int|
                #![trigger pix(w as int, px, py)]
                0 <= px < w && 0 <= py < h && py < y ==> filled_at(
                    *t,
                    opt_tex(texture),
                    opt_tc(tcs),
                    light_intensity as int,
                    w as int,
                    h as int,
                    old(img)@,
                    old(z_buffer)@,
                    img@,
                    z_buffer@,
                    px,
                    py,
                ),
            forall|px: int, py: int|
                #![trigger pix(w as int, px, py)]
                0 <= px < w && 0 <= py < h && py >= y ==> untouched_at(
                    old(img)@,
                    old(z_buffer)@,
                    img@,
                    z_buffer@,
                    w as int,
                    px,
                    py,
                ),
        decreases hi - y,
    {
        let mut x: i64 = min_x;
        while x <= max_x
            invariant
                old(img)@.len() == (w as int) * (h as int),
                old(z_buffer)@.len() == (w as int) * (h as int),
                img@.len() == old(img)@.len(),
                z_buffer@.len() == old(z_buffer)@.len(),
                tri_in_range(*t),
                match texture {
                    Some(tex) => texture_wf(*tex),
                    None => true,
                },
                match tcs {
                    Some(tc) => tex_tri_in_range(*tc),
                    None => true,
                },
                0 < light_intensity <= 3 * FP,
                wi == w as i64,
                hi == h as i64,
                min_x == bbox_min_x(*t),
                max_x == bbox_max_x(*t, w as int),
                min_y == bbox_min_y(*t),
                max_y == bbox_max_y(*t, h as int),
                min_y <= y <= max_y,
                min_x <= x,
                x <= max_x + 1 || x == min_x,
                forall|px: int, py: int|
                    #![trigger pix(w as int, px, py)]
                    0 <= px < w && 0 <= py < h && (py < y || (py == y && px < x)) ==> filled_at(
                        *t,
                        opt_tex(texture),
                        opt_tc(tcs),
                        light_intensity as int,
                        w as int,
                        h as int,
                        old(img)@,
                        old(z_buffer)@,
                        img@,
                        z_buffer@,
                        px,
                        py,
                    ),
                forall|px: int, py: int|
                    #![trigger pix(w as int, px, py)]
                    0 <= px < w && 0 <= py < h && (py > y || (py == y && px >= x)) ==> untouched_at(
                        old(img)@,
                        old(z_buffer)@,
                        img@,
                        z_buffer@,
                        w as int,
                        px,
                        py,
                    ),
            decreases wi - x,
        {
            proof {
                lemma_pix_bound(w as int, h as int, x as int, y as int);
                assert(pix(w as int, x as int, y as int) < img@.len());
            }
            let _len_now = img.len();
            let idx: usize = ((x as u64) + (y as u64) * (w as u64)) as usize;
            proof {
                assert(idx == pix(w as int, x as int, y as int));
            }
            let ghost old_img_snap = img@;
            let ghost old_z_snap = z_buffer@;
            match barycentric(t, x, y) {
                None => {
                    proof {
                        assert(!covers(*t, x as int, y as int));
                    }
                },
                Some(b) => {
                    let inside = if b.3 > 0 {
                        b.0 >= 0 && b.1 >= 0 && b.2 >= 0
                    } else {
                        b.0 <= 0 && b.1 <= 0 && b.2 <= 0
                    };
                    if inside {
                        proof {
                            assert(covers(*t, x as int, y as int));
                            assert(abs_int(b.0 as int) <= abs_int(b.3 as int));
                            assert(abs_int(b.1 as int) <= abs_int(b.3 as int));
                            assert(abs_int(b.2 as int) <= abs_int(b.3 as int));
                            assert(b.0 * (t.z0 as i128) + b.1 * (t.z1 as i128) + b.2 * (
                            t.z2 as i128) == bary_w0(*t, x as int, y as int) * t.z0 + bary_uy(
                                *t,
                                x as int,
                                y as int,
                            ) * t.z1 + bary_ux(*t, x as int, y as int) * t.z2);
                            assert(abs_int(b.0 * (t.z0 as i128)) <= abs_int(b.3 as int)
                                * COORD_LIMIT && abs_int(b.1 * (t.z1 as i128)) <= abs_int(
                                b.3 as int,
                            ) * COORD_LIMIT && abs_int(b.2 * (t.z2 as i128)) <= abs_int(b.3 as int)
                                * COORD_LIMIT && abs_int(b.0 * (t.z0 as i128)) <= BARY_BOUND
                                * COORD_LIMIT && abs_int(b.1 * (t.z1 as i128)) <= BARY_BOUND
                                * COORD_LIMIT && abs_int(b.2 * (t.z2 as i128)) <= BARY_BOUND
                                * COORD_LIMIT) by (nonlinear_arith)
                                requires
                                    abs_int(b.0 as int) <= abs_int(b.3 as int),
                                    abs_int(b.1 as int) <= abs_int(b.3 as int),
                                    abs_int(b.2 as int) <= abs_int(b.3 as int),
                                    abs_int(b.3 as int) <= BARY_BOUND,
                                    -COORD_LIMIT <= t.z0 <= COORD_LIMIT,
                                    -COORD_LIMIT <= t.z1 <= COORD_LIMIT,
                                    -COORD_LIMIT <= t.z2 <= COORD_LIMIT,
                                    COORD_LIMIT == 268435456,
                                    BARY_BOUND == 1770887431076116955136,
                            ;
                        }
                        let num: i128 = b.0 * (t.z0 as i128) + b.1 * (t.z1 as i128) + b.2 * (
                        t.z2 as i128);
                        proof {
                            lemma_trunc_div_bound(num as int, b.3 as int, 3 * COORD_LIMIT);
                        }
                        let z128 = div_trunc_i128(num, b.3);
                        let z: i64 = z128 as i64;
                        proof {
                            assert(z == spec_depth(*t, x as int, y as int));
                        }
                        let zcur = z_buffer[idx];
                        if z > zcur {
                            z_buffer.set(idx, z);
                            let colour: Colour = match (texture, tcs) {
                                (Some(tex), Some(tc)) => {
                                    proof {
                                        assert(abs_int(b.0 * (tc.u0 as i128)) <= abs_int(
                                            b.3 as int,
                                        ) * COORD_LIMIT && abs_int(b.1 * (tc.u1 as i128))
                                            <= abs_int(b.3 as int) * COORD_LIMIT && abs_int(
                                            b.2 * (tc.u2 as i128),
                                        ) <= abs_int(b.3 as int) * COORD_LIMIT && abs_int(
                                            b.0 * (tc.v0 as i128),
                                        ) <= abs_int(b.3 as int) * COORD_LIMIT && abs_int(
                                            b.1 * (tc.v1 as i128),
                                        ) <= abs_int(b.3 as int) * COORD_LIMIT && abs_int(
                                            b.2 * (tc.v2 as i128),
                                        ) <= abs_int(b.3 as int) * COORD_LIMIT && abs_int(
                                            b.0 * (tc.u0 as i128),
                                        ) <= BARY_BOUND * COORD_LIMIT && abs_int(
                                            b.1 * (tc.u1 as i128),
                                        ) <= BARY_BOUND * COORD_LIMIT && abs_int(
                                            b.2 * (tc.u2 as i128),
                                        ) <= BARY_BOUND * COORD_LIMIT && abs_int(
                                            b.0 * (tc.v0 as i128),
                                        ) <= BARY_BOUND * COORD_LIMIT && abs_int(
                                            b.1 * (tc.v1 as i128),
                                        ) <= BARY_BOUND * COORD_LIMIT && abs_int(
                                            b.2 * (tc.v2 as i128),
                                        ) <= BARY_BOUND * COORD_LIMIT)
                                            by (nonlinear_arith)
                                            requires
                                                abs_int(b.0 as int) <= abs_int(b.3 as int),
                                                abs_int(b.1 as int) <= abs_int(b.3 as int),
                                                abs_int(b.2 as int) <= abs_int(b.3 as int),
                                                abs_int(b.3 as int) <= BARY_BOUND,
                                                tex_tri_in_range(*tc),
                                                COORD_LIMIT == 268435456,
                                                BARY_BOUND == 1770887431076116955136,
                                        ;
                                    }
                                    let nu: i128 = b.0 * (tc.u0 as i128) + b.1 * (tc.u1 as i128)
                                        + b.2 * (tc.u2 as i128);
                                    let nv: i128 = b.0 * (tc.v0 as i128) + b.1 * (tc.v1 as i128)
                                        + b.2 * (tc.v2 as i128);
                                    proof {
                                        lemma_trunc_div_bound(
                                            nu as int,
                                            b.3 as int,
                                            3 * COORD_LIMIT,
                                        );
                                        lemma_trunc_div_bound(
                                            nv as int,
                                            b.3 as int,
                                            3 * COORD_LIMIT,
                                        );
                                    }
                                    let uu: i64 = div_trunc_i128(nu, b.3) as i64;
                                    let vv: i64 = div_trunc_i128(nv, b.3) as i64;
                                    let s = sample_texel(tex, uu, vv);
                                    Colour {
                                        r: modulate(s.r, light_intensity),
                                        g: modulate(s.g, light_intensity),
                                        b: modulate(s.b, light_intensity),
                                    }
                                },
                                _ => shade_flat(light_intensity),
                            };
                            img.set(idx, colour);
                            proof {
                                assert(colour == spec_pixel_colour(
                                    *t,
                                    opt_tex(texture),
                                    opt_tc(tcs),
                                    light_intensity as int,
                                    x as int,
                                    y as int,
                                ));
                                assert(draws(
                                    *t,
                                    w as int,
                                    h as int,
                                    old(z_buffer)@[pix(w as int, x as int, y as int)] as int,
                                    x as int,
                                    y as int,
                                ));
                            }
                        } else {
                            proof {
                                assert(!draws(
                                    *t,
                                    w as int,
                                    h as int,
                                    old(z_buffer)@[pix(w as int, x as int, y as int)] as int,
                                    x as int,
                                    y as int,
                                ));
                            }
                        }
                    } else {
                        proof {
                            assert(!covers(*t, x as int, y as int));
                        }
                    }
                },
            }
            proof {
                assert forall|px: int, py: int|
                    0 <= px < w && 0 <= py < h && (py < y || (py == y && px < x + 1)) implies
                    filled_at(
                        *t,
                        opt_tex(texture),
                        opt_tc(tcs),
                        light_intensity as int,
                        w as int,
                        h as int,
                        old(img)@,
                        old(z_buffer)@,
                        img@,
                        z_buffer@,
                        px,
                        py,
                    ) by {
                    let i = pix(w as int, px, py);
                    lemma_pix_bound(w as int, h as int, px, py);
                    if i == pix(w as int, x as int, y as int) {
                        lemma_pix_injective(w as int, px, py, x as int, y as int);
                    }
                }
                assert forall|px: int, py: int|
                    0 <= px < w && 0 <= py < h && (py > y || (py == y && px >= x + 1)) implies
                    untouched_at(
                        old(img)@,
                        old(z_buffer)@,
                        img@,
                        z_buffer@,
                        w as int,
                        px,
                        py,
                    ) by {
                    let i = pix(w as int, px, py);
                    lemma_pix_bound(w as int, h as int, px, py);
                    if i == pix(w as int, x as int, y as int) {
                        lemma_pix_injective(w as int, px, py, x as int, y as int);
                    }
                }
            }
            x += 1;
        }
        y += 1;
    }
}

} // verus!

