//! Bounds and projector: the axis-aligned bounding box of all vertices, the
//! uniform scale that fits it into the margin-reduced viewport without
//! distortion, and the orthographic projection of a vertex onto integer pixel
//! coordinates.  Depth (`z`) is carried through unchanged.

use crate::fixed::FP;
use crate::fixed::COORD_LIMIT;
use crate::model::{Bounds, Scene};
use vstd::arithmetic::div_mod::{
    lemma_div_is_ordered, lemma_div_multiples_vanish, lemma_div_multiples_vanish_quotient,
    lemma_fundamental_div_mod, lemma_fundamental_div_mod_converse, lemma_hoist_over_denominator,
};
use vstd::arithmetic::mul::lemma_mul_inequality;
use vstd::prelude::*;

verus! {

pub open spec fn in_scene(s: Scene, mi: int, vi: int) -> bool {
    0 <= mi < s.meshes@.len() && 0 <= vi < s.meshes@[mi].vertices@.len()
}

/// Every vertex of the scene lies inside `b` on the x and y axes.
pub open spec fn bounds_cover(s: Scene, b: Bounds) -> bool {
    forall|mi: int, vi: int|
        in_scene(s, mi, vi) ==> {
            let v = #[trigger] s.meshes@[mi].vertices@[vi];
            b.min_x <= v.x <= b.max_x && b.min_y <= v.y <= b.max_y
        }
}

pub open spec fn attains_x(s: Scene, val: int) -> bool {
    exists|mi: int, vi: int|
        in_scene(s, mi, vi) && (#[trigger] s.meshes@[mi].vertices@[vi]).x == val
}

pub open spec fn attains_y(s: Scene, val: int) -> bool {
    exists|mi: int, vi: int|
        in_scene(s, mi, vi) && (#[trigger] s.meshes@[mi].vertices@[vi]).y == val
}

/// Each side of `b` touches some vertex: `b` is exactly the bounding box.
pub open spec fn bounds_tight(s: Scene, b: Bounds) -> bool {
    attains_x(s, b.min_x as int) && attains_x(s, b.max_x as int) && attains_y(s, b.min_y as int)
        && attains_y(s, b.max_y as int)
}

pub open spec fn scene_has_vertex(s: Scene) -> bool {
    exists|mi: int| 0 <= mi < s.meshes@.len() && (#[trigger] s.meshes@[mi]).vertices@.len() > 0
}

/// Computes the bounding box over x and y of every vertex of every mesh, or
/// `None` when the scene has no vertices at all.
pub fn scene_bounds(s: &Scene) -> (r: Option<Bounds>)
    ensures
        match r {
            Some(b) => scene_has_vertex(*s) && bounds_cover(*s, b) && bounds_tight(*s, b),
            None => !scene_has_vertex(*s),
        },
{
    let mut found = false;
    let mut min_x: i64 = 0;
    let mut max_x: i64 = 0;
    let mut min_y: i64 = 0;
    let mut max_y: i64 = 0;
    let nm = s.meshes.len();
    let mut mi: usize = 0;
    while mi < nm
        invariant
            nm == s.meshes@.len(),
            mi <= nm,
            found <==> exists|mj: int|
                0 <= mj < mi && (#[trigger] s.meshes@[mj]).vertices@.len() > 0,
            found ==> attains_x(*s, min_x as int) && attains_x(*s, max_x as int) && attains_y(
                *s,
                min_y as int,
            ) && attains_y(*s, max_y as int),
            forall|mj: int, vj: int|
                #![trigger s.meshes@[mj].vertices@[vj]]
                0 <= mj < mi && 0 <= vj < s.meshes@[mj].vertices@.len() ==> {
                    let v = s.meshes@[mj].vertices@[vj];
                    min_x <= v.x <= max_x && min_y <= v.y <= max_y
                },
        decreases nm - mi,
    {
        let mesh = &s.meshes[mi];
        let nv = mesh.vertices.len();
        let mut vi: usize = 0;
        while vi < nv
            invariant
                nm == s.meshes@.len(),
                mi < nm,
                *mesh == s.meshes@[mi as int],
                nv == s.meshes@[mi as int].vertices@.len(),
                vi <= nv,
                found <==> (exists|mj: int|
                    0 <= mj < mi && (#[trigger] s.meshes@[mj]).vertices@.len() > 0) || vi > 0,
                found ==> attains_x(*s, min_x as int) && attains_x(*s, max_x as int) && attains_y(
                    *s,
                    min_y as int,
                ) && attains_y(*s, max_y as int),
                forall|mj: int, vj: int|
                    #![trigger s.meshes@[mj].vertices@[vj]]
                    (0 <= mj < mi && 0 <= vj < s.meshes@[mj].vertices@.len()) || (mj == mi && 0
                        <= vj < vi) ==> {
                        let v = s.meshes@[mj].vertices@[vj];
                        min_x <= v.x <= max_x && min_y <= v.y <= max_y
                    },
            decreases nv - vi,
        {
            let v = mesh.vertices[vi];
            if !found {
                found = true;
                min_x = v.x;
                max_x = v.x;
                min_y = v.y;
                max_y = v.y;
            } else {
                if v.x < min_x {
                    min_x = v.x;
                }
                if v.x > max_x {
                    max_x = v.x;
                }
                if v.y < min_y {
                    min_y = v.y;
                }
                if v.y > max_y {
                    max_y = v.y;
                }
            }
            proof {
                assert(in_scene(*s, mi as int, vi as int));
                assert(s.meshes@[mi as int].vertices@[vi as int] == v);
            }
            vi += 1;
        }
        mi += 1;
    }
    if found {
        Some(Bounds { min_x, max_x, min_y, max_y })
    } else {
        None
    }
}

/// Scale along one axis: viewport pixels times the margin-reduced fraction,
/// per fixed-point unit of model extent.  The quotient carries 16 fractional
/// bits.
pub open spec fn spec_axis_scale(px: int, margin: int, extent: int) -> int {
    px * (FP - 2 * margin) * FP / extent
}

/// The uniform scale: the smaller of the two per-axis scales, so the whole
/// model fits both axes without distortion.
pub open spec fn spec_scale(w: int, h: int, margin: int, mw: int, mh: int) -> int {
    let sx = spec_axis_scale(w, margin, mw);
    let sy = spec_axis_scale(h, margin, mh);
    if sx <= sy {
        sx
    } else {
        sy
    }
}

pub open spec fn bounds_in_range(b: Bounds) -> bool {
    &&& -COORD_LIMIT <= b.min_x <= COORD_LIMIT
    &&& -COORD_LIMIT <= b.max_x <= COORD_LIMIT
    &&& -COORD_LIMIT <= b.min_y <= COORD_LIMIT
    &&& -COORD_LIMIT <= b.max_y <= COORD_LIMIT
}

/// Computes the fitting scale for a nondegenerate bounding box.
pub fn compute_scale(w: u32, h: u32, margin: i64, b: &Bounds) -> (s: i128)
    requires
        0 <= margin && 2 * margin < FP,
        bounds_in_range(*b),
        b.min_x < b.max_x,
        b.min_y < b.max_y,
    ensures
        s == spec_scale(
            w as int,
            h as int,
            margin as int,
            b.max_x - b.min_x,
            b.max_y - b.min_y,
        ),
        0 <= s <= 18446744073709551616,  // 2^64
        s * (b.max_x - b.min_x) <= (w as int) * (FP - 2 * (margin as int)) * FP,
        s * (b.max_y - b.min_y) <= (h as int) * (FP - 2 * (margin as int)) * FP,
{
    let mw: i128 = (b.max_x as i128) - (b.min_x as i128);
    let mh: i128 = (b.max_y as i128) - (b.min_y as i128);
    let f: i128 = (FP - 2 * margin) as i128;
    proof {
        assert((w as int) * (f as int) <= 4294967295 * 65536 && 0 <= (w as int) * (f as int)
            && (w as int) * (f as int) * 65536 <= 4294967295 * 65536 * 65536) by (nonlinear_arith)
            requires
                0 <= (w as int) <= 4294967295,
                0 <= (f as int) <= 65536,
        ;
        assert((h as int) * (f as int) <= 4294967295 * 65536 && 0 <= (h as int) * (f as int)
            && (h as int) * (f as int) * 65536 <= 4294967295 * 65536 * 65536) by (nonlinear_arith)
            requires
                0 <= (h as int) <= 4294967295,
                0 <= (f as int) <= 65536,
        ;
    }
    let numx: i128 = (w as i128) * f * (FP as i128);
    let numy: i128 = (h as i128) * f * (FP as i128);
    let sx: i128 = ((numx as u128) / (mw as u128)) as i128;
    let sy: i128 = ((numy as u128) / (mh as u128)) as i128;
    let s: i128 = if sx <= sy {
        sx
    } else {
        sy
    };
    proof {
        assert(sx == spec_axis_scale(w as int, margin as int, mw as int));
        assert(sy == spec_axis_scale(h as int, margin as int, mh as int));
        lemma_fundamental_div_mod(numx as int, mw as int);
        lemma_fundamental_div_mod(numy as int, mh as int);
        assert(sx * mw <= numx) by (nonlinear_arith)
            requires
                numx == mw * sx + (numx as int) % (mw as int),
                (numx as int) % (mw as int) >= 0,
        ;
        assert(sy * mh <= numy) by (nonlinear_arith)
            requires
                numy == mh * sy + (numy as int) % (mh as int),
                (numy as int) % (mh as int) >= 0,
        ;
        lemma_mul_inequality(s as int, sx as int, mw as int);
        lemma_mul_inequality(s as int, sy as int, mh as int);
        assert(sx <= 18446744073709551616) by (nonlinear_arith)
            requires
                sx * mw <= 4294967295 * 65536 * 65536,
                1 <= mw,
                0 <= sx,
        ;
        assert(sy <= 18446744073709551616) by (nonlinear_arith)
            requires
                sy * mh <= 4294967295 * 65536 * 65536,
                1 <= mh,
                0 <= sy,
        ;
    }
    s
}

/// Orthographic projection of one coordinate: the model interval
/// `[mn, mx]` is centered on the viewport axis of `px` pixels and scaled by
/// `s`; the result is the real screen coordinate truncated to an integer.
pub open spec fn spec_project(c: int, mn: int, mx: int, s: int, px: int) -> int {
    ((2 * c - (mn + mx)) * s + px * FP * FP) / (2 * FP * FP)
}

pub fn project_coord(c: i64, mn: i64, mx: i64, s: i128, px: u32) -> (r: i64)
    requires
        -COORD_LIMIT <= mn,
        mx <= COORD_LIMIT,
        mn <= c <= mx,
        mn < mx,
        0 <= s <= 18446744073709551616,
        s * (mx - mn) <= (px as int) * FP * FP,
    ensures
        r == spec_project(c as int, mn as int, mx as int, s as int, px as int),
        0 <= r <= px,
{
    let d: i128 = 2 * (c as i128) - (mn as i128) - (mx as i128);
    proof {
        assert(-(mx - mn) <= d <= mx - mn);
        assert(d * s <= (mx - mn) * s && -((mx - mn) * s) <= d * s) by (nonlinear_arith)
            requires
                -(mx - mn) <= d <= mx - mn,
                0 <= s,
        ;
        lemma_mul_inequality(s as int, s as int, (mx - mn) as int);
        assert((mx - mn) * s == s * (mx - mn)) by (nonlinear_arith);
    }
    let base: i128 = (px as i128) * (FP as i128) * (FP as i128);
    proof {
        assert((px as int) * (FP as int) * (FP as int) <= 4294967295 * 65536 * 65536 && 0 <= (
        px as int) * (FP as int) * (FP as int)) by (nonlinear_arith)
            requires
                0 <= (px as int) <= 4294967295,
                FP == 65536,
        ;
    }
    let n: i128 = d * s + base;
    let div: i128 = 2 * (FP as i128) * (FP as i128);
    let q: i128 = ((n as u128) / (div as u128)) as i128;
    proof {
        assert(n <= 2 * base);
        lemma_div_is_ordered(n as int, 2 * base, div as int);
        assert((2 * base) as int == div * (px as int)) by (nonlinear_arith)
            requires
                base == (px as int) * 65536 * 65536,
                div == 2 * 65536 * 65536,
        ;
        lemma_div_multiples_vanish(px as int, div as int);
    }
    q as i64
}

/// The projected image of the model's bounding interval stays inside the
/// margin-reduced viewport: at least `margin * px / (FP as int)` pixels are left free
/// on each side of the axis.
pub proof fn lemma_projection_within_margin(
    c: int,
    mn: int,
    mx: int,
    s: int,
    px: int,
    margin: int,
)
    requires
        mn <= c <= mx,
        0 <= s,
        0 <= margin && 2 * margin < FP,
        0 <= px,
        s * (mx - mn) <= px * (FP - 2 * margin) * FP,
    ensures
        margin * px / (FP as int) <= spec_project(c, mn, mx, s, px),
        spec_project(c, mn, mx, s, px) <= px - margin * px / (FP as int),
{
    let d = 2 * c - (mn + mx);
    let n = d * s + px * FP * FP;
    let div = 2 * FP * FP;
    assert(-(mx - mn) <= d <= mx - mn);
    assert(d * s <= (mx - mn) * s && -((mx - mn) * s) <= d * s) by (nonlinear_arith)
        requires
            -(mx - mn) <= d <= mx - mn,
            0 <= s,
    ;
    assert((mx - mn) * s == s * (mx - mn)) by (nonlinear_arith);
    let numbound = px * (FP - 2 * margin) * FP;
    // lower bound of the numerator
    let nlow = 2 * FP * (margin * px);
    assert(px * FP * FP - numbound == nlow) by (nonlinear_arith)
        requires
            FP == 65536,
            numbound == px * (FP - 2 * margin) * FP,
            nlow == 2 * FP * (margin * px),
    ;
    assert(nlow <= n);
    lemma_div_is_ordered(nlow, n, div);
    assert(0 <= margin * px) by (nonlinear_arith)
        requires
            0 <= margin,
            0 <= px,
    ;
    lemma_div_multiples_vanish_quotient(2 * (FP as int), margin * px, FP as int);
    assert((2 * FP) * (margin * px) == nlow) by (nonlinear_arith)
        requires
            nlow == 2 * FP * (margin * px),
    ;
    assert((2 * FP) * FP == div) by (nonlinear_arith)
        requires
            div == 2 * FP * FP,
    ;
    assert(margin * px / (FP as int) == nlow / div);
    assert(margin * px / (FP as int) <= spec_project(c, mn, mx, s, px));
    // upper bound of the numerator
    let nhigh = 2 * FP * (px * FP - margin * px);
    assert(px * FP * FP + numbound == nhigh) by (nonlinear_arith)
        requires
            FP == 65536,
            numbound == px * (FP - 2 * margin) * FP,
            nhigh == 2 * FP * (px * FP - margin * px),
    ;
    assert(n <= nhigh);
    lemma_div_is_ordered(n, nhigh, div);
    assert(0 <= px * FP - margin * px) by (nonlinear_arith)
        requires
            0 <= px,
            0 <= margin,
            2 * margin < FP,
            FP == 65536,
    ;
    lemma_div_multiples_vanish_quotient(2 * (FP as int), px * FP - margin * px, FP as int);
    assert((2 * FP) * (px * FP - margin * px) == nhigh) by (nonlinear_arith)
        requires
            nhigh == 2 * FP * (px * FP - margin * px),
    ;
    assert(nhigh / div == (px * FP - margin * px) / (FP as int));
    // hoist px out of the quotient
    lemma_hoist_over_denominator(-(margin * px), px, FP as nat);
    assert(-(margin * px) + px * FP == px * FP - margin * px);
    assert((px * FP - margin * px) / (FP as int) == (-(margin * px)) / (FP as int) + px);
    // floor of a negated value is at most the negated floor
    let a = margin * px;
    assert(0 <= a) by (nonlinear_arith)
        requires
            a == margin * px,
            0 <= margin,
            0 <= px,
    ;
    lemma_fundamental_div_mod(a, FP as int);
    let q = a / (FP as int);
    let r = a % (FP as int);
    if r == 0 {
        lemma_fundamental_div_mod_converse(-a, FP as int, -q, 0);
    } else {
        lemma_fundamental_div_mod_converse(-a, FP as int, -q - 1, FP - r);
    }
    assert((-a) / (FP as int) <= -(a / (FP as int)));
    assert(spec_project(c, mn, mx, s, px) <= px - margin * px / (FP as int));
}

/// The fitting scale leaves room for the margin: on each axis, the scaled
/// model extent is at most the margin-reduced viewport width.
pub proof fn lemma_scale_fits_margin(w: int, h: int, margin: int, mw: int, mh: int)
    requires
        0 <= margin && 2 * margin < FP,
        1 <= mw,
        1 <= mh,
        0 <= w,
        0 <= h,
    ensures
        0 <= spec_scale(w, h, margin, mw, mh),
        spec_scale(w, h, margin, mw, mh) * mw <= w * (FP - 2 * margin) * FP,
        spec_scale(w, h, margin, mw, mh) * mh <= h * (FP - 2 * margin) * FP,
{
    let numx = w * (FP - 2 * margin) * FP;
    let numy = h * (FP - 2 * margin) * FP;
    let sx = spec_axis_scale(w, margin, mw);
    let sy = spec_axis_scale(h, margin, mh);
    let s = spec_scale(w, h, margin, mw, mh);
    assert(0 <= numx && 0 <= numy) by (nonlinear_arith)
        requires
            numx == w * (FP - 2 * margin) * FP,
            numy == h * (FP - 2 * margin) * FP,
            0 <= w,
            0 <= h,
            0 <= margin,
            2 * margin < FP,
            FP == 65536,
    ;
    lemma_fundamental_div_mod(numx, mw);
    lemma_fundamental_div_mod(numy, mh);
    assert(sx * mw <= numx) by (nonlinear_arith)
        requires
            numx == mw * sx + numx % mw,
            numx % mw >= 0,
    ;
    assert(sy * mh <= numy) by (nonlinear_arith)
        requires
            numy == mh * sy + numy % mh,
            numy % mh >= 0,
    ;
    lemma_div_is_ordered(0, numx, mw);
    lemma_div_is_ordered(0, numy, mh);
    lemma_mul_inequality(s, sx, mw);
    lemma_mul_inequality(s, sy, mh);
}

/// The projected image of the whole model lies inside the margin-reduced
/// viewport: with the fitting scale, a vertex anywhere in the model's
/// bounding box projects at least `margin * w / FP` pixels away from either
/// edge on x, and `margin * h / FP` pixels on y.
pub proof fn lemma_fitted_projection_within_margin(
    cx: int,
    cy: int,
    mnx: int,
    mxx: int,
    mny: int,
    mxy: int,
    w: int,
    h: int,
    margin: int,
)
    requires
        mnx <= cx <= mxx,
        mny <= cy <= mxy,
        mnx < mxx,
        mny < mxy,
        0 <= margin && 2 * margin < FP,
        0 <= w,
        0 <= h,
    ensures
        ({
            let s = spec_scale(w, h, margin, mxx - mnx, mxy - mny);
            &&& margin * w / (FP as int) <= spec_project(cx, mnx, mxx, s, w)
            &&& spec_project(cx, mnx, mxx, s, w) <= w - margin * w / (FP as int)
            &&& margin * h / (FP as int) <= spec_project(cy, mny, mxy, s, h)
            &&& spec_project(cy, mny, mxy, s, h) <= h - margin * h / (FP as int)
        }),
{
    let s = spec_scale(w, h, margin, mxx - mnx, mxy - mny);
    lemma_scale_fits_margin(w, h, margin, mxx - mnx, mxy - mny);
    lemma_projection_within_margin(cx, mnx, mxx, s, w, margin);
    lemma_projection_within_margin(cy, mny, mxy, s, h, margin);
}

/// The per-axis scale numerators at two margins are in exact proportion:
/// the factor between them is `(FP - 2*m2) / (FP - 2*m1)`.  Only this
/// pre-truncation form is exact: after the truncating division by the model
/// extent the proportion holds up to rounding, and for extreme inputs the
/// shrink need not be strict at all (two margins whose quotients truncate
/// to the same scale).
pub proof fn lemma_scale_numerator_proportional(px: int, m1: int, m2: int)
    ensures
        (px * (FP - 2 * m2) * FP) * (FP - 2 * m1) == (px * (FP - 2 * m1) * FP) * (FP - 2 * m2),
{
    assert((px * (FP - 2 * m2) * FP) * (FP - 2 * m1) == (px * (FP - 2 * m1) * FP) * (FP - 2
        * m2)) by (nonlinear_arith);
}

/// A larger margin never yields a larger scale: growing the border shrinks
/// the projected model proportionally (up to integer truncation of the two
/// quotients).
pub proof fn lemma_scale_antitone(w: int, h: int, m1: int, m2: int, mw: int, mh: int)
    requires
        0 <= m1 <= m2 < FP / 2,
        1 <= mw,
        1 <= mh,
        0 <= w,
        0 <= h,
    ensures
        spec_scale(w, h, m2, mw, mh) <= spec_scale(w, h, m1, mw, mh),
{
    assert(w * (FP - 2 * m2) * FP <= w * (FP - 2 * m1) * FP) by (nonlinear_arith)
        requires
            0 <= w,
            m1 <= m2,
            FP == 65536,
    ;
    assert(h * (FP - 2 * m2) * FP <= h * (FP - 2 * m1) * FP) by (nonlinear_arith)
        requires
            0 <= h,
            m1 <= m2,
            FP == 65536,
    ;
    lemma_div_is_ordered(w * (FP - 2 * m2) * FP, w * (FP - 2 * m1) * FP, mw);
    lemma_div_is_ordered(h * (FP - 2 * m2) * FP, h * (FP - 2 * m1) * FP, mh);
}

} // verus!
