//! The renderer: ties bounds, projector, shading and the rasterizer
//! together.  A `ModelToImage` is built once from a validated configuration,
//! scene and texture table; `render` owns a transient depth buffer for the
//! duration of one call and leaves the finished, vertically flipped pixel
//! buffer on the renderer.
//!
//! Depth convention: there is no camera; raw world `z` is the depth and a
//! larger `z` is closer, drawn over smaller ones.

use crate::fixed::FP;
use crate::model::{
    mesh_wf, scene_wf, texture_wf, vertex_in_range, Bounds, Mesh, RenderConfig, RenderError,
    Scene, Size, TexCoord, Texture, Vertex,
};
use crate::project::{
    bounds_cover, bounds_in_range, bounds_tight, compute_scale, project_coord, scene_bounds,
    spec_project, spec_scale,
};
use crate::raster::{
    covers, draw_triangle, filled_at, pix, spec_pixel_colour, tri_in_range, ProjTri, TexTri,
};
use crate::shade::{face_intensity, spec_intensity};
use crate::utils::Colour;
use vstd::prelude::*;

verus! {

/// The fixed light-grey background every render starts from.
pub open spec fn bkg_colour() -> Colour {
    Colour { r: 211, g: 211, b: 211 }
}

/// The vertex of face `fi` of mesh `m` at corner `k` (0, 1 or 2).
pub open spec fn face_vertex(m: Mesh, fi: int, k: int) -> Vertex {
    let f = m.faces@[fi];
    if k == 0 {
        m.vertices@[f.a as int]
    } else if k == 1 {
        m.vertices@[f.b as int]
    } else {
        m.vertices@[f.c as int]
    }
}

/// The fill-ready triangle of face `fi` of mesh `mi`: corners projected with
/// scale `s` against bounds `b`, world depth carried through.
pub open spec fn face_tri(s: Scene, b: Bounds, sc: int, w: int, h: int, mi: int, fi: int) -> ProjTri {
    let m = s.meshes@[mi];
    let v0 = face_vertex(m, fi, 0);
    let v1 = face_vertex(m, fi, 1);
    let v2 = face_vertex(m, fi, 2);
    ProjTri {
        x0: spec_project(v0.x as int, b.min_x as int, b.max_x as int, sc, w) as i64,
        y0: spec_project(v0.y as int, b.min_y as int, b.max_y as int, sc, h) as i64,
        z0: v0.z,
        x1: spec_project(v1.x as int, b.min_x as int, b.max_x as int, sc, w) as i64,
        y1: spec_project(v1.y as int, b.min_y as int, b.max_y as int, sc, h) as i64,
        z1: v1.z,
        x2: spec_project(v2.x as int, b.min_x as int, b.max_x as int, sc, w) as i64,
        y2: spec_project(v2.y as int, b.min_y as int, b.max_y as int, sc, h) as i64,
        z2: v2.z,
    }
}

/// One corner's texture coordinate, defaulting to `(0, 0)` when the mesh has
/// no UV channel or the channel is shorter than the vertex index.
pub open spec fn vertex_texcoord(m: Mesh, vi: int) -> TexCoord {
    match m.tex_coords {
        Some(tcs) => if 0 <= vi < tcs@.len() {
            tcs@[vi]
        } else {
            TexCoord { u: 0, v: 0 }
        },
        None => TexCoord { u: 0, v: 0 },
    }
}

/// The texture-coordinate triple of face `fi` of mesh `m`.
pub open spec fn face_textri(m: Mesh, fi: int) -> TexTri {
    let f = m.faces@[fi];
    let t0 = vertex_texcoord(m, f.a as int);
    let t1 = vertex_texcoord(m, f.b as int);
    let t2 = vertex_texcoord(m, f.c as int);
    TexTri { u0: t0.u, v0: t0.v, u1: t1.u, v1: t1.v, u2: t2.u, v2: t2.v }
}

/// The texture a mesh resolves through its material index: absent when the
/// index is out of range of the material table or the slot is empty.
pub open spec fn mesh_texture(textures: Seq<Option<Texture>>, m: Mesh) -> Option<Texture> {
    if 0 <= m.material_index < textures.len() {
        textures[m.material_index as int]
    } else {
        None
    }
}

/// The lighting intensity of face `fi` of mesh `mi`.
pub open spec fn face_light(s: Scene, light: Vertex, mi: int, fi: int) -> int {
    let m = s.meshes@[mi];
    spec_intensity(face_vertex(m, fi, 0), face_vertex(m, fi, 1), face_vertex(m, fi, 2), light)
}

/// Face `fi` of mesh `mi` is lit (positive intensity) and its projected
/// triangle admits pixel `(px, py)`.
pub open spec fn face_lit_covers(
    s: Scene,
    b: Bounds,
    sc: int,
    light: Vertex,
    w: int,
    h: int,
    mi: int,
    fi: int,
    px: int,
    py: int,
) -> bool {
    &&& 0 <= mi < s.meshes@.len()
    &&& 0 <= fi < s.meshes@[mi].faces@.len()
    &&& face_light(s, light, mi, fi) > 0
    &&& covers(face_tri(s, b, sc, w, h, mi, fi), px, py)
}

/// The colour face `fi` of mesh `mi` would give pixel `(px, py)`.
pub open spec fn face_colour(
    s: Scene,
    b: Bounds,
    sc: int,
    light: Vertex,
    textures: Seq<Option<Texture>>,
    w: int,
    h: int,
    mi: int,
    fi: int,
    px: int,
    py: int,
) -> Colour {
    spec_pixel_colour(
        face_tri(s, b, sc, w, h, mi, fi),
        mesh_texture(textures, s.meshes@[mi]),
        Some(face_textri(s.meshes@[mi], fi)),
        face_light(s, light, mi, fi),
        px,
        py,
    )
}

/// No lit face of any mesh admits pixel `(px, py)`.
pub open spec fn pixel_uncovered(
    s: Scene,
    b: Bounds,
    sc: int,
    light: Vertex,
    w: int,
    h: int,
    px: int,
    py: int,
) -> bool {
    forall|mi: int, fi: int| !#[trigger] face_lit_covers(s, b, sc, light, w, h, mi, fi, px, py)
}

/// Some face strictly before `(mi, fi)` in processing order (meshes in
/// order, faces in order within a mesh) is lit and admits pixel `(px, py)`.
spec fn covered_by_done(
    s: Scene,
    b: Bounds,
    sc: int,
    light: Vertex,
    w: int,
    h: int,
    mi: int,
    fi: int,
    px: int,
    py: int,
) -> bool {
    exists|mj: int, fj: int|
        (mj < mi || (mj == mi && fj < fi)) && #[trigger] face_lit_covers(
            s,
            b,
            sc,
            light,
            w,
            h,
            mj,
            fj,
            px,
            py,
        )
}

/// What holds of one pixel after the faces before `(mi, fi)` have been
/// filled: either the pixel is still the untouched background (and then no
/// processed lit face admits it and its depth slot still holds the
/// sentinel), or it shows the exact colour of some lit face that admits it.
spec fn fill_state(
    s: Scene,
    b: Bounds,
    sc: int,
    light: Vertex,
    textures: Seq<Option<Texture>>,
    w: int,
    h: int,
    mi: int,
    fi: int,
    img: Seq<Colour>,
    z: Seq<i64>,
    px: int,
    py: int,
) -> bool {
    ||| (img[pix(w, px, py)] == bkg_colour() && z[pix(w, px, py)] == i64::MIN && !covered_by_done(
        s,
        b,
        sc,
        light,
        w,
        h,
        mi,
        fi,
        px,
        py,
    ))
    ||| (exists|mi2: int, fi2: int|
        #[trigger] face_lit_covers(s, b, sc, light, w, h, mi2, fi2, px, py) && img[pix(w, px, py)]
            == face_colour(s, b, sc, light, textures, w, h, mi2, fi2, px, py))
}

/// Builds a row-major buffer of `n` copies of one colour.
fn make_colour_buffer(n: usize, c: Colour) -> (buf: Vec<Colour>)
    ensures
        buf@.len() == n,
        forall|i: int| 0 <= i < n ==> buf@[i] == c,
{
    let mut buf: Vec<Colour> = Vec::new();
    let mut i: usize = 0;
    while i < n
        invariant
            i <= n,
            buf@.len() == i,
            forall|j: int| 0 <= j < i ==> buf@[j] == c,
        decreases n - i,
    {
        buf.push(c);
        i += 1;
    }
    buf
}

/// A fresh depth buffer: one slot per pixel, all at the sentinel for
/// negative infinity (every finite depth beats it).
fn make_depth_buffer(n: usize) -> (buf: Vec<i64>)
    ensures
        buf@.len() == n,
        forall|i: int| 0 <= i < n ==> buf@[i] == i64::MIN,
{
    let mut buf: Vec<i64> = Vec::new();
    let mut i: usize = 0;
    while i < n
        invariant
            i <= n,
            buf@.len() == i,
            forall|j: int| 0 <= j < i ==> buf@[j] == i64::MIN,
        decreases n - i,
    {
        buf.push(i64::MIN);
        i += 1;
    }
    buf
}

/// Flips the buffer along the vertical axis: output row `py` is input row
/// `h - 1 - py`.
fn flip_vertical(buf: &mut Vec<Colour>, w: u32, h: u32)
    requires
        old(buf)@.len() == (w as int) * (h as int),
        (w as int) * (h as int) <= 4294967295,
    ensures
        final(buf)@.len() == old(buf)@.len(),
        forall|px: int, py: int|
            #![trigger pix(w as int, px, py)]
            0 <= px < w && 0 <= py < h ==> final(buf)@[pix(w as int, px, py)] == old(buf)@[pix(
                w as int,
                px,
                h - 1 - py,
            )],
{
    let mut nb: Vec<Colour> = Vec::new();
    let mut row: u32 = 0;
    while row < h
        invariant
            buf@.len() == (w as int) * (h as int),
            buf@ == old(buf)@,
            (w as int) * (h as int) <= 4294967295,
            row <= h,
            nb@.len() == row * w,
            forall|px: int, py: int|
                #![trigger pix(w as int, px, py)]
                0 <= px < w && 0 <= py < row ==> nb@[pix(w as int, px, py)] == buf@[pix(
                    w as int,
                    px,
                    h - 1 - py,
                )],
        decreases h - row,
    {
        let src_row: u32 = h - 1 - row;
        let mut col: u32 = 0;
        while col < w
            invariant
                buf@.len() == (w as int) * (h as int),
                buf@ == old(buf)@,
                (w as int) * (h as int) <= 4294967295,
                row < h,
                src_row == h - 1 - row,
                col <= w,
                nb@.len() == row * w + col,
                forall|px: int, py: int|
                    #![trigger pix(w as int, px, py)]
                    0 <= px < w && 0 <= py < row ==> nb@[pix(w as int, px, py)] == buf@[pix(
                        w as int,
                        px,
                        h - 1 - py,
                    )],
                forall|px: int|
                    #![trigger pix(w as int, px, row as int)]
                    0 <= px < col ==> nb@[pix(w as int, px, row as int)] == buf@[pix(
                        w as int,
                        px,
                        h - 1 - row,
                    )],
            decreases w - col,
        {
            proof {
                crate::raster::lemma_pix_bound(w as int, h as int, col as int, src_row as int);
                assert((src_row as int) * (w as int) + (col as int) < buf@.len());
            }
            let _len_now = buf.len();
            let idx: usize = ((col as u64) + (src_row as u64) * (w as u64)) as usize;
            let c = buf[idx];
            nb.push(c);
            proof {
                assert(nb@.len() == (row as int) * (w as int) + (col as int) + 1);
                assert(pix(w as int, col as int, row as int) == (row as int) * (w as int) + (
                col as int));
                assert(nb@[pix(w as int, col as int, row as int)] == buf@[pix(
                    w as int,
                    col as int,
                    h - 1 - row as int,
                )]);
                assert forall|px: int, py: int| 0 <= px < w && 0 <= py < row implies nb@[#[trigger]
                    pix(w as int, px, py)] == buf@[pix(w as int, px, h - 1 - py)] by {
                    crate::raster::lemma_pix_bound(w as int, row as int, px, py);
                    assert((w as int) * (row as int) == (row as int) * (w as int))
                        by (nonlinear_arith);
                }
                assert forall|px: int| 0 <= px < col + 1 implies nb@[#[trigger] pix(
                    w as int,
                    px,
                    row as int,
                )] == buf@[pix(w as int, px, h - 1 - row as int)] by {
                    assert(pix(w as int, px, row as int) == (row as int) * (w as int) + px);
                }
            }
            col += 1;
        }
        proof {
            assert(((row as int) + 1) * (w as int) == (row as int) * (w as int) + (w as int))
                by (nonlinear_arith);
        }
        row += 1;
    }
    proof {
        assert(nb@.len() == (h as int) * (w as int));
        assert((h as int) * (w as int) == (w as int) * (h as int)) by (nonlinear_arith);
    }
    *buf = nb;
}

/// Texture coordinates of face `fi` of the mesh, with `(0, 0)` defaults.
fn mesh_face_textri(m: &Mesh, fi: usize) -> (tc: TexTri)
    requires
        crate::model::mesh_coords_wf(*m),
        fi < m.faces@.len(),
    ensures
        tc == face_textri(*m, fi as int),
        crate::raster::tex_tri_in_range(tc),
{
    let f = m.faces[fi];
    match &m.tex_coords {
        Some(tcs) => {
            let n = tcs.len();
            let t0 = if f.a < n {
                tcs[f.a]
            } else {
                TexCoord { u: 0, v: 0 }
            };
            let t1 = if f.b < n {
                tcs[f.b]
            } else {
                TexCoord { u: 0, v: 0 }
            };
            let t2 = if f.c < n {
                tcs[f.c]
            } else {
                TexCoord { u: 0, v: 0 }
            };
            TexTri { u0: t0.u, v0: t0.v, u1: t1.u, v1: t1.v, u2: t2.u, v2: t2.v }
        },
        None => TexTri { u0: 0, v0: 0, u1: 0, v1: 0, u2: 0, v2: 0 },
    }
}

/// Renders the whole scene into `img`: background fill, then every lit face
/// of every mesh through the depth-tested rasterizer, then the vertical
/// flip.  Afterwards a pixel no lit face admits shows the background, and a
/// pixel some lit face admits shows the exact colour of one of the lit
/// faces admitting it.
pub fn render_scene(
    scene: &Scene,
    textures: &Vec<Option<Texture>>,
    b: &Bounds,
    margin: i64,
    light: Vertex,
    w: u32,
    h: u32,
    img: &mut Vec<Colour>,
)
    requires
        scene_wf(*scene),
        vertex_in_range(light),
        0 <= margin && 2 * margin < FP,
        bounds_in_range(*b),
        b.min_x < b.max_x,
        b.min_y < b.max_y,
        bounds_cover(*scene, *b),
        (w as int) * (h as int) <= 4294967295,
        old(img)@.len() == (w as int) * (h as int),
        forall|i: int|
            0 <= i < textures@.len() ==> match #[trigger] textures@[i] {
                Some(t) => texture_wf(t),
                None => true,
            },
    ensures
        final(img)@.len() == (w as int) * (h as int),
        ({
            let sc = spec_scale(
                w as int,
                h as int,
                margin as int,
                b.max_x - b.min_x,
                b.max_y - b.min_y,
            );
            forall|px: int, py: int|
                #![trigger pix(w as int, px, py)]
                0 <= px < w && 0 <= py < h ==> {
                    let src = h - 1 - py;
                    &&& (pixel_uncovered(*scene, *b, sc, light, w as int, h as int, px, src)
                        ==> final(img)@[pix(w as int, px, py)] == bkg_colour())
                    &&& (!pixel_uncovered(*scene, *b, sc, light, w as int, h as int, px, src)
                        ==> exists|mi: int, fi: int|
                        #[trigger] face_lit_covers(
                            *scene,
                            *b,
                            sc,
                            light,
                            w as int,
                            h as int,
                            mi,
                            fi,
                            px,
                            src,
                        ) && final(img)@[pix(w as int, px, py)] == face_colour(
                            *scene,
                            *b,
                            sc,
                            light,
                            textures@,
                            w as int,
                            h as int,
                            mi,
                            fi,
                            px,
                            src,
                        ))
                }
        }),
{
    let ghost sc_g = spec_scale(
        w as int,
        h as int,
        margin as int,
        b.max_x - b.min_x,
        b.max_y - b.min_y,
    );
    proof {
        assert((w as int) * (h as int) < 18446744073709551616int) by (nonlinear_arith)
            requires
                0 <= (w as int) <= 4294967295,
                0 <= (h as int) <= 4294967295,
        ;
    }
    let area: usize = ((w as u64) * (h as u64)) as usize;
    let bkg = Colour::from_rgb((211, 211, 211));
    *img = make_colour_buffer(area, bkg);
    let mut zbuf: Vec<i64> = make_depth_buffer(area);
    let sc: i128 = compute_scale(w, h, margin, b);
    proof {
        assert((w as int) * (FP - 2 * (margin as int)) * FP <= (w as int) * FP * FP && (h as int)
            * (FP - 2 * (margin as int)) * FP <= (h as int) * FP * FP) by (nonlinear_arith)
            requires
                0 <= margin,
                0 <= (w as int),
                0 <= (h as int),
                FP == 65536,
        ;
        assert forall|px: int, py: int| 0 <= px < w && 0 <= py < h implies #[trigger] fill_state(
            *scene,
            *b,
            sc_g,
            light,
            textures@,
            w as int,
            h as int,
            0,
            0,
            img@,
            zbuf@,
            px,
            py,
        ) by {
            crate::raster::lemma_pix_bound(w as int, h as int, px, py);
            assert(img@[pix(w as int, px, py)] == bkg_colour());
            assert(zbuf@[pix(w as int, px, py)] == i64::MIN);
            assert(!covered_by_done(*scene, *b, sc_g, light, w as int, h as int, 0, 0, px, py));
        }
    }
    let nm = scene.meshes.len();
    let mut mi: usize = 0;
    while mi < nm
        invariant
            scene_wf(*scene),
            vertex_in_range(light),
            0 <= margin && 2 * margin < FP,
            bounds_in_range(*b),
            b.min_x < b.max_x,
            b.min_y < b.max_y,
            bounds_cover(*scene, *b),
            (w as int) * (h as int) <= 4294967295,
            forall|i: int|
                0 <= i < textures@.len() ==> match #[trigger] textures@[i] {
                    Some(t) => texture_wf(t),
                    None => true,
                },
            sc == sc_g,
            0 <= sc <= 18446744073709551616,
            sc * (b.max_x - b.min_x) <= (w as int) * (FP - 2 * (margin as int)) * FP,
            sc * (b.max_y - b.min_y) <= (h as int) * (FP - 2 * (margin as int)) * FP,
            sc * (b.max_x - b.min_x) <= (w as int) * FP * FP,
            sc * (b.max_y - b.min_y) <= (h as int) * FP * FP,
            img@.len() == (w as int) * (h as int),
            zbuf@.len() == (w as int) * (h as int),
            nm == scene.meshes@.len(),
            mi <= nm,
            forall|px: int, py: int|
                0 <= px < w && 0 <= py < h ==> #[trigger] fill_state(
                    *scene,
                    *b,
                    sc_g,
                    light,
                    textures@,
                    w as int,
                    h as int,
                    mi as int,
                    0,
                    img@,
                    zbuf@,
                    px,
                    py,
                ),
        decreases nm - mi,
    {
        let mesh = &scene.meshes[mi];
        let nv = mesh.vertices.len();
        let mut projected: Vec<(i64, i64)> = Vec::new();
        let mut vi: usize = 0;
        proof {
            assert(mesh_wf(scene.meshes@[mi as int]));
        }
        while vi < nv
            invariant
                *mesh == scene.meshes@[mi as int],
                mi < nm,
                nm == scene.meshes@.len(),
                mesh_wf(*mesh),
                bounds_cover(*scene, *b),
                bounds_in_range(*b),
                b.min_x < b.max_x,
                b.min_y < b.max_y,
                0 <= sc <= 18446744073709551616,
                sc * (b.max_x - b.min_x) <= (w as int) * FP * FP,
                sc * (b.max_y - b.min_y) <= (h as int) * FP * FP,
                nv == mesh.vertices@.len(),
                vi <= nv,
                projected@.len() == vi,
                forall|j: int|
                    0 <= j < vi ==> {
                        let v = mesh.vertices@[j];
                        (#[trigger] projected@[j]).0 == spec_project(
                            v.x as int,
                            b.min_x as int,
                            b.max_x as int,
                            sc as int,
                            w as int,
                        ) && projected@[j].1 == spec_project(
                            v.y as int,
                            b.min_y as int,
                            b.max_y as int,
                            sc as int,
                            h as int,
                        ) && 0 <= projected@[j].0 <= w && 0 <= projected@[j].1 <= h
                    },
            decreases nv - vi,
        {
            let v = mesh.vertices[vi];
            proof {
                assert(crate::project::in_scene(*scene, mi as int, vi as int));
                assert(b.min_x <= v.x <= b.max_x && b.min_y <= v.y <= b.max_y);
            }
            let sx = project_coord(v.x, b.min_x, b.max_x, sc, w);
            let sy = project_coord(v.y, b.min_y, b.max_y, sc, h);
            projected.push((sx, sy));
            vi += 1;
        }
        let tex_opt: Option<&Texture> = if mesh.material_index < textures.len() {
            match &textures[mesh.material_index] {
                Some(t) => Some(t),
                None => None,
            }
        } else {
            None
        };
        proof {
            assert(crate::raster::opt_tex(tex_opt) == mesh_texture(
                textures@,
                scene.meshes@[mi as int],
            ));
        }
        let nf = mesh.faces.len();
        let mut fi: usize = 0;
        while fi < nf
            invariant
                scene_wf(*scene),
                vertex_in_range(light),
                bounds_cover(*scene, *b),
                bounds_in_range(*b),
                b.min_x < b.max_x,
                b.min_y < b.max_y,
                (w as int) * (h as int) <= 4294967295,
                forall|i: int|
                    0 <= i < textures@.len() ==> match #[trigger] textures@[i] {
                        Some(t) => texture_wf(t),
                        None => true,
                    },
                sc == sc_g,
                0 <= sc <= 18446744073709551616,
                img@.len() == (w as int) * (h as int),
                zbuf@.len() == (w as int) * (h as int),
                *mesh == scene.meshes@[mi as int],
                mi < nm,
                nm == scene.meshes@.len(),
                mesh_wf(*mesh),
                nv == mesh.vertices@.len(),
                nf == mesh.faces@.len(),
                fi <= nf,
                projected@.len() == nv,
                forall|j: int|
                    0 <= j < nv ==> {
                        let v = mesh.vertices@[j];
                        (#[trigger] projected@[j]).0 == spec_project(
                            v.x as int,
                            b.min_x as int,
                            b.max_x as int,
                            sc as int,
                            w as int,
                        ) && projected@[j].1 == spec_project(
                            v.y as int,
                            b.min_y as int,
                            b.max_y as int,
                            sc as int,
                            h as int,
                        ) && 0 <= projected@[j].0 <= w && 0 <= projected@[j].1 <= h
                    },
                crate::raster::opt_tex(tex_opt) == mesh_texture(
                    textures@,
                    scene.meshes@[mi as int],
                ),
                match tex_opt {
                    Some(t) => texture_wf(*t),
                    None => true,
                },
                forall|px: int, py: int|
                    0 <= px < w && 0 <= py < h ==> #[trigger] fill_state(
                        *scene,
                        *b,
                        sc_g,
                        light,
                        textures@,
                        w as int,
                        h as int,
                        mi as int,
                        fi as int,
                        img@,
                        zbuf@,
                        px,
                        py,
                    ),
            decreases nf - fi,
        {
            let f = mesh.faces[fi];
            let v0 = mesh.vertices[f.a];
            let v1 = mesh.vertices[f.b];
            let v2 = mesh.vertices[f.c];
            let inten = face_intensity(v0, v1, v2, light);
            proof {
                assert(inten == face_light(*scene, light, mi as int, fi as int));
                // a witness before (mi, fi + 1) is before (mi, fi) or is (mi, fi)
                assert forall|px: int, py: int|
                    #[trigger] covered_by_done(
                        *scene,
                        *b,
                        sc_g,
                        light,
                        w as int,
                        h as int,
                        mi as int,
                        fi as int + 1,
                        px,
                        py,
                    ) implies covered_by_done(
                    *scene,
                    *b,
                    sc_g,
                    light,
                    w as int,
                    h as int,
                    mi as int,
                    fi as int,
                    px,
                    py,
                ) || face_lit_covers(
                    *scene,
                    *b,
                    sc_g,
                    light,
                    w as int,
                    h as int,
                    mi as int,
                    fi as int,
                    px,
                    py,
                ) by {
                    let (mj, fj) = choose|mj: int, fj: int|
                        (mj < mi || (mj == mi && fj < fi as int + 1)) && #[trigger] face_lit_covers(
                            *scene,
                            *b,
                            sc_g,
                            light,
                            w as int,
                            h as int,
                            mj,
                            fj,
                            px,
                            py,
                        );
                    if mj < mi || (mj == mi && fj < fi) {
                        assert(covered_by_done(
                            *scene,
                            *b,
                            sc_g,
                            light,
                            w as int,
                            h as int,
                            mi as int,
                            fi as int,
                            px,
                            py,
                        ));
                    }
                }
            }
            if inten > 0 {
                let p0 = projected[f.a];
                let p1 = projected[f.b];
                let p2 = projected[f.c];
                let t = ProjTri {
                    x0: p0.0,
                    y0: p0.1,
                    z0: v0.z,
                    x1: p1.0,
                    y1: p1.1,
                    z1: v1.z,
                    x2: p2.0,
                    y2: p2.1,
                    z2: v2.z,
                };
                let tc = mesh_face_textri(mesh, fi);
                proof {
                    assert(t == face_tri(
                        *scene,
                        *b,
                        sc_g,
                        w as int,
                        h as int,
                        mi as int,
                        fi as int,
                    ));
                    assert(tri_in_range(t));
                }
                let ghost pre_img = img@;
                let ghost pre_z = zbuf@;
                draw_triangle(img, &mut zbuf, w, h, &t, tex_opt, Some(&tc), inten);
                proof {
                    assert forall|px: int, py: int| 0 <= px < w && 0 <= py < h implies
                        #[trigger] fill_state(
                        *scene,
                        *b,
                        sc_g,
                        light,
                        textures@,
                        w as int,
                        h as int,
                        mi as int,
                        fi as int + 1,
                        img@,
                        zbuf@,
                        px,
                        py,
                    ) by {
                        let i = pix(w as int, px, py);
                        assert(fill_state(
                            *scene,
                            *b,
                            sc_g,
                            light,
                            textures@,
                            w as int,
                            h as int,
                            mi as int,
                            fi as int,
                            pre_img,
                            pre_z,
                            px,
                            py,
                        ));
                        assert(filled_at(
                            t,
                            crate::raster::opt_tex(tex_opt),
                            Some(tc),
                            inten as int,
                            w as int,
                            h as int,
                            pre_img,
                            pre_z,
                            img@,
                            zbuf@,
                            px,
                            py,
                        ));
                        if crate::raster::draws(t, w as int, h as int, pre_z[i] as int, px, py) {
                            assert(face_lit_covers(
                                *scene,
                                *b,
                                sc_g,
                                light,
                                w as int,
                                h as int,
                                mi as int,
                                fi as int,
                                px,
                                py,
                            ) && img@[pix(w as int, px, py)] == face_colour(
                                *scene,
                                *b,
                                sc_g,
                                light,
                                textures@,
                                w as int,
                                h as int,
                                mi as int,
                                fi as int,
                                px,
                                py,
                            ));
                        } else {
                            if pre_img[i] == bkg_colour() && pre_z[i] == i64::MIN
                                && !covered_by_done(
                                *scene,
                                *b,
                                sc_g,
                                light,
                                w as int,
                                h as int,
                                mi as int,
                                fi as int,
                                px,
                                py,
                            ) {
                                // this face cannot admit the pixel: its depth
                                // would beat the untouched sentinel
                                if face_lit_covers(
                                    *scene,
                                    *b,
                                    sc_g,
                                    light,
                                    w as int,
                                    h as int,
                                    mi as int,
                                    fi as int,
                                    px,
                                    py,
                                ) {
                                    assert(crate::raster::covers(t, px, py));
                                    crate::raster::lemma_covers_in_bbox(
                                        t,
                                        w as int,
                                        h as int,
                                        px,
                                        py,
                                    );
                                    crate::raster::lemma_depth_bounded(t, px, py);
                                    assert(crate::raster::draws(
                                        t,
                                        w as int,
                                        h as int,
                                        pre_z[i] as int,
                                        px,
                                        py,
                                    ));
                                    assert(false);
                                }
                                assert(!covered_by_done(
                                    *scene,
                                    *b,
                                    sc_g,
                                    light,
                                    w as int,
                                    h as int,
                                    mi as int,
                                    fi as int + 1,
                                    px,
                                    py,
                                ));
                            } else {
                                let (mi2, fi2) = choose|mi2: int, fi2: int|
                                    #[trigger] face_lit_covers(
                                        *scene,
                                        *b,
                                        sc_g,
                                        light,
                                        w as int,
                                        h as int,
                                        mi2,
                                        fi2,
                                        px,
                                        py,
                                    ) && pre_img[pix(w as int, px, py)] == face_colour(
                                        *scene,
                                        *b,
                                        sc_g,
                                        light,
                                        textures@,
                                        w as int,
                                        h as int,
                                        mi2,
                                        fi2,
                                        px,
                                        py,
                                    );
                                assert(face_lit_covers(
                                    *scene,
                                    *b,
                                    sc_g,
                                    light,
                                    w as int,
                                    h as int,
                                    mi2,
                                    fi2,
                                    px,
                                    py,
                                ) && img@[pix(w as int, px, py)] == face_colour(
                                    *scene,
                                    *b,
                                    sc_g,
                                    light,
                                    textures@,
                                    w as int,
                                    h as int,
                                    mi2,
                                    fi2,
                                    px,
                                    py,
                                ));
                            }
                        }
                    }
                }
            } else {
                proof {
                    // an unlit face admits nothing: the state carries over
                    assert forall|px: int, py: int| 0 <= px < w && 0 <= py < h implies
                        #[trigger] fill_state(
                        *scene,
                        *b,
                        sc_g,
                        light,
                        textures@,
                        w as int,
                        h as int,
                        mi as int,
                        fi as int + 1,
                        img@,
                        zbuf@,
                        px,
                        py,
                    ) by {
                        assert(fill_state(
                            *scene,
                            *b,
                            sc_g,
                            light,
                            textures@,
                            w as int,
                            h as int,
                            mi as int,
                            fi as int,
                            img@,
                            zbuf@,
                            px,
                            py,
                        ));
                        assert(!face_lit_covers(
                            *scene,
                            *b,
                            sc_g,
                            light,
                            w as int,
                            h as int,
                            mi as int,
                            fi as int,
                            px,
                            py,
                        ));
                    }
                }
            }
            fi += 1;
        }
        proof {
            // all faces of this mesh done: the prefix advances to the next mesh
            assert forall|px: int, py: int|
                #[trigger] covered_by_done(
                    *scene,
                    *b,
                    sc_g,
                    light,
                    w as int,
                    h as int,
                    mi as int + 1,
                    0,
                    px,
                    py,
                ) implies covered_by_done(
                *scene,
                *b,
                sc_g,
                light,
                w as int,
                h as int,
                mi as int,
                nf as int,
                px,
                py,
            ) by {
                let (mj, fj) = choose|mj: int, fj: int|
                    (mj < mi as int + 1 || (mj == mi as int + 1 && fj < 0)) && #[trigger] face_lit_covers(
                        *scene,
                        *b,
                        sc_g,
                        light,
                        w as int,
                        h as int,
                        mj,
                        fj,
                        px,
                        py,
                    );
                assert(mj <= mi);
                if mj == mi {
                    assert(fj < scene.meshes@[mj].faces@.len());
                }
            }
            assert forall|px: int, py: int| 0 <= px < w && 0 <= py < h implies
                #[trigger] fill_state(
                *scene,
                *b,
                sc_g,
                light,
                textures@,
                w as int,
                h as int,
                mi as int + 1,
                0,
                img@,
                zbuf@,
                px,
                py,
            ) by {
                assert(fill_state(
                    *scene,
                    *b,
                    sc_g,
                    light,
                    textures@,
                    w as int,
                    h as int,
                    mi as int,
                    nf as int,
                    img@,
                    zbuf@,
                    px,
                    py,
                ));
            }
        }
        mi += 1;
    }
    let ghost pre_flip = img@;
    flip_vertical(img, w, h);
    proof {
        assert forall|px: int, py: int| 0 <= px < w && 0 <= py < h implies {
            let src = h - 1 - py;
            &&& (pixel_uncovered(*scene, *b, sc_g, light, w as int, h as int, px, src)
                ==> img@[#[trigger] pix(w as int, px, py)] == bkg_colour())
            &&& (!pixel_uncovered(*scene, *b, sc_g, light, w as int, h as int, px, src)
                ==> exists|mi2: int, fi2: int|
                #[trigger] face_lit_covers(
                    *scene,
                    *b,
                    sc_g,
                    light,
                    w as int,
                    h as int,
                    mi2,
                    fi2,
                    px,
                    src,
                ) && img@[pix(w as int, px, py)] == face_colour(
                    *scene,
                    *b,
                    sc_g,
                    light,
                    textures@,
                    w as int,
                    h as int,
                    mi2,
                    fi2,
                    px,
                    src,
                ))
        } by {
            let src = h - 1 - py;
            assert(img@[pix(w as int, px, py)] == pre_flip[pix(w as int, px, src)]);
            assert(fill_state(
                *scene,
                *b,
                sc_g,
                light,
                textures@,
                w as int,
                h as int,
                nm as int,
                0,
                pre_flip,
                zbuf@,
                px,
                src,
            ));
            if pre_flip[pix(w as int, px, src)] == bkg_colour() && zbuf@[pix(w as int, px, src)]
                == i64::MIN && !covered_by_done(
                *scene,
                *b,
                sc_g,
                light,
                w as int,
                h as int,
                nm as int,
                0,
                px,
                src,
            ) {
                // no face at all admits the pixel: any lit cover would be a
                // processed witness
                assert forall|mi2: int, fi2: int|
                    !#[trigger] face_lit_covers(
                        *scene,
                        *b,
                        sc_g,
                        light,
                        w as int,
                        h as int,
                        mi2,
                        fi2,
                        px,
                        src,
                    ) by {
                    if face_lit_covers(
                        *scene,
                        *b,
                        sc_g,
                        light,
                        w as int,
                        h as int,
                        mi2,
                        fi2,
                        px,
                        src,
                    ) {
                        assert(mi2 < nm);
                        assert(covered_by_done(
                            *scene,
                            *b,
                            sc_g,
                            light,
                            w as int,
                            h as int,
                            nm as int,
                            0,
                            px,
                            src,
                        ));
                    }
                }
                assert(pixel_uncovered(*scene, *b, sc_g, light, w as int, h as int, px, src));
            } else {
                let (mi2, fi2) = choose|mi2: int, fi2: int|
                    #[trigger] face_lit_covers(
                        *scene,
                        *b,
                        sc_g,
                        light,
                        w as int,
                        h as int,
                        mi2,
                        fi2,
                        px,
                        src,
                    ) && pre_flip[pix(w as int, px, src)] == face_colour(
                        *scene,
                        *b,
                        sc_g,
                        light,
                        textures@,
                        w as int,
                        h as int,
                        mi2,
                        fi2,
                        px,
                        src,
                    );
                assert(face_lit_covers(
                    *scene,
                    *b,
                    sc_g,
                    light,
                    w as int,
                    h as int,
                    mi2,
                    fi2,
                    px,
                    src,
                ) && img@[pix(w as int, px, py)] == face_colour(
                    *scene,
                    *b,
                    sc_g,
                    light,
                    textures@,
                    w as int,
                    h as int,
                    mi2,
                    fi2,
                    px,
                    src,
                ));
                assert(!pixel_uncovered(*scene, *b, sc_g, light, w as int, h as int, px, src));
            }
        }
    }
}

/// Every vertex of the scene has the same x coordinate.
pub open spec fn all_x_equal(s: Scene) -> bool {
    forall|mi1: int, vi1: int, mi2: int, vi2: int|
        crate::project::in_scene(s, mi1, vi1) && crate::project::in_scene(s, mi2, vi2) ==> (
        #[trigger] s.meshes@[mi1].vertices@[vi1]).x == (#[trigger] s.meshes@[mi2].vertices@[vi2]).x
}

/// Every vertex of the scene has the same y coordinate.
pub open spec fn all_y_equal(s: Scene) -> bool {
    forall|mi1: int, vi1: int, mi2: int, vi2: int|
        crate::project::in_scene(s, mi1, vi1) && crate::project::in_scene(s, mi2, vi2) ==> (
        #[trigger] s.meshes@[mi1].vertices@[vi1]).y == (#[trigger] s.meshes@[mi2].vertices@[vi2]).y
}

/// The scene cannot be fitted to a viewport: it has no vertices at all, or
/// its bounding box has zero width or zero height.
pub open spec fn scene_degenerate(s: Scene) -> bool {
    !crate::project::scene_has_vertex(s) || all_x_equal(s) || all_y_equal(s)
}

pub open spec fn textures_wf(textures: Seq<Option<Texture>>) -> bool {
    forall|i: int|
        0 <= i < textures.len() ==> match #[trigger] textures[i] {
            Some(t) => texture_wf(t),
            None => true,
        }
}

fn scene_faces_ok(s: &Scene) -> (ok: bool)
    ensures
        ok == crate::model::scene_faces_wf(*s),
{
    let nm = s.meshes.len();
    let mut mi: usize = 0;
    while mi < nm
        invariant
            nm == s.meshes@.len(),
            mi <= nm,
            forall|j: int| 0 <= j < mi ==> crate::model::mesh_faces_wf(#[trigger] s.meshes@[j]),
        decreases nm - mi,
    {
        let mesh = &s.meshes[mi];
        let nv = mesh.vertices.len();
        let nf = mesh.faces.len();
        let mut fi: usize = 0;
        while fi < nf
            invariant
                nm == s.meshes@.len(),
                mi < nm,
                *mesh == s.meshes@[mi as int],
                nv == mesh.vertices@.len(),
                nf == mesh.faces@.len(),
                fi <= nf,
                forall|j: int|
                    0 <= j < fi ==> {
                        let f = #[trigger] mesh.faces@[j];
                        f.a < nv && f.b < nv && f.c < nv
                    },
            decreases nf - fi,
        {
            let f = mesh.faces[fi];
            if f.a >= nv || f.b >= nv || f.c >= nv {
                proof {
                    assert(s.meshes@[mi as int].faces@[fi as int] == f);
                    assert(!crate::model::mesh_faces_wf(s.meshes@[mi as int]));
                }
                return false;
            }
            fi += 1;
        }
        proof {
            assert(crate::model::mesh_faces_wf(s.meshes@[mi as int]));
        }
        mi += 1;
    }
    true
}

fn vertex_ok(v: &Vertex) -> (ok: bool)
    ensures
        ok == vertex_in_range(*v),
{
    v.x >= -crate::fixed::COORD_LIMIT && v.x <= crate::fixed::COORD_LIMIT && v.y
        >= -crate::fixed::COORD_LIMIT && v.y <= crate::fixed::COORD_LIMIT && v.z
        >= -crate::fixed::COORD_LIMIT && v.z <= crate::fixed::COORD_LIMIT
}

fn scene_coords_ok(s: &Scene) -> (ok: bool)
    ensures
        ok == crate::model::scene_coords_wf(*s),
{
    let nm = s.meshes.len();
    let mut mi: usize = 0;
    while mi < nm
        invariant
            nm == s.meshes@.len(),
            mi <= nm,
            forall|j: int| 0 <= j < mi ==> crate::model::mesh_coords_wf(#[trigger] s.meshes@[j]),
        decreases nm - mi,
    {
        let mesh = &s.meshes[mi];
        let nv = mesh.vertices.len();
        let mut vi: usize = 0;
        while vi < nv
            invariant
                nm == s.meshes@.len(),
                mi < nm,
                *mesh == s.meshes@[mi as int],
                nv == mesh.vertices@.len(),
                vi <= nv,
                forall|j: int| 0 <= j < vi ==> vertex_in_range(#[trigger] mesh.vertices@[j]),
            decreases nv - vi,
        {
            if !vertex_ok(&mesh.vertices[vi]) {
                proof {
                    assert(!vertex_in_range(s.meshes@[mi as int].vertices@[vi as int]));
                    assert(!crate::model::mesh_coords_wf(s.meshes@[mi as int]));
                }
                return false;
            }
            vi += 1;
        }
        match &mesh.tex_coords {
            Some(tcs) => {
                let nt = tcs.len();
                let mut ti: usize = 0;
                while ti < nt
                    invariant
                        nm == s.meshes@.len(),
                        mi < nm,
                        *mesh == s.meshes@[mi as int],
                        mesh.tex_coords matches Some(tcs2) && tcs2@ == tcs@,
                        nt == tcs@.len(),
                        ti <= nt,
                        forall|j: int|
                            0 <= j < ti ==> crate::model::tex_coord_in_range(#[trigger] tcs@[j]),
                        forall|j: int|
                            0 <= j < mesh.vertices@.len() ==> vertex_in_range(
                                #[trigger] mesh.vertices@[j],
                            ),
                    decreases nt - ti,
                {
                    let tcv = tcs[ti];
                    if tcv.u < -crate::fixed::COORD_LIMIT || tcv.u > crate::fixed::COORD_LIMIT
                        || tcv.v < -crate::fixed::COORD_LIMIT || tcv.v
                        > crate::fixed::COORD_LIMIT {
                        proof {
                            assert(s.meshes@[mi as int].tex_coords matches Some(tt) && !crate::model::tex_coord_in_range(tt@[ti as int]));
                            assert(!crate::model::mesh_coords_wf(s.meshes@[mi as int]));
                        }
                        return false;
                    }
                    ti += 1;
                }
            },
            None => {},
        }
        proof {
            assert(crate::model::mesh_coords_wf(s.meshes@[mi as int]));
        }
        mi += 1;
    }
    true
}

/// The renderer: a validated configuration, scene, texture table and model
/// bounds, plus the pixel buffer the next render fills.  Built by
/// [`ModelToImage::new`]; the well-formedness [`ModelToImage::wf`]
/// established there is what `render` relies on.
pub struct ModelToImage {
    pub size: Size,
    pub margin: i64,
    pub light_dir: Vertex,
    pub scene: Scene,
    pub textures: Vec<Option<Texture>>,
    pub img_buf: Vec<Colour>,
    pub bounds: Bounds,
}

impl ModelToImage {
    pub open spec fn wf(self) -> bool {
        &&& scene_wf(self.scene)
        &&& vertex_in_range(self.light_dir)
        &&& 0 <= self.margin && 2 * self.margin < FP
        &&& (self.size.width as int) * (self.size.height as int) <= 4294967295
        &&& self.img_buf@.len() == (self.size.width as int) * (self.size.height as int)
        &&& textures_wf(self.textures@)
        &&& bounds_cover(self.scene, self.bounds)
        &&& bounds_tight(self.scene, self.bounds)
        &&& bounds_in_range(self.bounds)
        &&& self.bounds.min_x < self.bounds.max_x
        &&& self.bounds.min_y < self.bounds.max_y
    }

    /// The uniform fitting scale of this renderer.
    pub open spec fn scale(self) -> int {
        spec_scale(
            self.size.width as int,
            self.size.height as int,
            self.margin as int,
            self.bounds.max_x - self.bounds.min_x,
            self.bounds.max_y - self.bounds.min_y,
        )
    }

    /// No lit face admits pixel `(px, py)` (pre-flip coordinates).
    pub open spec fn uncovered(self, px: int, py: int) -> bool {
        pixel_uncovered(
            self.scene,
            self.bounds,
            self.scale(),
            self.light_dir,
            self.size.width as int,
            self.size.height as int,
            px,
            py,
        )
    }

    pub open spec fn lit_covers(self, mi: int, fi: int, px: int, py: int) -> bool {
        face_lit_covers(
            self.scene,
            self.bounds,
            self.scale(),
            self.light_dir,
            self.size.width as int,
            self.size.height as int,
            mi,
            fi,
            px,
            py,
        )
    }

    pub open spec fn colour_of_face(self, mi: int, fi: int, px: int, py: int) -> Colour {
        face_colour(
            self.scene,
            self.bounds,
            self.scale(),
            self.light_dir,
            self.textures@,
            self.size.width as int,
            self.size.height as int,
            mi,
            fi,
            px,
            py,
        )
    }

    /// Output pixel `(px, py)` of the image `img` is what a render of
    /// `self` must put there.  Row `py` shows pre-flip row `height - 1 - py`
    /// of the scene: the background when no lit face admits the pixel, and
    /// the exact colour of one of the lit faces admitting it otherwise.
    pub open spec fn rendered_pixel(self, img: Seq<Colour>, px: int, py: int) -> bool {
        let src = self.size.height - 1 - py;
        &&& (self.uncovered(px, src) ==> img[pix(self.size.width as int, px, py)]
            == bkg_colour())
        &&& (!self.uncovered(px, src) ==> exists|mi: int, fi: int|
            #[trigger] self.lit_covers(mi, fi, px, src) && img[pix(
                self.size.width as int,
                px,
                py,
            )] == self.colour_of_face(mi, fi, px, src))
    }

    /// The finished image `img` is what one render of `self` must produce,
    /// pixel by pixel.
    pub open spec fn rendered_image(self, img: Seq<Colour>) -> bool {
        forall|px: int, py: int|
            0 <= px < self.size.width && 0 <= py < self.size.height ==> #[trigger]
                self.rendered_pixel(img, px, py)
    }

    /// Validates the configuration, scene and texture table and builds the
    /// renderer, or says exactly what is wrong.  The pixel buffer starts out
    /// black until the first render.
    pub fn new(config: RenderConfig, scene: Scene, textures: Vec<Option<Texture>>) -> (r: Result<
        ModelToImage,
        RenderError,
    >)
        ensures
            match r {
                Ok(m) => {
                    &&& m.wf()
                    &&& m.size == (Size { width: config.size.0, height: config.size.1 })
                    &&& m.margin == config.margin
                    &&& m.light_dir == config.light_dir
                    &&& m.scene == scene
                    &&& m.textures == textures
                    &&& !scene_degenerate(scene)
                    &&& forall|i: int|
                        0 <= i < m.img_buf@.len() ==> m.img_buf@[i] == (Colour { r: 0, g: 0, b: 0 })
                },
                Err(e) => {
                    let margin_ok = 0 <= config.margin && 2 * config.margin < FP;
                    let size_ok = (config.size.0 as int) * (config.size.1 as int) <= 4294967295;
                    let coords_ok = vertex_in_range(config.light_dir) && crate::model::scene_coords_wf(scene);
                    let faces_ok = crate::model::scene_faces_wf(scene);
                    let tex_ok = textures_wf(textures@);
                    &&& ((e == RenderError::MarginOutOfRange) <==> !margin_ok)
                    &&& ((e == RenderError::SizeTooLarge) <==> (margin_ok && !size_ok))
                    &&& ((e == RenderError::CoordOutOfRange) <==> (margin_ok && size_ok
                        && !coords_ok))
                    &&& ((e == RenderError::BadModel) <==> (margin_ok && size_ok && coords_ok
                        && !faces_ok))
                    &&& ((e == RenderError::BadTexture) <==> (margin_ok && size_ok && coords_ok
                        && faces_ok && !tex_ok))
                    &&& ((e == RenderError::DegenerateBounds) <==> (margin_ok && size_ok
                        && coords_ok && faces_ok && tex_ok && scene_degenerate(scene)))
                },
            },
    {
        if config.margin < 0 || config.margin >= FP / 2 {
            return Err(RenderError::MarginOutOfRange);
        }
        let w = config.size.0;
        let h = config.size.1;
        proof {
            assert((w as int) * (h as int) == ((w as u64) * (h as u64)) as int
                && (w as int) * (h as int) < 18446744073709551616int) by (nonlinear_arith)
                requires
                    0 <= (w as int) <= 4294967295,
                    0 <= (h as int) <= 4294967295,
            ;
        }
        if (w as u64) * (h as u64) > 4294967295u64 {
            return Err(RenderError::SizeTooLarge);
        }
        if !vertex_ok(&config.light_dir) || !scene_coords_ok(&scene) {
            return Err(RenderError::CoordOutOfRange);
        }
        if !scene_faces_ok(&scene) {
            return Err(RenderError::BadModel);
        }
        if !textures_ok(&textures) {
            return Err(RenderError::BadTexture);
        }
        match scene_bounds(&scene) {
            None => {
                proof {
                    assert(scene_degenerate(scene));
                }
                Err(RenderError::DegenerateBounds)
            },
            Some(b) => {
                if b.min_x == b.max_x || b.min_y == b.max_y {
                    proof {
                        if b.min_x == b.max_x {
                            assert forall|mi1: int, vi1: int, mi2: int, vi2: int|
                                crate::project::in_scene(scene, mi1, vi1)
                                    && crate::project::in_scene(scene, mi2, vi2) implies (
                            #[trigger] scene.meshes@[mi1].vertices@[vi1]).x == (
                            #[trigger] scene.meshes@[mi2].vertices@[vi2]).x by {}
                            assert(all_x_equal(scene));
                        } else {
                            assert forall|mi1: int, vi1: int, mi2: int, vi2: int|
                                crate::project::in_scene(scene, mi1, vi1)
                                    && crate::project::in_scene(scene, mi2, vi2) implies (
                            #[trigger] scene.meshes@[mi1].vertices@[vi1]).y == (
                            #[trigger] scene.meshes@[mi2].vertices@[vi2]).y by {}
                            assert(all_y_equal(scene));
                        }
                    }
                    return Err(RenderError::DegenerateBounds);
                }
                proof {
                    // the bounds are attained by vertices, which are in range
                    let (mi1, vi1) = choose|mi1: int, vi1: int|
                        crate::project::in_scene(scene, mi1, vi1) && (
                        #[trigger] scene.meshes@[mi1].vertices@[vi1]).x == b.min_x;
                    let (mi2, vi2) = choose|mi2: int, vi2: int|
                        crate::project::in_scene(scene, mi2, vi2) && (
                        #[trigger] scene.meshes@[mi2].vertices@[vi2]).x == b.max_x;
                    let (mi3, vi3) = choose|mi3: int, vi3: int|
                        crate::project::in_scene(scene, mi3, vi3) && (
                        #[trigger] scene.meshes@[mi3].vertices@[vi3]).y == b.min_y;
                    let (mi4, vi4) = choose|mi4: int, vi4: int|
                        crate::project::in_scene(scene, mi4, vi4) && (
                        #[trigger] scene.meshes@[mi4].vertices@[vi4]).y == b.max_y;
                    assert(vertex_in_range(scene.meshes@[mi1].vertices@[vi1]));
                    assert(vertex_in_range(scene.meshes@[mi2].vertices@[vi2]));
                    assert(vertex_in_range(scene.meshes@[mi3].vertices@[vi3]));
                    assert(vertex_in_range(scene.meshes@[mi4].vertices@[vi4]));
                    assert(bounds_in_range(b));
                    // two attained, distinct values on each axis: not degenerate
                    assert(!all_x_equal(scene));
                    assert(!all_y_equal(scene));
                }
                let area: usize = ((w as u64) * (h as u64)) as usize;
                let img_buf = make_colour_buffer(area, Colour { r: 0, g: 0, b: 0 });
                Ok(
                    ModelToImage {
                        size: Size { width: w, height: h },
                        margin: config.margin,
                        light_dir: config.light_dir,
                        scene,
                        textures,
                        img_buf,
                        bounds: b,
                    },
                )
            },
        }
    }

    /// Starts the rendering and leaves the populated pixel buffer on the
    /// renderer: background fill, depth-tested fill of every lit face, then
    /// the vertical flip.  Pixels no lit face admits show the background;
    /// every other pixel is the background or the exact colour of some lit
    /// face admitting it.  Row `py` of the result is pre-flip row
    /// `height - 1 - py`.
    pub fn render(&mut self)
        requires
            old(self).wf(),
        ensures
            final(self).wf(),
            final(self).size == old(self).size,
            final(self).margin == old(self).margin,
            final(self).light_dir == old(self).light_dir,
            final(self).scene == old(self).scene,
            final(self).textures == old(self).textures,
            final(self).bounds == old(self).bounds,
            final(self).img_buf@.len() == (old(self).size.width as int) * (
            old(self).size.height as int),
            old(self).rendered_image(final(self).img_buf@),
    {
        let w = self.size.width;
        let h = self.size.height;
        render_scene(
            &self.scene,
            &self.textures,
            &self.bounds,
            self.margin,
            self.light_dir,
            w,
            h,
            &mut self.img_buf,
        );
        proof {
            let ghost sc = old(self).scale();
            assert forall|px: int, py: int|
                0 <= px < old(self).size.width && 0 <= py < old(self).size.height implies old(
                self,
            ).rendered_pixel(self.img_buf@, px, py) by {
                let src = old(self).size.height - 1 - py;
                assert(pix(old(self).size.width as int, px, py) == pix(w as int, px, py));
                if !old(self).uncovered(px, src) {
                    assert(!pixel_uncovered(
                        old(self).scene,
                        old(self).bounds,
                        sc,
                        old(self).light_dir,
                        w as int,
                        h as int,
                        px,
                        src,
                    ));
                    let (mi, fi) = choose|mi: int, fi: int|
                        #[trigger] face_lit_covers(
                            old(self).scene,
                            old(self).bounds,
                            sc,
                            old(self).light_dir,
                            w as int,
                            h as int,
                            mi,
                            fi,
                            px,
                            src,
                        ) && self.img_buf@[pix(w as int, px, py)] == face_colour(
                            old(self).scene,
                            old(self).bounds,
                            sc,
                            old(self).light_dir,
                            old(self).textures@,
                            w as int,
                            h as int,
                            mi,
                            fi,
                            px,
                            src,
                        );
                    assert(old(self).lit_covers(mi, fi, px, src) && self.img_buf@[pix(
                        old(self).size.width as int,
                        px,
                        py,
                    )] == old(self).colour_of_face(mi, fi, px, src));
                }
            }
            assert(old(self).rendered_image(self.img_buf@));
        }
    }

    /// Provides the pixel buffer as an output for your own manipulation of
    /// the image: row-major, `width * height` pixels.
    pub fn output(&self) -> (r: &Vec<Colour>)
        ensures
            r@ == self.img_buf@,
    {
        &self.img_buf
    }
}

fn textures_ok(textures: &Vec<Option<Texture>>) -> (ok: bool)
    ensures
        ok == textures_wf(textures@),
{
    let n = textures.len();
    let mut i: usize = 0;
    while i < n
        invariant
            n == textures@.len(),
            i <= n,
            forall|j: int|
                0 <= j < i ==> match #[trigger] textures@[j] {
                    Some(t) => texture_wf(t),
                    None => true,
                },
        decreases n - i,
    {
        match &textures[i] {
            Some(t) => {
                let tw64 = t.width as u64;
                let th64 = t.height as u64;
                proof {
                    assert(tw64 * th64 <= 4294967295 * 4294967295 && 0 <= tw64 * th64)
                        by (nonlinear_arith)
                        requires
                            0 <= tw64 <= 4294967295,
                            0 <= th64 <= 4294967295,
                    ;
                }
                let ok = t.width >= 1 && t.height >= 1 && (t.pixels.len() as u64) == tw64 * th64;
                if !ok {
                    return false;
                }
            },
            None => {},
        }
        i += 1;
    }
    true
}

} // verus!
