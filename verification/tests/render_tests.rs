use model_to_image::fixed::FP;
use model_to_image::model::{Face, Mesh, RenderConfig, RenderError, Scene, TexCoord, Texture, Vertex};
use model_to_image::render::ModelToImage;
use model_to_image::utils::Colour;

const BKG: [u8; 3] = [211, 211, 211];

fn v(x: i64, y: i64, z: i64) -> Vertex {
    Vertex { x, y, z }
}

fn mesh(vertices: Vec<Vertex>, faces: Vec<Face>) -> Mesh {
    Mesh { vertices, faces, tex_coords: None, material_index: 0 }
}

fn one_tri_scene(vertices: Vec<Vertex>) -> Scene {
    Scene { meshes: vec![mesh(vertices, vec![Face { a: 0, b: 1, c: 2 }])] }
}

/// The unit triangle (0,0,0), (1,0,0), (0,1,0) in fixed-point.
fn unit_tri() -> Vec<Vertex> {
    vec![v(0, 0, 0), v(FP, 0, 0), v(0, FP, 0)]
}

fn render_with(scene: Scene, light: Vertex, size: (u32, u32), margin: i64) -> Vec<Colour> {
    let config = RenderConfig::new().with_size(size).with_light_direction(light).with_margin(margin);
    let mut m2i = ModelToImage::new(config, scene, Vec::new()).unwrap();
    m2i.render();
    m2i.output().clone()
}

#[test]
fn light_toward_screen_draws_brightest_flat_shade() {
    // normal is cross((0,1,0), (1,0,0)) = (0,0,-1); light (0,0,-1) gives
    // intensity +1, so the face is drawn at full white
    let out = render_with(one_tri_scene(unit_tri()), v(0, 0, -FP), (10, 10), 0);
    assert_eq!(out.len(), 100);
    let drawn: usize = out.iter().filter(|c| c.to_array() != BKG).count();
    assert_eq!(drawn, 64);
    assert_eq!(out[0].to_array(), [255, 255, 255]);
    assert_eq!(out[9 * 10].to_array(), [255, 255, 255]);
    assert_eq!(out[8 * 10 + 1].to_array(), [255, 255, 255]);
    assert_eq!(out[9].to_array(), BKG);
}

#[test]
fn light_away_from_screen_culls_the_face() {
    // same triangle, light (0,0,1): intensity -1, the face is culled and
    // only background remains
    let out = render_with(one_tri_scene(unit_tri()), v(0, 0, FP), (10, 10), 0);
    assert_eq!(out.len(), 100);
    assert!(out.iter().all(|c| c.to_array() == BKG));
}

#[test]
fn depth_test_is_order_independent() {
    // triangle A sits on the z = 2 plane (full white); triangle B is tilted
    // at z <= 1 (shade 228).  Whichever is drawn first, A wins everywhere
    // they overlap because larger z is closer.
    let a = vec![v(0, 0, 2 * FP), v(FP, 0, 2 * FP), v(0, FP, 2 * FP)];
    let b = vec![v(0, 0, FP), v(FP, 0, FP / 2), v(0, FP, FP)];
    let fa = vec![Face { a: 0, b: 1, c: 2 }];
    let s1 = Scene { meshes: vec![mesh(a.clone(), fa.clone()), mesh(b.clone(), fa.clone())] };
    let s2 = Scene { meshes: vec![mesh(b.clone(), fa.clone()), mesh(a.clone(), fa.clone())] };
    let o1 = render_with(s1, v(0, 0, -FP), (10, 10), 0);
    let o2 = render_with(s2, v(0, 0, -FP), (10, 10), 0);
    assert_eq!(o1, o2);
    assert_eq!(o1[8 * 10 + 1].to_array(), [255, 255, 255]);
    // B alone shades the same pixel darker
    let ob = render_with(Scene { meshes: vec![mesh(b, fa)] }, v(0, 0, -FP), (10, 10), 0);
    assert_eq!(ob[8 * 10 + 1].to_array(), [228, 228, 228]);
}

#[test]
fn collinear_projection_draws_no_pixels() {
    // three points whose projections all land on the line x = y; the face
    // is lit (light along -x) but its signed area is zero
    let verts = vec![v(0, 0, 0), v(FP, FP, 0), v(FP / 2, FP / 2, FP)];
    let out = render_with(one_tri_scene(verts), v(-FP, 0, 0), (10, 10), 0);
    assert!(out.iter().all(|c| c.to_array() == BKG));
}

#[test]
fn drawn_pixels_respect_the_margin() {
    // with margin 0.1 on a 100-pixel axis, at least 9 pixels stay free on
    // each side
    let out = render_with(one_tri_scene(unit_tri()), v(0, 0, -FP), (100, 100), 6553);
    for y in 0..100usize {
        for x in 0..100usize {
            if out[y * 100 + x].to_array() != BKG {
                assert!((9..=90).contains(&x) && (9..=90).contains(&y), "pixel ({x},{y})");
            }
        }
    }
}

#[test]
fn larger_margin_strictly_shrinks_the_projection() {
    let o1 = render_with(one_tri_scene(unit_tri()), v(0, 0, -FP), (100, 100), 6553);
    let o3 = render_with(one_tri_scene(unit_tri()), v(0, 0, -FP), (100, 100), 19660);
    let extent = |o: &Vec<Colour>| {
        let xs: Vec<usize> = (0..10000usize)
            .filter(|i| o[*i].to_array() != BKG)
            .map(|i| i % 100)
            .collect();
        let ys: Vec<usize> = (0..10000usize)
            .filter(|i| o[*i].to_array() != BKG)
            .map(|i| i / 100)
            .collect();
        (
            xs.iter().max().unwrap() - xs.iter().min().unwrap(),
            ys.iter().max().unwrap() - ys.iter().min().unwrap(),
        )
    };
    let (x1, y1) = extent(&o1);
    let (x3, y3) = extent(&o3);
    assert_eq!((x1, y1), (81, 81));
    assert_eq!((x3, y3), (41, 41));
    assert!(x3 < x1 && y3 < y1);
    // the extents shrink by (1 - 2*0.3) / (1 - 2*0.1) = 0.5, up to rounding
    assert!((2 * x3).abs_diff(x1) <= 1 && (2 * y3).abs_diff(y1) <= 1);
}

#[test]
fn output_is_background_wherever_nothing_covers() {
    let out = render_with(one_tri_scene(unit_tri()), v(0, 0, -FP), (10, 10), 0);
    assert_eq!(out.len(), 100);
    // the half above the anti-diagonal is uncovered after the flip
    assert_eq!(out[9].to_array(), BKG);
    // pre-flip (5, 6) lies beyond the hypotenuse; after the flip it is (5, 3)
    assert_eq!(out[3 * 10 + 5].to_array(), BKG);
    // mixed content: exactly the background and full-white pixels exist
    assert!(out.iter().all(|c| c.to_array() == BKG || c.to_array() == [255, 255, 255]));
}

#[test]
fn textured_face_samples_the_texture() {
    // all three corners share uv = (0.25, 0.75), which lands on texel (0,0)
    let tex = Texture {
        width: 2,
        height: 2,
        pixels: vec![
            Colour { r: 10, g: 20, b: 30 },
            Colour { r: 40, g: 50, b: 60 },
            Colour { r: 70, g: 80, b: 90 },
            Colour { r: 100, g: 110, b: 120 },
        ],
    };
    let uv = TexCoord { u: FP / 4, v: 3 * FP / 4 };
    let m = Mesh {
        vertices: unit_tri(),
        faces: vec![Face { a: 0, b: 1, c: 2 }],
        tex_coords: Some(vec![uv, uv, uv]),
        material_index: 0,
    };
    let config = RenderConfig::new()
        .with_size((10, 10))
        .with_light_direction(v(0, 0, -FP))
        .with_margin(0);
    let mut m2i =
        ModelToImage::new(config, Scene { meshes: vec![m] }, vec![Some(tex)]).unwrap();
    m2i.render();
    let out = m2i.output();
    // intensity is exactly 1, so the sampled texel comes through unscaled
    assert_eq!(out[8 * 10 + 1].to_array(), [10, 20, 30]);
}

#[test]
fn builder_defaults() {
    let c = RenderConfig::new();
    assert_eq!(c.size, (256, 256));
    assert_eq!(c.light_dir, Vertex { x: 0, y: 0, z: -FP });
    assert_eq!(c.margin, 6553);
}

#[test]
fn with_size_floors_to_ten() {
    let c = RenderConfig::new().with_size((5, 3));
    assert_eq!(c.size, (10, 10));
    let c2 = RenderConfig::new().with_size((800, 600));
    assert_eq!(c2.size, (800, 600));
}

#[test]
fn margin_out_of_range_is_rejected() {
    let config = RenderConfig::new().with_margin(FP / 2);
    let r = ModelToImage::new(config, one_tri_scene(unit_tri()), Vec::new());
    assert_eq!(r.err().unwrap(), RenderError::MarginOutOfRange);
    let config = RenderConfig::new().with_margin(-1);
    let r = ModelToImage::new(config, one_tri_scene(unit_tri()), Vec::new());
    assert_eq!(r.err().unwrap(), RenderError::MarginOutOfRange);
    // the largest accepted margin still builds
    let config = RenderConfig::new().with_margin(FP / 2 - 1);
    assert!(ModelToImage::new(config, one_tri_scene(unit_tri()), Vec::new()).is_ok());
}

#[test]
fn oversized_image_is_rejected() {
    let config = RenderConfig::new().with_size((100000, 100000));
    let r = ModelToImage::new(config, one_tri_scene(unit_tri()), Vec::new());
    assert_eq!(r.err().unwrap(), RenderError::SizeTooLarge);
}

#[test]
fn empty_scene_is_degenerate() {
    let r = ModelToImage::new(RenderConfig::new(), Scene { meshes: vec![] }, Vec::new());
    assert_eq!(r.err().unwrap(), RenderError::DegenerateBounds);
}

#[test]
fn flat_model_is_degenerate() {
    // all vertices share one x: zero width
    let verts = vec![v(0, 0, 0), v(0, FP, 0), v(0, 2 * FP, FP)];
    let r = ModelToImage::new(RenderConfig::new(), one_tri_scene(verts), Vec::new());
    assert_eq!(r.err().unwrap(), RenderError::DegenerateBounds);
}

#[test]
fn coordinate_out_of_range_is_rejected() {
    let verts = vec![v(1 << 30, 0, 0), v(FP, 0, 0), v(0, FP, 0)];
    let r = ModelToImage::new(RenderConfig::new(), one_tri_scene(verts), Vec::new());
    assert_eq!(r.err().unwrap(), RenderError::CoordOutOfRange);
}

#[test]
fn face_index_out_of_range_is_rejected() {
    let s = Scene { meshes: vec![mesh(unit_tri(), vec![Face { a: 0, b: 1, c: 5 }])] };
    let r = ModelToImage::new(RenderConfig::new(), s, Vec::new());
    assert_eq!(r.err().unwrap(), RenderError::BadModel);
}

#[test]
fn mismatched_texture_is_rejected() {
    let bad = Texture { width: 2, height: 2, pixels: vec![Colour { r: 0, g: 0, b: 0 }; 3] };
    let r = ModelToImage::new(RenderConfig::new(), one_tri_scene(unit_tri()), vec![Some(bad)]);
    assert_eq!(r.err().unwrap(), RenderError::BadTexture);
}

#[test]
fn missing_texture_slot_falls_back_to_flat_shading() {
    // material index beyond the table: the face is drawn with the flat shade
    let m = Mesh {
        vertices: unit_tri(),
        faces: vec![Face { a: 0, b: 1, c: 2 }],
        tex_coords: None,
        material_index: 7,
    };
    let config = RenderConfig::new()
        .with_size((10, 10))
        .with_light_direction(v(0, 0, -FP))
        .with_margin(0);
    let mut m2i = ModelToImage::new(config, Scene { meshes: vec![m] }, Vec::new()).unwrap();
    m2i.render();
    assert_eq!(m2i.output()[8 * 10 + 1].to_array(), [255, 255, 255]);
}

#[test]
fn zero_light_draws_nothing() {
    let out = render_with(one_tri_scene(unit_tri()), v(0, 0, 0), (10, 10), 0);
    assert!(out.iter().all(|c| c.to_array() == BKG));
}

#[test]
fn render_twice_gives_the_same_image() {
    let config = RenderConfig::new().with_size((10, 10)).with_light_direction(v(0, 0, -FP));
    let mut m2i = ModelToImage::new(config, one_tri_scene(unit_tri()), Vec::new()).unwrap();
    m2i.render();
    let first = m2i.output().clone();
    m2i.render();
    assert_eq!(&first, m2i.output());
}
