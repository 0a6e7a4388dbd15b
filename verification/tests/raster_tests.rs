use model_to_image::raster::{barycentric, ProjTri};

fn tri(ax: i64, ay: i64, bx: i64, by: i64, cx: i64, cy: i64) -> ProjTri {
    ProjTri { x0: ax, y0: ay, z0: 0, x1: bx, y1: by, z1: 0, x2: cx, y2: cy, z2: 0 }
}

#[test]
fn barycentric_at_first_vertex() {
    // den = (2-2)*(3-3) - (7-2)*(9-3) = -30
    let t = tri(2, 3, 7, 3, 2, 9);
    let b = barycentric(&t, 2, 3).unwrap();
    assert_eq!(b, (-30, 0, 0, -30));
}

#[test]
fn barycentric_at_second_vertex() {
    let t = tri(2, 3, 7, 3, 2, 9);
    let b = barycentric(&t, 7, 3).unwrap();
    assert_eq!(b, (0, -30, 0, -30));
}

#[test]
fn barycentric_at_third_vertex() {
    let t = tri(2, 3, 7, 3, 2, 9);
    let b = barycentric(&t, 2, 9).unwrap();
    assert_eq!(b, (0, 0, -30, -30));
}

#[test]
fn barycentric_weights_sum_to_den() {
    let t = tri(0, 0, 10, 2, 3, 9);
    for (px, py) in [(0i64, 0i64), (4, 4), (9, 1), (-3, 7)] {
        let (w0, w1, w2, den) = barycentric(&t, px, py).unwrap();
        assert_eq!(w0 + w1 + w2, den);
    }
}

#[test]
fn barycentric_degenerate_is_none() {
    // the three projected points are collinear: zero signed area
    let t = tri(0, 0, 5, 5, 10, 10);
    assert!(barycentric(&t, 3, 3).is_none());
    assert!(barycentric(&t, 7, 1).is_none());
}

#[test]
fn barycentric_interior_point_positive_weights() {
    // counter-clockwise triangle: den = (0-0)*(0-10) - (10-0)*(10-10)...
    let t = tri(0, 10, 10, 10, 0, 0);
    // den = (0-0)*(10-10) - (10-0)*(0-10) = 100 > 0
    let (w0, w1, w2, den) = barycentric(&t, 3, 8).unwrap();
    assert_eq!(den, 100);
    assert!(w0 >= 0 && w1 >= 0 && w2 >= 0);
    // a point outside has a negative weight
    let (v0, v1, v2, _) = barycentric(&t, 11, 0).unwrap();
    assert!(v0 < 0 || v1 < 0 || v2 < 0);
}
