use model_to_image::fixed::{div_trunc_i128, isqrt_u128};
use model_to_image::utils::{Colour, DefinedColours};

#[test]
fn colour_new_u8_field_order() {
    // the second parameter is blue, the third green
    let c = Colour::new_u8(1, 2, 3);
    assert_eq!(c.to_array(), [1, 3, 2]);
}

#[test]
fn colour_to_array_and_from_rgb() {
    let c = Colour::from_rgb((10, 20, 30));
    assert_eq!(c.to_array(), [10, 20, 30]);
    assert_eq!(c, Colour { r: 10, g: 20, b: 30 });
}

#[test]
fn colour_default_is_black() {
    let c: Colour = Default::default();
    assert_eq!(c.to_array(), [0, 0, 0]);
}

#[test]
fn defined_colours_palette() {
    assert_eq!(DefinedColours::Red.colour().to_array(), [255, 0, 0]);
    assert_eq!(DefinedColours::Blue.colour().to_array(), [0, 255, 0]);
    assert_eq!(DefinedColours::Green.colour().to_array(), [0, 0, 255]);
    assert_eq!(DefinedColours::White.colour().to_array(), [255, 255, 255]);
    assert_eq!(DefinedColours::Black.colour().to_array(), [0, 0, 0]);
}

#[test]
fn isqrt_small_values() {
    assert_eq!(isqrt_u128(0), 0);
    assert_eq!(isqrt_u128(1), 1);
    assert_eq!(isqrt_u128(2), 1);
    assert_eq!(isqrt_u128(3), 1);
    assert_eq!(isqrt_u128(4), 2);
    assert_eq!(isqrt_u128(15), 3);
    assert_eq!(isqrt_u128(16), 4);
    assert_eq!(isqrt_u128(1_000_000), 1000);
    assert_eq!(isqrt_u128(999_999), 999);
}

#[test]
fn isqrt_large_value() {
    let n: u128 = (1u128 << 60) - 1;
    let r = isqrt_u128(n);
    assert!(r * r <= n);
    assert!((r + 1) * (r + 1) > n);
}

#[test]
fn div_trunc_rounds_toward_zero() {
    assert_eq!(div_trunc_i128(7, 2), 3);
    assert_eq!(div_trunc_i128(-7, 2), -3);
    assert_eq!(div_trunc_i128(7, -2), -3);
    assert_eq!(div_trunc_i128(-7, -2), 3);
    assert_eq!(div_trunc_i128(0, 5), 0);
    assert_eq!(div_trunc_i128(6, 3), 2);
}

#[test]
fn gradient_render_formula() {
    let buf = model_to_image::render();
    assert_eq!(buf.len(), 65536);
    assert_eq!(buf[0].to_array(), [0, 0, 0]);
    // x = 255, y = 0: red channel saturates the row
    assert_eq!(buf[255].to_array(), [255, 0, 0]);
    // x = 0, y = 255
    assert_eq!(buf[255 * 256].to_array(), [0, 255, 0]);
    // channel value is t * 255999 / 255000
    assert_eq!(buf[128 * 256 + 128].to_array(), [128, 128, 0]);
    assert_eq!(buf[200].to_array(), [(200u64 * 255999 / 255000) as u8, 0, 0]);
}
