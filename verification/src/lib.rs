//! Software renderer core: fits a triangulated model into a pixel viewport
//! (orthographic, aspect-preserving, with a margin), lights each face with a
//! fixed directional light, and fills the surviving triangles with a
//! depth-tested barycentric rasterizer, optionally sampling a diffuse texture.
//!
//! All geometry is carried in signed fixed-point with 16 fractional bits, so
//! every stage of the pixel pipeline is exact integer arithmetic.  Model
//! import, texture decoding and image encoding are external concerns: callers
//! hand in plain vertex, face and texel data and read back the pixel buffer.

pub mod fixed;
pub mod model;
pub mod project;
pub mod raster;
pub mod render;
pub mod shade;
pub mod utils;

use vstd::prelude::*;

verus! {

/// Demonstration image: a 256 x 256 gradient, red growing along x and green
/// along y, blue zero; channel value for coordinate `t` is
/// `t * 255999 / 255000` (the truncation of `255.999 * t / 255`).
pub open spec fn gradient_channel(t: int) -> int {
    t * 255999 / 255000
}

/// Builds the gradient demonstration buffer, row-major, 256 x 256.
pub fn render() -> (buf: Vec<utils::Colour>)
    ensures
        buf@.len() == 65536,
        forall|x: int, y: int|
            0 <= x < 256 && 0 <= y < 256 ==> {
                let c = #[trigger] buf@[y * 256 + x];
                c.r == gradient_channel(x) && c.g == gradient_channel(y) && c.b == 0
            },
{
    let mut buf: Vec<utils::Colour> = Vec::new();
    let mut y: usize = 0;
    while y < 256
        invariant
            y <= 256,
            buf@.len() == y * 256,
            forall|px: int, py: int|
                0 <= px < 256 && 0 <= py < y ==> {
                    let c = #[trigger] buf@[py * 256 + px];
                    c.r == gradient_channel(px) && c.g == gradient_channel(py) && c.b == 0
                },
        decreases 256 - y,
    {
        let mut x: usize = 0;
        while x < 256
            invariant
                y < 256,
                x <= 256,
                buf@.len() == y * 256 + x,
                forall|px: int, py: int|
                    0 <= px < 256 && 0 <= py < y ==> {
                        let c = #[trigger] buf@[py * 256 + px];
                        c.r == gradient_channel(px) && c.g == gradient_channel(py) && c.b == 0
                    },
                forall|px: int|
                    0 <= px < x ==> {
                        let c = #[trigger] buf@[y as int * 256 + px];
                        c.r == gradient_channel(px) && c.g == gradient_channel(y as int) && c.b
                            == 0
                    },
            decreases 256 - x,
        {
            let r = (x * 255999 / 255000) as u8;
            let g = (y * 255999 / 255000) as u8;
            buf.push(utils::Colour { r, g, b: 0 });
            x += 1;
        }
        y += 1;
    }
    buf
}

} // verus!
