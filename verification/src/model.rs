//! Data model of the renderer: scenes of triangulated meshes, decoded
//! textures, and the render configuration.  Coordinates are fixed-point with
//! 16 fractional bits (see [`crate::fixed`]); an external importer converts
//! its own vertex and texel data into these plain values.

use crate::fixed::{COORD_LIMIT, FP};
use crate::utils::Colour;
use vstd::prelude::*;

verus! {

/// Default margin fraction, about a tenth of each viewport axis.
pub const DEFAULT_MARGIN: i64 = 6553;

/// A position or direction in fixed-point model space.
#[derive(Clone, Copy, Debug, PartialEq, Eq, Structural)]
pub struct Vertex {
    pub x: i64,
    pub y: i64,
    pub z: i64,
}

pub open spec fn vertex_in_range(v: Vertex) -> bool {
    &&& -COORD_LIMIT <= v.x <= COORD_LIMIT
    &&& -COORD_LIMIT <= v.y <= COORD_LIMIT
    &&& -COORD_LIMIT <= v.z <= COORD_LIMIT
}

/// A triangular face: three indices into the owning mesh's vertex list.
/// Only triangles reach the renderer; the importer filters or triangulates
/// everything else.
#[derive(Clone, Copy, Debug, PartialEq, Eq, Structural)]
pub struct Face {
    pub a: usize,
    pub b: usize,
    pub c: usize,
}

/// A per-vertex texture coordinate, fixed-point; `(0, 0)` maps to one corner
/// of the texture and `(FP, FP)` to the opposite one.
#[derive(Clone, Copy, Debug, PartialEq, Eq, Structural)]
pub struct TexCoord {
    pub u: i64,
    pub v: i64,
}

pub open spec fn tex_coord_in_range(t: TexCoord) -> bool {
    &&& -COORD_LIMIT <= t.u <= COORD_LIMIT
    &&& -COORD_LIMIT <= t.v <= COORD_LIMIT
}

/// One mesh: vertex positions, triangular faces, an optional per-vertex
/// texture-coordinate channel, and the index of the material this mesh draws
/// its texture from.
pub struct Mesh {
    pub vertices: Vec<Vertex>,
    pub faces: Vec<Face>,
    /// `None` when the mesh carries no UV channel.  A vertex whose index is
    /// beyond the end of the channel falls back to `(0, 0)`.
    pub tex_coords: Option<Vec<TexCoord>>,
    pub material_index: usize,
}

/// Every face of the mesh names three vertices the mesh actually has.
pub open spec fn mesh_faces_wf(m: Mesh) -> bool {
    forall|i: int|
        0 <= i < m.faces@.len() ==> {
            let f = #[trigger] m.faces@[i];
            f.a < m.vertices@.len() && f.b < m.vertices@.len() && f.c < m.vertices@.len()
        }
}

/// Every vertex and texture coordinate of the mesh is within `COORD_LIMIT`.
pub open spec fn mesh_coords_wf(m: Mesh) -> bool {
    &&& forall|i: int| 0 <= i < m.vertices@.len() ==> vertex_in_range(#[trigger] m.vertices@[i])
    &&& match m.tex_coords {
        Some(tcs) => forall|i: int|
            0 <= i < tcs@.len() ==> tex_coord_in_range(#[trigger] tcs@[i]),
        None => true,
    }
}

pub open spec fn mesh_wf(m: Mesh) -> bool {
    mesh_faces_wf(m) && mesh_coords_wf(m)
}

/// An ordered sequence of meshes, immutable once supplied by the importer.
pub struct Scene {
    pub meshes: Vec<Mesh>,
}

pub open spec fn scene_faces_wf(s: Scene) -> bool {
    forall|i: int| 0 <= i < s.meshes@.len() ==> mesh_faces_wf(#[trigger] s.meshes@[i])
}

pub open spec fn scene_coords_wf(s: Scene) -> bool {
    forall|i: int| 0 <= i < s.meshes@.len() ==> mesh_coords_wf(#[trigger] s.meshes@[i])
}

pub open spec fn scene_wf(s: Scene) -> bool {
    scene_faces_wf(s) && scene_coords_wf(s)
}

/// A decoded texture image: row-major texels.
pub struct Texture {
    pub width: u32,
    pub height: u32,
    pub pixels: Vec<Colour>,
}

pub open spec fn texture_wf(t: Texture) -> bool {
    &&& t.width >= 1
    &&& t.height >= 1
    &&& t.pixels@.len() == t.width * t.height
}

/// Axis-aligned bounding box of the model over x and y.  Depth is never
/// bounded: it only feeds the depth test, not the projection.
#[derive(Clone, Copy, Debug, PartialEq, Eq, Structural)]
pub struct Bounds {
    pub min_x: i64,
    pub max_x: i64,
    pub min_y: i64,
    pub max_y: i64,
}

/// Image size in pixels.
#[derive(Clone, Copy, Debug, PartialEq, Eq, Structural)]
pub struct Size {
    pub width: u32,
    pub height: u32,
}

/// Immutable render configuration.  All fields have stated defaults; the
/// margin is a fixed-point fraction of each axis reserved as empty border and
/// the light direction is any nonzero fixed-point vector (it is normalized
/// internally during shading; a zero vector lights nothing).
#[derive(Clone, Copy, Debug)]
pub struct RenderConfig {
    pub size: (u32, u32),
    pub light_dir: Vertex,
    pub margin: i64,
}

impl RenderConfig {
    /// The default configuration: 256 x 256 pixels, light along the negative
    /// depth axis, a tenth of each axis as margin.
    pub fn new() -> (c: RenderConfig)
        ensures
            c.size == (256u32, 256u32),
            c.light_dir.x == 0 && c.light_dir.y == 0 && c.light_dir.z == -FP,
            c.margin == DEFAULT_MARGIN,
    {
        RenderConfig {
            size: (256, 256),
            light_dir: Vertex { x: 0, y: 0, z: -FP },
            margin: DEFAULT_MARGIN,
        }
    }

    /// Provides a size for the image; each dimension is floored to 10.
    pub fn with_size(self, size: (u32, u32)) -> (c: RenderConfig)
        ensures
            c.size.0 == if size.0 >= 10 { size.0 } else { 10u32 },
            c.size.1 == if size.1 >= 10 { size.1 } else { 10u32 },
            c.light_dir == self.light_dir,
            c.margin == self.margin,
    {
        let w = if size.0 >= 10 {
            size.0
        } else {
            10
        };
        let h = if size.1 >= 10 {
            size.1
        } else {
            10
        };
        RenderConfig { size: (w, h), ..self }
    }

    /// Provides a light direction to be shining onto the model.
    pub fn with_light_direction(self, light_dir: Vertex) -> (c: RenderConfig)
        ensures
            c.light_dir == light_dir,
            c.size == self.size,
            c.margin == self.margin,
    {
        RenderConfig { light_dir, ..self }
    }

    /// Provides a margin (fixed-point fraction of each axis) kept free around
    /// the model when it is fitted to the viewport.
    pub fn with_margin(self, margin: i64) -> (c: RenderConfig)
        ensures
            c.margin == margin,
            c.size == self.size,
            c.light_dir == self.light_dir,
    {
        RenderConfig { margin, ..self }
    }
}

/// Everything that can go wrong while building a renderer.  Rendering itself
/// cannot fail once a build succeeded.
#[derive(Clone, Copy, Debug, PartialEq, Eq, Structural)]
pub enum RenderError {
    /// The margin must satisfy `0 <= margin < FP / 2`.
    MarginOutOfRange,
    /// The model has no vertices, or its bounding box has zero width or
    /// height, so no finite scale fits it to the viewport.
    DegenerateBounds,
    /// A vertex, light or texture coordinate exceeds `COORD_LIMIT`.
    CoordOutOfRange,
    /// `width * height` exceeds `u32::MAX` pixels.
    SizeTooLarge,
    /// A face names a vertex index beyond the end of its mesh's vertex list.
    BadModel,
    /// A texture's pixel buffer does not match its stated dimensions.
    BadTexture,
}

} // verus!
