use vstd::prelude::*;
use crate::buffers::BufferDesc;

verus! {

/// The width of the integers an index accessor holds.
#[derive(Debug, Clone, Copy, PartialEq, Eq)]
pub enum ComponentType {
    U8,
    U16,
    U32,
}

/// A tightly packed run of little-endian unsigned integers in a buffer.
#[derive(Debug, Clone, Copy)]
pub struct IndexAccessor {
    /// Index of the buffer that holds the values.
    pub buffer: usize,
    /// Byte offset of the first value in that buffer.
    pub offset: usize,
    /// Number of values.
    pub count: usize,
    pub component: ComponentType,
}

/// One drawable part of a mesh.
#[derive(Debug, Clone, Copy)]
pub struct Primitive {
    /// Index of the accessor that holds the vertex positions.
    pub positions: Option<usize>,
    /// Indices of the accessors of the optional attributes; colours and
    /// texture coordinates are those of channel 0.
    pub normals: Option<usize>,
    pub tangents: Option<usize>,
    pub colors: Option<usize>,
    pub uvs: Option<usize>,
    pub indices: Option<IndexAccessor>,
    /// Index of the material in the document.
    pub material: Option<usize>,
}

/// A mesh: a name and its primitives.
#[derive(Debug, Clone)]
pub struct Mesh {
    pub name: Option<String>,
    pub primitives: Vec<Primitive>,
}

/// A node of the scene hierarchy.
#[derive(Debug, Clone)]
pub struct Node {
    /// Index of the mesh the node carries.
    pub mesh: Option<usize>,
    /// Indices of the child nodes, in declared order.
    pub children: Vec<usize>,
    /// Whether the node's local transform has a zero determinant, which marks
    /// the node and everything below it as disabled.
    pub singular: bool,
}

/// Where the pixels of a texture come from.
#[derive(Debug, Clone)]
pub enum ImageSource {
    /// A data URL, or a path relative to the document.
    Uri(String),
    /// A byte range of a buffer.
    View { buffer: usize, offset: usize, length: usize, stride: Option<usize> },
}

/// The texture slots of a material; each names a texture of the document.
#[derive(Debug, Clone)]
pub struct MaterialDesc {
    pub name: Option<String>,
    pub albedo_texture: Option<usize>,
    pub metallic_roughness_texture: Option<usize>,
    pub normal_texture: Option<usize>,
    pub occlusion_texture: Option<usize>,
    pub emissive_texture: Option<usize>,
    pub transmission_texture: Option<usize>,
}

/// A parsed scene document, as the format parser hands it over.
#[derive(Debug, Clone)]
pub struct Document {
    pub buffers: Vec<BufferDesc>,
    /// The image source of each texture.
    pub textures: Vec<ImageSource>,
    pub materials: Vec<MaterialDesc>,
    pub meshes: Vec<Mesh>,
    pub nodes: Vec<Node>,
    /// The root nodes of each scene.
    pub scenes: Vec<Vec<usize>>,
}

} // verus!
