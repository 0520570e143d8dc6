pub mod error;
pub mod paths;
pub mod assets;
pub mod buffers;
pub mod document;
pub mod scene;
pub mod names;
pub mod mesh;
pub mod material;
pub mod geometry;
pub mod import;
pub mod laws;
