//! A verified reader and writer for a textual mesh interchange format:
//! position / normal / texture-coordinate / vertex-colour records and polygon
//! face indices, grouped into named sub-objects.
//!
//! Scalar fields are carried as their validated decimal text; converting them
//! to machine floating point is left to the caller, so that every rule of the
//! format itself is stated and proved here.
pub mod error;
pub mod laws;
pub mod mesh;
pub mod num;
pub mod parse;
pub mod scalar;
pub mod text;

pub use error::Error;
pub use mesh::MeshOBJ;
pub use mesh::Vec2;
pub use mesh::Vec3;
pub use parse::parse_obj;
