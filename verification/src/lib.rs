//! Quadtree forest meshes in two dimensions: base geometry, mesh file
//! parsing, face enumeration, node numbering and data transfer between
//! successive adaptations of a mesh.

pub mod consts;
pub mod corners;
pub mod text;
pub mod roots;
pub mod basetree;
pub mod su2;
pub mod faces;
pub mod transfer;
pub mod ordering;
pub mod nodes;
pub mod cells;
