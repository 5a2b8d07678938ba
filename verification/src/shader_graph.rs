//! Portable, typed surface shader graphs. One graph attaches per object and
//! compiles to a WGSL `graph_material_surface` function for the scene renderer.
pub mod pins;
pub mod graph;
pub mod error;
pub mod topo;
pub mod validate;
pub mod edit;
pub mod codegen;

pub use pins::{NodeKind, PinType, TextureSlot};
pub use graph::{Node, ShaderGraph, Socket, Value, Wire};
pub use error::GraphError;
pub use crate::scalar::Scalar;
