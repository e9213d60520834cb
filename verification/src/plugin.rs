//! What a node plugs in beside the mesh itself.

pub mod store;
