//! The listener scaffold for nodes that answer requests.

pub mod client;
