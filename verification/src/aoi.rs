//! The watcher of a novel forum: the parts of it that read text.

pub mod parser;
pub mod postamt;
pub mod request;
pub mod store;
