//! The watcher of software releases: its watch list and its commands.

pub mod postamt;
pub mod target;
