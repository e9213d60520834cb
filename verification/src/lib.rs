//! A small mesh of local worker processes: wire framing, the registry
//! protocol, the durable name map, and the pipeline fabric.

pub mod aoi;
pub mod cell;
pub mod client;
pub mod cron;
pub mod github_release;
pub mod pipeline;
pub mod planet;
pub mod plugin;
pub mod server;
pub mod text;
pub mod utils;
pub mod wire;
pub mod words;
pub mod xeno;
pub mod yukikaze;
