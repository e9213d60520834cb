//! The messages that nodes exchange with the chat bridge.

pub mod ask;
pub mod bot;
pub mod postamt;
pub mod request;

pub use ask::Ask;
pub use request::Request;

use vstd::prelude::*;

verus! {

/// The exit sentinel: the four bytes that end a session.
pub const EXIT: [u8; 4] = [0, 0, 0, 0];

} // verus!
