use vstd::prelude::*;

pub mod bytes;
pub mod commands;
pub mod decimal;
pub mod motion;
pub mod poller;
pub mod ports;
pub mod program;
pub mod status;
pub mod streamer;
pub mod text;
pub mod wire;

verus! {

/// Baud rate of the GRBL-HAL controller family.
pub const DEFAULT_BAUD: u32 = 115_200;

} // verus!
