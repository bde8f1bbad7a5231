//! Pacecat LDS-50C-E: `0xFAC7` packets over UDP.
//!
//! The sensor has to be told to start before it sends data.

use vstd::prelude::*;

pub mod command;
pub mod decoder;
pub mod frame;

verus! {

/// Default UDP port on which the host receives data.
pub const DEFAULT_HOST_PORT: u16 = 6789;

/// Default port to which commands are sent.
pub const DEFAULT_COMMAND_PORT: u16 = 6543;

} // verus!
