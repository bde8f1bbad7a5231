//! LDROBOT STL-27L: 47-byte frames over a serial line.

use vstd::prelude::*;

pub mod decoder;
pub mod frame;

verus! {

/// Default line speed (baud).
pub const BAUD_RATE: u32 = 921_600;

} // verus!
