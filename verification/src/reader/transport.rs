//! What a read of a sensor's line means.
//!
//! A read that ran out of time is no failure: nothing has come, and the reader goes on.

use vstd::prelude::*;

verus! {

/// Why a read brought nothing.
#[derive(Debug, Clone, Copy, PartialEq, Eq, Structural)]
pub enum ReadErrorKind {
    TimedOut,
    WouldBlock,
    Other,
}

/// How many bytes a read of a serial line brought: none where it ran out of time.
pub fn serial_read(result: Result<usize, ReadErrorKind>) -> (read: Result<usize, ReadErrorKind>)
    ensures
        read == (match result {
            Err(ReadErrorKind::TimedOut) => Ok(0),
            other => other,
        }),
{
    match result {
        Err(ReadErrorKind::TimedOut) => Ok(0),
        other => other,
    }
}

/// How many bytes a read of a socket brought. Systems differ in how they say that a read ran out
/// of time.
pub fn udp_read(result: Result<usize, ReadErrorKind>) -> (read: Result<usize, ReadErrorKind>)
    ensures
        read == (match result {
            Err(ReadErrorKind::TimedOut) => Ok(0),
            Err(ReadErrorKind::WouldBlock) => Ok(0),
            other => other,
        }),
{
    match result {
        Err(ReadErrorKind::TimedOut) => Ok(0),
        Err(ReadErrorKind::WouldBlock) => Ok(0),
        other => other,
    }
}

} // verus!
