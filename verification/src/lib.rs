//! LiDAR sensors of several models, from bytes to scans.
//!
//! - [`reader`] decodes the byte streams of the LDROBOT STL-27L (serial) and the Pacecat
//!   LDS-50C-E (UDP) into frames, and puts their points together to whole turns.
//! - [`viewer`] decides what a viewer shows of them.
//! - [`text`] reads and writes names and numbers.
//!
//! Nothing here does input or output: bytes and times are handed in, and what is to be sent,
//! shown or published comes out.

pub mod reader;
pub mod text;
pub mod viewer;

pub use reader::{
    BAUD_RATE, ConnectionStatus, FrameDecoder, LidarBody, LidarPoint, Model, ParseError, Scan,
    ScanFeed, Source, crc8, parse,
};
