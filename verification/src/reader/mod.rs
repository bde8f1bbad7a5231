//! Reading: bytes of a sensor become frames, points and whole turns.
//!
//! What all models share comes first: the measurements ([`types`]), what it means to cut a stream
//! ([`framing`], [`buffer`]), the decoder interface ([`model`]), connections ([`link`],
//! [`session`], [`transport`]) and the collector ([`assembler`], [`collector`],
//! [`data_collector`]). Each model then has a module of its own with its layout and its decoder.

pub mod assembler;
pub mod buffer;
pub mod collector;
pub mod data_collector;
pub mod decoder;
pub mod demo;
pub mod framing;
pub mod ldrobot;
pub mod link;
pub mod model;
pub mod pacecat;
pub mod session;
pub mod stats;
pub mod transport;
pub mod types;

pub use data_collector::{ConnectionStatus, Scan, ScanFeed, Source};
pub use ldrobot::stl27l::BAUD_RATE;
pub use ldrobot::stl27l::decoder::FrameDecoder;
pub use ldrobot::stl27l::frame::{
    CRC_OFFSET, HEADER, PACKET_LEN, POINT_SIZE, POINTS_PER_PACKET, VER_LEN, crc8, parse,
};
pub use model::{Decoder, Model};
pub use types::{LidarBody, LidarPoint, ParseError};
