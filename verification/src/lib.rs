//! A single-program MPEG transport stream muxer for one video elementary
//! stream.
//!
//! Encoded access units are framed as PES units, cut into 188-byte transport
//! packets and interleaved with the program tables that let a receiver find
//! the video stream. The packets are serialised by the `mpeg2ts` crate; every
//! packet it hands back is compared with the wire image that this crate
//! defines before it is released, so all that is stated of emitted bytes is
//! proved, and a call succeeds exactly when `mpeg2ts` writes those images.

pub mod error;
pub mod bytes;
pub mod clock;
pub mod crc;
pub mod wire;
pub mod conformance;
pub mod packet;
pub mod sequence;
pub mod encoder;
pub mod continuity;
pub mod pes;
pub mod packetizer;
pub mod tables;
pub mod cadence;
pub mod streamer;
pub mod run;
pub mod destination;
