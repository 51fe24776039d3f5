//! Vloom: a screen-to-camera file transfer format.
//!
//! A payload is cut into fountain-coded packets, each packet travels in one
//! CRC-protected block of a grayscale cell grid ("frame"), and the receiver
//! keeps whatever blocks it reads intact until the payload can be rebuilt.

pub mod arith;
pub mod bits;
pub mod crc;
pub mod filler;
pub mod fountain;
pub mod frame;
pub mod header;
pub mod layout;
pub mod locality;
pub mod markers;
pub mod pattern;
pub mod payload;
pub mod receiver;
pub mod roundtrip;
pub mod scan;
pub mod sender;
pub mod tracking;
pub mod transfer;
