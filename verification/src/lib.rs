//! A streaming codec for the QOI (Quite OK Image) lossless image format.
//!
//! The decoder turns QOI chunks into RGBA pixel bytes and the encoder turns
//! RGB or RGBA pixel bytes into QOI chunks. Both work through fixed-size
//! windows, suspend when a window is exhausted and resume on the next call,
//! so neither the image nor its encoding has to be held in memory at once.
//! Nothing is allocated.
//!
//! Every function carries a contract over a mathematical model of the format:
//! `decode_model` and `encode_model` say what a decoder and an encoder produce
//! from any state on. `decode_laws` and `encode_laws` prove that the result
//! depends neither on the sizes of the windows nor on where the input was
//! cut, and `roundtrip` proves that decoding undoes encoding.

pub mod buffer;
pub mod consts;
pub mod decode_laws;
pub mod decode_model;
pub mod decoder;
pub mod encode_laws;
pub mod encode_model;
pub mod encoder;
pub mod error;
pub mod header;
pub mod pixel;
pub mod roundtrip;
pub mod utils;

pub use crate::decoder::{QoiDecoder, QoiDecoderProgress, QoiDecoderReady};
pub use crate::encoder::{QoiEncoder, QoiEncoderProgress};
pub use crate::error::QoiError;
pub use crate::header::QoiHeader;
