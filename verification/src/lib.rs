//! A lossless codec for images of 8-bit RGBA pixels in the QOI format.
//!
//! An image is stored as a 14-byte header, a stream of chunks and an 8-byte
//! end marker. Each chunk stands for one pixel, or for a run of equal pixels,
//! and says how to get it from the pixel before it, from a cache of 64 pixels
//! seen earlier, or in full. The encoder and the decoder keep the same state,
//! so that what one writes the other reads back exactly.
//!
//! Every function here is verified against a contract, and the laws of the
//! format, first among them that decoding inverts encoding, are proved.

pub mod chunk;
pub mod decode;
pub mod encode;
pub mod error;
pub mod framing;
pub mod pixel;
pub mod roundtrip;
pub mod state;
pub mod types;

pub use crate::chunk::Chunk;
pub use crate::decode::decode_rgba;
pub use crate::encode::encode_rgba;
pub use crate::error::{ErrorKind, FormatError};
pub use crate::framing::{decode_image, encode_image, Header, Image};
pub use crate::pixel::{diff, hash, luma, Pixel};
pub use crate::state::State;
pub use crate::types::{Channels, Colorspace};
