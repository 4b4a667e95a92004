//! What can be wrong with a stream that is being read.

use vstd::prelude::*;

verus! {

/// The ways in which a stream can fail to be what it claims to be.
#[derive(Clone, Copy, Debug, PartialEq, Eq, Structural)]
pub enum ErrorKind {
    /// The stream does not begin with the four magic bytes.
    InvalidMagic,
    /// The stream begins with the four magic bytes and is too short to hold
    /// the rest of a header.
    TruncatedHeader,
    /// The channel byte of the header is neither 3 nor 4.
    UnsupportedChannelCount,
    /// The colorspace byte of the header is neither 0 nor 1.
    UnsupportedColorspace,
    /// The stream ends in the middle of a chunk of more than one byte.
    TruncatedChunk,
    /// The first byte of a chunk carries no known tag.
    UnrecognizedTag,
}

/// A failure to read a stream: what is wrong, and the offset of the byte at
/// which it was found, counted from the start of what was handed in.
#[derive(Clone, Copy, Debug, PartialEq, Eq)]
pub struct FormatError {
    /// What is wrong.
    pub kind: ErrorKind,
    /// Where it was found, if that is known.
    pub offset: Option<usize>,
}

impl FormatError {
    /// The error of kind `kind` found at byte `offset`.
    pub open spec fn at(kind: ErrorKind, offset: int) -> FormatError {
        FormatError { kind, offset: Some(offset as usize) }
    }

    /// This error as seen from a stream in which the one that was read starts
    /// `base` bytes in.
    pub open spec fn moved_by(self, base: int) -> FormatError {
        match self.offset {
            Some(offset) => FormatError { kind: self.kind, offset: Some((offset + base) as usize) },
            None => self,
        }
    }
}

} // verus!
