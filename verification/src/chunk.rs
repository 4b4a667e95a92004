//! Chunks: the self-delimiting units of an encoded stream, their byte layout,
//! and how one is written to and read from bytes.

use crate::error::{ErrorKind, FormatError};
use vstd::prelude::*;

verus! {

/// Tag of an index chunk, in the top two bits of its byte.
pub const TAG_INDEX: u8 = 0x00;

/// Tag of a small-difference chunk, in the top two bits of its byte.
pub const TAG_DIFF: u8 = 0x40;

/// Tag of a green-centred difference chunk, in the top two bits of its first byte.
pub const TAG_LUMA: u8 = 0x80;

/// Tag of a run chunk, in the top two bits of its byte.
pub const TAG_RUN: u8 = 0xc0;

/// First byte of a literal without alpha.
pub const TAG_RGB: u8 = 0xfe;

/// First byte of a literal with alpha.
pub const TAG_RGBA: u8 = 0xff;

/// The two bits of a first byte that hold the tag.
pub const TAG_MASK: u8 = 0xc0;

/// The longest run that one chunk can hold. A run chunk stores its length less
/// one in six bits, and the two largest six-bit values belong to the literals.
pub const MAX_RUN: u8 = 62;

/// One chunk of an encoded stream.
#[derive(Clone, Copy, Debug, PartialEq, Eq, Structural)]
pub enum Chunk {
    /// The previous pixel, `length` times over; `length` is 1 to 62.
    Run { length: u8 },
    /// The pixel in cache slot `slot`; `slot` is below 64.
    Index { slot: u8 },
    /// A small difference from the previous pixel: three biased two-bit steps.
    Diff { packed: u8 },
    /// A green-centred difference from the previous pixel: the biased six-bit
    /// green step, and the byte that holds red's and blue's distance from it.
    Luma { green: u8, red_blue: u8 },
    /// Red, green and blue in full; alpha as in the previous pixel.
    Rgb { r: u8, g: u8, b: u8 },
    /// All four channels in full.
    Rgba { r: u8, g: u8, b: u8, a: u8 },
}

impl Chunk {
    /// Whether the fields of this chunk fit the bits that the stream has for them.
    pub open spec fn wf(self) -> bool {
        match self {
            Chunk::Run { length } => 1 <= length <= MAX_RUN,
            Chunk::Index { slot } => slot < 64,
            Chunk::Diff { packed } => packed < 64,
            Chunk::Luma { green, red_blue } => green < 64,
            Chunk::Rgb { r, g, b } => true,
            Chunk::Rgba { r, g, b, a } => true,
        }
    }

    /// The bytes that stand for this chunk in a stream.
    pub open spec fn bytes(self) -> Seq<u8> {
        match self {
            Chunk::Run { length } => seq![(TAG_RUN + (length - 1)) as u8],
            Chunk::Index { slot } => seq![slot],
            Chunk::Diff { packed } => seq![(TAG_DIFF + packed) as u8],
            Chunk::Luma { green, red_blue } => seq![(TAG_LUMA + green) as u8, red_blue],
            Chunk::Rgb { r, g, b } => seq![TAG_RGB, r, g, b],
            Chunk::Rgba { r, g, b, a } => seq![TAG_RGBA, r, g, b, a],
        }
    }

    /// How many bytes stand for this chunk: 1, 2, 4 or 5, by its kind.
    pub open spec fn encoded_len(self) -> nat {
        match self {
            Chunk::Run { length } => 1,
            Chunk::Index { slot } => 1,
            Chunk::Diff { packed } => 1,
            Chunk::Luma { green, red_blue } => 2,
            Chunk::Rgb { r, g, b } => 4,
            Chunk::Rgba { r, g, b, a } => 5,
        }
    }

    /// How many pixels this chunk stands for.
    pub open spec fn pixel_count(self) -> nat {
        match self {
            Chunk::Run { length } => length as nat,
            _ => 1,
        }
    }

    /// The chunk that starts at byte `pos` of `bytes`, or why there is none.
    ///
    /// The two literal bytes are looked for first; any other byte is split into
    /// its two tag bits and six payload bits. A chunk of several bytes that the
    /// stream is too short for is `TruncatedChunk`, and so is a position at or
    /// behind the end.
    pub open spec fn parse_at(bytes: Seq<u8>, pos: int) -> Result<Chunk, ErrorKind> {
        if !(0 <= pos < bytes.len()) {
            Err(ErrorKind::TruncatedChunk)
        } else {
            let first = bytes[pos];
            let room = bytes.len() - pos;
            if first == TAG_RGB {
                if room >= 4 {
                    Ok(Chunk::Rgb { r: bytes[pos + 1], g: bytes[pos + 2], b: bytes[pos + 3] })
                } else {
                    Err(ErrorKind::TruncatedChunk)
                }
            } else if first == TAG_RGBA {
                if room >= 5 {
                    Ok(
                        Chunk::Rgba {
                            r: bytes[pos + 1],
                            g: bytes[pos + 2],
                            b: bytes[pos + 3],
                            a: bytes[pos + 4],
                        },
                    )
                } else {
                    Err(ErrorKind::TruncatedChunk)
                }
            } else if first < TAG_DIFF {
                Ok(Chunk::Index { slot: first })
            } else if first < TAG_LUMA {
                Ok(Chunk::Diff { packed: (first - TAG_DIFF) as u8 })
            } else if first < TAG_RUN {
                if room >= 2 {
                    Ok(Chunk::Luma { green: (first - TAG_LUMA) as u8, red_blue: bytes[pos + 1] })
                } else {
                    Err(ErrorKind::TruncatedChunk)
                }
            } else {
                Ok(Chunk::Run { length: (first - TAG_RUN + 1) as u8 })
            }
        }
    }

    /// How many bytes stand for this chunk.
    pub fn len(&self) -> (n: usize)
        ensures
            n == self.encoded_len(),
            n == self.bytes().len(),
            1 <= n <= 5,
    {
        match self {
            Chunk::Run { .. } => 1,
            Chunk::Index { .. } => 1,
            Chunk::Diff { .. } => 1,
            Chunk::Luma { .. } => 2,
            Chunk::Rgb { .. } => 4,
            Chunk::Rgba { .. } => 5,
        }
    }

    /// Appends the bytes of this chunk to `out`.
    pub fn write(&self, out: &mut Vec<u8>)
        requires
            self.wf(),
        ensures
            final(out)@ == old(out)@ + self.bytes(),
    {
        match *self {
            Chunk::Run { length } => {
                proof {
                    lemma_tag_or(TAG_RUN, (length - 1) as u8);
                }
                out.push(TAG_RUN | (length - 1));
            },
            Chunk::Index { slot } => {
                proof {
                    lemma_tag_or(TAG_INDEX, slot);
                }
                out.push(TAG_INDEX | slot);
            },
            Chunk::Diff { packed } => {
                proof {
                    lemma_tag_or(TAG_DIFF, packed);
                }
                out.push(TAG_DIFF | packed);
            },
            Chunk::Luma { green, red_blue } => {
                proof {
                    lemma_tag_or(TAG_LUMA, green);
                }
                out.push(TAG_LUMA | green);
                out.push(red_blue);
            },
            Chunk::Rgb { r, g, b } => {
                out.push(TAG_RGB);
                out.push(r);
                out.push(g);
                out.push(b);
            },
            Chunk::Rgba { r, g, b, a } => {
                out.push(TAG_RGBA);
                out.push(r);
                out.push(g);
                out.push(b);
                out.push(a);
            },
        }
    }

    /// Reads the chunk that starts at byte `pos` of `bytes`.
    ///
    /// Fails with `TruncatedChunk`, at `pos`, where the chunk that starts there
    /// needs more bytes than are left, and where nothing is left at `pos`.
    pub fn read(bytes: &[u8], pos: usize) -> (res: Result<Chunk, FormatError>)
        ensures
            res == match Chunk::parse_at(bytes@, pos as int) {
                Ok(chunk) => Ok::<Chunk, FormatError>(chunk),
                Err(kind) => Err(FormatError::at(kind, pos as int)),
            },
            res matches Ok(chunk) ==> chunk.wf() && pos + chunk.encoded_len() <= bytes.len(),
    {
        let len = bytes.len();
        if pos >= len {
            return Err(FormatError { kind: ErrorKind::TruncatedChunk, offset: Some(pos) });
        }
        let first: u8 = bytes[pos];
        let room: usize = len - pos;
        let truncated = FormatError { kind: ErrorKind::TruncatedChunk, offset: Some(pos) };
        if first == TAG_RGB {
            if room < 4 {
                return Err(truncated);
            }
            Ok(Chunk::Rgb { r: bytes[pos + 1], g: bytes[pos + 2], b: bytes[pos + 3] })
        } else if first == TAG_RGBA {
            if room < 5 {
                return Err(truncated);
            }
            Ok(
                Chunk::Rgba {
                    r: bytes[pos + 1],
                    g: bytes[pos + 2],
                    b: bytes[pos + 3],
                    a: bytes[pos + 4],
                },
            )
        } else {
            let tag: u8 = first & TAG_MASK;
            let payload: u8 = first & !TAG_MASK;
            proof {
                lemma_split_byte(first);
            }
            if tag == TAG_INDEX {
                Ok(Chunk::Index { slot: payload })
            } else if tag == TAG_DIFF {
                Ok(Chunk::Diff { packed: payload })
            } else if tag == TAG_LUMA {
                if room < 2 {
                    return Err(truncated);
                }
                Ok(Chunk::Luma { green: payload, red_blue: bytes[pos + 1] })
            } else if tag == TAG_RUN {
                Ok(Chunk::Run { length: payload + 1 })
            } else {
                // Two bits have no fifth value: this arm is proved never to be taken.
                Err(FormatError { kind: ErrorKind::UnrecognizedTag, offset: Some(pos) })
            }
        }
    }
}

/// A tag in the top two bits and a payload in the low six make one byte, the
/// same by `|` and by `+`.
proof fn lemma_tag_or(tag: u8, payload: u8)
    by (bit_vector)
    requires
        tag == 0x00 || tag == 0x40 || tag == 0x80 || tag == 0xc0,
        payload < 64,
    ensures
        tag | payload == tag + payload,
{
}

/// The tag bits of a byte are one of the four tags, and the payload bits are
/// what the byte holds above its tag.
proof fn lemma_split_byte(first: u8)
    by (bit_vector)
    ensures
        first & !0xc0u8 == first % 64,
        first & 0xc0 == first - first % 64,
        first & 0xc0 == 0x00 || first & 0xc0 == 0x40 || first & 0xc0 == 0x80 || first & 0xc0
            == 0xc0,
{
}

/// Every first byte starts a chunk of a known kind: reading fails only where
/// the stream is too short for the chunk that the byte starts, and what is
/// read is well formed and lies inside the stream.
pub proof fn lemma_every_tag_is_known(bytes: Seq<u8>, pos: int)
    requires
        0 <= pos < bytes.len(),
    ensures
        match Chunk::parse_at(bytes, pos) {
            Ok(chunk) => chunk.wf() && pos + chunk.encoded_len() <= bytes.len(),
            Err(kind) => {
                &&& kind == ErrorKind::TruncatedChunk
                &&& bytes.len() - pos < 5
                &&& bytes[pos] == TAG_RGB || bytes[pos] == TAG_RGBA || TAG_LUMA <= bytes[pos]
                    < TAG_RUN
            },
        },
{
}

/// Every chunk takes as many bytes as its kind says.
pub proof fn lemma_encoded_len(chunk: Chunk)
    ensures
        chunk.bytes().len() == chunk.encoded_len(),
        1 <= chunk.encoded_len() <= 5,
{
}

/// Reading inverts writing: where the bytes of a well-formed chunk stand in a
/// stream, whatever comes before and after them, that chunk is read there.
pub proof fn lemma_parse_inverts_bytes(chunk: Chunk, before: Seq<u8>, after: Seq<u8>)
    requires
        chunk.wf(),
    ensures
        Chunk::parse_at(before + chunk.bytes() + after, before.len() as int) == Ok::<
            Chunk,
            ErrorKind,
        >(chunk),
{
}

} // verus!
