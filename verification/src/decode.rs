//! The decoder: from a chunk stream back to the sequence of pixels it stands for.

use crate::chunk::Chunk;
use crate::error::{ErrorKind, FormatError};
use crate::pixel::Pixel;
use crate::state::{lemma_after_repeated, repeated, State, StateView};
use vstd::prelude::*;

verus! {

/// What reading `bytes` from the chunk boundary `pos` on gives, where `out`
/// holds the pixels read so far: `out` with the pixels of all further chunks
/// behind it, or the first error met.
///
/// Each chunk is read in the state that the pixels before it have left, and
/// adds the pixel it stands for, a run as many times as it is long. A chunk
/// that cannot be read ends the reading with its error, at its own offset.
pub open spec fn decode_from(bytes: Seq<u8>, pos: int, out: Seq<Pixel>) -> Result<
    Seq<Pixel>,
    FormatError,
>
    decreases bytes.len() - pos,
{
    if 0 <= pos < bytes.len() {
        match Chunk::parse_at(bytes, pos) {
            Err(kind) => Err(FormatError::at(kind, pos)),
            Ok(chunk) => {
                let pixel = StateView::after(out).pixel_of(chunk);
                decode_from(
                    bytes,
                    pos + chunk.encoded_len(),
                    out + repeated(pixel, chunk.pixel_count()),
                )
            },
        }
    } else {
        Ok(out)
    }
}

/// The pixels that the chunk stream `bytes` stands for, or the first error in it.
pub open spec fn decode_spec(bytes: Seq<u8>) -> Result<Seq<Pixel>, FormatError> {
    decode_from(bytes, 0, Seq::empty())
}

/// The one way in which reading a chunk stream fails: the stream ends inside a
/// chunk of more than one byte. The error says so, and its offset is that of
/// the first byte of that chunk.
pub proof fn lemma_decode_error(bytes: Seq<u8>, pos: int, out: Seq<Pixel>)
    requires
        0 <= pos,
    ensures
        decode_from(bytes, pos, out) matches Err(error) ==> {
            &&& error.kind == ErrorKind::TruncatedChunk
            &&& exists|at: int|
                pos <= at < bytes.len() && bytes.len() - at < 5 && error == FormatError::at(
                    ErrorKind::TruncatedChunk,
                    at,
                )
        },
    decreases bytes.len() - pos,
{
    if pos < bytes.len() {
        if let Ok(chunk) = Chunk::parse_at(bytes, pos) {
            let pixel = StateView::after(out).pixel_of(chunk);
            lemma_decode_error(
                bytes,
                pos + chunk.encoded_len(),
                out + repeated(pixel, chunk.pixel_count()),
            );
        }
    }
}

/// Decodes a chunk stream, without header and end marker, into its pixels.
///
/// Chunks are read from first to last until the bytes are used up. The stream
/// is refused with `TruncatedChunk`, at the offset of the chunk's first byte,
/// if it ends inside a chunk of more than one byte; nothing is given back of
/// what was read before that. `UnrecognizedTag` never comes back: every first
/// byte carries a known tag.
pub fn decode_rgba(encoded: &[u8]) -> (res: Result<Vec<Pixel>, FormatError>)
    ensures
        match res {
            Ok(pixels) => decode_spec(encoded@) == Ok::<Seq<Pixel>, FormatError>(pixels@),
            Err(error) => decode_spec(encoded@) == Err::<Seq<Pixel>, FormatError>(error),
        },
        res matches Err(error) ==> {
            &&& error.kind == ErrorKind::TruncatedChunk
            &&& error.offset matches Some(at) && encoded.len() - 5 < at < encoded.len()
        },
{
    proof {
        lemma_decode_error(encoded@, 0, Seq::empty());
    }
    let mut pixels: Vec<Pixel> = Vec::new();
    let mut state = State::new();
    let mut pos: usize = 0;
    while pos < encoded.len()
        invariant
            pos <= encoded.len(),
            state@ == StateView::after(pixels@),
            decode_spec(encoded@) == decode_from(encoded@, pos as int, pixels@),
        decreases encoded.len() - pos,
    {
        let chunk = match Chunk::read(encoded, pos) {
            Ok(chunk) => chunk,
            Err(error) => {
                return Err(error);
            },
        };
        let pixel = state.pixel_of(chunk);
        let ghost before = pixels@;
        match chunk {
            Chunk::Run { length } => {
                let mut pushed: u8 = 0;
                while pushed < length
                    invariant
                        pushed <= length,
                        pixels@ == before + repeated(pixel, pushed as nat),
                    decreases length - pushed,
                {
                    pixels.push(pixel);
                    pushed += 1;
                }
            },
            _ => {
                pixels.push(pixel);
            },
        }
        proof {
            assert(pixels@ =~= before + repeated(pixel, chunk.pixel_count()));
            lemma_after_repeated(before, pixel, chunk.pixel_count());
        }
        state.record(pixel);
        pos += chunk.len();
    }
    Ok(pixels)
}

} // verus!
