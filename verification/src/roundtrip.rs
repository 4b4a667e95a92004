//! Decoding inverts encoding.

use crate::chunk::{lemma_encoded_len, lemma_parse_inverts_bytes};
use crate::decode::{decode_from, decode_spec};
use crate::encode::{chunk_at, encode_from, encode_spec, lemma_chunk_at, span_at};
use crate::error::FormatError;
use crate::pixel::Pixel;
use vstd::prelude::*;

verus! {

/// Reading the chunks for the pixels from `i` on, wherever they stand in a
/// stream that ends with them, adds those pixels to the ones before `i`.
pub proof fn lemma_decode_inverts_encode_from(pixels: Seq<Pixel>, i: int, before: Seq<u8>)
    requires
        0 <= i <= pixels.len(),
    ensures
        decode_from(before + encode_from(pixels, i), before.len() as int, pixels.take(i)) == Ok::<
            Seq<Pixel>,
            FormatError,
        >(pixels),
    decreases pixels.len() - i,
{
    let stream = before + encode_from(pixels, i);
    if i == pixels.len() {
        assert(pixels.take(i) =~= pixels);
    } else {
        let chunk = chunk_at(pixels, i);
        let next = i + span_at(pixels, i);
        let rest = encode_from(pixels, next);
        lemma_chunk_at(pixels, i);
        lemma_encoded_len(chunk);
        lemma_parse_inverts_bytes(chunk, before, rest);
        assert(stream =~= (before + chunk.bytes()) + rest);
        lemma_decode_inverts_encode_from(pixels, next, before + chunk.bytes());
    }
}

/// What the encoder writes for any sequence of pixels, the decoder reads back
/// as that same sequence.
pub proof fn lemma_round_trip(pixels: Seq<Pixel>)
    ensures
        decode_spec(encode_spec(pixels)) == Ok::<Seq<Pixel>, FormatError>(pixels),
{
    lemma_decode_inverts_encode_from(pixels, 0, Seq::empty());
    assert(pixels.take(0) =~= Seq::<Pixel>::empty());
}

} // verus!
