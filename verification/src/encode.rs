//! The encoder: from a sequence of pixels to the chunk stream that stands for it.

use crate::chunk::{Chunk, MAX_RUN};
use crate::pixel::{delta, hash_spec, same_pixel, Pixel};
use crate::state::{
    lemma_after_push, lemma_after_repeated, lemma_after_wf, lemma_cache_holds_latest,
    lemma_select_on_alpha_change, lemma_select_on_small_step, lemma_select_reads_back, repeated,
    State, StateView,
};
use vstd::prelude::*;

verus! {

/// How many of the pixels that follow pixel `i` repeat it without a break,
/// counted up to `cap`.
pub open spec fn repeats_after(pixels: Seq<Pixel>, i: int, cap: nat) -> nat
    decreases cap,
{
    if cap == 0 || i + 1 >= pixels.len() || pixels[i + 1] != pixels[i] {
        0
    } else {
        1 + repeats_after(pixels, i + 1, (cap - 1) as nat)
    }
}

/// How many pixels the chunk that starts at pixel `i` takes in. A pixel that
/// repeats the one before it starts a run, which goes on for as long as the
/// pixel repeats, but for no more than 62 pixels; any other pixel stands alone.
pub open spec fn span_at(pixels: Seq<Pixel>, i: int) -> nat {
    if pixels[i] == StateView::after(pixels.take(i)).prev {
        1 + repeats_after(pixels, i, (MAX_RUN - 1) as nat)
    } else {
        1
    }
}

/// The chunk that starts at pixel `i`, in the state that the pixels before `i`
/// have left: a run where pixel `i` repeats the one before it, else what the
/// state picks for the pixel.
pub open spec fn chunk_at(pixels: Seq<Pixel>, i: int) -> Chunk {
    let state = StateView::after(pixels.take(i));
    if pixels[i] == state.prev {
        Chunk::Run { length: span_at(pixels, i) as u8 }
    } else {
        state.select(pixels[i])
    }
}

/// The bytes for the pixels from `i` on, where a chunk starts at `i`.
pub open spec fn encode_from(pixels: Seq<Pixel>, i: int) -> Seq<u8>
    decreases pixels.len() - i,
    via encode_from_ends
{
    if 0 <= i < pixels.len() {
        chunk_at(pixels, i).bytes() + encode_from(pixels, i + span_at(pixels, i))
    } else {
        Seq::empty()
    }
}

#[via_fn]
proof fn encode_from_ends(pixels: Seq<Pixel>, i: int) {
    if 0 <= i < pixels.len() {
        lemma_repeats_after(pixels, i, (MAX_RUN - 1) as nat);
    }
}

/// The chunk stream for `pixels`: the chunks from the first pixel on, with no
/// header before them and no end marker behind.
pub open spec fn encode_spec(pixels: Seq<Pixel>) -> Seq<u8> {
    encode_from(pixels, 0)
}

/// A run is counted no further than its cap, stays inside the sequence, and
/// holds only repeats of its first pixel.
pub proof fn lemma_repeats_after(pixels: Seq<Pixel>, i: int, cap: nat)
    requires
        0 <= i < pixels.len(),
    ensures
        repeats_after(pixels, i, cap) <= cap,
        i + repeats_after(pixels, i, cap) < pixels.len(),
        forall|k: int| i <= k <= i + repeats_after(pixels, i, cap) ==> pixels[k] == pixels[i],
    decreases cap,
{
    if cap == 0 || i + 1 >= pixels.len() || pixels[i + 1] != pixels[i] {
    } else {
        lemma_repeats_after(pixels, i + 1, (cap - 1) as nat);
    }
}

/// The chunk at a position takes in the pixels from there on: as many as its
/// kind stands for, each equal to the pixel it reads back as, and the state
/// behind it is the state before it moved by that pixel.
pub proof fn lemma_chunk_at(pixels: Seq<Pixel>, i: int)
    requires
        0 <= i < pixels.len(),
    ensures
        chunk_at(pixels, i).wf(),
        chunk_at(pixels, i).pixel_count() == span_at(pixels, i),
        i + span_at(pixels, i) <= pixels.len(),
        StateView::after(pixels.take(i)).pixel_of(chunk_at(pixels, i)) == pixels[i],
        pixels.take(i + span_at(pixels, i)) == pixels.take(i) + repeated(
            pixels[i],
            span_at(pixels, i),
        ),
        StateView::after(pixels.take(i + span_at(pixels, i))) == StateView::after(
            pixels.take(i),
        ).record(pixels[i]),
{
    let state = StateView::after(pixels.take(i));
    let span = span_at(pixels, i);
    lemma_after_wf(pixels.take(i));
    lemma_repeats_after(pixels, i, (MAX_RUN - 1) as nat);
    if pixels[i] != state.prev {
        lemma_select_reads_back(state, pixels[i]);
    }
    assert(pixels.take(i + span) =~= pixels.take(i) + repeated(pixels[i], span));
    lemma_after_repeated(pixels.take(i), pixels[i], span);
}

/// No chunk of an encoded stream holds a run of more than 62 pixels, and
/// every field of every chunk fits its bits.
pub proof fn lemma_chunks_well_formed(pixels: Seq<Pixel>, i: int)
    requires
        0 <= i < pixels.len(),
    ensures
        chunk_at(pixels, i).wf(),
        chunk_at(pixels, i) matches Chunk::Run { length } ==> 1 <= length <= MAX_RUN,
{
    lemma_chunk_at(pixels, i);
}

/// A pixel that comes back after one other pixel of another hash is written
/// as an index into the cache: in `[a, b, a]` the third chunk is the index of
/// the slot of `a`.
pub proof fn lemma_index_reuse(a: Pixel, b: Pixel)
    requires
        hash_spec(a) != hash_spec(b),
    ensures
        chunk_at(seq![a, b, a], 2) == (Chunk::Index { slot: hash_spec(a) as u8 }),
{
    let pixels = seq![a, b, a];
    let none = Seq::<Pixel>::empty();
    assert(pixels.take(2) =~= none.push(a).push(b));
    lemma_after_push(none, a);
    lemma_after_push(none.push(a), b);
    lemma_after_wf(none);
}

/// Of two pixels next to each other that differ in alpha, the second is
/// written out in full with its alpha, unless the cache holds it: neither kind
/// of difference chunk stands for a change of alpha.
pub proof fn lemma_alpha_change_forces_literal(pixels: Seq<Pixel>, i: int)
    requires
        0 < i < pixels.len(),
        pixels[i][3] != pixels[i - 1][3],
        StateView::after(pixels.take(i)).seen[hash_spec(pixels[i])] != pixels[i],
    ensures
        chunk_at(pixels, i) == (Chunk::Rgba {
            r: pixels[i][0],
            g: pixels[i][1],
            b: pixels[i][2],
            a: pixels[i][3],
        }),
{
    lemma_cache_holds_latest(pixels.take(i), 0);
    lemma_select_on_alpha_change(StateView::after(pixels.take(i)), pixels[i]);
}

/// Of two pixels next to each other with the same alpha, the second is
/// written as a small difference if it lies one up in red, one down in green
/// and one up in blue from the first, and as a green-centred difference if it
/// lies three up in red alone, which is out of a small difference's reach;
/// unless, either time, the cache holds it.
pub proof fn lemma_diff_boundary(pixels: Seq<Pixel>, i: int)
    requires
        0 < i < pixels.len(),
        pixels[i][3] == pixels[i - 1][3],
        StateView::after(pixels.take(i)).seen[hash_spec(pixels[i])] != pixels[i],
    ensures
        delta(pixels[i - 1][0], pixels[i][0]) == 1 && delta(pixels[i - 1][1], pixels[i][1]) == -1
            && delta(pixels[i - 1][2], pixels[i][2]) == 1 ==> chunk_at(pixels, i) == (Chunk::Diff {
            packed: 0x37,
        }),
        delta(pixels[i - 1][0], pixels[i][0]) == 3 && delta(pixels[i - 1][1], pixels[i][1]) == 0
            && delta(pixels[i - 1][2], pixels[i][2]) == 0 ==> chunk_at(pixels, i) == (Chunk::Luma {
            green: 0x20,
            red_blue: 0xb8,
        }),
{
    lemma_cache_holds_latest(pixels.take(i), 0);
    lemma_select_on_small_step(StateView::after(pixels.take(i)), pixels[i]);
}

/// Encodes `pixels` as a chunk stream, without header and end marker.
///
/// Each pixel is written as the first of these that applies: a run, where it
/// repeats the pixel before it (the first pixel counts as following opaque
/// black), which then takes in the repeats that follow, up to 62 pixels in
/// all; an index into the cache; a small difference; a green-centred
/// difference; a literal without alpha, where alpha is unchanged; a literal
/// with alpha.
pub fn encode_rgba(pixels: &[Pixel]) -> (encoded: Vec<u8>)
    ensures
        encoded@ == encode_spec(pixels@),
{
    let mut encoded: Vec<u8> = Vec::new();
    let mut state = State::new();
    let mut i: usize = 0;
    while i < pixels.len()
        invariant
            i <= pixels.len(),
            state@ == StateView::after(pixels@.take(i as int)),
            encode_spec(pixels@) == encoded@ + encode_from(pixels@, i as int),
        decreases pixels.len() - i,
    {
        let pixel = pixels[i];
        let mut next: usize = i + 1;
        let chunk = if same_pixel(pixel, state.prev) {
            let mut run: u8 = 1;
            while run < MAX_RUN && next < pixels.len() && same_pixel(pixels[next], pixel)
                invariant
                    i < pixels.len(),
                    pixel == pixels@[i as int],
                    next == i + run,
                    next <= pixels.len(),
                    1 <= run <= MAX_RUN,
                    pixels@[next - 1] == pixel,
                    repeats_after(pixels@, i as int, (MAX_RUN - 1) as nat) == (run - 1)
                        + repeats_after(pixels@, next - 1, (MAX_RUN - run) as nat),
                decreases MAX_RUN - run,
            {
                run += 1;
                next += 1;
            }
            Chunk::Run { length: run }
        } else {
            state.select(pixel)
        };
        proof {
            lemma_chunk_at(pixels@, i as int);
        }
        chunk.write(&mut encoded);
        state.record(pixel);
        i = next;
    }
    encoded
}

} // verus!
