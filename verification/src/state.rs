//! The state that a pass carries from pixel to pixel: the previous pixel and
//! the cache of pixels seen, one slot per hash value. The encoder and the
//! decoder each own one, and both move it the same way.

use crate::chunk::Chunk;
use crate::pixel::{
    apply_diff, apply_diff_spec, apply_luma, apply_luma_spec, delta, diff, diff_fits, diff_packed,
    hash, hash_spec, lemma_diff_inverts, lemma_luma_inverts, luma, luma_fits, luma_green,
    luma_red_blue, rgba, same_pixel, start_pixel, zero_pixel, Pixel,
};
use vstd::prelude::*;

verus! {

/// The number of slots in the cache of pixels seen.
pub const CACHE_SLOTS: usize = 64;

/// `count` times the pixel `pixel`.
pub open spec fn repeated(pixel: Pixel, count: nat) -> Seq<Pixel> {
    Seq::new(count, |k: int| pixel)
}

/// The state of a pass as a mathematical value.
pub struct StateView {
    /// The pixel that came last.
    pub prev: Pixel,
    /// The cache: slot `h` holds the last pixel seen whose hash is `h`.
    pub seen: Seq<Pixel>,
}

impl StateView {
    /// The state before the first pixel: opaque black came last, and every
    /// slot holds the pixel with all channels zero.
    pub open spec fn start() -> StateView {
        StateView { prev: start_pixel(), seen: Seq::new(CACHE_SLOTS as nat, |h: int| zero_pixel()) }
    }

    /// Whether the cache has its 64 slots.
    pub open spec fn wf(self) -> bool {
        self.seen.len() == CACHE_SLOTS
    }

    /// The state once `pixel` has gone by: it came last, and it has taken the
    /// slot of its hash.
    pub open spec fn record(self, pixel: Pixel) -> StateView {
        StateView { prev: pixel, seen: self.seen.update(hash_spec(pixel), pixel) }
    }

    /// The state once all of `pixels` have gone by, first to last.
    pub open spec fn after(pixels: Seq<Pixel>) -> StateView
        decreases pixels.len(),
    {
        if pixels.len() == 0 {
            StateView::start()
        } else {
            StateView::after(pixels.drop_last()).record(pixels.last())
        }
    }

    /// The chunk for `pixel` where it does not repeat the previous one. The
    /// first of these that applies is taken: the cache holds the pixel in the
    /// slot of its hash; the step from the previous pixel is a small
    /// difference; it is a green-centred difference; alpha is unchanged, for
    /// the literal without alpha; else the literal with alpha.
    pub open spec fn select(self, pixel: Pixel) -> Chunk {
        if self.seen[hash_spec(pixel)] == pixel {
            Chunk::Index { slot: hash_spec(pixel) as u8 }
        } else if diff_fits(self.prev, pixel) {
            Chunk::Diff { packed: diff_packed(self.prev, pixel) }
        } else if luma_fits(self.prev, pixel) {
            Chunk::Luma {
                green: luma_green(self.prev, pixel),
                red_blue: luma_red_blue(self.prev, pixel),
            }
        } else if pixel[3] == self.prev[3] {
            Chunk::Rgb { r: pixel[0], g: pixel[1], b: pixel[2] }
        } else {
            Chunk::Rgba { r: pixel[0], g: pixel[1], b: pixel[2], a: pixel[3] }
        }
    }

    /// The pixel that `chunk` stands for in this state. For a run it is the
    /// previous pixel, which the run repeats.
    pub open spec fn pixel_of(self, chunk: Chunk) -> Pixel {
        match chunk {
            Chunk::Run { length } => self.prev,
            Chunk::Index { slot } => self.seen[slot as int],
            Chunk::Diff { packed } => apply_diff_spec(self.prev, packed),
            Chunk::Luma { green, red_blue } => apply_luma_spec(self.prev, green, red_blue),
            Chunk::Rgb { r, g, b } => rgba(r, g, b, self.prev[3]),
            Chunk::Rgba { r, g, b, a } => rgba(r, g, b, a),
        }
    }
}

/// The state of a pass.
#[derive(Clone, Copy, Debug, PartialEq, Eq)]
pub struct State {
    /// The pixel that came last.
    pub prev: Pixel,
    /// The cache of pixels seen, one slot per hash value.
    pub seen: [Pixel; CACHE_SLOTS],
}

impl View for State {
    type V = StateView;

    open spec fn view(&self) -> StateView {
        StateView { prev: self.prev, seen: self.seen@ }
    }
}

impl State {
    /// The state before the first pixel of a pass.
    pub fn new() -> (state: State)
        ensures
            state@ == StateView::start(),
    {
        let zero: Pixel = [0, 0, 0, 0];
        let state = State { prev: [0, 0, 0, 255], seen: [zero; CACHE_SLOTS] };
        proof {
            assert(state.seen@ =~= StateView::start().seen);
        }
        state
    }

    /// Lets `pixel` go by: it becomes the previous pixel and takes the cache
    /// slot of its hash.
    pub fn record(&mut self, pixel: Pixel)
        ensures
            final(self)@ == old(self)@.record(pixel),
    {
        let slot: u8 = hash(pixel);
        self.prev = pixel;
        self.seen[slot as usize] = pixel;
    }

    /// Picks the chunk for `pixel`, which is taken not to repeat the previous
    /// pixel; a repeat belongs in a run.
    pub fn select(&self, pixel: Pixel) -> (chunk: Chunk)
        ensures
            chunk == self@.select(pixel),
            chunk.wf(),
    {
        let slot: u8 = hash(pixel);
        if same_pixel(self.seen[slot as usize], pixel) {
            Chunk::Index { slot }
        } else if let Some(packed) = diff(self.prev, pixel) {
            Chunk::Diff { packed }
        } else if let Some((green, red_blue)) = luma(self.prev, pixel) {
            Chunk::Luma { green, red_blue }
        } else if pixel[3] == self.prev[3] {
            Chunk::Rgb { r: pixel[0], g: pixel[1], b: pixel[2] }
        } else {
            Chunk::Rgba { r: pixel[0], g: pixel[1], b: pixel[2], a: pixel[3] }
        }
    }

    /// The pixel that `chunk` stands for in this state.
    pub fn pixel_of(&self, chunk: Chunk) -> (pixel: Pixel)
        requires
            chunk.wf(),
        ensures
            pixel == self@.pixel_of(chunk),
    {
        match chunk {
            Chunk::Run { length } => self.prev,
            Chunk::Index { slot } => self.seen[slot as usize],
            Chunk::Diff { packed } => apply_diff(self.prev, packed),
            Chunk::Luma { green, red_blue } => apply_luma(self.prev, green, red_blue),
            Chunk::Rgb { r, g, b } => [r, g, b, self.prev[3]],
            Chunk::Rgba { r, g, b, a } => [r, g, b, a],
        }
    }
}

/// The cache keeps its 64 slots, whatever goes by.
pub proof fn lemma_after_wf(pixels: Seq<Pixel>)
    ensures
        StateView::after(pixels).wf(),
    decreases pixels.len(),
{
    if pixels.len() > 0 {
        lemma_after_wf(pixels.drop_last());
    }
}

/// One more pixel going by moves the state by that pixel.
pub proof fn lemma_after_push(pixels: Seq<Pixel>, pixel: Pixel)
    ensures
        StateView::after(pixels.push(pixel)) == StateView::after(pixels).record(pixel),
{
    assert(pixels.push(pixel).drop_last() =~= pixels);
}

/// A pixel that goes by again at once leaves the state as it is: a run may
/// be recorded once or pixel by pixel.
pub proof fn lemma_record_again(state: StateView, pixel: Pixel)
    requires
        state.wf(),
    ensures
        state.record(pixel).record(pixel) == state.record(pixel),
{
    assert(state.record(pixel).record(pixel).seen =~= state.record(pixel).seen);
}

/// The same pixel going by any number of times, at least once, moves the
/// state as going by once does.
pub proof fn lemma_after_repeated(seen: Seq<Pixel>, pixel: Pixel, count: nat)
    requires
        count >= 1,
    ensures
        StateView::after(seen + repeated(pixel, count)) == StateView::after(seen).record(pixel),
    decreases count,
{
    lemma_after_wf(seen);
    if count == 1 {
        assert(seen + repeated(pixel, 1) =~= seen.push(pixel));
        lemma_after_push(seen, pixel);
    } else {
        let fewer = (count - 1) as nat;
        lemma_after_repeated(seen, pixel, fewer);
        assert(seen + repeated(pixel, count) =~= (seen + repeated(pixel, fewer)).push(pixel));
        lemma_after_push(seen + repeated(pixel, fewer), pixel);
        lemma_record_again(StateView::after(seen), pixel);
    }
}

/// At every point of a pass the previous pixel is the one that came last, or
/// opaque black before the first, and each cache slot holds the most recent
/// pixel with the hash of that slot, or the all-zero pixel if none came yet.
pub proof fn lemma_cache_holds_latest(pixels: Seq<Pixel>, slot: int)
    requires
        0 <= slot < CACHE_SLOTS,
    ensures
        StateView::after(pixels).prev == if pixels.len() == 0 {
            start_pixel()
        } else {
            pixels.last()
        },
        (forall|j: int| 0 <= j < pixels.len() ==> hash_spec(#[trigger] pixels[j]) != slot)
            ==> StateView::after(pixels).seen[slot] == zero_pixel(),
        forall|j: int|
            0 <= j < pixels.len() && hash_spec(#[trigger] pixels[j]) == slot && (forall|k: int|
                j < k < pixels.len() ==> hash_spec(#[trigger] pixels[k]) != slot)
                ==> StateView::after(pixels).seen[slot] == pixels[j],
    decreases pixels.len(),
{
    if pixels.len() > 0 {
        let front = pixels.drop_last();
        lemma_cache_holds_latest(front, slot);
        lemma_after_wf(front);
        assert(forall|j: int| 0 <= j < front.len() ==> front[j] == pixels[j]);
    }
}

/// What is picked for a pixel is well formed, stands for one pixel, and is
/// read back as that pixel in the state in which it was picked.
pub proof fn lemma_select_reads_back(state: StateView, pixel: Pixel)
    requires
        state.wf(),
    ensures
        state.select(pixel).wf(),
        state.select(pixel).pixel_count() == 1,
        state.pixel_of(state.select(pixel)) == pixel,
{
    if state.seen[hash_spec(pixel)] == pixel {
    } else if diff_fits(state.prev, pixel) {
        lemma_diff_inverts(state.prev, pixel);
    } else if luma_fits(state.prev, pixel) {
        lemma_luma_inverts(state.prev, pixel);
    }
}

/// A pixel whose alpha differs from that of the previous pixel, and which the
/// cache does not hold, is written out in full with its alpha: no difference
/// chunk applies to it.
pub proof fn lemma_select_on_alpha_change(state: StateView, pixel: Pixel)
    requires
        pixel[3] != state.prev[3],
        state.seen[hash_spec(pixel)] != pixel,
    ensures
        !diff_fits(state.prev, pixel),
        !luma_fits(state.prev, pixel),
        state.select(pixel) == (Chunk::Rgba { r: pixel[0], g: pixel[1], b: pixel[2], a: pixel[3] }),
{
}

/// A pixel that lies one up in red, one down in green and one up in blue from
/// the previous pixel, with the same alpha, and which the cache does not hold,
/// is written as a small difference. One that lies three up in red alone is
/// too far for that and is written as a green-centred difference.
pub proof fn lemma_select_on_small_step(state: StateView, pixel: Pixel)
    requires
        pixel[3] == state.prev[3],
        state.seen[hash_spec(pixel)] != pixel,
    ensures
        delta(state.prev[0], pixel[0]) == 1 && delta(state.prev[1], pixel[1]) == -1 && delta(
            state.prev[2],
            pixel[2],
        ) == 1 ==> state.select(pixel) == (Chunk::Diff { packed: 0x37 }),
        delta(state.prev[0], pixel[0]) == 3 && delta(state.prev[1], pixel[1]) == 0 && delta(
            state.prev[2],
            pixel[2],
        ) == 0 ==> state.select(pixel) == (Chunk::Luma { green: 0x20, red_blue: 0xb8 }),
{
}

} // verus!
