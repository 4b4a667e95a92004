//! Pixels and the per-pixel arithmetic that both directions of the codec share:
//! the cache hash, the wrap-around channel differences, and the two compact
//! difference encodings together with their inverses.

use vstd::prelude::*;

verus! {

/// One pixel: red, green, blue and alpha, in this order.
pub type Pixel = [u8; 4];

/// The pixel with the given channels.
pub open spec fn rgba(r: u8, g: u8, b: u8, a: u8) -> Pixel {
    [r, g, b, a]
}

/// The value of the previous-pixel register before the first pixel of a pass:
/// opaque black.
pub open spec fn start_pixel() -> Pixel {
    rgba(0, 0, 0, 255)
}

/// The value of every cache slot before the first pixel of a pass.
pub open spec fn zero_pixel() -> Pixel {
    rgba(0, 0, 0, 0)
}

/// Exact equality of two pixels, channel by channel.
pub fn same_pixel(x: Pixel, y: Pixel) -> (same: bool)
    ensures
        same == (x == y),
{
    let same = x[0] == y[0] && x[1] == y[1] && x[2] == y[2] && x[3] == y[3];
    proof {
        if same {
            assert(x =~= y);
        }
    }
    same
}

/// The cache slot of a pixel: `(3r + 5g + 7b + 11a) mod 64`.
pub open spec fn hash_spec(p: Pixel) -> int {
    (3 * p[0] + 5 * p[1] + 7 * p[2] + 11 * p[3]) % 64
}

/// Computes the cache slot of `pixel`, a number below 64.
pub fn hash(pixel: Pixel) -> (slot: u8)
    ensures
        slot == hash_spec(pixel),
        slot < 64,
{
    let r: u32 = pixel[0] as u32;
    let g: u32 = pixel[1] as u32;
    let b: u32 = pixel[2] as u32;
    let a: u32 = pixel[3] as u32;
    ((r * 3 + g * 5 + b * 7 + a * 11) % 64) as u8
}

/// The step from channel value `from` to channel value `to`, read as a signed
/// number: the one `d` with `-128 <= d < 128` that is congruent to `to - from`
/// modulo 256.
pub open spec fn delta(from: u8, to: u8) -> int {
    let d = to - from;
    if d >= 128 {
        d - 256
    } else if d < -128 {
        d + 256
    } else {
        d
    }
}

/// Channel value `base` moved by `d` steps, wrapping around modulo 256.
pub open spec fn shifted(base: u8, d: int) -> u8 {
    ((base + d) % 256) as u8
}

/// Moving a channel by its own step to another value arrives at that value.
pub proof fn lemma_shifted_by_delta(from: u8, to: u8)
    ensures
        shifted(from, delta(from, to)) == to,
{
}

/// Two moves of a channel, one after the other, are one move by their sum.
pub proof fn lemma_shifted_twice(base: u8, d1: int, d2: int)
    ensures
        shifted(shifted(base, d1), d2) == shifted(base, d1 + d2),
{
    assert(((base + d1) % 256 + d2) % 256 == (base + d1 + d2) % 256) by {
        vstd::arithmetic::div_mod::lemma_add_mod_noop_right(d2, base + d1, 256);
        vstd::arithmetic::div_mod::lemma_add_mod_noop_right(d2, (base + d1) % 256, 256);
    }
}

/// Moves channel `base` by `biased - bias` steps, wrapping around.
fn shift_channel(base: u8, biased: u8, bias: u8) -> (moved: u8)
    ensures
        moved == shifted(base, biased - bias),
{
    base.wrapping_add(biased).wrapping_sub(bias)
}

/// The step from `from` to `to` with `bias` added, wrapping around. It is
/// below twice the bias just when the step itself lies from `-bias` up to, but
/// not including, `bias`.
fn biased_step(from: u8, to: u8, bias: u8) -> (biased: u8)
    requires
        bias <= 64,
    ensures
        biased < 2 * bias <==> -bias <= delta(from, to) < bias,
        biased < 2 * bias ==> biased == delta(from, to) + bias,
{
    to.wrapping_sub(from).wrapping_add(bias)
}

/// The step from `from` to `to` less the step from `base_from` to `base_to`,
/// with a bias of 8 added, wrapping around. Where the base step lies from -32
/// to 31, it is below 16 just when the two steps lie no further apart than -8
/// to 7.
fn biased_step_around(from: u8, to: u8, base_from: u8, base_to: u8) -> (biased: u8)
    ensures
        -32 <= delta(base_from, base_to) <= 31 ==> (biased < 16 <==> -8 <= delta(from, to) - delta(
            base_from,
            base_to,
        ) <= 7),
        -32 <= delta(base_from, base_to) <= 31 && biased < 16 ==> biased == delta(from, to)
            - delta(base_from, base_to) + 8,
{
    let step: u8 = to.wrapping_sub(from);
    let base: u8 = base_to.wrapping_sub(base_from);
    step.wrapping_sub(base).wrapping_add(8)
}

/// Whether the step from `x` to `y` can be written as a small difference:
/// alpha is unchanged and each colour channel moves by -2, -1, 0 or 1.
pub open spec fn diff_fits(x: Pixel, y: Pixel) -> bool {
    &&& x[3] == y[3]
    &&& -2 <= delta(x[0], y[0]) <= 1
    &&& -2 <= delta(x[1], y[1]) <= 1
    &&& -2 <= delta(x[2], y[2]) <= 1
}

/// The three steps of a small difference, each biased by 2, packed into six
/// bits: red in bits 5-4, green in bits 3-2, blue in bits 1-0.
pub open spec fn diff_packed(x: Pixel, y: Pixel) -> u8 {
    (16 * (delta(x[0], y[0]) + 2) + 4 * (delta(x[1], y[1]) + 2) + (delta(x[2], y[2]) + 2)) as u8
}

/// The small difference from `x` to `y`, where there is one.
pub open spec fn diff_spec(x: Pixel, y: Pixel) -> Option<u8> {
    if diff_fits(x, y) {
        Some(diff_packed(x, y))
    } else {
        None
    }
}

/// Three two-bit fields side by side, by shifts and by multiples.
proof fn lemma_pack_diff(r: u8, g: u8, b: u8)
    by (bit_vector)
    requires
        r < 4,
        g < 4,
        b < 4,
    ensures
        (r << 4 | g << 2 | b) == 16 * r + 4 * g + b,
{
}

/// Packs the step from `x` to `y` as a small difference, if it fits.
pub fn diff(x: Pixel, y: Pixel) -> (packed: Option<u8>)
    ensures
        packed == diff_spec(x, y),
        packed matches Some(d) ==> d < 64,
{
    if x[3] != y[3] {
        return None;
    }
    let red: u8 = biased_step(x[0], y[0], 2);
    let green: u8 = biased_step(x[1], y[1], 2);
    let blue: u8 = biased_step(x[2], y[2], 2);
    if red < 4 && green < 4 && blue < 4 {
        proof {
            lemma_pack_diff(red, green, blue);
        }
        Some(red << 4 | green << 2 | blue)
    } else {
        None
    }
}

/// The pixel that a small difference `packed` leads to from `prev`: each field
/// loses its bias of 2 and moves its channel, wrapping around; alpha stays.
pub open spec fn apply_diff_spec(prev: Pixel, packed: u8) -> Pixel {
    rgba(
        shifted(prev[0], packed / 16 % 4 - 2),
        shifted(prev[1], packed / 4 % 4 - 2),
        shifted(prev[2], packed % 4 - 2),
        prev[3],
    )
}

/// The three two-bit fields of a byte, by shifts and by division.
proof fn lemma_unpack_diff(packed: u8)
    by (bit_vector)
    ensures
        (packed >> 4) & 3 == packed / 16 % 4,
        (packed >> 2) & 3 == packed / 4 % 4,
        packed & 3 == packed % 4,
{
}

/// Applies the small difference `packed` to `prev`.
pub fn apply_diff(prev: Pixel, packed: u8) -> (pixel: Pixel)
    ensures
        pixel == apply_diff_spec(prev, packed),
{
    let red: u8 = (packed >> 4) & 3;
    let green: u8 = (packed >> 2) & 3;
    let blue: u8 = packed & 3;
    proof {
        lemma_unpack_diff(packed);
    }
    let pixel = [
        shift_channel(prev[0], red, 2),
        shift_channel(prev[1], green, 2),
        shift_channel(prev[2], blue, 2),
        prev[3],
    ];
    pixel
}

/// Whether the step from `x` to `y` can be written around its green step:
/// alpha is unchanged, green moves by -32 to 31, and red and blue each move
/// by what green moves plus -8 to 7.
pub open spec fn luma_fits(x: Pixel, y: Pixel) -> bool {
    &&& x[3] == y[3]
    &&& -32 <= delta(x[1], y[1]) <= 31
    &&& -8 <= delta(x[0], y[0]) - delta(x[1], y[1]) <= 7
    &&& -8 <= delta(x[2], y[2]) - delta(x[1], y[1]) <= 7
}

/// The green step biased by 32, six bits.
pub open spec fn luma_green(x: Pixel, y: Pixel) -> u8 {
    (delta(x[1], y[1]) + 32) as u8
}

/// Red's and blue's distance from the green step, each biased by 8: red in the
/// high four bits, blue in the low four.
pub open spec fn luma_red_blue(x: Pixel, y: Pixel) -> u8 {
    (16 * (delta(x[0], y[0]) - delta(x[1], y[1]) + 8) + (delta(x[2], y[2]) - delta(x[1], y[1])
        + 8)) as u8
}

/// The green-centred difference from `x` to `y`, where there is one.
pub open spec fn luma_spec(x: Pixel, y: Pixel) -> Option<(u8, u8)> {
    if luma_fits(x, y) {
        Some((luma_green(x, y), luma_red_blue(x, y)))
    } else {
        None
    }
}

/// Two four-bit fields side by side, by shifts and by multiples.
proof fn lemma_pack_luma(r: u8, b: u8)
    by (bit_vector)
    requires
        r < 16,
        b < 16,
    ensures
        (r << 4 | b) == 16 * r + b,
{
}

/// Packs the step from `x` to `y` as a green-centred difference, if it fits:
/// the biased green step, then the byte that holds red and blue.
pub fn luma(x: Pixel, y: Pixel) -> (packed: Option<(u8, u8)>)
    ensures
        packed == luma_spec(x, y),
        packed matches Some(d) ==> d.0 < 64,
{
    if x[3] != y[3] {
        return None;
    }
    let green: u8 = biased_step(x[1], y[1], 32);
    let red: u8 = biased_step_around(x[0], y[0], x[1], y[1]);
    let blue: u8 = biased_step_around(x[2], y[2], x[1], y[1]);

    if green < 64 && red < 16 && blue < 16 {
        proof {
            lemma_pack_luma(red, blue);
        }
        Some((green, red << 4 | blue))
    } else {
        None
    }
}

/// The pixel that a green-centred difference leads to from `prev`: green moves
/// by `green - 32`; red by that plus the high four bits of `red_blue` less 8;
/// blue by that plus the low four bits less 8; all wrap around; alpha stays.
pub open spec fn apply_luma_spec(prev: Pixel, green: u8, red_blue: u8) -> Pixel {
    let dg = green % 64 - 32;
    rgba(
        shifted(prev[0], dg + red_blue / 16 - 8),
        shifted(prev[1], dg),
        shifted(prev[2], dg + red_blue % 16 - 8),
        prev[3],
    )
}

/// The low six bits of a byte and its two four-bit fields, by masks and shifts
/// and by division.
proof fn lemma_unpack_luma(green: u8, red_blue: u8)
    by (bit_vector)
    ensures
        green & 0x3f == green % 64,
        red_blue >> 4 == red_blue / 16,
        red_blue & 0x0f == red_blue % 16,
{
}

/// Applies the green-centred difference `(green, red_blue)` to `prev`.
pub fn apply_luma(prev: Pixel, green: u8, red_blue: u8) -> (pixel: Pixel)
    ensures
        pixel == apply_luma_spec(prev, green, red_blue),
{
    let green_bits: u8 = green & 0x3f;
    let red_bits: u8 = red_blue >> 4;
    let blue_bits: u8 = red_blue & 0x0f;
    proof {
        lemma_unpack_luma(green, red_blue);
        lemma_shifted_twice(prev[0], green_bits - 32, red_bits - 8);
        lemma_shifted_twice(prev[2], green_bits - 32, blue_bits - 8);
    }
    let pixel = [
        shift_channel(shift_channel(prev[0], green_bits, 32), red_bits, 8),
        shift_channel(prev[1], green_bits, 32),
        shift_channel(shift_channel(prev[2], green_bits, 32), blue_bits, 8),
        prev[3],
    ];
    pixel
}

/// A small difference, applied to the pixel it was taken from, gives back the
/// pixel it was taken to.
pub proof fn lemma_diff_inverts(x: Pixel, y: Pixel)
    requires
        diff_fits(x, y),
    ensures
        apply_diff_spec(x, diff_packed(x, y)) == y,
        diff_packed(x, y) < 64,
{
    let p = diff_packed(x, y);
    lemma_shifted_by_delta(x[0], y[0]);
    lemma_shifted_by_delta(x[1], y[1]);
    lemma_shifted_by_delta(x[2], y[2]);
    assert(p / 16 % 4 - 2 == delta(x[0], y[0]));
    assert(p / 4 % 4 - 2 == delta(x[1], y[1]));
    assert(p % 4 - 2 == delta(x[2], y[2]));
}

/// A green-centred difference, applied to the pixel it was taken from, gives
/// back the pixel it was taken to.
pub proof fn lemma_luma_inverts(x: Pixel, y: Pixel)
    requires
        luma_fits(x, y),
    ensures
        apply_luma_spec(x, luma_green(x, y), luma_red_blue(x, y)) == y,
        luma_green(x, y) < 64,
{
    let g = luma_green(x, y);
    let rb = luma_red_blue(x, y);
    lemma_shifted_by_delta(x[0], y[0]);
    lemma_shifted_by_delta(x[1], y[1]);
    lemma_shifted_by_delta(x[2], y[2]);
    assert(g % 64 - 32 == delta(x[1], y[1]));
    assert(rb / 16 - 8 == delta(x[0], y[0]) - delta(x[1], y[1]));
    assert(rb % 16 - 8 == delta(x[2], y[2]) - delta(x[1], y[1]));
}

} // verus!
