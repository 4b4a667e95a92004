use qoi::decode::decode_rgba;
use qoi::encode::encode_rgba;
use qoi::error::{ErrorKind, FormatError};
use qoi::pixel::{hash, Pixel};

fn truncated_at(at: usize) -> FormatError {
    FormatError { kind: ErrorKind::TruncatedChunk, offset: Some(at) }
}

fn sampled_pixels(seed: u32, count: usize, palette: usize) -> Vec<Pixel> {
    // A mix of repeats, colours that come back, near neighbours and jumps.
    let mut v = seed;
    let mut pixels: Vec<Pixel> = Vec::new();
    let mut prev: Pixel = [0, 0, 0, 255];
    for _ in 0..count {
        v = v.wrapping_mul(1664525).wrapping_add(1013904223);
        let d = v.to_be_bytes();
        let pixel = match d[3] % 8 {
            0 | 1 => prev,
            2 if !pixels.is_empty() => pixels[(d[0] as usize) % pixels.len().min(palette)],
            3 | 4 => [
                prev[0].wrapping_add(d[0] % 4).wrapping_sub(2),
                prev[1].wrapping_add(d[1] % 4).wrapping_sub(2),
                prev[2].wrapping_add(d[2] % 4).wrapping_sub(2),
                prev[3],
            ],
            5 => [
                prev[0].wrapping_add(d[0] % 40).wrapping_sub(20),
                prev[1].wrapping_add(d[1] % 70).wrapping_sub(35),
                prev[2].wrapping_add(d[2] % 40).wrapping_sub(20),
                prev[3],
            ],
            6 => [d[0], d[1], d[2], prev[3]],
            _ => d,
        };
        pixels.push(pixel);
        prev = pixel;
    }
    pixels
}

#[test]
fn no_pixels_encode_to_no_bytes() {
    assert_eq!(encode_rgba(&[]), Vec::<u8>::new());
    assert_eq!(decode_rgba(&[]), Ok(vec![]));
}

#[test]
fn round_trip_on_sampled_sequences() {
    for seed in 0..200u32 {
        let pixels = sampled_pixels(seed, 50 + 7 * seed as usize, 16);
        let encoded = encode_rgba(&pixels);
        assert_eq!(decode_rgba(&encoded), Ok(pixels));
    }
}

#[test]
fn round_trip_on_a_gradient_with_wrap_around() {
    let mut pixels: Vec<Pixel> = Vec::new();
    for i in 0..3000u32 {
        pixels.push([(i * 3) as u8, (i * 2) as u8, (i * 5 / 2) as u8, (i / 700) as u8]);
    }
    let encoded = encode_rgba(&pixels);
    assert!(encoded.len() < 4 * pixels.len());
    assert_eq!(decode_rgba(&encoded), Ok(pixels));
}

#[test]
fn every_kind_of_chunk_in_one_stream() {
    let pixels: Vec<Pixel> = vec![
        [0, 0, 0, 255],       // repeats the start pixel: run of 2
        [0, 0, 0, 255],
        [10, 10, 10, 255],    // green-centred difference (+10, +10, +10)
        [11, 9, 11, 255],     // small difference (+1, -1, +1)
        [10, 10, 10, 255],    // in the cache at slot 11
        [200, 100, 50, 255],  // literal without alpha
        [200, 100, 50, 128],  // literal with alpha
    ];
    let expected: Vec<u8> = vec![
        0xc1,
        0xaa, 0x88,
        0x77,
        0x0b,
        0xfe, 200, 100, 50,
        0xff, 200, 100, 50, 128,
    ];
    assert_eq!(encode_rgba(&pixels), expected);
    assert_eq!(decode_rgba(&expected), Ok(pixels));
}

#[test]
fn striped_rows_become_literals_runs_and_indices() {
    let mut pixels: Vec<Pixel> = Vec::new();
    for row in 0..32 {
        for _ in 0..32 {
            pixels.push(if row % 2 == 0 { [255, 255, 255, 245] } else { [0, 0, 0, 255] });
        }
    }
    let mut expected: Vec<u8> = vec![0xff, 255, 255, 255, 245, 0xde, 0xff, 0, 0, 0, 255, 0xde];
    for _ in 0..15 {
        expected.extend_from_slice(&[0x38, 0xde, 0x35, 0xde]);
    }
    let encoded = encode_rgba(&pixels);
    assert_eq!(encoded, expected);
    assert_eq!(decode_rgba(&encoded), Ok(pixels));
}

#[test]
fn two_hundred_equal_pixels_are_split_into_runs_of_at_most_62() {
    let pixels: Vec<Pixel> = vec![[10, 20, 30, 255]; 200];
    let encoded = encode_rgba(&pixels);
    // The first pixel in full, then 199 repeats as 62 + 62 + 62 + 13.
    assert_eq!(encoded, vec![0xfe, 10, 20, 30, 0xfd, 0xfd, 0xfd, 0xcc]);
    let decoded = decode_rgba(&encoded).unwrap();
    assert_eq!(decoded.len(), 200);
    assert_eq!(decoded, pixels);
}

#[test]
fn two_hundred_start_pixels_are_runs_only() {
    let pixels: Vec<Pixel> = vec![[0, 0, 0, 255]; 200];
    let encoded = encode_rgba(&pixels);
    // 200 = 62 + 62 + 62 + 14.
    assert_eq!(encoded, vec![0xfd, 0xfd, 0xfd, 0xcd]);
    assert_eq!(decode_rgba(&encoded), Ok(pixels));
}

#[test]
fn runs_of_exactly_the_boundary_lengths() {
    for (count, expected) in [
        (1usize, vec![0xc0u8]),
        (61, vec![0xfc]),
        (62, vec![0xfd]),
        (63, vec![0xfd, 0xc0]),
        (124, vec![0xfd, 0xfd]),
        (125, vec![0xfd, 0xfd, 0xc0]),
    ] {
        let pixels: Vec<Pixel> = vec![[0, 0, 0, 255]; count];
        let encoded = encode_rgba(&pixels);
        assert_eq!(encoded, expected);
        assert!(encoded.iter().all(|b| *b != 0xfe && *b != 0xff));
        assert_eq!(decode_rgba(&encoded), Ok(pixels));
    }
}

#[test]
fn run_byte_gives_payload_plus_one_pixels() {
    assert_eq!(decode_rgba(&[0xc0]), Ok(vec![[0, 0, 0, 255]; 1]));
    assert_eq!(decode_rgba(&[0xc4]), Ok(vec![[0, 0, 0, 255]; 5]));
    assert_eq!(decode_rgba(&[0xfd]), Ok(vec![[0, 0, 0, 255]; 62]));
}

#[test]
fn run_ends_where_the_pixel_changes() {
    let pixels: Vec<Pixel> =
        vec![[1, 2, 3, 4], [1, 2, 3, 4], [1, 2, 3, 4], [9, 9, 9, 9], [9, 9, 9, 9]];
    let encoded = encode_rgba(&pixels);
    assert_eq!(encoded, vec![0xff, 1, 2, 3, 4, 0xc1, 0xff, 9, 9, 9, 9, 0xc0]);
    assert_eq!(decode_rgba(&encoded), Ok(pixels));
}

#[test]
fn pixel_seen_before_is_written_as_index() {
    let a: Pixel = [10, 10, 10, 255];
    let b: Pixel = [11, 9, 11, 255];
    assert_eq!(hash(a), 11);
    assert_eq!(hash(b), 16);
    let encoded = encode_rgba(&[a, b, a]);
    assert_eq!(encoded, vec![0xaa, 0x88, 0x77, 0x0b]);
    assert_eq!(decode_rgba(&encoded), Ok(vec![a, b, a]));
}

#[test]
fn pixel_pushed_out_of_its_slot_is_written_anew() {
    // Both hash to slot 0, so the second takes the slot of the first.
    let a: Pixel = [64, 0, 0, 0];
    let b: Pixel = [128, 0, 0, 0];
    let encoded = encode_rgba(&[a, b, a]);
    assert_eq!(
        encoded,
        vec![0xff, 64, 0, 0, 0, 0xfe, 128, 0, 0, 0xfe, 64, 0, 0],
    );
    assert_eq!(decode_rgba(&encoded), Ok(vec![a, b, a]));
}

#[test]
fn pixel_of_a_run_is_in_the_cache_afterwards() {
    // Opaque black comes as a run first and is found in its slot later.
    let black: Pixel = [0, 0, 0, 255];
    let other: Pixel = [200, 100, 50, 255];
    assert_eq!(hash(black), 53);
    let encoded = encode_rgba(&[black, black, other, black]);
    assert_eq!(encoded, vec![0xc1, 0xfe, 200, 100, 50, 0x35]);
    assert_eq!(decode_rgba(&encoded), Ok(vec![black, black, other, black]));
}

#[test]
fn step_of_plus_one_minus_one_plus_one_is_a_small_difference() {
    let encoded = encode_rgba(&[[10, 10, 10, 255], [11, 9, 11, 255]]);
    assert_eq!(encoded, vec![0xaa, 0x88, 0x77]);
}

#[test]
fn step_of_plus_three_falls_through_to_green_centred_difference() {
    let encoded = encode_rgba(&[[10, 10, 10, 255], [13, 10, 10, 255]]);
    assert_eq!(encoded, vec![0xaa, 0x88, 0xa0, 0xb8]);
}

#[test]
fn step_too_wide_for_any_difference_is_a_literal() {
    let encoded = encode_rgba(&[[10, 10, 10, 255], [110, 10, 10, 255]]);
    assert_eq!(encoded, vec![0xaa, 0x88, 0xfe, 110, 10, 10]);
}

#[test]
fn first_pixel_is_taken_from_opaque_black() {
    // White lies one step down from black on every channel, wrapping around.
    assert_eq!(encode_rgba(&[[255, 255, 255, 255]]), vec![0x55]);
    assert_eq!(decode_rgba(&[0x55]), Ok(vec![[255, 255, 255, 255]]));
}

#[test]
fn change_of_alpha_alone_is_a_literal_with_alpha() {
    let encoded = encode_rgba(&[[10, 10, 10, 255], [10, 10, 10, 128]]);
    assert_eq!(encoded, vec![0xaa, 0x88, 0xff, 10, 10, 10, 128]);
    let encoded = encode_rgba(&[[10, 10, 10, 255], [10, 10, 10, 254]]);
    assert_eq!(encoded, vec![0xaa, 0x88, 0xff, 10, 10, 10, 254]);
}

#[test]
fn change_of_alpha_to_a_cached_pixel_is_an_index() {
    // The fresh cache holds the all-zero pixel, which differs from opaque
    // black in alpha alone.
    assert_eq!(encode_rgba(&[[0, 0, 0, 0]]), vec![0x00]);
    assert_eq!(decode_rgba(&[0x00]), Ok(vec![[0, 0, 0, 0]]));
    assert_eq!(encode_rgba(&[[0, 0, 0, 255], [0, 0, 0, 0]]), vec![0xc0, 0x00]);
    assert_eq!(decode_rgba(&[0xc0, 0x00]), Ok(vec![[0, 0, 0, 255], [0, 0, 0, 0]]));
}

#[test]
fn small_step_to_a_cached_pixel_is_an_index() {
    let a: Pixel = [10, 10, 10, 255];
    let b: Pixel = [11, 9, 11, 255];
    let encoded = encode_rgba(&[a, b, a, b]);
    assert_eq!(encoded, vec![0xaa, 0x88, 0x77, 0x0b, 0x10]);
    assert_eq!(decode_rgba(&encoded), Ok(vec![a, b, a, b]));
}

#[test]
fn green_centred_difference_is_decoded_from_a_known_vector() {
    // First byte: tag and green + 32 = 42. Second byte: red - green + 8 = 5
    // in the high four bits, blue - green + 8 = 12 in the low four.
    assert_eq!(decode_rgba(&[0xaa, 0x5c]), Ok(vec![[7, 10, 14, 255]]));
    assert_eq!(encode_rgba(&[[7, 10, 14, 255]]), vec![0xaa, 0x5c]);
    // Green at its lowest, red and blue at their highest above it.
    assert_eq!(decode_rgba(&[0x80, 0xff]), Ok(vec![[231, 224, 231, 255]]));
}

#[test]
fn literal_without_alpha_keeps_the_previous_alpha() {
    assert_eq!(
        decode_rgba(&[0xff, 1, 2, 3, 77, 0xfe, 9, 8, 7]),
        Ok(vec![[1, 2, 3, 77], [9, 8, 7, 77]]),
    );
}

#[test]
fn index_reads_the_named_slot() {
    // 3 + 10 + 21 + 847 = 881 = 13 * 64 + 49.
    assert_eq!(hash([1, 2, 3, 77]), 49);
    assert_eq!(
        decode_rgba(&[0xff, 1, 2, 3, 77, 0x00, 0x31]),
        Ok(vec![[1, 2, 3, 77], [0, 0, 0, 0], [1, 2, 3, 77]]),
    );
}

#[test]
fn literal_with_alpha_cut_short_is_truncated() {
    assert_eq!(decode_rgba(&[0xff, 1, 2, 3]), Err(truncated_at(0)));
    let whole = encode_rgba(&[[10, 10, 10, 255], [10, 10, 10, 128]]);
    assert_eq!(whole[2], 0xff);
    assert_eq!(decode_rgba(&whole[..whole.len() - 1]), Err(truncated_at(2)));
}

#[test]
fn other_chunks_cut_short_are_truncated() {
    assert_eq!(decode_rgba(&[0xfe]), Err(truncated_at(0)));
    assert_eq!(decode_rgba(&[0xc5, 0xfe, 1, 2]), Err(truncated_at(1)));
    assert_eq!(decode_rgba(&[0x77, 0x77, 0xaa]), Err(truncated_at(2)));
    assert_eq!(decode_rgba(&[0xff, 1, 2, 3, 4, 0xff]), Err(truncated_at(5)));
}

#[test]
fn every_cut_of_a_stream_decodes_or_is_truncated() {
    let pixels = sampled_pixels(5, 300, 8);
    let encoded = encode_rgba(&pixels);
    for cut in 0..encoded.len() {
        match decode_rgba(&encoded[..cut]) {
            Ok(decoded) => assert_eq!(decoded[..], pixels[..decoded.len()]),
            Err(error) => {
                assert_eq!(error.kind, ErrorKind::TruncatedChunk);
                let at = error.offset.unwrap();
                assert!(at < cut && cut - at < 5);
            }
        }
    }
}

#[test]
fn any_bytes_decode_or_are_truncated() {
    let mut v: u32 = 1234;
    for round in 0..500usize {
        let mut bytes: Vec<u8> = Vec::new();
        for _ in 0..(round % 40) {
            v = v.wrapping_mul(1664525).wrapping_add(1013904223);
            bytes.push((v >> 24) as u8);
        }
        match decode_rgba(&bytes) {
            Ok(_) => {}
            Err(error) => assert_eq!(error.kind, ErrorKind::TruncatedChunk),
        }
    }
}
