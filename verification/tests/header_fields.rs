use qoi::types::{Channels, Colorspace};

#[test]
fn channels_are_read_from_three_and_four() {
    assert_eq!(Channels::try_from(3u8), Ok(Channels::Rgb));
    assert_eq!(Channels::try_from(4u8), Ok(Channels::Rgba));
    for byte in 0..=255u8 {
        if byte != 3 && byte != 4 {
            assert_eq!(Channels::try_from(byte), Err(()));
        }
    }
}

#[test]
fn colorspace_is_read_from_zero_and_one() {
    assert_eq!(Colorspace::try_from(0u8), Ok(Colorspace::Standard));
    assert_eq!(Colorspace::try_from(1u8), Ok(Colorspace::Linear));
    for byte in 2..=255u8 {
        assert_eq!(Colorspace::try_from(byte), Err(()));
    }
}

#[test]
fn header_fields_are_written_as_their_bytes() {
    assert_eq!(Channels::Rgb.byte(), 3);
    assert_eq!(Channels::Rgba.byte(), 4);
    assert_eq!(Colorspace::Standard.byte(), 0);
    assert_eq!(Colorspace::Linear.byte(), 1);
}

#[test]
fn header_fields_are_read_back_from_their_bytes() {
    for channels in [Channels::Rgb, Channels::Rgba] {
        assert_eq!(Channels::try_from(channels.byte()), Ok(channels));
    }
    for colorspace in [Colorspace::Standard, Colorspace::Linear] {
        assert_eq!(Colorspace::try_from(colorspace.byte()), Ok(colorspace));
    }
}
