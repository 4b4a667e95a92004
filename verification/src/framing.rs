//! The frame around a chunk stream: the 14-byte header before it, the 8-byte
//! end marker behind it, and whole images written to and read from bytes.

use crate::decode::{decode_rgba, decode_spec, lemma_decode_error};
use crate::encode::{encode_rgba, encode_spec};
use crate::error::{ErrorKind, FormatError};
use crate::pixel::Pixel;
use crate::roundtrip::lemma_round_trip;
use crate::types::{Channels, Colorspace};
use vstd::prelude::*;
use vstd::slice::slice_subrange;

verus! {

/// The length of a header in bytes.
pub const HEADER_LEN: usize = 14;

/// The number of magic bytes at the start of a header.
pub const MAGIC_LEN: usize = 4;

/// The length of the end marker in bytes.
pub const END_MARKER_LEN: usize = 8;

/// Where the channel byte stands in a header.
pub const CHANNELS_AT: usize = 12;

/// Where the colorspace byte stands in a header.
pub const COLORSPACE_AT: usize = 13;

/// The four bytes that every stream begins with: the letters `qoif`.
pub open spec fn magic() -> Seq<u8> {
    seq![0x71, 0x6f, 0x69, 0x66]
}

/// Whether `bytes` begins with the four magic bytes. A stream of fewer than
/// four bytes does not.
pub open spec fn begins_with_magic(bytes: Seq<u8>) -> bool {
    bytes.len() >= MAGIC_LEN && bytes.subrange(0, MAGIC_LEN as int) == magic()
}

/// The eight bytes that every stream ends with: seven zeros, then a one.
pub open spec fn end_marker() -> Seq<u8> {
    seq![0, 0, 0, 0, 0, 0, 0, 1]
}

/// The four bytes of `value`, most significant first.
pub open spec fn be32(value: u32) -> Seq<u8> {
    seq![
        (value / 0x100_0000) as u8,
        (value / 0x1_0000 % 0x100) as u8,
        (value / 0x100 % 0x100) as u8,
        (value % 0x100) as u8,
    ]
}

/// The number whose four bytes, most significant first, stand at `at` in `bytes`.
pub open spec fn be32_at(bytes: Seq<u8>, at: int) -> u32 {
    (bytes[at] * 0x100_0000 + bytes[at + 1] * 0x1_0000 + bytes[at + 2] * 0x100 + bytes[at
        + 3]) as u32
}

/// The four bytes of a number, by shifts and by division.
proof fn lemma_split_be32(value: u32)
    by (bit_vector)
    ensures
        (value >> 24) & 0xff == value / 0x100_0000,
        (value >> 16) & 0xff == value / 0x1_0000 % 0x100,
        (value >> 8) & 0xff == value / 0x100 % 0x100,
        value & 0xff == value % 0x100,
        value / 0x100_0000 < 0x100,
{
}

/// Four bytes joined to a number, by shifts and by multiples.
proof fn lemma_join_be32(b0: u8, b1: u8, b2: u8, b3: u8)
    by (bit_vector)
    ensures
        (b0 as u32) << 24 | (b1 as u32) << 16 | (b2 as u32) << 8 | (b3 as u32) == (b0 as u32)
            * 0x100_0000 + (b1 as u32) * 0x1_0000 + (b2 as u32) * 0x100 + (b3 as u32),
{
}

/// A number is read back from its four bytes, wherever they stand.
pub proof fn lemma_be32_reads_back(value: u32, before: Seq<u8>, after: Seq<u8>)
    ensures
        be32_at(before + be32(value) + after, before.len() as int) == value,
{
    let bytes = before + be32(value) + after;
    let at = before.len() as int;
    assert(bytes[at] == be32(value)[0]);
    assert(bytes[at + 1] == be32(value)[1]);
    assert(bytes[at + 2] == be32(value)[2]);
    assert(bytes[at + 3] == be32(value)[3]);
    lemma_split_be32(value);
}

/// Appends the four bytes of `value`, most significant first, to `out`.
fn write_be32(value: u32, out: &mut Vec<u8>)
    ensures
        final(out)@ == old(out)@ + be32(value),
{
    proof {
        lemma_split_be32(value);
    }
    out.push(((value >> 24) & 0xff) as u8);
    out.push(((value >> 16) & 0xff) as u8);
    out.push(((value >> 8) & 0xff) as u8);
    out.push((value & 0xff) as u8);
}

/// Reads the number whose four bytes, most significant first, stand at `at`.
fn read_be32(bytes: &[u8], at: usize) -> (value: u32)
    requires
        at + 4 <= bytes.len(),
    ensures
        value == be32_at(bytes@, at as int),
{
    let b0: u8 = bytes[at];
    let b1: u8 = bytes[at + 1];
    let b2: u8 = bytes[at + 2];
    let b3: u8 = bytes[at + 3];
    proof {
        lemma_join_be32(b0, b1, b2, b3);
    }
    (b0 as u32) << 24 | (b1 as u32) << 16 | (b2 as u32) << 8 | (b3 as u32)
}

/// What the header of a stream says of the image.
#[derive(Clone, Copy, Debug, PartialEq, Eq)]
pub struct Header {
    /// The width of the image in pixels.
    pub width: u32,
    /// The height of the image in pixels.
    pub height: u32,
    /// How many channels the image is declared to hold.
    pub channels: Channels,
    /// How the colour channels are to be read.
    pub colorspace: Colorspace,
}

impl Header {
    /// The 14 bytes of this header: the magic bytes, width and height with
    /// their most significant byte first, the channel byte, the colorspace byte.
    pub open spec fn bytes(self) -> Seq<u8> {
        magic() + be32(self.width) + be32(self.height) + seq![
            self.channels.byte_spec(),
            self.colorspace.byte_spec(),
        ]
    }

    /// The header that `bytes` begins with, or what is wrong with it. Of
    /// several faults the first in this order is told: the stream does not
    /// begin with the four magic bytes, whatever its length; it begins with
    /// them and has fewer than 14 bytes; a channel byte that is neither 3 nor
    /// 4; a colorspace byte that is neither 0 nor 1.
    pub open spec fn parse(bytes: Seq<u8>) -> Result<Header, FormatError> {
        if !begins_with_magic(bytes) {
            Err(FormatError::at(ErrorKind::InvalidMagic, 0))
        } else if bytes.len() < HEADER_LEN {
            Err(FormatError::at(ErrorKind::TruncatedHeader, bytes.len() as int))
        } else {
            match Channels::from_byte_spec(bytes[CHANNELS_AT as int]) {
                Err(_) => Err(
                    FormatError::at(ErrorKind::UnsupportedChannelCount, CHANNELS_AT as int),
                ),
                Ok(channels) => match Colorspace::from_byte_spec(bytes[COLORSPACE_AT as int]) {
                    Err(_) => Err(
                        FormatError::at(ErrorKind::UnsupportedColorspace, COLORSPACE_AT as int),
                    ),
                    Ok(colorspace) => Ok(
                        Header {
                            width: be32_at(bytes, 4),
                            height: be32_at(bytes, 8),
                            channels,
                            colorspace,
                        },
                    ),
                },
            }
        }
    }

    /// Appends the 14 bytes of this header to `out`.
    pub fn write(&self, out: &mut Vec<u8>)
        ensures
            final(out)@ == old(out)@ + self.bytes(),
    {
        out.push(0x71);
        out.push(0x6f);
        out.push(0x69);
        out.push(0x66);
        write_be32(self.width, out);
        write_be32(self.height, out);
        out.push(self.channels.byte());
        out.push(self.colorspace.byte());
    }

    /// Reads the header that `bytes` begins with.
    ///
    /// Fails with `InvalidMagic`, at 0, if `bytes` does not begin with the four
    /// magic bytes, be it for other bytes in their place or for want of four
    /// bytes; else with `TruncatedHeader`, at the end of `bytes`, if there are
    /// fewer than 14 bytes; else with `UnsupportedChannelCount`, at 12, if the
    /// channel byte is neither 3 nor 4; else with `UnsupportedColorspace`, at
    /// 13, if the colorspace byte is neither 0 nor 1.
    pub fn read(bytes: &[u8]) -> (res: Result<Header, FormatError>)
        ensures
            res == Header::parse(bytes@),
    {
        if bytes.len() < MAGIC_LEN || bytes[0] != 0x71 || bytes[1] != 0x6f || bytes[2] != 0x69
            || bytes[3] != 0x66 {
            return Err(FormatError { kind: ErrorKind::InvalidMagic, offset: Some(0) });
        }
        assert(bytes@.subrange(0, MAGIC_LEN as int) =~= magic());
        if bytes.len() < HEADER_LEN {
            return Err(
                FormatError { kind: ErrorKind::TruncatedHeader, offset: Some(bytes.len()) },
            );
        }
        let channels = match Channels::try_from(bytes[CHANNELS_AT]) {
            Ok(channels) => channels,
            Err(_) => {
                return Err(
                    FormatError {
                        kind: ErrorKind::UnsupportedChannelCount,
                        offset: Some(CHANNELS_AT),
                    },
                );
            },
        };
        let colorspace = match Colorspace::try_from(bytes[COLORSPACE_AT]) {
            Ok(colorspace) => colorspace,
            Err(_) => {
                return Err(
                    FormatError {
                        kind: ErrorKind::UnsupportedColorspace,
                        offset: Some(COLORSPACE_AT),
                    },
                );
            },
        };
        Ok(Header { width: read_be32(bytes, 4), height: read_be32(bytes, 8), channels, colorspace })
    }
}

/// An image as read from a stream.
#[derive(Clone, Debug, PartialEq, Eq)]
pub struct Image {
    /// What the header says.
    pub header: Header,
    /// The pixels that the chunk stream stands for.
    pub pixels: Vec<Pixel>,
    /// Whether the stream ended with the end marker.
    pub end_marker: bool,
}

/// An image as a mathematical value.
pub struct ImageView {
    /// What the header says.
    pub header: Header,
    /// The pixels that the chunk stream stands for.
    pub pixels: Seq<Pixel>,
    /// Whether the stream ended with the end marker.
    pub end_marker: bool,
}

impl ImageView {
    /// Whether there are as many pixels as width times height.
    pub open spec fn pixel_count_matches(self) -> bool {
        self.pixels.len() == self.header.width * self.header.height
    }

    /// Whether the stream kept to the format beyond what reading it needs:
    /// it ended with the end marker, and it held as many pixels as its header
    /// announced.
    pub open spec fn is_compliant(self) -> bool {
        self.end_marker && self.pixel_count_matches()
    }
}

impl View for Image {
    type V = ImageView;

    open spec fn view(&self) -> ImageView {
        ImageView { header: self.header, pixels: self.pixels@, end_marker: self.end_marker }
    }
}

impl Image {
    /// Whether there are as many pixels as width times height.
    pub fn pixel_count_matches(&self) -> (matches: bool)
        ensures
            matches == self@.pixel_count_matches(),
    {
        let width: u64 = self.header.width as u64;
        let height: u64 = self.header.height as u64;
        assert(width * height <= 0xffff_ffff * 0xffff_ffff) by (nonlinear_arith)
            requires
                width <= 0xffff_ffff,
                height <= 0xffff_ffff,
        ;
        self.pixels.len() as u64 == width * height
    }

    /// Whether the stream that this image was read from ended with the end
    /// marker and held as many pixels as its header announced.
    pub fn is_compliant(&self) -> (compliant: bool)
        ensures
            compliant == self@.is_compliant(),
    {
        self.end_marker && self.pixel_count_matches()
    }
}

/// Whether `bytes` holds a header and ends, behind it, with the end marker.
pub open spec fn has_end_marker(bytes: Seq<u8>) -> bool {
    &&& bytes.len() >= HEADER_LEN + END_MARKER_LEN
    &&& bytes.subrange(bytes.len() - END_MARKER_LEN, bytes.len() as int) == end_marker()
}

/// The part of `bytes` that holds the chunks: what follows the header, without
/// the end marker where the stream ends with one.
pub open spec fn chunk_stream(bytes: Seq<u8>) -> Seq<u8> {
    if has_end_marker(bytes) {
        bytes.subrange(HEADER_LEN as int, bytes.len() - END_MARKER_LEN)
    } else {
        bytes.subrange(HEADER_LEN as int, bytes.len() as int)
    }
}

/// The bytes of an image: its header, the chunk stream of its pixels, and the
/// end marker.
pub open spec fn image_bytes(header: Header, pixels: Seq<Pixel>) -> Seq<u8> {
    header.bytes() + encode_spec(pixels) + end_marker()
}

/// The image that `bytes` holds, or what is wrong with it: a fault of the
/// header, or else the first fault of the chunk stream, at its offset in `bytes`.
pub open spec fn image_spec(bytes: Seq<u8>) -> Result<ImageView, FormatError> {
    match Header::parse(bytes) {
        Err(error) => Err(error),
        Ok(header) => match decode_spec(chunk_stream(bytes)) {
            Err(error) => Err(error.moved_by(HEADER_LEN as int)),
            Ok(pixels) => Ok(ImageView { header, pixels, end_marker: has_end_marker(bytes) }),
        },
    }
}

/// Whether `bytes` ends, behind a header, with the end marker.
fn ends_with_marker(bytes: &[u8]) -> (marked: bool)
    ensures
        marked == has_end_marker(bytes@),
{
    let len = bytes.len();
    if len < HEADER_LEN + END_MARKER_LEN {
        return false;
    }
    let from: usize = len - END_MARKER_LEN;
    let marked = bytes[from] == 0 && bytes[from + 1] == 0 && bytes[from + 2] == 0 && bytes[from
        + 3] == 0 && bytes[from + 4] == 0 && bytes[from + 5] == 0 && bytes[from + 6] == 0
        && bytes[from + 7] == 1;
    proof {
        if marked {
            assert(bytes@.subrange(from as int, len as int) =~= end_marker());
        }
    }
    marked
}

/// Writes an image of four channels as a stream: the header with the given
/// width, height and colorspace, the chunk stream of `pixels`, the end marker.
/// Width and height are written as given, whatever the number of pixels.
pub fn encode_image(width: u32, height: u32, colorspace: Colorspace, pixels: &[Pixel]) -> (bytes:
    Vec<u8>)
    ensures
        bytes@ == image_bytes(
            Header { width, height, channels: Channels::Rgba, colorspace },
            pixels@,
        ),
{
    let header = Header { width, height, channels: Channels::Rgba, colorspace };
    let mut bytes: Vec<u8> = Vec::new();
    header.write(&mut bytes);
    let mut encoded = encode_rgba(pixels);
    bytes.append(&mut encoded);
    bytes.push(0);
    bytes.push(0);
    bytes.push(0);
    bytes.push(0);
    bytes.push(0);
    bytes.push(0);
    bytes.push(0);
    bytes.push(1);
    bytes
}

/// Reads an image from a stream.
///
/// The header is read first and its faults are told as `Header::read` tells
/// them. The chunks are what follows the header, up to the end marker where
/// the stream ends with one and up to the end where it does not; they are
/// decoded whatever channel count the header names, into pixels of four
/// channels. A chunk stream that ends inside a chunk is refused with
/// `TruncatedChunk` at the offset of that chunk in `bytes`. A missing end
/// marker and a number of pixels other than width times height are no errors:
/// the image that comes back tells of both.
pub fn decode_image(bytes: &[u8]) -> (res: Result<Image, FormatError>)
    ensures
        match res {
            Ok(image) => image_spec(bytes@) == Ok::<ImageView, FormatError>(image@),
            Err(error) => image_spec(bytes@) == Err::<ImageView, FormatError>(error),
        },
{
    let header = match Header::read(bytes) {
        Ok(header) => header,
        Err(error) => {
            return Err(error);
        },
    };
    let end_marker = ends_with_marker(bytes);
    let end: usize = if end_marker {
        bytes.len() - END_MARKER_LEN
    } else {
        bytes.len()
    };
    let chunks = slice_subrange(bytes, HEADER_LEN, end);
    match decode_rgba(chunks) {
        Ok(pixels) => Ok(Image { header, pixels, end_marker }),
        Err(error) => {
            let offset = match error.offset {
                Some(at) => Some(at + HEADER_LEN),
                None => None,
            };
            Err(FormatError { kind: error.kind, offset })
        },
    }
}

/// A stream that does not begin with the four magic bytes is refused for that
/// and for nothing else, however short or long it is and whatever else is
/// wrong with it.
pub proof fn lemma_wrong_magic_is_told_first(bytes: Seq<u8>)
    requires
        !begins_with_magic(bytes),
    ensures
        Header::parse(bytes) == Err::<Header, FormatError>(
            FormatError::at(ErrorKind::InvalidMagic, 0),
        ),
        image_spec(bytes) == Err::<ImageView, FormatError>(
            FormatError::at(ErrorKind::InvalidMagic, 0),
        ),
{
}

/// A stream is refused as too short for a header just when it begins with the
/// four magic bytes and has fewer than 14 bytes.
pub proof fn lemma_truncated_header(bytes: Seq<u8>)
    ensures
        (Header::parse(bytes) matches Err(error) && error.kind == ErrorKind::TruncatedHeader)
            <==> begins_with_magic(bytes) && bytes.len() < HEADER_LEN,
        (image_spec(bytes) matches Err(error) && error.kind == ErrorKind::TruncatedHeader)
            <==> begins_with_magic(bytes) && bytes.len() < HEADER_LEN,
{
    if Header::parse(bytes) is Ok {
        lemma_decode_error(chunk_stream(bytes), 0, Seq::empty());
    }
}

/// A header is read back from its own bytes, whatever follows them.
pub proof fn lemma_header_reads_back(header: Header, after: Seq<u8>)
    ensures
        Header::parse(header.bytes() + after) == Ok::<Header, FormatError>(header),
        header.bytes().len() == HEADER_LEN,
{
    let bytes = header.bytes() + after;
    let tail = seq![header.channels.byte_spec(), header.colorspace.byte_spec()];
    assert(bytes.subrange(0, MAGIC_LEN as int) =~= magic());
    assert(bytes =~= magic() + be32(header.width) + (be32(header.height) + tail + after));
    lemma_be32_reads_back(header.width, magic(), be32(header.height) + tail + after);
    assert(bytes =~= (magic() + be32(header.width)) + be32(header.height) + (tail + after));
    lemma_be32_reads_back(header.height, magic() + be32(header.width), tail + after);
    assert(bytes[CHANNELS_AT as int] == tail[0]);
    assert(bytes[COLORSPACE_AT as int] == tail[1]);
}

/// An image is read back from its own bytes: the header as written, the
/// pixels as encoded, and the end marker found. What is read back keeps to the
/// format just when the image had as many pixels as its width times its height.
pub proof fn lemma_image_round_trip(header: Header, pixels: Seq<Pixel>)
    ensures
        image_spec(image_bytes(header, pixels)) == Ok::<ImageView, FormatError>(
            ImageView { header, pixels, end_marker: true },
        ),
        (ImageView { header, pixels, end_marker: true }).is_compliant() <==> pixels.len()
            == header.width * header.height,
{
    let bytes = image_bytes(header, pixels);
    let chunks = encode_spec(pixels);
    lemma_header_reads_back(header, chunks + end_marker());
    assert(bytes =~= header.bytes() + (chunks + end_marker()));
    assert(bytes.len() == HEADER_LEN + chunks.len() + END_MARKER_LEN);
    assert(bytes.subrange(bytes.len() - END_MARKER_LEN, bytes.len() as int) =~= end_marker());
    assert(has_end_marker(bytes));
    assert(chunk_stream(bytes) =~= chunks);
    lemma_round_trip(pixels);
}

} // verus!
