//! The TGA file format: what the bytes of a file stand for, what is written
//! for an image, and what holds of the two.
//!
//! A file is a header of 18 bytes, the pixels, and a footer of 26 bytes.
//! Numbers of two bytes are stored low byte first. A pixel is stored as
//! blue, green, red and, with 32 bits, alpha.

use vstd::prelude::*;
use crate::bytereader::{CursorModel, ReadFailure};
use crate::color::{lemma_pack_unpack, pack, unpack};
use crate::tga::ImageModel;

verus! {

/// What a decoding error says: the cursor error behind it, if there is one,
/// and a message.
pub struct ParsingFailure {
    pub cause: Option<ReadFailure>,
    pub message: Seq<char>,
}

/// The kinds of decoding errors.
#[derive(Copy, Clone, Debug, PartialEq, Eq, Structural)]
pub enum ParsingErrorKind {
    /// The file ends before the data does.
    OutOfBounds,
    /// A field that must hold a fixed value holds another.
    UnexpectedValue,
    /// The file is of a type, a pixel depth or a shape that is not handled.
    UnsupportedFormat,
}

impl ParsingFailure {
    pub open spec fn kind(self) -> ParsingErrorKind {
        match self.cause {
            Some(ReadFailure::OutOfBounds { .. }) => ParsingErrorKind::OutOfBounds,
            Some(ReadFailure::UnexpectedValue { .. }) => ParsingErrorKind::UnexpectedValue,
            None => ParsingErrorKind::UnsupportedFormat,
        }
    }
}

/// The failure of reading `count` bytes at `cursor` when fewer lie ahead.
pub open spec fn read_failure(cursor: CursorModel, count: int, message: Seq<char>) -> ParsingFailure {
    ParsingFailure { cause: Some(cursor.short_by(count)), message }
}

/// The failure of reading one byte at the end of the source.
pub open spec fn exhausted(cursor: CursorModel, message: Seq<char>) -> ParsingFailure {
    read_failure(cursor.at(cursor.bytes.len() as int), 1, message)
}

/// The failure of accepting `expected` at `cursor` when the next bytes are
/// too few or differ.
pub open spec fn accept_failure(cursor: CursorModel, expected: Seq<u8>, message: Seq<char>) -> ParsingFailure {
    ParsingFailure {
        cause: Some(
            if cursor.has(expected.len() as int) {
                ReadFailure::UnexpectedValue {
                    expected,
                    actual: cursor.next(expected.len() as int),
                }
            } else {
                cursor.short_by(expected.len() as int)
            },
        ),
        message,
    }
}

/// The failure for a file that is well formed so far but not handled.
pub open spec fn unsupported(message: Seq<char>) -> ParsingFailure {
    ParsingFailure { cause: None, message }
}

/// The 16-bit value stored low byte first.
pub open spec fn le16(low: u8, high: u8) -> u16 {
    (low + 0x100 * high) as u16
}

/// The length of a file header in bytes.
pub const HEADER_LENGTH: usize = 18;

/// The image type of an uncompressed true-colour file.
pub const UNCOMPRESSED: u8 = 2;

/// The image type of a run-length encoded true-colour file.
pub const RUN_LENGTH_ENCODED: u8 = 10;

/// The image descriptor that is written: eight bits of alpha, first pixel at the lower left.
pub const IMAGE_DESCRIPTOR: u8 = 0b0000_1000;

/// The fields of a header whose values vary from file to file.
pub struct HeaderModel {
    pub image_type: u8,
    pub x_origin: u16,
    pub y_origin: u16,
    pub width: u16,
    pub height: u16,
    pub bits_per_pixel: u8,
    pub image_descriptor: u8,
}

/// The five bytes of the colour map specification of a file without a colour map.
pub open spec fn no_color_map() -> Seq<u8> {
    seq![0u8, 0u8, 0u8, 0u8, 0u8]
}

/// The header at the start of `bytes`, its fields read in order; or the
/// failure of the first field that cannot be read.
pub open spec fn decode_header(bytes: Seq<u8>) -> Result<HeaderModel, ParsingFailure> {
    let start = CursorModel { bytes, offset: 0 };
    if !start.starts_with(seq![0u8]) {
        Err(accept_failure(start, seq![0u8], "Id lengths other than 0 are not supported"@))
    } else if !start.at(1).starts_with(seq![0u8]) {
        Err(
            accept_failure(
                start.at(1),
                seq![0u8],
                "TGA Images with color maps are not supported"@,
            ),
        )
    } else if !start.at(2).has(1) {
        Err(exhausted(start, "Could not read the image type"@))
    } else if !start.at(3).starts_with(no_color_map()) {
        Err(
            accept_failure(
                start.at(3),
                no_color_map(),
                "Color map is not supported. Please set all color map scecification bytes to zero"@,
            ),
        )
    } else if !start.at(8).has(2) {
        Err(exhausted(start, "Could not read x-origin"@))
    } else if !start.at(10).has(2) {
        Err(exhausted(start, "Could not read y-origin"@))
    } else if !start.at(12).has(2) {
        Err(exhausted(start, "Could not read the image width"@))
    } else if !start.at(14).has(2) {
        Err(exhausted(start, "Could not read the image height"@))
    } else if !start.at(16).has(1) {
        Err(exhausted(start, "Could not read the pixel depth"@))
    } else if !start.at(17).has(1) {
        Err(exhausted(start, "Could not read the image descriptor"@))
    } else {
        Ok(
            HeaderModel {
                image_type: bytes[2],
                x_origin: le16(bytes[8], bytes[9]),
                y_origin: le16(bytes[10], bytes[11]),
                width: le16(bytes[12], bytes[13]),
                height: le16(bytes[14], bytes[15]),
                bits_per_pixel: bytes[16],
                image_descriptor: bytes[17],
            },
        )
    }
}

/// The pixel stored at `position` in file order: blue, green, red, and alpha
/// where a pixel has four bytes; a pixel of three bytes is opaque.
pub open spec fn pixel_at(bytes: Seq<u8>, position: int, bytes_per_pixel: int) -> u32 {
    pack(
        bytes[position + 2],
        bytes[position + 1],
        bytes[position],
        if bytes_per_pixel == 4 {
            bytes[position + 3]
        } else {
            255u8
        },
    )
}

/// `count` pixels stored one after the other from `position` on.
pub open spec fn pixels_at(bytes: Seq<u8>, position: int, bytes_per_pixel: int, count: int) -> Seq<u32> {
    Seq::new(count as nat, |i: int| pixel_at(bytes, position + i * bytes_per_pixel, bytes_per_pixel))
}

pub open spec fn supported_depth(bits_per_pixel: u8) -> bool {
    bits_per_pixel == 24 || bits_per_pixel == 32
}

/// How many pixels the packet that starts with `header` holds.
pub open spec fn packet_count(header: u8) -> int {
    header % 128 + 1
}

/// Whether the packet that starts with `header` repeats one pixel.
pub open spec fn packet_is_run(header: u8) -> bool {
    header >= 128
}

/// `decoded` followed by the rest, where the rest could be decoded.
pub open spec fn after(decoded: Seq<u32>, rest: Result<Seq<u32>, ParsingFailure>) -> Result<
    Seq<u32>,
    ParsingFailure,
> {
    match rest {
        Ok(pixels) => Ok(decoded + pixels),
        Err(failure) => Err(failure),
    }
}

/// `count` copies of one pixel.
pub open spec fn repeated(pixel: u32, count: int) -> Seq<u32> {
    Seq::new(count as nat, |i: int| pixel)
}

/// The pixels of the run-length packets from `cursor` on, until `remaining`
/// pixels are decoded. A run packet stands for its one pixel repeated, a raw
/// packet for its pixels in order. A packet that holds more pixels than
/// remain is a failure, and so is a packet that the source ends in.
pub open spec fn decode_packets(cursor: CursorModel, bytes_per_pixel: int, remaining: int) -> Result<
    Seq<u32>,
    ParsingFailure,
>
    decreases remaining,
{
    if remaining <= 0 {
        Ok(Seq::empty())
    } else if !cursor.has(1) {
        Err(read_failure(cursor, 1, "Could not read the repetition byte"@))
    } else {
        let header = cursor.bytes[cursor.offset];
        let count = packet_count(header);
        let data = cursor.at(cursor.offset + 1);
        if count > remaining {
            Err(unsupported("A run-length packet holds more pixels than the image has left"@))
        } else if packet_is_run(header) {
            if !data.has(bytes_per_pixel) {
                Err(exhausted(cursor, "Could not read rle encoded pixel"@))
            } else {
                after(
                    repeated(pixel_at(cursor.bytes, data.offset, bytes_per_pixel), count),
                    decode_packets(
                        data.at(data.offset + bytes_per_pixel),
                        bytes_per_pixel,
                        remaining - count,
                    ),
                )
            }
        } else {
            if !data.has(count * bytes_per_pixel) {
                Err(read_failure(data, count * bytes_per_pixel, "Could not read rle raw pixel data"@))
            } else {
                after(
                    pixels_at(cursor.bytes, data.offset, bytes_per_pixel, count),
                    decode_packets(
                        data.at(data.offset + count * bytes_per_pixel),
                        bytes_per_pixel,
                        remaining - count,
                    ),
                )
            }
        }
    }
}

/// The offset behind the last of the run-length packets that hold
/// `remaining` pixels from `cursor` on: behind the header of each packet lie
/// one pixel for a run packet and as many pixels as it counts for a raw one.
/// Where the packets cannot be decoded, it is the offset of the first that
/// cannot.
pub open spec fn packets_end(cursor: CursorModel, bytes_per_pixel: int, remaining: int) -> int
    decreases remaining,
{
    if remaining <= 0 || !cursor.has(1) {
        cursor.offset
    } else {
        let header = cursor.bytes[cursor.offset];
        let count = packet_count(header);
        let stored = if packet_is_run(header) {
            bytes_per_pixel
        } else {
            count * bytes_per_pixel
        };
        let data = cursor.at(cursor.offset + 1);
        if count > remaining || !data.has(stored) {
            cursor.offset
        } else {
            packets_end(data.at(data.offset + stored), bytes_per_pixel, remaining - count)
        }
    }
}

/// The offset behind the image data of `count` pixels that starts at `cursor`.
pub open spec fn pixels_end(cursor: CursorModel, bits_per_pixel: u8, image_type: u8, count: int) -> int {
    let bytes_per_pixel = bits_per_pixel as int / 8;
    if image_type == UNCOMPRESSED {
        cursor.offset + count * bytes_per_pixel
    } else {
        packets_end(cursor, bytes_per_pixel, count)
    }
}

/// The `count` pixels of the image data that starts at `cursor`.
pub open spec fn decode_pixels(cursor: CursorModel, bits_per_pixel: u8, image_type: u8, count: int) -> Result<
    Seq<u32>,
    ParsingFailure,
> {
    let bytes_per_pixel = bits_per_pixel as int / 8;
    if image_type != UNCOMPRESSED && image_type != RUN_LENGTH_ENCODED {
        Err(unsupported("Only compressed and uncompressed True-color images are suppored"@))
    } else if !supported_depth(bits_per_pixel) {
        Err(unsupported("Only 24-bit and 32-bit pixels are supported"@))
    } else if image_type == UNCOMPRESSED {
        if !cursor.has(count * bytes_per_pixel) {
            Err(
                read_failure(
                    cursor,
                    count * bytes_per_pixel,
                    "Could not read uncompressed pixel data"@,
                ),
            )
        } else {
            Ok(pixels_at(cursor.bytes, cursor.offset, bytes_per_pixel, count))
        }
    } else {
        decode_packets(cursor, bytes_per_pixel, count)
    }
}

/// The image that the bytes of a file stand for, or why they stand for none.
/// Bytes after the image data are not looked at.
pub open spec fn decode(bytes: Seq<u8>) -> Result<ImageModel, ParsingFailure> {
    match decode_header(bytes) {
        Err(failure) => Err(failure),
        Ok(header) => match decode_pixels(
            CursorModel { bytes, offset: HEADER_LENGTH as int },
            header.bits_per_pixel,
            header.image_type,
            header.width * header.height,
        ) {
            Err(failure) => Err(failure),
            Ok(pixels) => Ok(
                ImageModel {
                    x_origin: header.x_origin,
                    y_origin: header.y_origin,
                    width: header.width,
                    height: header.height,
                    pixels,
                },
            ),
        },
    }
}

/// The byte of a pixel that is stored at place `place` of its four: blue,
/// green, red, alpha.
pub open spec fn stored_byte(pixel: u32, place: int) -> u8 {
    let (r, g, b, a) = unpack(pixel);
    if place == 0 {
        b
    } else if place == 1 {
        g
    } else if place == 2 {
        r
    } else {
        a
    }
}

/// The header that is written for `image`: no image id, no colour map,
/// uncompressed true colour, 32 bits per pixel.
pub open spec fn header_bytes(image: ImageModel) -> Seq<u8> {
    seq![
        0u8,
        0u8,
        UNCOMPRESSED,
        0u8,
        0u8,
        0u8,
        0u8,
        0u8,
        (image.x_origin % 0x100) as u8,
        (image.x_origin / 0x100) as u8,
        (image.y_origin % 0x100) as u8,
        (image.y_origin / 0x100) as u8,
        (image.width % 0x100) as u8,
        (image.width / 0x100) as u8,
        (image.height % 0x100) as u8,
        (image.height / 0x100) as u8,
        32u8,
        IMAGE_DESCRIPTOR,
    ]
}

/// The pixels as they are written: four bytes each, one pixel after the other.
pub open spec fn pixel_bytes(pixels: Seq<u32>) -> Seq<u8> {
    Seq::new(4 * pixels.len(), |i: int| stored_byte(pixels[i / 4], i % 4))
}

/// The footer of every file: no extension area, no developer directory, and
/// the signature `TRUEVISION-XFILE.` with a zero byte after it.
pub open spec fn footer_bytes() -> Seq<u8> {
    seq![
        0u8,
        0u8,
        0u8,
        0u8,
        0u8,
        0u8,
        0u8,
        0u8,
        0x54u8,
        0x52u8,
        0x55u8,
        0x45u8,
        0x56u8,
        0x49u8,
        0x53u8,
        0x49u8,
        0x4fu8,
        0x4eu8,
        0x2du8,
        0x58u8,
        0x46u8,
        0x49u8,
        0x4cu8,
        0x45u8,
        0x2eu8,
        0u8,
    ]
}

/// The bytes of the file that holds `image`.
pub open spec fn encode(image: ImageModel) -> Seq<u8> {
    header_bytes(image) + pixel_bytes(image.pixels) + footer_bytes()
}

/// The header of the file that was written for an image holds the origin and
/// the size of the image.
proof fn lemma_header_of_encoded(image: ImageModel)
    ensures
        decode_header(encode(image)) == Ok::<HeaderModel, ParsingFailure>(
            HeaderModel {
                image_type: UNCOMPRESSED,
                x_origin: image.x_origin,
                y_origin: image.y_origin,
                width: image.width,
                height: image.height,
                bits_per_pixel: 32,
                image_descriptor: IMAGE_DESCRIPTOR,
            },
        ),
{
    let bytes = encode(image);
    let header = header_bytes(image);
    let start = CursorModel { bytes, offset: 0 };
    assert(header.len() == 18);
    assert(bytes.len() >= 18);
    assert forall|i: int| 0 <= i < 18 implies bytes[i] == header[i] by {}
    assert(start.next(1) =~= seq![0u8]);
    assert(start.at(1).next(1) =~= seq![0u8]);
    assert(start.at(3).next(5) =~= no_color_map());
    assert(start.starts_with(seq![0u8]));
    assert(start.at(1).starts_with(seq![0u8]));
    assert(start.at(3).starts_with(no_color_map()));
    assert(bytes[2] == UNCOMPRESSED);
    assert(le16(bytes[8], bytes[9]) == image.x_origin);
    assert(le16(bytes[10], bytes[11]) == image.y_origin);
    assert(le16(bytes[12], bytes[13]) == image.width);
    assert(le16(bytes[14], bytes[15]) == image.height);
    assert(bytes[16] == 32);
    assert(bytes[17] == IMAGE_DESCRIPTOR);
}

/// The pixels stored in the file that was written for an image are the
/// pixels of the image.
proof fn lemma_pixels_of_encoded(image: ImageModel)
    ensures
        pixels_at(encode(image), 18, 4, image.pixels.len() as int) == image.pixels,
{
    let bytes = encode(image);
    let count = image.pixels.len() as int;
    let stored = pixel_bytes(image.pixels);
    let decoded = pixels_at(bytes, 18, 4, count);
    assert(header_bytes(image).len() == 18);
    assert(stored.len() == 4 * count);
    assert forall|i: int| 0 <= i < count implies #[trigger] decoded[i] == image.pixels[i] by {
        let pixel = image.pixels[i];
        lemma_pack_unpack(pixel);
        assert(bytes[18 + i * 4] == stored[i * 4]);
        assert(bytes[18 + i * 4 + 1] == stored[i * 4 + 1]);
        assert(bytes[18 + i * 4 + 2] == stored[i * 4 + 2]);
        assert(bytes[18 + i * 4 + 3] == stored[i * 4 + 3]);
        assert(stored[i * 4] == stored_byte(pixel, 0));
        assert(stored[i * 4 + 1] == stored_byte(pixel, 1));
        assert(stored[i * 4 + 2] == stored_byte(pixel, 2));
        assert(stored[i * 4 + 3] == stored_byte(pixel, 3));
        assert(decoded[i] == pixel_at(bytes, 18 + i * 4, 4));
    }
    assert(decoded =~= image.pixels);
}

/// Decoding the file that was written for an image gives the image back:
/// the same size, the same origin and the same pixels.
pub proof fn lemma_decode_encode(image: ImageModel)
    requires
        image.wf(),
    ensures
        decode(encode(image)) == Ok::<ImageModel, ParsingFailure>(image),
{
    let bytes = encode(image);
    let count = image.pixels.len() as int;
    lemma_header_of_encoded(image);
    lemma_pixels_of_encoded(image);
    let data = CursorModel { bytes, offset: 18 };
    assert(bytes.len() == 18 + 4 * count + 26);
    assert(count == image.width * image.height);
    assert(32u8 as int / 8 == 4);
    assert(count * 4 == 4 * count);
    assert(data.has(count * 4));
    assert(decode_pixels(data, 32, UNCOMPRESSED, count) == Ok::<Seq<u32>, ParsingFailure>(
        image.pixels,
    ));
}

/// `bytes` are rejected with an error of the kind `kind`.
pub open spec fn rejected_as(bytes: Seq<u8>, kind: ParsingErrorKind) -> bool {
    decode(bytes) matches Err(failure) && failure.kind() == kind
}

/// The fields of a header that must be zero are zero.
pub open spec fn zero_fields_are_zero(bytes: Seq<u8>) -> bool {
    bytes[0] == 0 && bytes[1] == 0 && forall|i: int| 3 <= i < 8 ==> bytes[i] == 0
}

/// A file is rejected for an unexpected value when its id length, its colour
/// map type or a byte of its colour map specification is not zero. A file
/// with those fields in order and a whole header is rejected as unsupported
/// when its image type is neither uncompressed nor run-length encoded true
/// colour, or when its pixels have neither 24 nor 32 bits.
pub proof fn lemma_decode_rejects(bytes: Seq<u8>)
    ensures
        bytes.len() >= 1 && bytes[0] != 0 ==> rejected_as(bytes, ParsingErrorKind::UnexpectedValue),
        bytes.len() >= 2 && bytes[1] != 0 ==> rejected_as(bytes, ParsingErrorKind::UnexpectedValue),
        bytes.len() >= 8 && (exists|i: int| 3 <= i < 8 && bytes[i] != 0) ==> rejected_as(
            bytes,
            ParsingErrorKind::UnexpectedValue,
        ),
        bytes.len() >= 18 && zero_fields_are_zero(bytes) && bytes[2] != UNCOMPRESSED && bytes[2]
            != RUN_LENGTH_ENCODED ==> rejected_as(bytes, ParsingErrorKind::UnsupportedFormat),
        bytes.len() >= 18 && zero_fields_are_zero(bytes) && !supported_depth(bytes[16])
            ==> rejected_as(bytes, ParsingErrorKind::UnsupportedFormat),
{
    let start = CursorModel { bytes, offset: 0 };
    if bytes.len() >= 1 {
        assert(start.next(1)[0] == bytes[0]);
    }
    if bytes.len() >= 2 {
        assert(start.at(1).next(1)[0] == bytes[1]);
    }
    if bytes.len() >= 8 {
        if exists|i: int| 3 <= i < 8 && bytes[i] != 0 {
            let i = choose|i: int| 3 <= i < 8 && bytes[i] != 0;
            assert(start.at(3).next(5)[i - 3] == bytes[i]);
            assert(no_color_map()[i - 3] == 0);
        }
    }
    if bytes.len() >= 18 && zero_fields_are_zero(bytes) {
        assert(start.next(1) =~= seq![0u8]);
        assert(start.at(1).next(1) =~= seq![0u8]);
        assert(start.at(3).next(5) =~= no_color_map());
    }
}

/// Packets that decode give as many pixels as were asked for.
pub proof fn lemma_packets_length(cursor: CursorModel, bytes_per_pixel: int, remaining: int)
    requires
        remaining >= 0,
    ensures
        decode_packets(cursor, bytes_per_pixel, remaining) matches Ok(pixels) ==> pixels.len()
            == remaining,
    decreases remaining,
{
    if remaining > 0 && cursor.has(1) {
        let header = cursor.bytes[cursor.offset];
        let count = packet_count(header);
        let data = cursor.at(cursor.offset + 1);
        if count <= remaining {
            if packet_is_run(header) {
                lemma_packets_length(
                    data.at(data.offset + bytes_per_pixel),
                    bytes_per_pixel,
                    remaining - count,
                );
            } else {
                lemma_packets_length(
                    data.at(data.offset + count * bytes_per_pixel),
                    bytes_per_pixel,
                    remaining - count,
                );
            }
        }
    }
}

/// An image that decodes has one pixel for each coordinate.
pub proof fn lemma_decoded_is_well_formed(bytes: Seq<u8>)
    ensures
        decode(bytes) matches Ok(image) ==> image.wf(),
{
    if let Ok(header) = decode_header(bytes) {
        let count = header.width * header.height;
        assert(count >= 0) by (nonlinear_arith)
            requires
                count == header.width * header.height,
        ;
        lemma_packets_length(
            CursorModel { bytes, offset: HEADER_LENGTH as int },
            header.bits_per_pixel as int / 8,
            count,
        );
    }
}

/// A run packet for `n` pixels decodes to `n` copies of the one pixel stored
/// in it, followed by what the packets after it decode to. Where the packet
/// completes the image, the result is exactly those copies, and the image
/// data ends behind the header and the one pixel of the packet.
pub proof fn lemma_run_packet(cursor: CursorModel, bytes_per_pixel: int, remaining: int)
    requires
        cursor.wf(),
        bytes_per_pixel == 3 || bytes_per_pixel == 4,
        cursor.has(1 + bytes_per_pixel),
        packet_is_run(cursor.bytes[cursor.offset]),
        packet_count(cursor.bytes[cursor.offset]) <= remaining,
    ensures
        decode_packets(cursor, bytes_per_pixel, remaining) == after(
            repeated(
                pixel_at(cursor.bytes, cursor.offset + 1, bytes_per_pixel),
                packet_count(cursor.bytes[cursor.offset]),
            ),
            decode_packets(
                cursor.at(cursor.offset + 1 + bytes_per_pixel),
                bytes_per_pixel,
                remaining - packet_count(cursor.bytes[cursor.offset]),
            ),
        ),
        remaining == packet_count(cursor.bytes[cursor.offset]) ==> decode_packets(
            cursor,
            bytes_per_pixel,
            remaining,
        ) == Ok::<Seq<u32>, ParsingFailure>(
            repeated(pixel_at(cursor.bytes, cursor.offset + 1, bytes_per_pixel), remaining),
        ),
        packets_end(cursor, bytes_per_pixel, remaining) == packets_end(
            cursor.at(cursor.offset + 1 + bytes_per_pixel),
            bytes_per_pixel,
            remaining - packet_count(cursor.bytes[cursor.offset]),
        ),
        remaining == packet_count(cursor.bytes[cursor.offset]) ==> packets_end(
            cursor,
            bytes_per_pixel,
            remaining,
        ) == cursor.offset + 1 + bytes_per_pixel,
{
    let pixels = repeated(
        pixel_at(cursor.bytes, cursor.offset + 1, bytes_per_pixel),
        packet_count(cursor.bytes[cursor.offset]),
    );
    assert(pixels + Seq::<u32>::empty() =~= pixels);
}

/// A raw packet for `n` pixels decodes to the `n` pixels stored in it, in
/// their order, followed by what the packets after it decode to. Where the
/// packet completes the image, the result is exactly those pixels, and the
/// image data ends behind the header and the `n` pixels of the packet.
pub proof fn lemma_raw_packet(cursor: CursorModel, bytes_per_pixel: int, remaining: int)
    requires
        cursor.wf(),
        bytes_per_pixel == 3 || bytes_per_pixel == 4,
        cursor.has(1),
        !packet_is_run(cursor.bytes[cursor.offset]),
        cursor.has(1 + packet_count(cursor.bytes[cursor.offset]) * bytes_per_pixel),
        packet_count(cursor.bytes[cursor.offset]) <= remaining,
    ensures
        decode_packets(cursor, bytes_per_pixel, remaining) == after(
            pixels_at(
                cursor.bytes,
                cursor.offset + 1,
                bytes_per_pixel,
                packet_count(cursor.bytes[cursor.offset]),
            ),
            decode_packets(
                cursor.at(
                    cursor.offset + 1 + packet_count(cursor.bytes[cursor.offset]) * bytes_per_pixel,
                ),
                bytes_per_pixel,
                remaining - packet_count(cursor.bytes[cursor.offset]),
            ),
        ),
        remaining == packet_count(cursor.bytes[cursor.offset]) ==> decode_packets(
            cursor,
            bytes_per_pixel,
            remaining,
        ) == Ok::<Seq<u32>, ParsingFailure>(
            pixels_at(cursor.bytes, cursor.offset + 1, bytes_per_pixel, remaining),
        ),
        packets_end(cursor, bytes_per_pixel, remaining) == packets_end(
            cursor.at(
                cursor.offset + 1 + packet_count(cursor.bytes[cursor.offset]) * bytes_per_pixel,
            ),
            bytes_per_pixel,
            remaining - packet_count(cursor.bytes[cursor.offset]),
        ),
        remaining == packet_count(cursor.bytes[cursor.offset]) ==> packets_end(
            cursor,
            bytes_per_pixel,
            remaining,
        ) == cursor.offset + 1 + remaining * bytes_per_pixel,
{
    let count = packet_count(cursor.bytes[cursor.offset]);
    let pixels = pixels_at(cursor.bytes, cursor.offset + 1, bytes_per_pixel, count);
    assert(pixels + Seq::<u32>::empty() =~= pixels);
    let data = cursor.at(cursor.offset + 1);
    let behind = data.at(data.offset + count * bytes_per_pixel);
    assert(data.has(count * bytes_per_pixel));
    assert(packets_end(cursor, bytes_per_pixel, remaining) == packets_end(
        behind,
        bytes_per_pixel,
        remaining - count,
    ));
    if remaining == count {
        assert(packets_end(behind, bytes_per_pixel, 0) == behind.offset);
    }
}

} // verus!
