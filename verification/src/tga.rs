//! TGA images: the pixel buffer, bounds-checked pixel access, and the codec
//! between an image and the bytes of an uncompressed or run-length encoded
//! true-colour file. What the codec computes is stated in `tga_format`.

use vstd::prelude::*;
use vstd::string::StringExecFns;
use crate::bytereader::{ByteReader, ByteReaderError, CursorModel, OutOfBoundsError};
use crate::color::Color32;
use crate::grid::{
    cell_index,
    coordinate_error,
    invalid_coordinate_text,
    lemma_cell_in_range,
    lemma_cell_injective,
};
pub use crate::tga_format::ParsingErrorKind;
use crate::tga_format::{
    accept_failure,
    after,
    decode,
    decode_header,
    decode_packets,
    decode_pixels,
    packets_end,
    pixels_end,
    encode,
    exhausted,
    footer_bytes,
    header_bytes,
    le16,
    no_color_map,
    pixel_bytes,
    pixels_at,
    read_failure,
    repeated,
    unsupported,
    HeaderModel,
    ParsingFailure,
    IMAGE_DESCRIPTOR,
    RUN_LENGTH_ENCODED,
    UNCOMPRESSED,
};

verus! {

/// The packed value of opaque black, with which a new image is filled.
pub const OPAQUE_BLACK: u32 = 0x0000_00FF;

/// What an image is: where it sits, how large it is, and its pixels row by row.
pub struct ImageModel {
    pub x_origin: u16,
    pub y_origin: u16,
    pub width: u16,
    pub height: u16,
    pub pixels: Seq<u32>,
}

impl ImageModel {
    /// There is one pixel for each coordinate.
    pub open spec fn wf(self) -> bool {
        self.pixels.len() == self.width * self.height
    }

    pub open spec fn contains(self, x: int, y: int) -> bool {
        0 <= x < self.width && 0 <= y < self.height
    }

    /// The place of pixel `(x, y)` in the row-by-row sequence.
    pub open spec fn index(self, x: int, y: int) -> int {
        cell_index(self.width as int, x, y)
    }

    pub open spec fn pixel(self, x: int, y: int) -> u32 {
        self.pixels[self.index(x, y)]
    }

    pub open spec fn with_pixel(self, x: int, y: int, value: u32) -> ImageModel {
        ImageModel { pixels: self.pixels.update(self.index(x, y), value), ..self }
    }

    /// The image of the given size at the origin, every pixel opaque black.
    pub open spec fn blank(width: u16, height: u16) -> ImageModel {
        ImageModel {
            x_origin: 0,
            y_origin: 0,
            width,
            height,
            pixels: Seq::new((width * height) as nat, |i: int| OPAQUE_BLACK),
        }
    }
}

/// A coordinate inside the image has a place in the pixel sequence.
pub proof fn lemma_index_in_range(image: ImageModel, x: int, y: int)
    requires
        image.wf(),
        image.contains(x, y),
    ensures
        0 <= image.index(x, y) < image.pixels.len(),
        image.index(x, y) <= 0xffff * 0xffff,
{
    lemma_cell_in_range(image.width as int, image.height as int, x, y);
}

/// Two coordinates inside the image that share a place are the same coordinate.
pub proof fn lemma_index_injective(image: ImageModel, x1: int, y1: int, x2: int, y2: int)
    requires
        image.contains(x1, y1),
        image.contains(x2, y2),
        image.index(x1, y1) == image.index(x2, y2),
    ensures
        x1 == x2,
        y1 == y2,
{
    lemma_cell_injective(image.width as int, x1, y1, x2, y2);
}

/// Reading a pixel that was just written gives the value written, and every
/// other pixel of the image keeps its value.
pub proof fn lemma_pixel_after_write(image: ImageModel, x: int, y: int, value: u32)
    requires
        image.wf(),
        image.contains(x, y),
    ensures
        image.with_pixel(x, y, value).wf(),
        image.with_pixel(x, y, value).pixel(x, y) == value,
        forall|x2: int, y2: int|
            image.contains(x2, y2) && (x2 != x || y2 != y) ==> #[trigger] image.with_pixel(
                x,
                y,
                value,
            ).pixel(x2, y2) == image.pixel(x2, y2),
{
    lemma_index_in_range(image, x, y);
    assert forall|x2: int, y2: int| image.contains(x2, y2) && (x2 != x || y2 != y) implies #[trigger]
        image.with_pixel(x, y, value).pixel(x2, y2) == image.pixel(x2, y2) by {
        lemma_index_in_range(image, x2, y2);
        if image.index(x2, y2) == image.index(x, y) {
            lemma_index_injective(image, x, y, x2, y2);
        }
    }
}

/// `after` has the origin and the size of `before`, and a pixel for each coordinate.
pub open spec fn same_frame(before: ImageModel, after: ImageModel) -> bool {
    &&& after.x_origin == before.x_origin
    &&& after.y_origin == before.y_origin
    &&& after.width == before.width
    &&& after.height == before.height
    &&& after.wf()
}

/// An image held in memory: a header and one packed colour for each pixel.
#[derive(Debug)]
pub struct TGAFile {
    x_origin: u16,
    y_origin: u16,
    image_width: u16,
    image_height: u16,
    image_data: Vec<u32>,
}

impl View for TGAFile {
    type V = ImageModel;

    closed spec fn view(&self) -> ImageModel {
        ImageModel {
            x_origin: self.x_origin,
            y_origin: self.y_origin,
            width: self.image_width,
            height: self.image_height,
            pixels: self.image_data@,
        }
    }
}

impl TGAFile {
    #[verifier::type_invariant]
    spec fn well_formed(&self) -> bool {
        self.image_data@.len() == self.image_width * self.image_height
    }

    /// A new image of the given size, every pixel opaque black.
    pub fn new(width: u16, height: u16) -> (image: TGAFile)
        ensures
            image@ == ImageModel::blank(width, height),
            image@.wf(),
    {
        assert(width * height <= 0xffff * 0xffff) by (nonlinear_arith)
            requires
                width <= 0xffff,
                height <= 0xffff,
        ;
        let count: usize = width as usize * height as usize;
        let image_data: Vec<u32> = vec![OPAQUE_BLACK; count];
        assert(image_data@ =~= ImageModel::blank(width, height).pixels);
        TGAFile { x_origin: 0, y_origin: 0, image_width: width, image_height: height, image_data }
    }

    pub fn get_width(&self) -> (width: u16)
        ensures
            width == self@.width,
            self@.wf(),
    {
        proof {
            use_type_invariant(self);
        }
        self.image_width
    }

    pub fn get_height(&self) -> (height: u16)
        ensures
            height == self@.height,
            self@.wf(),
    {
        proof {
            use_type_invariant(self);
        }
        self.image_height
    }

    /// The colour of the pixel at `(x, y)`, or an error for a coordinate
    /// outside the image.
    pub fn get(&self, x: u16, y: u16) -> (result: Result<Color32, String>)
        ensures
            self@.wf(),
            match result {
                Ok(color) => self@.contains(x as int, y as int) && color == Color32::unpacked(
                    self@.pixel(x as int, y as int),
                ),
                Err(message) => !self@.contains(x as int, y as int) && message@
                    == invalid_coordinate_text(self@.width, x, y),
            },
    {
        proof {
            use_type_invariant(self);
        }
        if x >= self.image_width || y >= self.image_height {
            return Err(coordinate_error(self.image_width, self.image_height, x, y));
        }
        proof {
            lemma_index_in_range(self@, x as int, y as int);
        }
        let index: usize = y as usize * self.image_width as usize + x as usize;
        Ok(Color32::from_pixel_value(self.image_data[index]))
    }

    /// Gives the pixel at `(x, y)` the colour `color`, or returns an error and
    /// leaves the image as it was for a coordinate outside the image.
    pub fn set(&mut self, x: u16, y: u16, color: &Color32) -> (result: Result<(), String>)
        ensures
            old(self)@.wf(),
            final(self)@.wf(),
            match result {
                Ok(()) => old(self)@.contains(x as int, y as int) && final(self)@ == old(
                    self,
                )@.with_pixel(x as int, y as int, color.packed()),
                Err(message) => !old(self)@.contains(x as int, y as int) && final(self)@ == old(
                    self,
                )@ && message@ == invalid_coordinate_text(old(self)@.width, x, y),
            },
    {
        proof {
            use_type_invariant(&*self);
        }
        if x >= self.image_width || y >= self.image_height {
            return Err(coordinate_error(self.image_width, self.image_height, x, y));
        }
        proof {
            lemma_index_in_range(self@, x as int, y as int);
        }
        let index: usize = y as usize * self.image_width as usize + x as usize;
        let value: u32 = color.get_pixel_value();
        self.image_data[index] = value;
        Ok(())
    }
}

/// An error of decoding a file.
#[derive(Debug)]
pub struct TGAFileParsingError {
    inner: Option<ByteReaderError>,
    msg: String,
}

impl View for TGAFileParsingError {
    type V = ParsingFailure;

    closed spec fn view(&self) -> ParsingFailure {
        ParsingFailure {
            cause: match self.inner {
                Some(error) => Some(error@),
                None => None,
            },
            message: self.msg@,
        }
    }
}

impl TGAFileParsingError {
    /// An error without a cursor error behind it.
    pub fn new(msg: &str) -> (error: Self)
        ensures
            error@ == unsupported(msg@),
    {
        TGAFileParsingError { msg: msg.to_owned(), inner: None }
    }

    /// An error with the cursor error `err` behind it.
    pub fn with(msg: &str, err: ByteReaderError) -> (error: Self)
        ensures
            error@ == (ParsingFailure { cause: Some(err@), message: msg@ }),
    {
        TGAFileParsingError { msg: msg.to_owned(), inner: Some(err) }
    }

    /// The error in words.
    pub fn message(&self) -> (text: String)
        ensures
            text@ == "FileParsingError: "@ + self@.message + "."@,
    {
        let mut text = String::from_str("FileParsingError: ");
        text.append(self.msg.as_str());
        text.append(".");
        text
    }

    /// The cursor error behind this error, if there is one.
    pub fn source(&self) -> (cause: Option<&ByteReaderError>)
        ensures
            match cause {
                Some(error) => self@.cause == Some(error@),
                None => self@.cause is None,
            },
    {
        self.inner.as_ref()
    }

    pub fn kind(&self) -> (kind: ParsingErrorKind)
        ensures
            kind == self@.kind(),
    {
        match &self.inner {
            Some(ByteReaderError::OutOfBounds(_)) => ParsingErrorKind::OutOfBounds,
            Some(ByteReaderError::UnexpectedValue(_)) => ParsingErrorKind::UnexpectedValue,
            None => ParsingErrorKind::UnsupportedFormat,
        }
    }
}

/// The pixels stored in all of `bytes`, which hold `count` pixels of
/// `bytes_per_pixel` bytes each.
fn pixels_from_bytes(bytes: &[u8], bytes_per_pixel: usize, count: usize) -> (pixels: Vec<u32>)
    requires
        bytes_per_pixel == 3 || bytes_per_pixel == 4,
        bytes@.len() == count * bytes_per_pixel,
    ensures
        pixels@ == pixels_at(bytes@, 0, bytes_per_pixel as int, count as int),
{
    let mut pixels: Vec<u32> = Vec::new();
    let mut i: usize = 0;
    let mut position: usize = 0;
    while i < count
        invariant
            bytes_per_pixel == 3 || bytes_per_pixel == 4,
            bytes@.len() == count * bytes_per_pixel,
            i <= count,
            position == i * bytes_per_pixel,
            pixels@ == pixels_at(bytes@, 0, bytes_per_pixel as int, i as int),
        decreases count - i,
    {
        assert(position + bytes_per_pixel <= bytes@.len()) by (nonlinear_arith)
            requires
                position == i * bytes_per_pixel,
                i < count,
                bytes@.len() == count * bytes_per_pixel,
        ;
        let blue: u8 = bytes[position];
        let green: u8 = bytes[position + 1];
        let red: u8 = bytes[position + 2];
        let alpha: u8 = if bytes_per_pixel == 4 {
            bytes[position + 3]
        } else {
            255
        };
        pixels.push(Color32::new(red, green, blue, alpha).get_pixel_value());
        assert(pixels@ =~= pixels_at(bytes@, 0, bytes_per_pixel as int, i + 1));
        assert((i + 1) * bytes_per_pixel == position + bytes_per_pixel) by (nonlinear_arith)
            requires
                position == i * bytes_per_pixel,
        ;
        i += 1;
        position += bytes_per_pixel;
    }
    pixels
}

/// The pixels stored in a part of a source are the pixels stored at that
/// place in the source.
proof fn lemma_pixels_of_part(bytes: Seq<u8>, position: int, bytes_per_pixel: int, count: int)
    requires
        bytes_per_pixel == 3 || bytes_per_pixel == 4,
        0 <= position,
        0 <= count,
        position + count * bytes_per_pixel <= bytes.len(),
    ensures
        pixels_at(
            bytes.subrange(position, position + count * bytes_per_pixel),
            0,
            bytes_per_pixel,
            count,
        ) == pixels_at(bytes, position, bytes_per_pixel, count),
{
    let part = bytes.subrange(position, position + count * bytes_per_pixel);
    let of_part = pixels_at(part, 0, bytes_per_pixel, count);
    let of_whole = pixels_at(bytes, position, bytes_per_pixel, count);
    assert forall|i: int| 0 <= i < count implies #[trigger] of_part[i] == of_whole[i] by {
        assert(0 <= i * bytes_per_pixel && i * bytes_per_pixel + bytes_per_pixel <= count
            * bytes_per_pixel) by (nonlinear_arith)
            requires
                0 <= i < count,
                bytes_per_pixel > 0,
        ;
    }
    assert(of_part =~= of_whole);
}

/// Decoding after two runs of pixels is decoding after the two joined.
proof fn lemma_after_after(first: Seq<u32>, second: Seq<u32>, rest: Result<Seq<u32>, ParsingFailure>)
    ensures
        after(first, after(second, rest)) == after(first + second, rest),
{
    match rest {
        Ok(pixels) => {
            assert(first + (second + pixels) =~= (first + second) + pixels);
        },
        Err(_) => {},
    }
}

/// A decoder of one file: a cursor over its bytes.
pub struct TGAFileParser<'a> {
    inner: ByteReader<'a>,
}

impl<'a> View for TGAFileParser<'a> {
    type V = CursorModel;

    closed spec fn view(&self) -> CursorModel {
        self.inner@
    }
}

impl<'a> TGAFileParser<'a> {
    /// Decodes the file held in `bytes`. Pixels come out as packed colours;
    /// a pixel stored in 24 bits is opaque.
    pub fn parse(bytes: &'a [u8]) -> (result: Result<TGAFile, TGAFileParsingError>)
        ensures
            match result {
                Ok(image) => decode(bytes@) == Ok::<ImageModel, ParsingFailure>(image@) && image@.wf(),
                Err(error) => decode(bytes@) == Err::<ImageModel, ParsingFailure>(error@),
            },
    {
        let mut parser = TGAFileParser { inner: ByteReader::new(bytes) };
        match parser.accept_byte(0, "Id lengths other than 0 are not supported") {
            Ok(()) => {},
            Err(error) => {
                return Err(error);
            },
        }
        match parser.accept_byte(0, "TGA Images with color maps are not supported") {
            Ok(()) => {},
            Err(error) => {
                return Err(error);
            },
        }
        let image_type: u8 = match parser.read_u8("Could not read the image type") {
            Ok(value) => value,
            Err(error) => {
                return Err(error);
            },
        };
        let zeros: Vec<u8> = vec![0u8, 0u8, 0u8, 0u8, 0u8];
        assert(zeros@ =~= no_color_map());
        match parser.accept_bytes(
            zeros.as_slice(),
            "Color map is not supported. Please set all color map scecification bytes to zero",
        ) {
            Ok(()) => {},
            Err(error) => {
                return Err(error);
            },
        }
        let x_origin: u16 = match parser.read_u16("Could not read x-origin") {
            Ok(value) => value,
            Err(error) => {
                return Err(error);
            },
        };
        let y_origin: u16 = match parser.read_u16("Could not read y-origin") {
            Ok(value) => value,
            Err(error) => {
                return Err(error);
            },
        };
        let image_width: u16 = match parser.read_u16("Could not read the image width") {
            Ok(value) => value,
            Err(error) => {
                return Err(error);
            },
        };
        let image_height: u16 = match parser.read_u16("Could not read the image height") {
            Ok(value) => value,
            Err(error) => {
                return Err(error);
            },
        };
        let pixel_depth: u8 = match parser.read_u8("Could not read the pixel depth") {
            Ok(value) => value,
            Err(error) => {
                return Err(error);
            },
        };
        let image_descriptor: u8 = match parser.read_u8("Could not read the image descriptor") {
            Ok(value) => value,
            Err(error) => {
                return Err(error);
            },
        };
        assert(image_width * image_height <= 0xffff * 0xffff) by (nonlinear_arith)
            requires
                image_width <= 0xffff,
                image_height <= 0xffff,
        ;
        let pixel_count: usize = image_width as usize * image_height as usize;
        assert(decode_header(bytes@) == Ok::<HeaderModel, ParsingFailure>(
            HeaderModel {
                image_type,
                x_origin,
                y_origin,
                width: image_width,
                height: image_height,
                bits_per_pixel: pixel_depth,
                image_descriptor,
            },
        ));
        match parser.read_pixel_data(pixel_depth, image_type, pixel_count) {
            Ok(image_data) => Ok(
                TGAFile { x_origin, y_origin, image_width, image_height, image_data },
            ),
            Err(error) => Err(error),
        }
    }

    /// Moves past one byte that must be `expected_byte`.
    fn accept_byte(&mut self, expected_byte: u8, error_msg: &str) -> (result: Result<
        (),
        TGAFileParsingError,
    >)
        ensures
            old(self)@.wf(),
            final(self)@.wf(),
            match result {
                Ok(()) => old(self)@.starts_with(seq![expected_byte]) && final(self)@ == old(
                    self,
                )@.at(old(self)@.offset + 1),
                Err(error) => !old(self)@.starts_with(seq![expected_byte]) && final(self)@ == old(
                    self,
                )@ && error@ == accept_failure(old(self)@, seq![expected_byte], error_msg@),
            },
    {
        let expected: Vec<u8> = vec![expected_byte];
        assert(expected@ =~= seq![expected_byte]);
        self.accept_bytes(expected.as_slice(), error_msg)
    }

    /// Moves past bytes that must be `expected_bytes`.
    fn accept_bytes(&mut self, expected_bytes: &[u8], error_msg: &str) -> (result: Result<
        (),
        TGAFileParsingError,
    >)
        ensures
            old(self)@.wf(),
            final(self)@.wf(),
            match result {
                Ok(()) => old(self)@.starts_with(expected_bytes@) && final(self)@ == old(self)@.at(
                    old(self)@.offset + expected_bytes@.len(),
                ),
                Err(error) => !old(self)@.starts_with(expected_bytes@) && final(self)@ == old(
                    self,
                )@ && error@ == accept_failure(old(self)@, expected_bytes@, error_msg@),
            },
    {
        match self.inner.accept(expected_bytes) {
            Ok(()) => Ok(()),
            Err(error) => Err(TGAFileParsingError::with(error_msg, error)),
        }
    }

    /// Reads one byte.
    fn read_u8(&mut self, error_msg: &str) -> (result: Result<u8, TGAFileParsingError>)
        ensures
            old(self)@.wf(),
            final(self)@.wf(),
            match result {
                Ok(value) => old(self)@.has(1) && value == old(self)@.bytes[old(self)@.offset]
                    && final(self)@ == old(self)@.at(old(self)@.offset + 1),
                Err(error) => !old(self)@.has(1) && final(self)@ == old(self)@ && error@
                    == read_failure(old(self)@, 1, error_msg@),
            },
    {
        match self.inner.read(1) {
            Ok(bytes) => Ok(bytes[0]),
            Err(error) => Err(TGAFileParsingError::with(error_msg, error)),
        }
    }

    /// Reads a number of two bytes, low byte first.
    fn read_u16(&mut self, error_msg: &str) -> (result: Result<u16, TGAFileParsingError>)
        requires
            old(self)@.wf(),
        ensures
            old(self)@.wf(),
            final(self)@.wf(),
            final(self)@.bytes == old(self)@.bytes,
            match result {
                Ok(value) => old(self)@.has(2) && value == le16(
                    old(self)@.bytes[old(self)@.offset],
                    old(self)@.bytes[old(self)@.offset + 1],
                ) && final(self)@ == old(self)@.at(old(self)@.offset + 2),
                Err(error) => !old(self)@.has(2) && error@ == exhausted(old(self)@, error_msg@),
            },
    {
        let low: u8 = match self.read_u8(error_msg) {
            Ok(value) => value,
            Err(error) => {
                return Err(error);
            },
        };
        let high: u8 = match self.read_u8(error_msg) {
            Ok(value) => value,
            Err(error) => {
                return Err(error);
            },
        };
        let value: u16 = (low as u16) | ((high as u16) << 8);
        assert(value == low + 0x100 * high) by (bit_vector)
            requires
                value == (low as u16) | ((high as u16) << 8),
        ;
        Ok(value)
    }

    /// Reads `count` bytes.
    fn read_bytes(&mut self, count: usize, error_msg: &str) -> (result: Result<
        &'a [u8],
        TGAFileParsingError,
    >)
        ensures
            old(self)@.wf(),
            final(self)@.wf(),
            match result {
                Ok(bytes) => old(self)@.has(count as int) && bytes@ == old(self)@.next(count as int)
                    && final(self)@ == old(self)@.at(old(self)@.offset + count),
                Err(error) => !old(self)@.has(count as int) && final(self)@ == old(self)@
                    && error@ == read_failure(old(self)@, count as int, error_msg@),
            },
    {
        match self.inner.read(count) {
            Ok(bytes) => Ok(bytes),
            Err(error) => Err(TGAFileParsingError::with(error_msg, error)),
        }
    }

    /// Reads the pixels of an image of the given type and leaves the cursor
    /// behind the image data.
    fn read_pixel_data(&mut self, pixel_depth: u8, image_type: u8, pixel_count: usize) -> (result:
        Result<Vec<u32>, TGAFileParsingError>)
        ensures
            old(self)@.wf(),
            final(self)@.wf(),
            final(self)@.bytes == old(self)@.bytes,
            match result {
                Ok(pixels) => decode_pixels(old(self)@, pixel_depth, image_type, pixel_count as int)
                    == Ok::<Seq<u32>, ParsingFailure>(pixels@) && pixels@.len() == pixel_count
                    && final(self)@ == old(self)@.at(
                    pixels_end(old(self)@, pixel_depth, image_type, pixel_count as int),
                ),
                Err(error) => decode_pixels(old(self)@, pixel_depth, image_type, pixel_count as int)
                    == Err::<Seq<u32>, ParsingFailure>(error@),
            },
    {
        let behind: usize = self.inner.offset();
        if image_type == UNCOMPRESSED {
            self.read_uncompressed_data(pixel_depth, pixel_count)
        } else if image_type == RUN_LENGTH_ENCODED {
            self.read_compressed_data(pixel_depth, pixel_count)
        } else {
            Err(
                TGAFileParsingError::new(
                    "Only compressed and uncompressed True-color images are suppored",
                ),
            )
        }
    }

    /// Reads pixels that are stored one after the other and leaves the cursor
    /// behind the last of them. On an error the cursor stays where it was.
    fn read_uncompressed_data(&mut self, pixel_depth: u8, pixel_count: usize) -> (result: Result<
        Vec<u32>,
        TGAFileParsingError,
    >)
        ensures
            old(self)@.wf(),
            final(self)@.wf(),
            match result {
                Ok(pixels) => decode_pixels(old(self)@, pixel_depth, UNCOMPRESSED, pixel_count as int)
                    == Ok::<Seq<u32>, ParsingFailure>(pixels@) && pixels@.len() == pixel_count
                    && final(self)@ == old(self)@.at(
                    old(self)@.offset + pixel_count * (pixel_depth as int / 8),
                ),
                Err(error) => decode_pixels(old(self)@, pixel_depth, UNCOMPRESSED, pixel_count as int)
                    == Err::<Seq<u32>, ParsingFailure>(error@) && final(self)@ == old(self)@,
            },
    {
        let length: usize = self.inner.len();
        if pixel_depth != 24 && pixel_depth != 32 {
            return Err(TGAFileParsingError::new("Only 24-bit and 32-bit pixels are supported"));
        }
        let bytes_per_pixel: usize = pixel_depth as usize / 8;
        let ghost start = self@;
        let byte_count: usize = match pixel_count.checked_mul(bytes_per_pixel) {
            Some(byte_count) => byte_count,
            None => {
                return Err(
                    TGAFileParsingError::with(
                        "Could not read uncompressed pixel data",
                        ByteReaderError::OutOfBounds(OutOfBoundsError::new(length, usize::MAX)),
                    ),
                );
            },
        };
        match self.read_bytes(byte_count, "Could not read uncompressed pixel data") {
            Ok(bytes) => {
                proof {
                    lemma_pixels_of_part(
                        start.bytes,
                        start.offset,
                        bytes_per_pixel as int,
                        pixel_count as int,
                    );
                }
                Ok(pixels_from_bytes(bytes, bytes_per_pixel, pixel_count))
            },
            Err(error) => Err(error),
        }
    }

    /// Reads pixels that are stored in run-length packets and leaves the
    /// cursor behind the last packet.
    fn read_compressed_data(&mut self, pixel_depth: u8, pixel_count: usize) -> (result: Result<
        Vec<u32>,
        TGAFileParsingError,
    >)
        ensures
            old(self)@.wf(),
            final(self)@.wf(),
            final(self)@.bytes == old(self)@.bytes,
            match result {
                Ok(pixels) => decode_pixels(
                    old(self)@,
                    pixel_depth,
                    RUN_LENGTH_ENCODED,
                    pixel_count as int,
                ) == Ok::<Seq<u32>, ParsingFailure>(pixels@) && pixels@.len() == pixel_count
                    && final(self)@ == old(self)@.at(
                    packets_end(old(self)@, pixel_depth as int / 8, pixel_count as int),
                ),
                Err(error) => decode_pixels(
                    old(self)@,
                    pixel_depth,
                    RUN_LENGTH_ENCODED,
                    pixel_count as int,
                ) == Err::<Seq<u32>, ParsingFailure>(error@),
            },
    {
        let behind: usize = self.inner.offset();
        if pixel_depth != 24 && pixel_depth != 32 {
            return Err(TGAFileParsingError::new("Only 24-bit and 32-bit pixels are supported"));
        }
        let bytes_per_pixel: usize = pixel_depth as usize / 8;
        let ghost start = self@;
        let ghost whole = decode_packets(start, bytes_per_pixel as int, pixel_count as int);
        let ghost end = packets_end(start, bytes_per_pixel as int, pixel_count as int);
        let mut pixel_data: Vec<u32> = Vec::new();
        let mut remaining: usize = pixel_count;
        while remaining > 0
            invariant
                pixel_depth == 24 || pixel_depth == 32,
                bytes_per_pixel == pixel_depth as int / 8,
                start == old(self)@,
                whole == decode_packets(start, bytes_per_pixel as int, pixel_count as int),
                end == packets_end(start, bytes_per_pixel as int, pixel_count as int),
                start.wf(),
                whole is Ok ==> end == packets_end(
                    self@,
                    bytes_per_pixel as int,
                    remaining as int,
                ),
                self@.wf(),
                self@.bytes == start.bytes,
                pixel_data@.len() + remaining == pixel_count,
                whole == after(
                    pixel_data@,
                    decode_packets(self@, bytes_per_pixel as int, remaining as int),
                ),
            decreases remaining,
        {
            let ghost packet = self@;
            let ghost decoded = pixel_data@;
            let rle_repetition_byte: u8 = match self.read_u8("Could not read the repetition byte") {
                Ok(value) => value,
                Err(error) => {
                    return Err(error);
                },
            };
            let run_count: usize = (rle_repetition_byte & 0b0111_1111) as usize + 1;
            let is_rle_packet: bool = (rle_repetition_byte & 0b1000_0000) >> 7 == 1;
            assert(rle_repetition_byte & 0b0111_1111 == rle_repetition_byte % 128 && ((
                rle_repetition_byte & 0b1000_0000) >> 7 == 1) == (rle_repetition_byte >= 128))
                by (bit_vector);
            if run_count > remaining {
                return Err(
                    TGAFileParsingError::new(
                        "A run-length packet holds more pixels than the image has left",
                    ),
                );
            }
            if !is_rle_packet {
                let ghost data = self@;
                assert(run_count * bytes_per_pixel <= 512) by (nonlinear_arith)
                    requires
                        run_count <= 128,
                        bytes_per_pixel <= 4,
                ;
                let bytes = match self.read_bytes(
                    run_count * bytes_per_pixel,
                    "Could not read rle raw pixel data",
                ) {
                    Ok(bytes) => bytes,
                    Err(error) => {
                        return Err(error);
                    },
                };
                proof {
                    lemma_pixels_of_part(
                        data.bytes,
                        data.offset,
                        bytes_per_pixel as int,
                        run_count as int,
                    );
                }
                let mut pixels = pixels_from_bytes(bytes, bytes_per_pixel, run_count);
                proof {
                    lemma_after_after(
                        decoded,
                        pixels@,
                        decode_packets(
                            self@,
                            bytes_per_pixel as int,
                            remaining as int - run_count as int,
                        ),
                    );
                }
                pixel_data.append(&mut pixels);
            } else {
                let msg = "Could not read rle encoded pixel";
                let blue: u8 = match self.read_u8(msg) {
                    Ok(value) => value,
                    Err(error) => {
                        return Err(error);
                    },
                };
                let green: u8 = match self.read_u8(msg) {
                    Ok(value) => value,
                    Err(error) => {
                        return Err(error);
                    },
                };
                let red: u8 = match self.read_u8(msg) {
                    Ok(value) => value,
                    Err(error) => {
                        return Err(error);
                    },
                };
                let alpha: u8 = if pixel_depth == 24 {
                    255
                } else {
                    match self.read_u8(msg) {
                        Ok(value) => value,
                        Err(error) => {
                            return Err(error);
                        },
                    }
                };
                let pixel: u32 = Color32::new(red, green, blue, alpha).get_pixel_value();
                let mut pixels: Vec<u32> = vec![pixel; run_count];
                assert(pixels@ =~= repeated(pixel, run_count as int));
                proof {
                    lemma_after_after(
                        decoded,
                        pixels@,
                        decode_packets(
                            self@,
                            bytes_per_pixel as int,
                            remaining as int - run_count as int,
                        ),
                    );
                }
                pixel_data.append(&mut pixels);
            }
            remaining -= run_count;
        }
        assert(pixel_data@ + Seq::<u32>::empty() =~= pixel_data@);
        Ok(pixel_data)
    }
}

impl TGAFile {
    /// Decodes the file held in `image_data`.
    pub fn from_bytes(image_data: Vec<u8>) -> (result: Result<TGAFile, TGAFileParsingError>)
        ensures
            match result {
                Ok(image) => decode(image_data@) == Ok::<ImageModel, ParsingFailure>(image@)
                    && image@.wf(),
                Err(error) => decode(image_data@) == Err::<ImageModel, ParsingFailure>(error@),
            },
    {
        TGAFileParser::parse(image_data.as_slice())
    }

    /// The bytes of the file that holds this image: the header, the pixels
    /// uncompressed with four bytes each, and the footer.
    pub fn to_bytes(&self) -> (data: Vec<u8>)
        ensures
            data@ == encode(self@),
            self@.wf(),
    {
        proof {
            use_type_invariant(self);
        }
        let mut data: Vec<u8> = Vec::new();
        data.push(0);
        data.push(0);
        data.push(UNCOMPRESSED);
        data.push(0);
        data.push(0);
        data.push(0);
        data.push(0);
        data.push(0);
        push_u16(&mut data, self.x_origin);
        push_u16(&mut data, self.y_origin);
        push_u16(&mut data, self.image_width);
        push_u16(&mut data, self.image_height);
        data.push(32);
        data.push(IMAGE_DESCRIPTOR);
        assert(data@ =~= header_bytes(self@));
        let count: usize = self.image_data.len();
        let mut i: usize = 0;
        while i < count
            invariant
                count == self.image_data@.len(),
                i <= count,
                data@ == header_bytes(self@) + pixel_bytes(self.image_data@.subrange(0, i as int)),
            decreases count - i,
        {
            let color = Color32::from_pixel_value(self.image_data[i]);
            let ghost before = data@;
            data.push(color.b);
            data.push(color.g);
            data.push(color.r);
            data.push(color.a);
            assert(data@ =~= header_bytes(self@) + pixel_bytes(
                self.image_data@.subrange(0, i + 1),
            )) by {
                let shorter = pixel_bytes(self.image_data@.subrange(0, i as int));
                let longer = pixel_bytes(self.image_data@.subrange(0, i + 1));
                assert forall|k: int| 0 <= k < longer.len() implies #[trigger] longer[k] == (shorter
                    + seq![color.b, color.g, color.r, color.a])[k] by {
                    if k < shorter.len() {
                        assert(self.image_data@.subrange(0, i + 1)[k / 4]
                            == self.image_data@.subrange(0, i as int)[k / 4]);
                    }
                }
                assert(longer =~= shorter + seq![color.b, color.g, color.r, color.a]);
            }
            i += 1;
        }
        assert(self.image_data@.subrange(0, count as int) =~= self.image_data@);
        let ghost body = data@;
        data.push(0);
        data.push(0);
        data.push(0);
        data.push(0);
        data.push(0);
        data.push(0);
        data.push(0);
        data.push(0);
        data.push(0x54);
        data.push(0x52);
        data.push(0x55);
        data.push(0x45);
        data.push(0x56);
        data.push(0x49);
        data.push(0x53);
        data.push(0x49);
        data.push(0x4f);
        data.push(0x4e);
        data.push(0x2d);
        data.push(0x58);
        data.push(0x46);
        data.push(0x49);
        data.push(0x4c);
        data.push(0x45);
        data.push(0x2e);
        data.push(0);
        assert(data@ =~= body + footer_bytes());
        data
    }
}

/// Appends `value` to `data`, low byte first.
fn push_u16(data: &mut Vec<u8>, value: u16)
    ensures
        final(data)@ == old(data)@.push((value % 0x100) as u8).push((value / 0x100) as u8),
{
    let low: u8 = (value & 0x00FF) as u8;
    let high: u8 = ((value & 0xFF00) >> 8) as u8;
    assert(value & 0x00FF == value % 0x100 && (value & 0xFF00) >> 8 == value / 0x100)
        by (bit_vector);
    data.push(low);
    data.push(high);
}

} // verus!
