//! Texture conversion: DDS and PNG files in, repacked DDS and PNG files out.
// The block compressor behind `image_dds` needs the C++ runtime.
use link_cplusplus as _;
use vstd::prelude::*;
use vstd::arithmetic::div_mod::*;
use vstd::arithmetic::power2::*;

use crate::arith;
use crate::bytes;
use crate::exact;
use crate::export::pixels;
use crate::export::pixels::RgbaPixels;
use crate::models::layout;
use crate::single;
use crate::text;

verus! {

/// Why a texture could not be converted.
#[derive(Debug)]
pub enum TextureError {
    DdsParse(String),
    DdsDecode(String),
    PngEncode(String),
    DdsEncode(String),
    IoError(String),
}

/// An error with its message as a character sequence.
pub enum TextureFault {
    DdsParse(Seq<char>),
    DdsDecode(Seq<char>),
    PngEncode(Seq<char>),
    DdsEncode(Seq<char>),
    IoError(Seq<char>),
}

impl View for TextureError {
    type V = TextureFault;

    open spec fn view(&self) -> TextureFault {
        match self {
            TextureError::DdsParse(m) => TextureFault::DdsParse(m@),
            TextureError::DdsDecode(m) => TextureFault::DdsDecode(m@),
            TextureError::PngEncode(m) => TextureFault::PngEncode(m@),
            TextureError::DdsEncode(m) => TextureFault::DdsEncode(m@),
            TextureError::IoError(m) => TextureFault::IoError(m@),
        }
    }
}

impl TextureError {
    /// The message shown to users.
    pub fn message(&self) -> (r: String)
        ensures
            r@ == fault_message(self@),
    {
        match self {
            TextureError::DdsParse(m) => text::concat("failed to parse DDS: ", m.as_str()),
            TextureError::DdsDecode(m) => text::concat("failed to decode DDS image: ", m.as_str()),
            TextureError::PngEncode(m) => text::concat("failed to encode PNG: ", m.as_str()),
            TextureError::DdsEncode(m) => text::concat("failed to encode DDS: ", m.as_str()),
            TextureError::IoError(m) => text::concat("io error: ", m.as_str()),
        }
    }
}

/// The message of an error.
pub open spec fn fault_message(f: TextureFault) -> Seq<char> {
    match f {
        TextureFault::DdsParse(m) => "failed to parse DDS: "@ + m,
        TextureFault::DdsDecode(m) => "failed to decode DDS image: "@ + m,
        TextureFault::PngEncode(m) => "failed to encode PNG: "@ + m,
        TextureFault::DdsEncode(m) => "failed to encode DDS: "@ + m,
        TextureFault::IoError(m) => "io error: "@ + m,
    }
}

// ---- Codecs -----------------------------------------------------------------

/// What `ddsfile::Dds::read` and `image_dds::image_from_dds` make of a file: the
/// top mip level as width, height and RGBA bytes, or whether the file could be read
/// as DDS at all and the message of the step that failed.
pub uninterp spec fn dds_image(b: Seq<u8>) -> Result<(u32, u32, Seq<u8>), (bool, Seq<char>)>;

/// What `image::ImageReader` makes of a file of a format that it recognises: width,
/// height and RGBA bytes, or the message of its error.
pub uninterp spec fn raster_image(b: Seq<u8>) -> Result<(u32, u32, Seq<u8>), Seq<char>>;

/// The PNG file that `image::codecs::png::PngEncoder` makes of an image, or the
/// message of its error.
pub uninterp spec fn png_file(width: u32, height: u32, pixels: Seq<u8>) -> Result<
    Seq<u8>,
    Seq<char>,
>;

/// Whether a picture file reads back as the image that it was written from, unless the
/// image is larger than what the reader takes.
pub open spec fn reads_back(width: u32, height: u32, pixels: Seq<u8>, file: Seq<u8>) -> bool {
    pixels.len() <= 0x800_0000 ==> raster_image(file) == Ok::<
        (u32, u32, Seq<u8>),
        Seq<char>,
    >((width, height, pixels))
}

/// Whether `image_dds` may produce `file` when it compresses an image to the block
/// format of the given number. Its compressor runs different code on different
/// processors, so one image can have several files.
pub uninterp spec fn is_dds_of(
    width: u32,
    height: u32,
    pixels: Seq<u8>,
    block_format: int,
    file: Seq<u8>,
) -> bool;

/// Whether a bit is set in a 32-bit field of a file.
pub open spec fn has_bit(b: Seq<u8>, at: int, bit: u32) -> bool {
    bytes::u32_at(b, at) / bit % 2 == 1
}

/// Whether a file has the DX10 extension of the DDS header.
pub open spec fn is_dx10(b: Seq<u8>) -> bool {
    b.len() >= 148 && has_bit(b, 80, 4) && bytes::u32_at(b, 84) == 0x3031_5844
}

/// Number of array layers that the header of a DDS file gives, at least one.
pub open spec fn array_layers(b: Seq<u8>) -> int {
    if is_dx10(b) {
        if bytes::u32_at(b, 140) == 0 {
            1
        } else {
            bytes::u32_at(b, 140) as int
        }
    } else if b.len() >= 128 && has_bit(b, 112, 0x200) {
        6
    } else {
        1
    }
}

/// Number of pictures in the layers of a DDS file: layers of a DX10 cube map have six.
pub open spec fn faces(b: Seq<u8>) -> int {
    if is_dx10(b) && has_bit(b, 136, 4) {
        6 * array_layers(b)
    } else {
        array_layers(b)
    }
}

/// Number of pixel rows in all pictures of a DDS file.
pub open spec fn rows(b: Seq<u8>) -> int {
    let depth = if has_bit(b, 8, 0x80_0000) {
        bytes::u32_at(b, 24)
    } else {
        1
    };
    bytes::u32_at(b, 12) * depth * faces(b)
}

/// Whether all layers of a DDS file start at the same byte: its header gives no mip
/// levels.
pub open spec fn shares_layers(b: Seq<u8>) -> bool {
    b.len() >= 128 && has_bit(b, 8, 0x2_0000) && bytes::u32_at(b, 28) == 0
}

/// Whether the header of a DDS file names a block-compressed format.
pub open spec fn is_block_compressed(b: Seq<u8>) -> bool {
    if is_dx10(b) {
        let format = bytes::u32_at(b, 128);
        70 <= format <= 84 || 94 <= format <= 99
    } else {
        b.len() >= 128 && has_bit(b, 80, 4) && is_block_code(bytes::u32_at(b, 84))
    }
}

/// Whether a four-character code is that of a block-compressed format: `DXT1` to `DXT5`,
/// `ATI1`, `ATI2`, `BC4U`, `BC4S`, `BC5U` or `BC5S`.
pub open spec fn is_block_code(code: u32) -> bool {
    ||| code == 0x3154_5844
    ||| code == 0x3254_5844
    ||| code == 0x3354_5844
    ||| code == 0x3454_5844
    ||| code == 0x3554_5844
    ||| code == 0x3149_5441
    ||| code == 0x3249_5441
    ||| code == 0x5534_4342
    ||| code == 0x5334_4342
    ||| code == 0x5535_4342
    ||| code == 0x5335_4342
}

/// Whether the pictures of a DDS file can be counted in 32 bits.
pub open spec fn has_countable_faces(b: Seq<u8>) -> bool {
    faces(b) <= u32::MAX
}

/// Whether the rows of all pictures of a DDS file can be counted in 32 bits. Where the
/// pictures do not share their bytes, every row takes at least one.
pub open spec fn has_countable_rows(b: Seq<u8>) -> bool {
    (b.len() <= u32::MAX && !shares_layers(b)) || rows(b) <= u32::MAX
}

/// Whether the pixels of one picture of a DDS file can be counted in 32 bits, or need not
/// be because they are compressed. Every pixel that is not takes at least one byte.
pub open spec fn has_countable_pixels(b: Seq<u8>) -> bool {
    b.len() <= u32::MAX || bytes::u32_at(b, 16) * bytes::u32_at(b, 12) <= u32::MAX
        || is_block_compressed(b)
}

/// Whether the decoded pictures of a DDS file can be held in memory. A byte of the file
/// stands for at most eight of them, unless the pictures share theirs.
pub open spec fn has_room(b: Seq<u8>) -> bool {
    &&& 8 * b.len() <= isize::MAX
    &&& shares_layers(b) ==> 4 * (bytes::u32_at(b, 16) * rows(b)) <= isize::MAX
}

/// Whether a DDS file with countable faces is small enough to be decoded.
pub open spec fn is_small_enough(b: Seq<u8>) -> bool {
    has_countable_rows(b) && has_countable_pixels(b) && has_room(b)
}

/// `ddsfile::Dds::read` followed by `image_dds::image_from_dds` for mip level 0.
/// The result is named [`dds_image`]; a decoded image has at least one pixel and four
/// bytes for each. The numbers of faces, of rows and of uncompressed pixels must fit 32
/// bits, and the decoded bytes the address space, because `image_dds` multiplies them out.
#[verifier::external_body]
fn decode_dds(b: &[u8]) -> (r: Result<RgbaPixels, (bool, String)>)
    requires
        has_countable_faces(b@),
        is_small_enough(b@),
    ensures
        match r {
            Ok(image) => dds_image(b@) == Ok::<(u32, u32, Seq<u8>), (bool, Seq<char>)>(image@)
                && image.is_complete() && image.width > 0 && image.height > 0,
            Err((readable, message)) => dds_image(b@) == Err::<
                (u32, u32, Seq<u8>),
                (bool, Seq<char>),
            >((readable, message@)),
        },
{
    let dds = image_dds::ddsfile::Dds::read(&mut std::io::Cursor::new(b)).map_err(
        |e| (false, e.to_string()),
    )?;
    let image = image_dds::image_from_dds(&dds, 0).map_err(|e| (true, e.to_string()))?;
    let (width, height) = (image.width(), image.height());
    Ok(RgbaPixels { width, height, pixels: image.into_raw() })
}

/// `image::ImageReader` with the format guessed from the contents, then
/// `DynamicImage::into_rgba8`. The result is named [`raster_image`]; a decoded image
/// has four bytes per pixel.
#[verifier::external_body]
fn decode_raster(b: &[u8]) -> (r: Result<RgbaPixels, String>)
    ensures
        match r {
            Ok(image) => raster_image(b@) == Ok::<(u32, u32, Seq<u8>), Seq<char>>(image@)
                && image.is_complete(),
            Err(message) => raster_image(b@) == Err::<(u32, u32, Seq<u8>), Seq<char>>(message@),
        },
{
    let reader = image_dds::image::ImageReader::new(
        std::io::Cursor::new(b),
    ).with_guessed_format().map_err(|e| e.to_string())?;
    let image = reader.decode().map_err(|e| e.to_string())?.into_rgba8();
    let (width, height) = (image.width(), image.height());
    Ok(RgbaPixels { width, height, pixels: image.into_raw() })
}

/// `PngEncoder::write_image` for 8-bit RGBA. The result is named [`png_file`]. PNG
/// loses nothing, so `image::ImageReader` gives the image back, within its limit on
/// memory. The encoder panics unless there are four bytes per pixel.
#[verifier::external_body]
fn encode_png(width: u32, height: u32, pixels: &Vec<u8>) -> (r: Result<Vec<u8>, String>)
    requires
        pixels@.len() == 4 * (width * height),
    ensures
        match r {
            Ok(file) => png_file(width, height, pixels@) == Ok::<Seq<u8>, Seq<char>>(file@)
                && reads_back(width, height, pixels@, file@),
            Err(message) => png_file(width, height, pixels@) == Err::<Seq<u8>, Seq<char>>(
                message@,
            ),
        },
{
    let mut file = Vec::new();
    let encoder = image_dds::image::codecs::png::PngEncoder::new(&mut file);
    let rgba8 = image_dds::image::ExtendedColorType::Rgba8;
    image_dds::image::ImageEncoder::write_image(encoder, pixels, width, height, rgba8).map_err(
        |e| e.to_string(),
    )?;
    Ok(file)
}

/// A block-compressed texture format.
#[derive(Debug, Clone, Copy, PartialEq, Eq, Structural)]
pub enum BlockFormat {
    /// Four-bit RGB.
    Bc1,
    /// One channel.
    Bc4,
    /// High-quality RGBA.
    Bc7,
}

/// The number in the format's name.
pub open spec fn format_number(format: BlockFormat) -> int {
    match format {
        BlockFormat::Bc1 => 1,
        BlockFormat::Bc4 => 4,
        BlockFormat::Bc7 => 7,
    }
}

/// Size in bytes of a block of four by four pixels.
pub open spec fn block_bytes(format: BlockFormat) -> int {
    match format {
        BlockFormat::Bc1 => 8,
        BlockFormat::Bc4 => 8,
        BlockFormat::Bc7 => 16,
    }
}

/// Bytes that the compressor reads per pixel.
pub open spec fn pixel_bytes(format: BlockFormat) -> int {
    match format {
        BlockFormat::Bc1 => 4,
        BlockFormat::Bc4 => 1,
        BlockFormat::Bc7 => 4,
    }
}

/// A side of an image, filled up to whole blocks.
pub open spec fn padded(side: u32) -> int {
    (side as int + 3) / 4 * 4
}

/// Number of pixels of an image that is filled up to whole blocks.
pub open spec fn padded_area(width: u32, height: u32) -> int {
    padded(width) * padded(height)
}

/// Whether the bytes of an image, filled up to whole blocks, can be addressed with signed
/// 32-bit offsets, and whether it can be held in memory.
pub open spec fn is_compressible(width: u32, height: u32, format: BlockFormat) -> bool {
    &&& pixel_bytes(format) * padded_area(width, height) <= 0x8000_0000
    &&& 4 * padded_area(width, height) <= isize::MAX
}

/// Whether a file has the size of a DDS file with one mip level, and its height and
/// width in the header.
pub open spec fn has_dds_shape(width: u32, height: u32, format: BlockFormat, file: Seq<u8>) -> bool {
    &&& file.len() == 148 + (width as int + 3) / 4 * ((height as int + 3) / 4) * block_bytes(format)
    &&& bytes::u32_at(file, 12) == height
    &&& bytes::u32_at(file, 16) == width
}

/// `SurfaceRgba8::encode_dds` at fast quality without further mip levels, then
/// `ddsfile::Dds::write`. It fails only for an image without pixels. The file is one
/// that [`is_dds_of`] admits, with the size of the image in its header; which one it is,
/// and the message of the error, is left open. The compressor addresses the bytes of the
/// padded image with signed 32-bit offsets.
#[verifier::external_body]
fn encode_dds(width: u32, height: u32, pixels: &Vec<u8>, format: BlockFormat) -> (r: Result<
    Vec<u8>,
    String,
>)
    requires
        pixels@.len() == 4 * (width * height),
        is_compressible(width, height, format),
    ensures
        match r {
            Ok(file) => width > 0 && height > 0 && is_dds_of(
                width,
                height,
                pixels@,
                format_number(format),
                file@,
            ) && has_dds_shape(width, height, format, file@),
            Err(_) => width == 0 || height == 0,
        },
{
    let format = match format {
        BlockFormat::Bc1 => image_dds::ImageFormat::BC1RgbaUnorm,
        BlockFormat::Bc4 => image_dds::ImageFormat::BC4RUnorm,
        BlockFormat::Bc7 => image_dds::ImageFormat::BC7RgbaUnorm,
    };
    let data = pixels.as_slice();
    let surface = image_dds::SurfaceRgba8 { width, height, depth: 1, layers: 1, mipmaps: 1, data };
    let (quality, mips) = (image_dds::Quality::Fast, image_dds::Mipmaps::Disabled);
    let dds = surface.encode_dds(format, quality, mips).map_err(|e| e.to_string())?;
    let mut file = Vec::new();
    dds.write(&mut file).map_err(|e| e.to_string())?;
    Ok(file)
}

// ---- Reading ----------------------------------------------------------------

fn is_bit_set(b: &[u8], at: usize, bit: u32) -> (r: bool)
    requires
        at + 4 <= b.len(),
        bit > 0,
    ensures
        r == has_bit(b@, at as int, bit),
{
    bytes::get_u32(b, at) / bit % 2 == 1
}

fn is_extended(b: &[u8]) -> (r: bool)
    ensures
        r == is_dx10(b@),
{
    b.len() >= 148 && is_bit_set(b, 80, 4) && bytes::get_u32(b, 84) == 0x3031_5844
}

fn count_layers(b: &[u8]) -> (r: u32)
    ensures
        r == array_layers(b@),
        r > 0,
{
    if is_extended(b) {
        let n: u32 = bytes::get_u32(b, 140);
        if n == 0 {
            1
        } else {
            n
        }
    } else if b.len() >= 128 && is_bit_set(b, 112, 0x200) {
        6
    } else {
        1
    }
}

fn count_faces(b: &[u8]) -> (r: u64)
    ensures
        r == faces(b@),
{
    let n: u64 = count_layers(b) as u64;
    if is_extended(b) && is_bit_set(b, 136, 4) {
        6 * n
    } else {
        n
    }
}

fn count_rows(b: &[u8]) -> (r: u128)
    requires
        b.len() >= 128,
        has_countable_faces(b@),
    ensures
        r == rows(b@),
        r <= 0xFFFF_FFFF * 0xFFFF_FFFF * 0xFFFF_FFFF,
{
    let depth: u32 = if is_bit_set(b, 8, 0x80_0000) {
        bytes::get_u32(b, 24)
    } else {
        1
    };
    let height: u32 = bytes::get_u32(b, 12);
    let faces: u64 = count_faces(b);
    assert(0 <= height * depth <= 0xFFFF_FFFF * 0xFFFF_FFFF) by (nonlinear_arith)
        requires
            0 <= height <= 0xFFFF_FFFF,
            0 <= depth <= 0xFFFF_FFFF,
    ;
    let slice: u128 = height as u128 * depth as u128;
    assert(0 <= slice * faces <= 0xFFFF_FFFF * 0xFFFF_FFFF * 0xFFFF_FFFF) by (nonlinear_arith)
        requires
            0 <= slice <= 0xFFFF_FFFF * 0xFFFF_FFFF,
            0 <= faces <= 0xFFFF_FFFF,
    ;
    slice * faces as u128
}

fn is_format_compressed(b: &[u8]) -> (r: bool)
    ensures
        r == is_block_compressed(b@),
{
    if is_extended(b) {
        let format: u32 = bytes::get_u32(b, 128);
        (70 <= format && format <= 84) || (94 <= format && format <= 99)
    } else if b.len() >= 128 && is_bit_set(b, 80, 4) {
        let code: u32 = bytes::get_u32(b, 84);
        code == 0x3154_5844 || code == 0x3254_5844 || code == 0x3354_5844 || code == 0x3454_5844
            || code == 0x3554_5844 || code == 0x3149_5441 || code == 0x3249_5441 || code
            == 0x5534_4342 || code == 0x5334_4342 || code == 0x5535_4342 || code == 0x5335_4342
    } else {
        false
    }
}

/// Tells whether a DDS file can be decoded within the limits of the machine.
fn fits(b: &[u8]) -> (r: bool)
    requires
        has_countable_faces(b@),
    ensures
        r == is_small_enough(b@),
{
    let len: u128 = b.len() as u128;
    if 8 * len > isize::MAX as u128 {
        return false;
    }
    if b.len() < 128 {
        return true;
    }
    let shared: bool = is_bit_set(b, 8, 0x2_0000) && bytes::get_u32(b, 28) == 0;
    let rows: u128 = count_rows(b);
    if (len > 0xFFFF_FFFF || shared) && rows > 0xFFFF_FFFF {
        return false;
    }
    let (width, height) = (bytes::get_u32(b, 16), bytes::get_u32(b, 12));
    if shared {
        assert(0 <= width * rows <= 0xFFFF_FFFF * 0xFFFF_FFFF) by (nonlinear_arith)
            requires
                0 <= width <= 0xFFFF_FFFF,
                0 <= rows <= 0xFFFF_FFFF,
        ;
        if 4 * (width as u128 * rows) > isize::MAX as u128 {
            return false;
        }
    }
    assert(0 <= width * height <= 0xFFFF_FFFF * 0xFFFF_FFFF) by (nonlinear_arith)
        requires
            0 <= width <= 0xFFFF_FFFF,
            0 <= height <= 0xFFFF_FFFF,
    ;
    len <= 0xFFFF_FFFF || width as u128 * height as u128 <= 0xFFFF_FFFF || is_format_compressed(b)
}

/// What decoding a DDS file gives.
pub open spec fn decoded_dds(b: Seq<u8>) -> Result<(u32, u32, Seq<u8>), TextureFault> {
    if !has_countable_faces(b) {
        Err(TextureFault::DdsDecode("cube map has too many faces"@))
    } else if !is_small_enough(b) {
        Err(TextureFault::DdsDecode("file is too large"@))
    } else {
        match dds_image(b) {
            Ok(image) => Ok(image),
            Err((readable, m)) => if readable {
                Err(TextureFault::DdsDecode(m))
            } else {
                Err(TextureFault::DdsParse(m))
            },
        }
    }
}

/// Decodes the top mip level of a DDS file.
pub fn decode_single_mip_dds(dds_bytes: &[u8]) -> (r: Result<RgbaPixels, TextureError>)
    ensures
        match r {
            Ok(image) => decoded_dds(dds_bytes@) == Ok::<(u32, u32, Seq<u8>), TextureFault>(
                image@,
            ) && image.is_complete() && image.width > 0 && image.height > 0,
            Err(e) => decoded_dds(dds_bytes@) == Err::<(u32, u32, Seq<u8>), TextureFault>(e@),
        },
{
    if count_faces(dds_bytes) > 0xFFFF_FFFF {
        return Err(TextureError::DdsDecode(text::copy("cube map has too many faces")));
    }
    if !fits(dds_bytes) {
        return Err(TextureError::DdsDecode(text::copy("file is too large")));
    }
    match decode_dds(dds_bytes) {
        Ok(image) => Ok(image),
        Err((readable, message)) => if readable {
            Err(TextureError::DdsDecode(message))
        } else {
            Err(TextureError::DdsParse(message))
        },
    }
}

/// What writing an image as PNG gives.
pub open spec fn encoded_png(width: u32, height: u32, pixels: Seq<u8>) -> Result<
    Seq<u8>,
    TextureFault,
> {
    match png_file(width, height, pixels) {
        Ok(file) => Ok(file),
        Err(m) => Err(TextureFault::PngEncode(m)),
    }
}

/// Writes an image as PNG.
pub fn write_png(image: &RgbaPixels) -> (r: Result<Vec<u8>, TextureError>)
    requires
        image.is_complete(),
    ensures
        match r {
            Ok(file) => encoded_png(image.width, image.height, image.pixels@) == Ok::<
                Seq<u8>,
                TextureFault,
            >(file@) && reads_back(image.width, image.height, image.pixels@, file@),
            Err(e) => encoded_png(image.width, image.height, image.pixels@) == Err::<
                Seq<u8>,
                TextureFault,
            >(e@),
        },
{
    match encode_png(image.width, image.height, &image.pixels) {
        Ok(file) => Ok(file),
        Err(message) => Err(TextureError::PngEncode(message)),
    }
}

/// The error for an image that cannot be addressed.
pub open spec fn too_large() -> TextureFault {
    TextureFault::DdsEncode("image is too large"@)
}

/// Whether a file is the compressed form of an image.
pub open spec fn is_compressed(w: u32, h: u32, p: Seq<u8>, format: BlockFormat, file: Seq<u8>) -> bool {
    is_dds_of(w, h, p, format_number(format), file) && has_dds_shape(w, h, format, file)
}

/// Compresses an image to a single-mip DDS file. An image without pixels cannot be
/// compressed, nor can one that is too large to be addressed.
pub fn encode_single_mip_dds(image: &RgbaPixels, format: BlockFormat) -> (r: Result<
    Vec<u8>,
    TextureError,
>)
    requires
        image.is_complete(),
    ensures
        if !is_compressible(image.width, image.height, format) {
            r matches Err(e) && e@ == too_large()
        } else if image.width == 0 || image.height == 0 {
            r matches Err(e) && e is DdsEncode
        } else {
            r matches Ok(file) && is_compressed(
                image.width,
                image.height,
                image.pixels@,
                format,
                file@,
            )
        },
{
    let w: u128 = (image.width as u128 + 3) / 4 * 4;
    let h: u128 = (image.height as u128 + 3) / 4 * 4;
    assert(0 <= w * h <= 0x1_0000_0002 * 0x1_0000_0002) by (nonlinear_arith)
        requires
            0 <= w <= 0x1_0000_0002,
            0 <= h <= 0x1_0000_0002,
    ;
    let area: u128 = w * h;
    let bytes: u128 = match format {
        BlockFormat::Bc1 => 4 * area,
        BlockFormat::Bc4 => area,
        BlockFormat::Bc7 => 4 * area,
    };
    if bytes > 0x8000_0000 || 4 * area > isize::MAX as u128 {
        return Err(TextureError::DdsEncode(text::copy("image is too large")));
    }
    match encode_dds(image.width, image.height, &image.pixels, format) {
        Ok(file) => Ok(file),
        Err(message) => Err(TextureError::DdsEncode(message)),
    }
}

// ---- Conversions ------------------------------------------------------------

/// What a file becomes when its pixels are made opaque: the new PNG, or the file as
/// it was where decoding or encoding fails.
pub open spec fn opaque_png(b: Seq<u8>) -> Seq<u8> {
    match raster_image(b) {
        Ok((w, h, p)) => match png_file(w, h, pixels::opaque(p)) {
            Ok(file) => file,
            Err(_) => b,
        },
        Err(_) => b,
    }
}

/// Makes all pixels of a PNG opaque.
pub fn force_png_opaque(png_bytes: &mut Vec<u8>)
    ensures
        final(png_bytes)@ == opaque_png(old(png_bytes)@),
        raster_image(old(png_bytes)@) matches Ok((w, h, p)) ==> (png_file(w, h, pixels::opaque(p))
            is Ok ==> reads_back(w, h, pixels::opaque(p), final(png_bytes)@)),
{
    if let Ok(image) = decode_raster(png_bytes.as_slice()) {
        let p = pixels::make_opaque(&image.pixels);
        if let Ok(file) = encode_png(image.width, image.height, &p) {
            *png_bytes = file;
        }
    }
}

/// What a DDS file becomes as PNG.
pub open spec fn png_of_dds(b: Seq<u8>) -> Result<Seq<u8>, TextureFault> {
    match decoded_dds(b) {
        Ok((w, h, p)) => encoded_png(w, h, p),
        Err(e) => Err(e),
    }
}

/// Converts a DDS file to PNG.
pub fn dds_to_png(dds_bytes: &[u8]) -> (r: Result<Vec<u8>, TextureError>)
    ensures
        match r {
            Ok(file) => {
                &&& png_of_dds(dds_bytes@) == Ok::<Seq<u8>, TextureFault>(file@)
                &&& decoded_dds(dds_bytes@) matches Ok((w, h, p)) ==> reads_back(w, h, p, file@)
            },
            Err(e) => png_of_dds(dds_bytes@) == Err::<Seq<u8>, TextureFault>(e@),
        },
{
    let image = decode_single_mip_dds(dds_bytes)?;
    write_png(&image)
}

/// An image reduced to the given size, if there is one.
pub open spec fn reduced(w: u32, h: u32, p: Seq<u8>, target: Option<(u32, u32)>) -> pixels::ImageView {
    match target {
        Some((nw, nh)) => (
            nw,
            nh,
            pixels::box_filtered(p, w as int, h as int, nw as int, nh as int),
        ),
        None => (w, h, p),
    }
}

/// Whether a picture file reads back as an image.
pub open spec fn shows(image: pixels::ImageView, file: Seq<u8>) -> bool {
    reads_back(image.0, image.1, image.2, file)
}

/// An image as PNG, reduced to the given size if there is one.
pub open spec fn png_of_reduced(w: u32, h: u32, p: Seq<u8>, target: Option<(u32, u32)>) -> Result<
    Seq<u8>,
    TextureFault,
> {
    let image = reduced(w, h, p, target);
    encoded_png(image.0, image.1, image.2)
}

/// Writes an image as PNG, reduced by box filtering to the given size if there is
/// one.
pub fn write_reduced_png(image: &RgbaPixels, target: Option<(u32, u32)>) -> (r: Result<
    Vec<u8>,
    TextureError,
>)
    requires
        image.is_complete(),
        target matches Some((nw, nh)) ==> nw > 0 && nh > 0,
    ensures
        match r {
            Ok(file) => {
                &&& png_of_reduced(image.width, image.height, image.pixels@, target) == Ok::<
                    Seq<u8>,
                    TextureFault,
                >(file@)
                &&& shows(reduced(image.width, image.height, image.pixels@, target), file@)
            },
            Err(e) => png_of_reduced(image.width, image.height, image.pixels@, target) == Err::<
                Seq<u8>,
                TextureFault,
            >(e@),
        },
{
    match target {
        Some((nw, nh)) => {
            let small = pixels::box_filter(image, nw, nh);
            write_png(&small)
        },
        None => write_png(image),
    }
}

/// The factor, in single precision, that reduces an image to a size limit: the smaller of
/// those for width and height.
pub open spec fn reduction(w: u32, h: u32, max: u32) -> u32 {
    let a = arith::quotient(arith::integer_form(max), arith::integer_form(w));
    let b = arith::quotient(arith::integer_form(max), arith::integer_form(h));
    if arith::is_less(b, a) {
        b
    } else {
        a
    }
}

/// A side of an image scaled by a factor: cut to an integer of at least 1.
pub open spec fn scaled_side(side: u32, factor: u32) -> u32 {
    let n = single::whole(arith::product(arith::integer_form(side), factor));
    if n < 1 {
        1
    } else {
        n as u32
    }
}

/// The size that an image is reduced to, if it exceeds a limit.
pub open spec fn target_size(w: u32, h: u32, max_size: Option<u32>) -> Option<(u32, u32)> {
    match max_size {
        Some(max) => if w > max || h > max {
            let factor = reduction(w, h, max);
            Some((scaled_side(w, factor), scaled_side(h, factor)))
        } else {
            None
        },
        None => None,
    }
}

fn scale_side(side: u32, factor: u32) -> (r: u32)
    ensures
        r == scaled_side(side, factor),
        r > 0,
{
    let n: u32 = single::to_u32(arith::multiply_singles(arith::from_u32(side), factor));
    if n < 1 {
        1
    } else {
        n
    }
}

/// Finds the size that an image has to be reduced to, if it exceeds a limit.
pub fn find_target_size(width: u32, height: u32, max_size: Option<u32>) -> (r: Option<(u32, u32)>)
    ensures
        r == target_size(width, height, max_size),
        r matches Some((nw, nh)) ==> nw > 0 && nh > 0,
{
    match max_size {
        Some(max) => if width > max || height > max {
            let limit: u32 = arith::from_u32(max);
            let a: u32 = arith::divide_singles(limit, arith::from_u32(width));
            let b: u32 = arith::divide_singles(limit, arith::from_u32(height));
            let factor: u32 = if arith::less_than(b, a) {
                b
            } else {
                a
            };
            Some((scale_side(width, factor), scale_side(height, factor)))
        } else {
            None
        },
        None => None,
    }
}

/// Neither side of a reduced image exceeds the limit. This is so for limits below 2^23;
/// beyond, single precision is too coarse for it.
pub proof fn reduced_images_keep_the_limit(w: u32, h: u32, max: u32)
    requires
        0 < max < 0x80_0000,
    ensures
        match target_size(w, h, Some(max)) {
            Some((nw, nh)) => 0 < nw <= max && 0 < nh <= max,
            None => w <= max && h <= max,
        },
{
    arith::integer_quotients_are_numbers(max, w);
    arith::integer_quotients_are_numbers(max, h);
    let factor = reduction(w, h, max);
    arith::scaled_integers_keep_a_limit(w, max, factor);
    arith::scaled_integers_keep_a_limit(h, max, factor);
}

/// What a DDS file becomes as PNG, reduced to a size limit.
pub open spec fn resized_png(b: Seq<u8>, max_size: Option<u32>) -> Result<Seq<u8>, TextureFault> {
    match decoded_dds(b) {
        Ok((w, h, p)) => png_of_reduced(w, h, p, target_size(w, h, max_size)),
        Err(e) => Err(e),
    }
}

/// Converts a DDS file to PNG, reduced by box filtering so that neither side exceeds
/// the limit.
pub fn dds_to_png_resized(dds_bytes: &[u8], max_size: Option<u32>) -> (r: Result<
    Vec<u8>,
    TextureError,
>)
    ensures
        match r {
            Ok(file) => {
                &&& resized_png(dds_bytes@, max_size) == Ok::<Seq<u8>, TextureFault>(file@)
                &&& decoded_dds(dds_bytes@) matches Ok((w, h, p)) ==> shows(
                    reduced(w, h, p, target_size(w, h, max_size)),
                    file@,
                )
            },
            Err(e) => resized_png(dds_bytes@, max_size) == Err::<Seq<u8>, TextureFault>(e@),
        },
{
    let image = decode_single_mip_dds(dds_bytes)?;
    write_reduced_png(&image, find_target_size(image.width, image.height, max_size))
}

/// The albedo of a model: its texture as PNG, reduced to a size limit and made opaque. The
/// alpha of such a texture is no opacity.
pub open spec fn albedo_png(b: Seq<u8>, max_size: Option<u32>) -> Option<Seq<u8>> {
    match resized_png(b, max_size) {
        Ok(png) => Some(opaque_png(png)),
        Err(_) => None,
    }
}

/// Makes the albedo of a model from its texture.
pub fn make_albedo(dds_bytes: &[u8], max_size: Option<u32>) -> (r: Option<Vec<u8>>)
    ensures
        match r {
            Some(file) => albedo_png(dds_bytes@, max_size) == Some(file@),
            None => albedo_png(dds_bytes@, max_size) is None,
        },
{
    match dds_to_png_resized(dds_bytes, max_size) {
        Ok(file) => {
            let mut png = file;
            force_png_opaque(&mut png);
            Some(png)
        },
        Err(_) => None,
    }
}

/// What a tile mask becomes as PNG when its zones take their colours.
pub open spec fn camo_png(b: Seq<u8>, colors: Seq<Seq<u8>>) -> Result<Seq<u8>, TextureFault> {
    match decoded_dds(b) {
        Ok((w, h, p)) => encoded_png(w, h, pixels::recoloured(p, colors)),
        Err(e) => Err(e),
    }
}

/// Bakes a camouflage tile: the zones of a colour-indexed mask take the four colours
/// of a scheme (sRGB bytes), dark zones the first one.
pub fn bake_tiled_camo_png(tile_dds_bytes: &[u8], colors: &[[u8; 4]; 4]) -> (r: Result<
    Vec<u8>,
    TextureError,
>)
    ensures
        match r {
            Ok(file) => {
                &&& camo_png(tile_dds_bytes@, pixels::color_views(colors@)) == Ok::<
                    Seq<u8>,
                    TextureFault,
                >(file@)
                &&& decoded_dds(tile_dds_bytes@) matches Ok((w, h, p)) ==> reads_back(
                    w,
                    h,
                    pixels::recoloured(p, pixels::color_views(colors@)),
                    file@,
                )
            },
            Err(e) => camo_png(tile_dds_bytes@, pixels::color_views(colors@)) == Err::<
                Seq<u8>,
                TextureFault,
            >(e@),
        },
{
    let image = decode_single_mip_dds(tile_dds_bytes)?;
    let baked = RgbaPixels {
        width: image.width,
        height: image.height,
        pixels: pixels::recolour(&image.pixels, colors),
    };
    write_png(&baked)
}

/// A picture file with its pixels replaced, as PNG.
pub open spec fn repacked_png(b: Seq<u8>, repack: spec_fn(Seq<u8>) -> Seq<u8>) -> Result<
    Seq<u8>,
    TextureFault,
> {
    match raster_image(b) {
        Ok((w, h, p)) => encoded_png(w, h, repack(p)),
        Err(m) => Err(TextureFault::DdsDecode(m)),
    }
}

/// Repacks a metallic-gloss picture as a metallic-roughness PNG.
pub fn repack_wg_mg_to_gltf_mr(png_bytes: &[u8]) -> (r: Result<Vec<u8>, TextureError>)
    ensures
        ({
            let expected = repacked_png(png_bytes@, |p: Seq<u8>| pixels::metallic_roughness(p));
            match r {
                Ok(file) => {
                    &&& expected == Ok::<Seq<u8>, TextureFault>(file@)
                    &&& raster_image(png_bytes@) matches Ok((w, h, p)) ==> reads_back(
                        w,
                        h,
                        pixels::metallic_roughness(p),
                        file@,
                    )
                },
                Err(e) => expected == Err::<Seq<u8>, TextureFault>(e@),
            }
        }),
{
    let image = match decode_raster(png_bytes) {
        Ok(image) => image,
        Err(message) => {
            return Err(TextureError::DdsDecode(message));
        },
    };
    let packed = RgbaPixels {
        width: image.width,
        height: image.height,
        pixels: pixels::to_metallic_roughness(&image.pixels),
    };
    write_png(&packed)
}

/// Rewrites the blue channel of a normal map picture as the Z component that
/// completes red and green.
pub fn replace_normal_b_with_reconstructed_z_png(png_bytes: &[u8]) -> (r: Result<
    Vec<u8>,
    TextureError,
>)
    ensures
        ({
            let expected = repacked_png(png_bytes@, |p: Seq<u8>| pixels::with_reconstructed_z(p));
            match r {
                Ok(file) => {
                    &&& expected == Ok::<Seq<u8>, TextureFault>(file@)
                    &&& raster_image(png_bytes@) matches Ok((w, h, p)) ==> reads_back(
                        w,
                        h,
                        pixels::with_reconstructed_z(p),
                        file@,
                    )
                },
                Err(e) => expected == Err::<Seq<u8>, TextureFault>(e@),
            }
        }),
{
    let image = match decode_raster(png_bytes) {
        Ok(image) => image,
        Err(message) => {
            return Err(TextureError::DdsDecode(message));
        },
    };
    let packed = RgbaPixels {
        width: image.width,
        height: image.height,
        pixels: pixels::reconstruct_normals(&image.pixels),
    };
    write_png(&packed)
}

/// Repacks a metallic-gloss DDS file as a metallic-roughness one.
pub fn swizzle_wg_mg_dds_to_mr(dds_bytes: &[u8]) -> (r: Result<Vec<u8>, TextureError>)
    ensures
        match decoded_dds(dds_bytes@) {
            Ok((w, h, p)) => if is_compressible(w, h, BlockFormat::Bc1) {
                r matches Ok(file) && is_compressed(
                    w,
                    h,
                    pixels::metallic_roughness(p),
                    BlockFormat::Bc1,
                    file@,
                )
            } else {
                r matches Err(e) && e@ == too_large()
            },
            Err(f) => r matches Err(e) && e@ == f,
        },
{
    let image = decode_single_mip_dds(dds_bytes)?;
    let packed = RgbaPixels {
        width: image.width,
        height: image.height,
        pixels: pixels::to_metallic_roughness(&image.pixels),
    };
    encode_single_mip_dds(&packed, BlockFormat::Bc1)
}

/// Splits a normal map DDS file into one with a reconstructed blue channel and one
/// with the former blue channel as its only channel.
pub fn split_wg_normal_dds(dds_bytes: &[u8]) -> (r: Result<(Vec<u8>, Vec<u8>), TextureError>)
    ensures
        match decoded_dds(dds_bytes@) {
            Ok((w, h, p)) => if is_compressible(w, h, BlockFormat::Bc7) {
                r matches Ok((normal, mask)) && is_compressed(
                    w,
                    h,
                    pixels::with_reconstructed_z(p),
                    BlockFormat::Bc7,
                    normal@,
                ) && is_compressed(w, h, pixels::blue_as_red(p), BlockFormat::Bc4, mask@)
            } else {
                r matches Err(e) && e@ == too_large()
            },
            Err(f) => r matches Err(e) && e@ == f,
        },
{
    let image = decode_single_mip_dds(dds_bytes)?;
    let normal = RgbaPixels {
        width: image.width,
        height: image.height,
        pixels: pixels::reconstruct_normals(&image.pixels),
    };
    let mask = RgbaPixels {
        width: image.width,
        height: image.height,
        pixels: pixels::extract_blue(&image.pixels),
    };
    assert(0 <= padded_area(image.width, image.height)) by {
        vstd::arithmetic::mul::lemma_mul_nonnegative(padded(image.width), padded(image.height));
    }
    let normal_dds = encode_single_mip_dds(&normal, BlockFormat::Bc7)?;
    let mask_dds = encode_single_mip_dds(&mask, BlockFormat::Bc4)?;
    Ok((normal_dds, mask_dds))
}

// ---- Tile atlases -----------------------------------------------------------

/// What `image_dds` makes of the top mip level of the first `layers` layers of a DDS
/// file: width, height, depth and RGBA bytes of all layers, or nothing where it fails.
pub uninterp spec fn dds_layers(b: Seq<u8>, layers: u32) -> Option<(u32, u32, u32, Seq<u8>)>;

/// The top mip level of several layers of a texture.
#[derive(Debug)]
struct Surface {
    width: u32,
    height: u32,
    depth: u32,
    data: Vec<u8>,
}

/// `ddsfile::Dds::read` followed by `SurfaceRgba8::decode_layers_mipmaps_dds` for the
/// first `layers` layers and mip level 0. The result is named [`dds_layers`]; it has at
/// least one pixel and four bytes for each. The numbers of faces and of uncompressed
/// pixels must fit 32 bits, and the decoded bytes the address space, because `image_dds`
/// multiplies them out; nor must there be more layers than the file has.
#[verifier::external_body]
fn decode_layers(b: &[u8], layers: u32) -> (r: Option<Surface>)
    requires
        has_countable_faces(b@),
        is_small_enough(b@),
        0 < layers <= faces(b@),
    ensures
        match r {
            Some(s) => dds_layers(b@, layers) == Some((s.width, s.height, s.depth, s.data@))
                && s.width > 0 && s.height > 0 && s.depth > 0 && s.data@.len() == 4 * (s.width
                * s.height) * s.depth * layers,
            None => dds_layers(b@, layers) is None,
        },
{
    let dds = image_dds::ddsfile::Dds::read(&mut std::io::Cursor::new(b)).ok()?;
    let s = image_dds::SurfaceRgba8::decode_layers_mipmaps_dds(&dds, 0..layers, 0..1).ok()?;
    Some(Surface { width: s.width, height: s.height, depth: s.depth, data: s.data })
}

/// The layer of an atlas with the given number: its first picture.
pub open spec fn tile_of(atlas: (u32, u32, u32, Seq<u8>), layers: int, i: u32) -> Option<
    pixels::ImageView,
> {
    let (w, h, d, data) = atlas;
    let size = 4 * (w * h);
    if i < layers {
        Some((w, h, data.subrange(i * (size * d), i * (size * d) + size)))
    } else {
        None
    }
}

/// The four layers of an atlas that a terrain material uses. A number without a layer
/// has no tile. An atlas too large to be decoded has no layers.
pub open spec fn tiles_of(b: Seq<u8>, tiles_index: Seq<u32>) -> Option<
    Seq<Option<pixels::ImageView>>,
> {
    if !has_countable_faces(b) || !is_small_enough(b) {
        None
    } else {
        match dds_layers(b, array_layers(b) as u32) {
            Some(atlas) => Some(
                Seq::new(
                    4,
                    |k: int|
                        tile_of(atlas, array_layers(b), single::whole(tiles_index[k]) as u32),
                ),
            ),
            None => None,
        }
    }
}

pub open spec fn opt_image(image: Option<RgbaPixels>) -> Option<pixels::ImageView> {
    match image {
        Some(i) => Some(i@),
        None => None,
    }
}

pub open spec fn opt_images(images: Seq<Option<RgbaPixels>>) -> Seq<Option<pixels::ImageView>> {
    Seq::new(images.len(), |i: int| opt_image(images[i]))
}

/// Where a layer stands in the data of all of them.
proof fn layers_lie_inside(size: int, depth: int, layers: int, i: int)
    requires
        0 <= size,
        1 <= depth,
        0 <= i < layers,
    ensures
        0 <= size * depth,
        0 <= i * (size * depth),
        i * (size * depth) + size <= size * depth * layers,
{
    assert(0 <= size * depth && size <= size * depth) by (nonlinear_arith)
        requires
            0 <= size,
            1 <= depth,
    ;
    let layer = size * depth;
    assert(0 <= i * layer && i * layer + layer <= layer * layers) by (nonlinear_arith)
        requires
            0 <= layer,
            0 <= i < layers,
    ;
}

/// Whether an image has pixels, and all of them.
pub open spec fn is_tile(image: RgbaPixels) -> bool {
    image.is_complete() && image.width > 0 && image.height > 0
}

fn cut_tile(s: &Surface, layers: u32, i: u32) -> (r: Option<RgbaPixels>)
    requires
        s.width > 0 && s.height > 0,
        s.depth > 0,
        s.data.len() == 4 * (s.width * s.height) * s.depth * layers,
    ensures
        opt_image(r) == tile_of((s.width, s.height, s.depth, s.data@), layers as int, i),
        r matches Some(image) ==> is_tile(image),
{
    if i >= layers {
        return None;
    }
    assert(0 <= s.width * s.height <= 0xFFFF_FFFF * 0xFFFF_FFFF) by (nonlinear_arith)
        requires
            0 <= s.width <= 0xFFFF_FFFF,
            0 <= s.height <= 0xFFFF_FFFF,
    ;
    let size: u128 = 4 * (s.width as u128 * s.height as u128);
    proof {
        layers_lie_inside(size as int, s.depth as int, layers as int, i as int);
        layers_lie_inside(size as int, s.depth as int, layers as int, layers - 1);
        assert(size * s.depth <= s.data.len()) by (nonlinear_arith)
            requires
                0 <= size * s.depth,
                1 <= layers,
                s.data.len() == size * s.depth * layers,
        ;
    }
    let layer: u128 = size * s.depth as u128;
    let start: usize = (i as u128 * layer) as usize;
    let end: usize = start + size as usize;
    let mut pixels: Vec<u8> = Vec::new();
    let mut k: usize = start;
    while k < end
        invariant
            start <= k <= end <= s.data.len(),
            pixels@ == s.data@.subrange(start as int, k as int),
        decreases end - k,
    {
        pixels.push(s.data[k]);
        k += 1;
    }
    Some(RgbaPixels { width: s.width, height: s.height, pixels })
}

/// Cuts the four layers that a terrain material uses out of its tile atlas. `tiles_index`
/// holds their numbers in single precision.
pub fn tile_layers(atlas: &[u8], tiles_index: &[u32; 4]) -> (r: Option<Vec<Option<RgbaPixels>>>)
    ensures
        match r {
            Some(tiles) => tiles_of(atlas@, tiles_index@) == Some(opt_images(tiles@)),
            None => tiles_of(atlas@, tiles_index@) is None,
        },
        r matches Some(tiles) ==> tiles@.len() == 4 && forall|k: int|
            0 <= k < tiles@.len() ==> ((#[trigger] tiles@[k]) matches Some(image) ==> is_tile(image)),
{
    if count_faces(atlas) > 0xFFFF_FFFF || !fits(atlas) {
        return None;
    }
    let layers: u32 = count_layers(atlas);
    let surface = match decode_layers(atlas, layers) {
        Some(s) => s,
        None => {
            return None;
        },
    };
    let ghost view = (surface.width, surface.height, surface.depth, surface.data@);
    let mut tiles: Vec<Option<RgbaPixels>> = Vec::new();
    let mut k: usize = 0;
    while k < 4
        invariant
            k <= 4,
            tiles@.len() == k,
            surface.depth > 0,
            surface.data.len() == 4 * (surface.width * surface.height) * surface.depth * layers,
            view == (surface.width, surface.height, surface.depth, surface.data@),
            forall|j: int|
                0 <= j < k ==> opt_image(#[trigger] tiles@[j]) == tile_of(
                    view,
                    layers as int,
                    single::whole(tiles_index@[j]) as u32,
                ),
            surface.width > 0 && surface.height > 0,
            forall|j: int|
                0 <= j < k ==> ((#[trigger] tiles@[j]) matches Some(image) ==> is_tile(image)),
        decreases 4 - k,
    {
        tiles.push(cut_tile(&surface, layers, single::to_u32(tiles_index[k])));
        k += 1;
    }
    assert(opt_images(tiles@) =~= tiles_of(atlas@, tiles_index@)->0);
    Some(tiles)
}

// ---- What sizes and atlases amount to ---------------------------------------

/// Where all sides are powers of two, both sides of an image are halved until the longer
/// one keeps the limit; a side does not go below one pixel.
pub proof fn sides_are_halved_together(w: u32, h: u32, max: u32, a: nat, b: nat, c: nat)
    requires
        a <= 23,
        b <= 23,
        w == pow2(a),
        h == pow2(b),
        max == pow2(c),
        c < a || c < b,
    ensures
        ({
            let longer = if a < b {
                b
            } else {
                a
            };
            let side = |n: nat|
                if n + c < longer {
                    1int
                } else {
                    pow2((n + c - longer) as nat) as int
                };
            &&& target_size(w, h, Some(max)) matches Some((nw, nh))
            &&& nw == side(a)
            &&& nh == side(b)
        }),
{
    lemma2_to64();
    let longer: nat = if a < b {
        b
    } else {
        a
    };
    powers_are_small(a);
    powers_are_small(b);
    powers_are_small(c);
    lemma_pow2_strictly_increases(c, longer);
    exact::integers(w);
    exact::integers(h);
    exact::integers(max);
    let m = arith::integer_form(max);
    let (x, y) = (arith::quotient(m, arith::integer_form(w)), arith::quotient(m, arith::integer_form(h)));
    exact::quotients_by_powers(m, arith::integer_form(w), max as int, 0, a);
    exact::quotients_by_powers(m, arith::integer_form(h), max as int, 0, b);
    let f = reduction(w, h, max);
    quotients_order(x, y, max as int, a, b);
    assert(exact::stands_for(f, max as int, longer));
    halved_sides(w, f, a, c, longer, max);
    halved_sides(h, f, b, c, longer, max);
}

proof fn powers_are_small(k: nat)
    requires
        k <= 23,
    ensures
        0 < pow2(k) <= 0x80_0000,
{
    lemma2_to64();
    lemma_pow2_pos(k);
    if k < 23 {
        lemma_pow2_strictly_increases(k, 23);
    }
}

proof fn quotients_order(x: u32, y: u32, m: int, a: nat, b: nat)
    requires
        a <= 23,
        b <= 23,
        0 < m < 0x100_0000,
        exact::stands_for(x, m, a),
        exact::stands_for(y, m, b),
    ensures
        arith::is_less(y, x) <==> a < b,
        a == b ==> x == y,
{
    if a == b {
        exact::patterns_are_unique(x, y, m, a);
    } else if a < b {
        lemma_pow2_strictly_increases((149 - b) as nat, (149 - a) as nat);
        let (p, q) = (pow2((149 - a) as nat) as int, pow2((149 - b) as nat) as int);
        assert(m * q < m * p) by (nonlinear_arith)
            requires
                0 < m,
                q < p,
        ;
    } else {
        lemma_pow2_strictly_increases((149 - a) as nat, (149 - b) as nat);
        let (p, q) = (pow2((149 - a) as nat) as int, pow2((149 - b) as nat) as int);
        assert(m * p < m * q) by (nonlinear_arith)
            requires
                0 < m,
                p < q,
        ;
    }
}

proof fn halved_sides(side: u32, f: u32, n: nat, c: nat, longer: nat, max: u32)
    requires
        n <= longer <= 23,
        c < longer,
        side == pow2(n),
        max == pow2(c),
        exact::stands_for(f, max as int, longer),
    ensures
        scaled_side(side, f) == if n + c < longer {
            1int
        } else {
            pow2((n + c - longer) as nat) as int
        },
{
    powers_are_small(n);
    powers_are_small(c);
    lemma_pow2_pos(c);
    exact::integers(side);
    let s = arith::integer_form(side);
    exact::products_commute(s, f);
    exact::products_with_powers(f, s, max as int, longer, n);
    let k = (longer - n) as nat;
    let r = arith::product(s, f);
    exact::whole_parts(r, max as int, k);
    lemma_pow2_pos(k);
    if n + c < longer {
        lemma_pow2_strictly_increases(c, k);
        lemma_basic_div(max as int, pow2(k) as int);
    } else {
        let d = (c - k) as nat;
        lemma_pow2_adds(d, k);
        lemma_pow2_pos(d);
        lemma_div_multiples_vanish(pow2(d) as int, pow2(k) as int);
        assert(pow2(d) * pow2(k) == pow2(k) * pow2(d)) by (nonlinear_arith);
    }
}

/// Layers one after the other.
pub open spec fn stacked(layers: Seq<Seq<u8>>) -> Seq<u8>
    decreases layers.len(),
{
    if layers.len() == 0 {
        Seq::empty()
    } else {
        stacked(layers.drop_last()) + layers.last()
    }
}

#[verifier::rlimit(50)]
proof fn layers_are_found(layers: Seq<Seq<u8>>, size: int, i: int)
    requires
        0 <= size,
        0 <= i < layers.len(),
        forall|k: int| 0 <= k < layers.len() ==> (#[trigger] layers[k]).len() == size,
    ensures
        stacked(layers).len() == layers.len() * size,
        (i + 1) * size <= stacked(layers).len(),
        stacked(layers).subrange(i * size, (i + 1) * size) == layers[i],
    decreases layers.len(),
{
    let rest = layers.drop_last();
    let n = rest.len() as int;
    assert((n + 1) * size == n * size + size) by (nonlinear_arith);
    assert((i + 1) * size == i * size + size) by (nonlinear_arith);
    if n == 0 {
        assert(stacked(rest) =~= Seq::empty());
        assert(0 * size == 0);
        assert(stacked(layers) =~= layers[0]);
        assert(layers[0].len() == size);
        assert(stacked(layers).subrange(0, size) =~= layers[0]);
    } else {
        assert forall|k: int| 0 <= k < rest.len() implies (#[trigger] rest[k]).len() == size by {
            assert(rest[k] == layers[k]);
        }
        let j = if i < n {
            i
        } else {
            0
        };
        layers_are_found(rest, size, j);
        assert(layers[n].len() == size);
        assert(0 <= i * size) by (nonlinear_arith)
            requires
                0 <= i,
                0 <= size,
        ;
        if i < n {
            assert(stacked(layers).subrange(i * size, (i + 1) * size) =~= stacked(rest).subrange(
                i * size,
                (i + 1) * size,
            ));
            assert(rest[i] == layers[i]);
        } else {
            assert(stacked(layers).subrange(n * size, (n + 1) * size) =~= layers[n]);
        }
    }
}

/// A tile of an atlas is the first slice of the layer of its number; there is none of a
/// number that the atlas does not have.
pub proof fn tiles_are_the_layers_of_the_atlas(
    w: u32,
    h: u32,
    d: u32,
    layers: Seq<Seq<u8>>,
    i: u32,
)
    requires
        d > 0,
        forall|k: int| 0 <= k < layers.len() ==> (#[trigger] layers[k]).len() == 4 * (w * h) * d,
    ensures
        i < layers.len() ==> tile_of((w, h, d, stacked(layers)), layers.len() as int, i) == Some(
            (w, h, layers[i as int].take(4 * (w * h))),
        ),
        i >= layers.len() ==> tile_of((w, h, d, stacked(layers)), layers.len() as int, i) is None,
{
    if i < layers.len() {
        let size = 4 * (w * h) * d;
        assert(0 <= 4 * (w * h) <= size) by (nonlinear_arith)
            requires
                size == 4 * (w * h) * d,
                d >= 1,
        ;
        layers_are_found(layers, size, i as int);
        let at = i * size;
        assert((i + 1) * size == at + size) by (nonlinear_arith)
            requires
                at == i * size,
        ;
        assert(layers[i as int].len() == size);
        assert(stacked(layers).subrange(at, at + 4 * (w * h)) =~= stacked(layers).subrange(
            at,
            at + size,
        ).take(4 * (w * h)));
    }
}

/// Each of the four layers of a terrain shows the tile of its own number.
pub proof fn layers_show_the_tiles_of_their_numbers(b: Seq<u8>, index: Seq<u32>, k: int, n: int)
    requires
        0 <= k < 4,
        0 <= n < 0x100_0000,
        exact::stands_for(index[k], n, 0),
        !single::is_negative(index[k]),
        tiles_of(b, index) is Some,
        dds_layers(b, array_layers(b) as u32) is Some,
    ensures
        (tiles_of(b, index)->0).len() == 4,
        (tiles_of(b, index)->0)[k] == tile_of(
            dds_layers(b, array_layers(b) as u32)->0,
            array_layers(b),
            n as u32,
        ),
{
    lemma2_to64();
    exact::whole_parts(index[k], n, 0);
    assert(n / 1 == n);
}

/// A DDS file's header with its extension: magic, header size, flags, height, width,
/// pitch, depth, mip count, reserved words, pixel format size and flags, code, masks, two
/// capability words, reserved words, format, dimension, miscellaneous flag, array size
/// and alpha mode.
pub open spec fn dds_header(
    flags: u32,
    height: u32,
    width: u32,
    depth: u32,
    mips: u32,
    format_flags: u32,
    code: u32,
    caps: u32,
    format: u32,
    misc: u32,
    layers: u32,
    unread: (Seq<u8>, Seq<u8>, Seq<u8>, Seq<u8>, Seq<u8>, Seq<u8>, Seq<u8>),
) -> Seq<Seq<u8>> {
    seq![
        unread.0,
        layout::le32(flags),
        layout::le32(height),
        layout::le32(width),
        unread.1,
        layout::le32(depth),
        layout::le32(mips),
        unread.2,
        layout::le32(format_flags),
        layout::le32(code),
        unread.3,
        layout::le32(caps),
        unread.4,
        layout::le32(format),
        unread.5,
        layout::le32(misc),
        layout::le32(layers),
        unread.6,
    ]
}

/// The header of a DDS file with the extension for arrays is read as it was written: as
/// many layers as it says, at least one, six faces each for a cube map, and as many rows
/// as all of them have together.
#[verifier::rlimit(60)]
pub proof fn array_headers_are_read_as_written(
    b: Seq<u8>,
    flags: u32,
    height: u32,
    width: u32,
    depth: u32,
    mips: u32,
    caps: u32,
    format: u32,
    misc: u32,
    layers: u32,
    unread: (Seq<u8>, Seq<u8>, Seq<u8>, Seq<u8>, Seq<u8>, Seq<u8>, Seq<u8>),
)
    requires
        unread.0.len() == 8,
        unread.1.len() == 4,
        unread.2.len() == 48,
        unread.3.len() == 24,
        unread.4.len() == 12,
        unread.5.len() == 4,
        unread.6.len() == 4,
        layout::holds(
            b,
            0,
            layout::joined(
                dds_header(
                    flags,
                    height,
                    width,
                    depth,
                    mips,
                    4,
                    0x3031_5844,
                    caps,
                    format,
                    misc,
                    layers,
                    unread,
                ),
            ),
        ),
    ensures
        is_dx10(b),
        array_layers(b) == if layers == 0 {
            1
        } else {
            layers as int
        },
        misc / 4 % 2 == 1 ==> faces(b) == 6 * array_layers(b),
        misc / 4 % 2 == 0 ==> faces(b) == array_layers(b),
        flags / 0x80_0000 % 2 == 0 ==> rows(b) == height * 1 * faces(b),
        flags / 0x80_0000 % 2 == 1 ==> rows(b) == height * depth * faces(b),
        shares_layers(b) <==> flags / 0x2_0000 % 2 == 1 && mips == 0,
        is_block_compressed(b) <==> 70 <= format <= 84 || 94 <= format <= 99,
        bytes::u32_at(b, 16) == width,
{
    let f = dds_header(
        flags,
        height,
        width,
        depth,
        mips,
        4,
        0x3031_5844,
        caps,
        format,
        misc,
        layers,
        unread,
    );
    layout::numbers_have_fixed_sizes();
    assert(layout::offset(f, 0) == 0);
    assert(layout::offset(f, 1) == 8);
    assert(layout::offset(f, 2) == 12);
    assert(layout::offset(f, 3) == 16);
    assert(layout::offset(f, 4) == 20);
    assert(layout::offset(f, 5) == 24);
    assert(layout::offset(f, 6) == 28);
    assert(layout::offset(f, 7) == 32);
    assert(layout::offset(f, 8) == 80);
    assert(layout::offset(f, 9) == 84);
    assert(layout::offset(f, 10) == 88);
    assert(layout::offset(f, 11) == 112);
    assert(layout::offset(f, 12) == 116);
    assert(layout::offset(f, 13) == 128);
    assert(layout::offset(f, 14) == 132);
    assert(layout::offset(f, 15) == 136);
    assert(layout::offset(f, 16) == 140);
    assert(layout::offset(f, 17) == 144);
    layout::field_stands(b, 0, f, 1);
    layout::field_stands(b, 0, f, 2);
    layout::field_stands(b, 0, f, 3);
    layout::field_stands(b, 0, f, 5);
    layout::field_stands(b, 0, f, 6);
    layout::field_stands(b, 0, f, 8);
    layout::field_stands(b, 0, f, 9);
    layout::field_stands(b, 0, f, 13);
    layout::field_stands(b, 0, f, 15);
    layout::field_stands(b, 0, f, 16);
    layout::field_stands(b, 0, f, 17);
    layout::reads_32(b, 8, flags);
    layout::reads_32(b, 12, height);
    layout::reads_32(b, 16, width);
    layout::reads_32(b, 24, depth);
    layout::reads_32(b, 28, mips);
    layout::reads_32(b, 80, 4);
    layout::reads_32(b, 84, 0x3031_5844);
    layout::reads_32(b, 128, format);
    layout::reads_32(b, 136, misc);
    layout::reads_32(b, 140, layers);
}

/// The albedo of a model is opaque: its file is that of the reduced picture with every alpha
/// at its highest and the colours as they were.
pub proof fn albedos_are_opaque(
    b: Seq<u8>,
    max_size: Option<u32>,
    png: Seq<u8>,
    w: u32,
    h: u32,
    p: Seq<u8>,
    q: Seq<u8>,
    file: Seq<u8>,
)
    requires
        resized_png(b, max_size) == Ok::<Seq<u8>, TextureFault>(png),
        raster_image(png) == Ok::<(u32, u32, Seq<u8>), Seq<char>>((w, h, p)),
        p.len() % 4 == 0,
        q.len() == p.len(),
        forall|i: int| 0 <= i < q.len() ==> #[trigger] q[i] == if i % 4 == 3 {
            255u8
        } else {
            p[i]
        },
        png_file(w, h, q) == Ok::<Seq<u8>, Seq<char>>(file),
    ensures
        albedo_png(b, max_size) == Some(file),
{
    assert(pixels::opaque(p) =~= q);
}

/// Reduced pictures have the size that they are reduced to, others the size that they had.
pub proof fn reduced_pictures_have_the_target_size(
    w: u32,
    h: u32,
    p: Seq<u8>,
    nw: u32,
    nh: u32,
)
    ensures
        reduced(w, h, p, None) == (w, h, p),
        reduced(w, h, p, Some((nw, nh))).0 == nw,
        reduced(w, h, p, Some((nw, nh))).1 == nh,
        reduced(w, h, p, Some((nw, nh))).2.len() == 4 * (nw * nh),
{
}

} // verus!
