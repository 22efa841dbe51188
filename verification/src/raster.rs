//! RGB rasters with 8-bit channels: decoding them from and encoding them to
//! image files in the format a file name's extension names, reading their
//! pixels as palette colours, and shrinking them by an integer factor with
//! nearest-neighbour sampling.

use crate::file_names::{ascii_bytes, ascii_lowercase, image_format_from_extension, is_known_image_extension};
use image::{imageops::FilterType, DynamicImage, ImageError, ImageFormat, RgbImage};
use palette::cast::FromComponents;
use palette::Srgb;
use vstd::prelude::*;
use vstd::arithmetic::div_mod::{lemma_fundamental_div_mod, lemma_mod_multiples_basic};

verus! {

/// An sRGB colour with 8-bit channels.
#[derive(Clone, Copy, Debug, PartialEq, Eq, Structural)]
pub struct Rgb8 {
    pub red: u8,
    pub green: u8,
    pub blue: u8,
}

/// The colour of pixel `i` of a row-major buffer of RGB triples.
pub open spec fn pixel_at(bytes: Seq<u8>, i: int) -> Rgb8 {
    Rgb8 { red: bytes[3 * i], green: bytes[3 * i + 1], blue: bytes[3 * i + 2] }
}

/// A `width` x `height` raster stored row-major, three bytes per pixel.
pub struct RgbPixels {
    width: u32,
    height: u32,
    bytes: Vec<u8>,
}

impl View for RgbPixels {
    /// Width, height and the channel bytes.
    type V = (u32, u32, Seq<u8>);

    closed spec fn view(&self) -> (u32, u32, Seq<u8>) {
        (self.width, self.height, self.bytes@)
    }
}

/// The raster that the image library's `DynamicImage::resize` with the
/// nearest-neighbour filter makes of raster `image` for the bounds
/// `(nwidth, nheight)`.
pub uninterp spec fn nearest_resize(image: (u32, u32, Seq<u8>), nwidth: u32, nheight: u32) -> (u32, u32, Seq<u8>);

/// Calls `DynamicImage::resize` of the `image` crate with
/// `FilterType::Nearest` on the raster as an `RgbImage`, and takes the result
/// back as a raster. The contract claims what the crate's source shows: the
/// result is a function of the raster and the bounds alone, named
/// `nearest_resize`; bounds equal to the raster's size give back a copy of the
/// raster; other bounds give a raster of at least one pixel each way that fits
/// in the bounds, a bound of zero counting as one (`resize_dimensions` scales
/// both sides by the smaller ratio, rounds, and raises zero to one); and the
/// buffer holds exactly three bytes per pixel, as `ImageBuffer::new` allocates
/// it. For a raster of at least one pixel each way, the side whose bound is
/// the tighter one in the raster's aspect ratio gets exactly its bound (a zero
/// bound counting as one), and the other side is the raster's side scaled by
/// the same ratio and rounded, so within one pixel of it: `resize_dimensions`
/// scales both sides by the smaller `f64` ratio and rounds, and for sides
/// below `2^32` the `f64` error is far below half a pixel. Which pixels are
/// sampled is not stated.
#[verifier::external_body]
fn resize_nearest(image: &RgbPixels, nwidth: u32, nheight: u32) -> (r: RgbPixels)
    ensures
        r@ == nearest_resize(image@, nwidth, nheight),
        r@.2.len() == 3 * r@.0 * r@.1,
        nwidth == image@.0 && nheight == image@.1 ==> r@ == image@,
        !(nwidth == image@.0 && nheight == image@.1) ==> {
            &&& 1 <= r@.0 && (r@.0 <= nwidth || r@.0 == 1)
            &&& 1 <= r@.1 && (r@.1 <= nheight || r@.1 == 1)
        },
        image@.0 > 0 && image@.1 > 0 && nwidth * image@.1 <= nheight * image@.0 ==> {
            &&& r@.0 == (if nwidth == 0 { 1 } else { nwidth })
            &&& (r@.1 - 1) * image@.0 <= image@.1 * nwidth <= (r@.1 + 1) * image@.0
        },
        image@.0 > 0 && image@.1 > 0 && nheight * image@.0 <= nwidth * image@.1 ==> {
            &&& r@.1 == (if nheight == 0 { 1 } else { nheight })
            &&& (r@.0 - 1) * image@.1 <= image@.0 * nheight <= (r@.0 + 1) * image@.1
        },
{
    let buffer = RgbImage::from_raw(image.width, image.height, image.bytes.clone()).unwrap();
    let resized = DynamicImage::ImageRgb8(buffer).resize(nwidth, nheight, FilterType::Nearest).into_rgb8();
    let (width, height) = resized.dimensions();
    RgbPixels { width, height, bytes: resized.into_raw() }
}

/// Calls `FromComponents::from_components` of the `palette` crate to read a
/// component slice as a slice of `Srgb<u8>`, and copies each colour out. The
/// contract claims what the crate documents: every three components form one
/// colour, in order (red, green, blue); the call panics when the length is not
/// a multiple of three, which `requires` rules out.
#[verifier::external_body]
fn colours_from_components(components: &[u8]) -> (colours: Vec<Rgb8>)
    requires
        components@.len() % 3 == 0,
    ensures
        3 * colours@.len() == components@.len(),
        forall|i: int| 0 <= i < colours@.len() ==> #[trigger] colours@[i] == pixel_at(components@, i),
{
    <&[Srgb<u8>]>::from_components(components)
        .iter()
        .map(|c| Rgb8 { red: c.red, green: c.green, blue: c.blue })
        .collect()
}

impl RgbPixels {
    #[verifier::type_invariant]
    spec fn inv(self) -> bool {
        self.bytes@.len() == 3 * self.width * self.height
    }

    /// Takes a row-major buffer of RGB triples as a `width` x `height`
    /// raster; `None` when the buffer does not hold exactly that many pixels.
    pub fn from_raw(width: u32, height: u32, bytes: Vec<u8>) -> (r: Option<RgbPixels>)
        ensures
            match r {
                Some(r) => r@ == (width, height, bytes@),
                None => bytes@.len() != 3 * width * height,
            },
    {
        assert(width as u64 * height as u64 <= 0xffff_fffe_0000_0001) by (nonlinear_arith)
            requires
                width <= 0xffff_ffff,
                height <= 0xffff_ffff,
        ;
        let pixels = width as u64 * height as u64;
        assert(3 * width * height == 3 * (width * height)) by (nonlinear_arith);
        let len = bytes.len();
        if pixels > usize::MAX as u64 / 3 {
            let ghost m = usize::MAX as int;
            assert(3 * pixels > m) by (nonlinear_arith)
                requires
                    pixels > m / 3,
                    m > 0,
            ;
            assert(bytes@.len() != 3 * width * height);
            return None;
        }
        let expected = 3 * (pixels as usize);
        if len == expected {
            Some(RgbPixels { width, height, bytes })
        } else {
            None
        }
    }

    /// The width in pixels.
    pub fn width(&self) -> (w: u32)
        ensures
            w == self@.0,
    {
        self.width
    }

    /// The height in pixels.
    pub fn height(&self) -> (h: u32)
        ensures
            h == self@.1,
    {
        self.height
    }

    /// The channel bytes, row-major, three per pixel.
    pub fn into_raw(self) -> (bytes: Vec<u8>)
        ensures
            bytes@ == self@.2,
            bytes@.len() == 3 * self@.0 * self@.1,
    {
        proof {
            use_type_invariant(&self);
        }
        self.bytes
    }
}

/// The colours of a palette image: one colour per pixel, in row-major order.
pub fn palette_from_image(image: &RgbPixels) -> (colours: Vec<Rgb8>)
    ensures
        colours@.len() == image@.0 * image@.1,
        forall|i: int| 0 <= i < colours@.len() ==> #[trigger] colours@[i] == pixel_at(image@.2, i),
{
    proof {
        use_type_invariant(image);
        let p = image.width as int * image.height as int;
        assert(3 * image.width * image.height == p * 3) by (nonlinear_arith)
            requires
                p == image.width as int * image.height as int,
        ;
        lemma_mod_multiples_basic(p, 3);
    }
    colours_from_components(image.bytes.as_slice())
}

/// Sides that `scale` divides shrink in their own ratio, to at least one.
proof fn lemma_divisible_sides_keep_ratio(w: int, h: int, scale: int)
    requires
        w > 0,
        h > 0,
        scale > 0,
        w % scale == 0,
        h % scale == 0,
    ensures
        (w / scale) * h == (h / scale) * w,
        w / scale >= 1,
        h / scale >= 1,
{
    let a = w / scale;
    let b = h / scale;
    lemma_fundamental_div_mod(w, scale);
    lemma_fundamental_div_mod(h, scale);
    assert(a * h == b * w && a >= 1 && b >= 1) by (nonlinear_arith)
        requires
            w == scale * a + 0,
            h == scale * b + 0,
            w > 0,
            h > 0,
            scale > 0,
    ;
}

/// Shrinks a raster by the factor `scale`: the image library's
/// nearest-neighbour resize into the bounds `width / scale` by
/// `height / scale`, which keeps the aspect ratio. A scale of one keeps the
/// raster as it is; otherwise the result is no larger than the bounds, and at
/// least one pixel each way. The aspect ratio is kept: the tighter bound is
/// met exactly and the other side is within one pixel of the scaled side; when
/// `scale` divides both sides, the result has exactly the bounds' size.
pub fn shrink_image(image: &RgbPixels, scale: u32) -> (r: RgbPixels)
    requires
        scale > 0,
    ensures
        r@ == nearest_resize(image@, (image@.0 / scale) as u32, (image@.1 / scale) as u32),
        scale == 1 ==> r@ == image@,
        image@.0 / scale == image@.0 && image@.1 / scale == image@.1 ==> r@ == image@,
        !(image@.0 / scale == image@.0 && image@.1 / scale == image@.1) ==> {
            &&& 1 <= r@.0 <= (if image@.0 / scale == 0 { 1 } else { image@.0 / scale })
            &&& 1 <= r@.1 <= (if image@.1 / scale == 0 { 1 } else { image@.1 / scale })
        },
        image@.0 > 0 && image@.1 > 0 && (image@.0 / scale) * image@.1 <= (image@.1 / scale) * image@.0
            ==> {
            &&& r@.0 == (if image@.0 / scale == 0 { 1 } else { image@.0 / scale })
            &&& (r@.1 - 1) * image@.0 <= image@.1 * (image@.0 / scale) <= (r@.1 + 1) * image@.0
        },
        image@.0 > 0 && image@.1 > 0 && (image@.1 / scale) * image@.0 <= (image@.0 / scale) * image@.1
            ==> {
            &&& r@.1 == (if image@.1 / scale == 0 { 1 } else { image@.1 / scale })
            &&& (r@.0 - 1) * image@.1 <= image@.0 * (image@.1 / scale) <= (r@.0 + 1) * image@.1
        },
        image@.0 > 0 && image@.1 > 0 && image@.0 % scale == 0 && image@.1 % scale == 0 ==> {
            &&& r@.0 == image@.0 / scale
            &&& r@.1 == image@.1 / scale
        },
{
    let w = image.width;
    let h = image.height;
    proof {
        if scale == 1 {
            assert(w / scale == w && h / scale == h);
        }
        if w > 0 && h > 0 && w % scale == 0 && h % scale == 0 {
            lemma_divisible_sides_keep_ratio(w as int, h as int, scale as int);
        }
    }
    resize_nearest(image, w / scale, h / scale)
}

/// The raster that the image library decodes from a file's `bytes` when the
/// file name's extension is `extension`, converted to RGB with 8-bit channels;
/// `None` when the bytes do not decode in that format.
pub uninterp spec fn decoded_raster(bytes: Seq<u8>, extension: Seq<u8>) -> Option<(u32, u32, Seq<u8>)>;

/// The bytes of the file that the image library writes for raster `image` when
/// the file name's extension is `extension`; `None` when the format cannot
/// hold the raster.
pub uninterp spec fn encoded_image(image: (u32, u32, Seq<u8>), extension: Seq<u8>) -> Option<Seq<u8>>;

/// Whether the extension names the AVIF format, whose encoder splits the image
/// into as many tiles as the machine runs threads.
pub open spec fn is_avif_extension(extension: Seq<u8>) -> bool {
    ascii_lowercase(extension) == ascii_bytes("avif"@)
}

/// Whether the extension names the PNG format.
pub open spec fn is_png_extension(extension: Seq<u8>) -> bool {
    let l = ascii_lowercase(extension);
    l == seq![0x70u8, 0x6e, 0x67] || l == seq![0x61u8, 0x70, 0x6e, 0x67]
}

/// The eight bytes every PNG file starts with.
pub open spec fn png_signature() -> Seq<u8> {
    seq![0x89u8, 0x50, 0x4e, 0x47, 0x0d, 0x0a, 0x1a, 0x0a]
}

/// The chunk type `IHDR` that follows the signature and the chunk length.
pub open spec fn png_header_chunk() -> Seq<u8> {
    seq![0x49u8, 0x48, 0x44, 0x52]
}

/// The box type `ftyp` and major brand `avif` that open an AVIF file after the
/// box size.
pub open spec fn avif_file_type() -> Seq<u8> {
    seq![0x66u8, 0x74, 0x79, 0x70, 0x61, 0x76, 0x69, 0x66]
}

/// `v` as four bytes, most significant first.
pub open spec fn big_endian_u32(v: u32) -> Seq<u8> {
    seq![(v / 0x100_0000) as u8, ((v / 0x1_0000) % 0x100) as u8, ((v / 0x100) % 0x100) as u8, (v % 0x100) as u8]
}

/// What an encoding of `image` written with `extension` starts with: every
/// successful encoding holds bytes; a PNG one starts with the signature and a
/// header chunk holding the raster's width and height; an AVIF one starts with
/// the `ftyp` box of brand `avif`.
pub open spec fn encoding_has_format_header(image: (u32, u32, Seq<u8>), extension: Seq<u8>, bytes: Seq<u8>) -> bool {
    &&& bytes.len() > 0
    &&& is_png_extension(extension) ==> {
        &&& bytes.len() >= 24
        &&& bytes.take(8) == png_signature()
        &&& bytes.subrange(12, 16) == png_header_chunk()
        &&& bytes.subrange(16, 20) == big_endian_u32(image.0)
        &&& bytes.subrange(20, 24) == big_endian_u32(image.1)
    }
    &&& is_avif_extension(extension) ==> {
        &&& bytes.len() >= 12
        &&& bytes.subrange(4, 12) == avif_file_type()
    }
}

#[verifier::external_type_specification]
#[verifier::external_body]
pub struct ExImageError(ImageError);

/// Why an image file could not be read or written.
#[derive(Debug)]
pub enum ImageFileError {
    /// The file name's extension names no image format.
    UnknownFormat,
    /// The image library's decoder or encoder reported this error.
    Codec(ImageError),
}

/// Decodes `bytes` with `image::load_from_memory_with_format` in the format
/// that `ImageFormat::from_extension` gives for the extension read as text,
/// which is how `ImageReader::open` followed by `decode` picks the format of a
/// file, and converts the image with `DynamicImage::into_rgb8`. The extension
/// must name a format, so `from_extension` gives one. The contract claims what
/// the crate's source shows: whether and to what the bytes decode is a
/// function of the bytes and the extension, named `decoded_raster`, and a
/// decoded buffer holds exactly three bytes per pixel (`decoder_to_vec` and
/// `ImageBuffer::new` allocate it so). Which images decode, and to what, is not
/// stated, nor which error comes back.
#[verifier::external_body]
fn decode_with_extension(bytes: &[u8], extension: &[u8]) -> (r: Result<RgbPixels, ImageError>)
    requires
        is_known_image_extension(extension@),
    ensures
        r is Ok <==> decoded_raster(bytes@, extension@) is Some,
        r matches Ok(p) ==> decoded_raster(bytes@, extension@) == Some(p@) && p@.2.len() == 3 * p@.0 * p@.1,
{
    let format = ImageFormat::from_extension(&*String::from_utf8_lossy(extension)).unwrap();
    let decoded = image::load_from_memory_with_format(bytes, format)?.into_rgb8();
    let (width, height) = decoded.dimensions();
    Ok(RgbPixels { width, height, bytes: decoded.into_raw() })
}

/// Encodes the raster with `ImageBuffer::write_to` in the format that
/// `ImageFormat::from_extension` gives for the extension read as text, which is
/// how `ImageBuffer::save` picks the format from a path (`save_buffer` and
/// `write_buffer_with_format` use the same `encoder_for_format`). The extension
/// must name a format, so `from_extension` gives one. For every format but
/// AVIF the contract claims that the outcome is a function of the raster and
/// the extension, named `encoded_image`. Nothing is claimed for AVIF: ravif
/// sets the number of AV1 tiles from `rayon::current_num_threads()`, so the
/// bytes depend on the machine. For every format the contract claims what
/// the encoders write first: every encoder that succeeds writes a header, the
/// PNG encoder (`png::Writer::encode_header`) the signature and then the
/// `IHDR` chunk with the width and height big-endian, and ravif the file
/// `avif_serialize` makes, whose first box is `ftyp` with major brand `avif`.
/// The rest of the bytes is not stated, nor which error comes back.
#[verifier::external_body]
fn encode_with_extension(image: &RgbPixels, extension: &[u8]) -> (r: Result<Vec<u8>, ImageError>)
    requires
        is_known_image_extension(extension@),
    ensures
        r matches Ok(b) ==> encoding_has_format_header(image@, extension@, b@),
        !is_avif_extension(extension@) ==> {
            &&& (r is Ok <==> encoded_image(image@, extension@) is Some)
            &&& (r matches Ok(b) ==> encoded_image(image@, extension@) == Some(b@))
        },
{
    let format = ImageFormat::from_extension(&*String::from_utf8_lossy(extension)).unwrap();
    let buffer = RgbImage::from_raw(image.width, image.height, image.bytes.clone()).unwrap();
    let mut encoded = std::io::Cursor::new(Vec::new());
    buffer.write_to(&mut encoded, format)?;
    Ok(encoded.into_inner())
}

/// Reads an image file: decodes its `bytes` in the format named by the file
/// name's `extension` and takes the pixels as RGB with 8-bit channels. An
/// extension that names no format is refused before any decoding; otherwise a
/// failure carries the decoder's error.
pub fn load_image(bytes: &[u8], extension: &[u8]) -> (r: Result<RgbPixels, ImageFileError>)
    ensures
        !is_known_image_extension(extension@) ==> r matches Err(ImageFileError::UnknownFormat),
        is_known_image_extension(extension@) ==> {
            &&& (r is Ok <==> decoded_raster(bytes@, extension@) is Some)
            &&& (r matches Ok(p) ==> decoded_raster(bytes@, extension@) == Some(p@))
            &&& (r is Err ==> r matches Err(ImageFileError::Codec(_)))
        },
{
    if image_format_from_extension(extension).is_none() {
        return Err(ImageFileError::UnknownFormat);
    }
    match decode_with_extension(bytes, extension) {
        Ok(p) => Ok(p),
        Err(e) => Err(ImageFileError::Codec(e)),
    }
}

/// The bytes to write for a raster into a file whose name has the extension
/// `extension`, in the format that extension names. An extension that names
/// no format is refused before any encoding; otherwise a failure carries the
/// encoder's error. Except for AVIF, whose encoder depends on the machine, the
/// outcome is `encoded_image`. A successful encoding holds bytes, and PNG and
/// AVIF files start with their format's header; a PNG one records the raster's
/// width and height.
pub fn encode_image(image: &RgbPixels, extension: &[u8]) -> (r: Result<Vec<u8>, ImageFileError>)
    ensures
        r matches Ok(b) ==> encoding_has_format_header(image@, extension@, b@),
        !is_known_image_extension(extension@) ==> r matches Err(ImageFileError::UnknownFormat),
        is_known_image_extension(extension@) ==> (r is Err ==> r matches Err(ImageFileError::Codec(_))),
        is_known_image_extension(extension@) && !is_avif_extension(extension@) ==> {
            &&& (r is Ok <==> encoded_image(image@, extension@) is Some)
            &&& (r matches Ok(b) ==> encoded_image(image@, extension@) == Some(b@))
        },
{
    if image_format_from_extension(extension).is_none() {
        return Err(ImageFileError::UnknownFormat);
    }
    match encode_with_extension(image, extension) {
        Ok(b) => Ok(b),
        Err(e) => Err(ImageFileError::Codec(e)),
    }
}

} // verus!
