//! Frame buffers for a display spec, and conversion of decoded RGBA pixels
//! into packed 1-bit frames.
use vstd::prelude::*;

use crate::config::{spec_of_model, DisplayConfig};
use crate::error::DisplayError;
use crate::firmware::DisplaySpec;
use crate::image_processing::{is_packing_of, pack_grayscale};

verus! {

/// A frame of `n` bytes, every one of them `0xFF` (all pixels white).
pub open spec fn white_frame(n: nat) -> Seq<u8> {
    Seq::new(n, |i: int| 0xFFu8)
}

/// A frame of `n` bytes, every one of them `0x00` (all pixels black).
pub open spec fn black_frame(n: nat) -> Seq<u8> {
    Seq::new(n, |i: int| 0x00u8)
}

fn filled(n: usize, value: u8) -> (r: Vec<u8>)
    ensures
        r@ == Seq::new(n as nat, |i: int| value),
{
    let mut v: Vec<u8> = Vec::with_capacity(n);
    let mut i: usize = 0;
    while i < n
        invariant
            i <= n,
            v@ == Seq::new(i as nat, |j: int| value),
        decreases n - i,
    {
        v.push(value);
        i = i + 1;
        assert(v@ =~= Seq::new(i as nat, |j: int| value));
    }
    v
}

/// Create a white image for a specific display spec.
pub fn create_white_image_with_spec(spec: &DisplaySpec) -> (r: Vec<u8>)
    requires
        spec.frame_bytes() <= usize::MAX,
    ensures
        r@ == white_frame(spec.frame_bytes() as nat),
{
    filled(spec.array_size(), 0xFF)
}

/// Create a black image for a specific display spec.
pub fn create_black_image_with_spec(spec: &DisplaySpec) -> (r: Vec<u8>)
    requires
        spec.frame_bytes() <= usize::MAX,
    ensures
        r@ == black_frame(spec.frame_bytes() as nat),
{
    filled(spec.array_size(), 0x00)
}

/// Width and height of the configured model.
pub fn get_dimensions(config: &DisplayConfig) -> (r: (u32, u32))
    ensures
        exists|s: DisplaySpec| spec_of_model(config.default_firmware, s) && r == (s.width, s.height),
{
    let spec = config.default_firmware.get_spec();
    get_dimensions_from_spec(&spec)
}

/// A white frame for the configured model.
pub fn create_white_image(config: &DisplayConfig) -> (r: Vec<u8>)
    ensures
        exists|s: DisplaySpec|
            spec_of_model(config.default_firmware, s) && r@ == white_frame(s.frame_bytes() as nat),
{
    let spec = config.default_firmware.get_spec();
    create_white_image_with_spec(&spec)
}

/// A black frame for the configured model.
pub fn create_black_image(config: &DisplayConfig) -> (r: Vec<u8>)
    ensures
        exists|s: DisplaySpec|
            spec_of_model(config.default_firmware, s) && r@ == black_frame(s.frame_bytes() as nat),
{
    let spec = config.default_firmware.get_spec();
    create_black_image_with_spec(&spec)
}

/// An RGBA pixel.
pub type Rgba = (u8, u8, u8, u8);

/// The grayscale level of an RGBA pixel: the mean of its colour channels.
pub open spec fn gray_of(p: Rgba) -> u8 {
    ((p.0 + p.1 + p.2) / 3) as u8
}

/// The grayscale levels of a row-major pixel list.
pub open spec fn grays(px: Seq<Rgba>) -> Seq<u8> {
    px.map_values(|p: Rgba| gray_of(p))
}

/// What converting a decoded `width` x `height` RGBA image gives for a
/// display spec: the packed thresholded grayscale frame when the geometry
/// matches, else a `Png` error.
pub open spec fn conversion(
    width: int,
    height: int,
    px: Seq<Rgba>,
    spec: DisplaySpec,
    r: Result<Vec<u8>, DisplayError>,
) -> bool {
    if width == spec.width && height == spec.height && px.len() == width * height {
        r matches Ok(out) && is_packing_of(grays(px), out@) && out@.len() == spec.frame_bytes()
    } else {
        r matches Err(DisplayError::Png(_))
    }
}

/// The image that a PNG file decodes to: width, height and RGBA pixels,
/// row-major; `None` where it does not decode.
pub uninterp spec fn png_rgba_of(png: Seq<u8>) -> Option<(int, int, Seq<Rgba>)>;

/// The image that encoded image bytes decode to (in the formats that the
/// `image` crate is built with here: PNG):
/// width, height and RGBA pixels, row-major; `None` where it does not decode.
pub uninterp spec fn image_rgba_of(data: Seq<u8>) -> Option<(int, int, Seq<Rgba>)>;

#[verifier::external_type_specification]
#[verifier::external_body]
pub struct ExPngError(lodepng::Error);

#[verifier::external_type_specification]
#[verifier::external_body]
pub struct ExImageError(image::ImageError);

/// Relies on `lodepng::decode32`: decodes PNG bytes to 8-bit RGBA pixels, as a
/// function of the bytes alone.
#[verifier::external_body]
fn decode_png(png: &[u8]) -> (r: Result<(usize, usize, Vec<Rgba>), lodepng::Error>)
    ensures
        r matches Ok(d) ==> png_rgba_of(png@) == Some((d.0 as int, d.1 as int, d.2@)),
        r is Err ==> png_rgba_of(png@) is None,
{
    let bmp = lodepng::decode32(png)?;
    let px = bmp.buffer.iter().map(|p| (p.r, p.g, p.b, p.a)).collect();
    Ok((bmp.width, bmp.height, px))
}

/// Relies on `image::guess_format`, `image::load_from_memory_with_format` and
/// `DynamicImage::to_rgba8`: the format is guessed from the magic bytes and
/// then decoded with the crate's built-in decoder for it (PNG, the one format
/// enabled), to 8-bit RGBA pixels. This path reads none of the crate's
/// process-wide format-detection or decoding hook registries, so the result
/// depends on the bytes alone.
#[verifier::external_body]
fn decode_image(data: &[u8]) -> (r: Result<(usize, usize, Vec<Rgba>), image::ImageError>)
    ensures
        r matches Ok(d) ==> image_rgba_of(data@) == Some((d.0 as int, d.1 as int, d.2@)),
        r is Err ==> image_rgba_of(data@) is None,
{
    let format = image::guess_format(data)?;
    let rgba = image::load_from_memory_with_format(data, format)?.to_rgba8();
    let px = rgba.pixels().map(|p| (p.0[0], p.0[1], p.0[2], p.0[3])).collect();
    Ok((rgba.width() as usize, rgba.height() as usize, px))
}

/// Convert decoded RGBA pixels (row-major) to a packed 1-bit frame for a
/// display spec: each pixel's channel mean above 128 becomes a 1 (white),
/// MSB first. The image must have the spec's exact geometry.
pub fn convert_rgba_to_1bit_with_spec(
    width: usize,
    height: usize,
    pixels: &[Rgba],
    spec: &DisplaySpec,
) -> (r: Result<Vec<u8>, DisplayError>)
    requires
        spec.byte_aligned(),
    ensures
        conversion(width as int, height as int, pixels@, *spec, r),
{
    if width as u64 != spec.width as u64 || height as u64 != spec.height as u64 {
        let mut m = String::from_str("Invalid image size: ");
        m.append(width.to_string().as_str());
        m.append("x");
        m.append(height.to_string().as_str());
        m.append(", expected ");
        m.append(spec.width.to_string().as_str());
        m.append("x");
        m.append(spec.height.to_string().as_str());
        return Err(DisplayError::Png(m));
    }
    let n = pixels.len();
    let w64 = spec.width as u64;
    let h64 = spec.height as u64;
    assert(w64 * h64 <= 0xffff_ffffu64 * 0xffff_ffffu64) by (nonlinear_arith)
        requires
            w64 <= 0xffff_ffffu64,
            h64 <= 0xffff_ffffu64,
    ;
    if n as u64 != w64 * h64 {
        return Err(DisplayError::Png(String::from_str("Pixel count does not match the image size")));
    }
    let mut gray: Vec<u8> = Vec::with_capacity(n);
    let mut i: usize = 0;
    while i < n
        invariant
            n == pixels@.len(),
            i <= n,
            gray@ == grays(pixels@.subrange(0, i as int)),
        decreases n - i,
    {
        let p = pixels[i];
        let g = ((p.0 as u16 + p.1 as u16 + p.2 as u16) / 3) as u8;
        gray.push(g);
        i = i + 1;
        assert(gray@ =~= grays(pixels@.subrange(0, i as int)));
    }
    assert(pixels@.subrange(0, n as int) =~= pixels@);
    let out = pack_grayscale(gray.as_slice());
    proof {
        let w = spec.width as int;
        let h = spec.height as int;
        let a = w / 8;
        assert(w == 8 * a);
        assert(w * h == (a * h) * 8) by (nonlinear_arith)
            requires
                w == 8 * a,
        ;
        vstd::arithmetic::div_mod::lemma_mod_multiples_basic(a * h, 8);
        assert((w * h) % 8 == 0);
    }
    Ok(out)
}

/// Decode PNG bytes and convert them to a packed 1-bit frame for a display
/// spec.
pub fn convert_png_to_1bit_with_spec(png: &[u8], spec: &DisplaySpec) -> (r: Result<
    Vec<u8>,
    DisplayError,
>)
    requires
        spec.byte_aligned(),
    ensures
        match png_rgba_of(png@) {
            Some(d) => conversion(d.0, d.1, d.2, *spec, r),
            None => r matches Err(DisplayError::Png(_)),
        },
{
    match decode_png(png) {
        Ok(d) => convert_rgba_to_1bit_with_spec(d.0, d.1, d.2.as_slice(), spec),
        Err(e) => {
            let mut m = String::from_str("Failed to decode PNG: ");
            m.append(e.to_string().as_str());
            Err(DisplayError::Png(m))
        },
    }
}

/// Decode an image (PNG, the format the `image` crate is built with) and
/// convert it to a packed 1-bit frame for a display spec.
pub fn convert_image_to_1bit_with_spec(data: &[u8], spec: &DisplaySpec) -> (r: Result<
    Vec<u8>,
    DisplayError,
>)
    requires
        spec.byte_aligned(),
    ensures
        match image_rgba_of(data@) {
            Some(d) => conversion(d.0, d.1, d.2, *spec, r),
            None => r matches Err(DisplayError::Png(_)),
        },
{
    match decode_image(data) {
        Ok(d) => convert_rgba_to_1bit_with_spec(d.0, d.1, d.2.as_slice(), spec),
        Err(e) => {
            let mut m = String::from_str("Failed to load image: ");
            m.append(e.to_string().as_str());
            Err(DisplayError::Png(m))
        },
    }
}

/// Convert PNG bytes to a packed 1-bit frame for the configured model.
pub fn convert_png_to_1bit(config: &DisplayConfig, png: &[u8]) -> (r: Result<Vec<u8>, DisplayError>)
    ensures
        exists|s: DisplaySpec|
            spec_of_model(config.default_firmware, s) && match png_rgba_of(png@) {
                Some(d) => conversion(d.0, d.1, d.2, s, r),
                None => r matches Err(DisplayError::Png(_)),
            },
{
    let spec = config.default_firmware.get_spec();
    convert_png_to_1bit_with_spec(png, &spec)
}

/// Convert encoded image bytes to a packed 1-bit frame for the configured
/// model.
pub fn convert_image_to_1bit(config: &DisplayConfig, data: &[u8]) -> (r: Result<
    Vec<u8>,
    DisplayError,
>)
    ensures
        exists|s: DisplaySpec|
            spec_of_model(config.default_firmware, s) && match image_rgba_of(data@) {
                Some(d) => conversion(d.0, d.1, d.2, s, r),
                None => r matches Err(DisplayError::Png(_)),
            },
{
    let spec = config.default_firmware.get_spec();
    convert_image_to_1bit_with_spec(data, &spec)
}

/// Get display dimensions from a display spec.
pub fn get_dimensions_from_spec(spec: &DisplaySpec) -> (r: (u32, u32))
    ensures
        r == (spec.width, spec.height),
{
    (spec.width, spec.height)
}

} // verus!
