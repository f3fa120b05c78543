//! Signed distance fields of glyph bitmaps.
//!
//! Everything in this file that is marked `external_body` is trusted: its body
//! calls into `sdf_glyph_renderer`, and its contract is believed, not proved.

use crate::atlas::{SdfGlyph, MAX_GLYPH_SIDE};
use crate::font::RasterGlyph;
use crate::quantize::{
    is_unit_distance, lemma_unit_distance_bytes, quantize_distance, quantized, unit_high, unit_low,
};
use vstd::prelude::*;

verus! {

/// A glyph bitmap with a margin of empty pixels on every side. Opaque to the
/// verifier but for its pixels and the length of its rows.
#[verifier::external_type_specification]
#[verifier::external_body]
pub struct ExBitmapGlyph(sdf_glyph_renderer::BitmapGlyph);

/// Why a bitmap was refused. Opaque to the verifier.
#[verifier::external_type_specification]
#[verifier::external_body]
pub struct ExSdfGlyphError(sdf_glyph_renderer::SdfGlyphError);

/// The pixels that a buffered bitmap holds, row by row, margins included.
pub uninterp spec fn buffered_pixels(glyph: sdf_glyph_renderer::BitmapGlyph) -> Seq<u8>;

/// The length of one row of a buffered bitmap, margins included.
pub uninterp spec fn buffered_width(glyph: sdf_glyph_renderer::BitmapGlyph) -> nat;

/// A bitmap of `width` by `height` pixels with `buffer` empty pixels added on
/// every side.
pub open spec fn padded(alpha: Seq<u8>, width: int, height: int, buffer: int) -> Seq<u8> {
    Seq::new(
        ((width + 2 * buffer) * (height + 2 * buffer)) as nat,
        |p: int|
            {
                let row = p / (width + 2 * buffer) - buffer;
                let col = p % (width + 2 * buffer) - buffer;
                if 0 <= row < height && 0 <= col < width {
                    alpha[row * width + col]
                } else {
                    0u8
                }
            },
    )
}

/// Trusted: `sdf_glyph_renderer::BitmapGlyph::from_unbuffered`. As its source
/// shows, it succeeds exactly when `alpha` holds `width * height` bytes, and the
/// bitmap it builds is `alpha` with `buffer` empty pixels on every side. The
/// `requires` keeps its size computations inside `usize`.
#[verifier::external_body]
pub(crate) fn buffer_bitmap(alpha: &Vec<u8>, width: usize, height: usize, buffer: usize) -> (buffered:
    Result<sdf_glyph_renderer::BitmapGlyph, sdf_glyph_renderer::SdfGlyphError>)
    requires
        (width + 2 * buffer) * (height + 2 * buffer) <= usize::MAX,
        width + 2 * buffer <= usize::MAX,
        height + 2 * buffer <= usize::MAX,
    ensures
        buffered is Ok <==> alpha@.len() == width * height,
        buffered matches Ok(glyph) ==> buffered_width(glyph) == width + 2 * buffer
            && buffered_pixels(glyph) == padded(alpha@, width as int, height as int, buffer as int),
{
    sdf_glyph_renderer::BitmapGlyph::from_unbuffered(alpha, width, height, buffer)
}

/// Trusted: `sdf_glyph_renderer::BitmapGlyph::render_sdf`, each distance handed
/// on as the bit pattern of its 64-bit IEEE 754 value. The claim is what its
/// documentation promises: there is one distance per pixel of the buffered
/// bitmap, in units of `radius` and held to the range from -1 to 1. The
/// `requires` keeps to bitmaps with at least one row and one column, on others
/// the distance transform indexes past its scratch space, and to a radius that
/// can be divided by.
#[verifier::external_body]
pub(crate) fn distance_field(glyph: &sdf_glyph_renderer::BitmapGlyph, radius: usize) -> (field: Vec<
    u64,
>)
    requires
        buffered_width(*glyph) > 0,
        buffered_pixels(*glyph).len() >= buffered_width(*glyph),
        radius >= 1,
    ensures
        field@.len() == buffered_pixels(*glyph).len(),
        forall|i: int| 0 <= i < field@.len() ==> is_unit_distance(#[trigger] field@[i]),
{
    glyph.render_sdf(radius).into_iter().map(|d| d.to_bits()).collect()
}

/// A bitmap of `width` by `height` pixels can be drawn with a margin of
/// `buffer` pixels: it is not empty, and with its margins no side is longer
/// than `MAX_GLYPH_SIDE`.
pub open spec fn is_drawable(width: int, height: int, buffer: int) -> bool {
    &&& width >= 1
    &&& height >= 1
    &&& width + 2 * buffer <= MAX_GLYPH_SIDE
    &&& height + 2 * buffer <= MAX_GLYPH_SIDE
}

/// The bytes of a distance field: each distance quantized on its own.
pub open spec fn quantized_field(field: Seq<u64>, radius: int) -> Seq<u8> {
    Seq::new(field.len(), |i: int| quantized(field[i], radius) as u8)
}

/// Quantizes every distance of a field.
pub fn quantize_field(field: &Vec<u64>, radius: u32) -> (bytes: Vec<u8>)
    requires
        radius >= 1,
    ensures
        bytes@ == quantized_field(field@, radius as int),
{
    let mut bytes: Vec<u8> = Vec::new();
    let mut i: usize = 0;
    while i < field.len()
        invariant
            radius >= 1,
            0 <= i <= field@.len(),
            bytes@ == quantized_field(field@.take(i as int), radius as int),
        decreases field@.len() - i,
    {
        bytes.push(quantize_distance(field[i], radius));
        assert(bytes@ =~= quantized_field(field@.take(i + 1), radius as int));
        i += 1;
    }
    assert(field@.take(field@.len() as int) =~= field@);
    bytes
}

/// The quantized distance field of a rasterized glyph, with a margin of `buffer`
/// pixels on every side so that the field is not cut off at the glyph's box.
/// There is none for an empty bitmap, for one that is too large to handle, and
/// for one whose bytes are not `width * height`; such a character is drawn as
/// blank. The distances come in units of `radius`, held to the range from -1 to
/// 1, so the bytes lie between the bytes of those two.
pub fn sdf_from_raster(raster: &RasterGlyph, buffer: usize, radius: u32) -> (sdf: Option<SdfGlyph>)
    requires
        radius >= 1,
    ensures
        sdf is Some <==> is_drawable(raster.width as int, raster.height as int, buffer as int)
            && raster.bitmap@.len() == raster.width * raster.height,
        sdf matches Some(glyph) ==> glyph.wf() && glyph.width == raster.width && glyph.height
            == raster.height && glyph.sdf_width == raster.width + 2 * buffer && glyph.sdf_height
            == raster.height + 2 * buffer,
        sdf matches Some(glyph) ==> forall|i: int|
            0 <= i < glyph.bytes@.len() ==> unit_low(radius as int) <= #[trigger] glyph.bytes@[i]
                <= unit_high(radius as int),
{
    if raster.width == 0 || raster.height == 0 || buffer > MAX_GLYPH_SIDE / 2 {
        return None;
    }
    let margin = 2 * buffer;
    if raster.width > MAX_GLYPH_SIDE - margin || raster.height > MAX_GLYPH_SIDE - margin {
        return None;
    }
    let sdf_width = raster.width + margin;
    let sdf_height = raster.height + margin;
    assert(sdf_width <= sdf_width * sdf_height <= 1024 * 1024) by (nonlinear_arith)
        requires
            0 <= sdf_width <= 1024,
            1 <= sdf_height <= 1024,
    ;
    match buffer_bitmap(&raster.bitmap, raster.width, raster.height, buffer) {
        Ok(buffered) => {
            let field = distance_field(&buffered, radius as usize);
            let bytes = quantize_field(&field, radius);
            proof {
                assert forall|i: int| 0 <= i < bytes@.len() implies unit_low(radius as int)
                    <= #[trigger] bytes@[i] <= unit_high(radius as int) by {
                    lemma_unit_distance_bytes(field@[i], radius as int);
                }
            }
            Some(SdfGlyph { width: raster.width, height: raster.height, sdf_width, sdf_height, bytes })
        },
        Err(_) => None,
    }
}

} // verus!
