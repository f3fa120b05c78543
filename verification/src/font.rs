//! The font rasterizer and the line layout, as far as the engine needs them.
//!
//! Everything in this file that is marked `external_body` is trusted: its body
//! calls into `fontdue`, and its contract is believed, not proved.

use vstd::prelude::*;

verus! {

/// The largest font size, in pixels per em, that the engine rasterizes at.
pub const MAX_FONT_PX: u16 = 2048;

/// A parsed font. Opaque to the verifier.
#[verifier::external_type_specification]
#[verifier::external_body]
pub struct ExFont(fontdue::Font);

/// The coverage bitmap of one character: `width * height` bytes, row by row from
/// the top left corner, 0 for background and 255 for full coverage.
#[derive(Debug)]
pub struct RasterGlyph {
    pub width: usize,
    pub height: usize,
    pub bitmap: Vec<u8>,
}

/// Where the layout has put the top left corner of one character's bitmap, in
/// whole pixels with the y axis pointing down.
#[derive(Debug, Clone, Copy, PartialEq, Eq, Structural)]
pub struct PlacedGlyph {
    pub ch: char,
    pub x: i32,
    pub y: i32,
}

/// The characters of a run of placed glyphs, in order.
pub open spec fn placed_chars(placed: Seq<PlacedGlyph>) -> Seq<char> {
    placed.map_values(|g: PlacedGlyph| g.ch)
}

/// Why `fontdue`, with its default settings, refuses `data` as a font: the
/// words of its refusal, or `None` where it takes the data.
pub uninterp spec fn font_refusal(data: Seq<u8>) -> Option<Seq<char>>;

/// Trusted: `fontdue::Font::from_bytes` with the default settings. Which data
/// parses is not spelled out; the claim is only that the outcome, and the words
/// of a refusal, are decided by the bytes, as the source shows: it reads
/// nothing but `data`.
#[verifier::external_body]
pub(crate) fn parse_font(data: &[u8]) -> (parsed: Result<fontdue::Font, &'static str>)
    ensures
        parsed is Ok <==> font_refusal(data@) is None,
        parsed matches Err(reason) ==> font_refusal(data@) == Some(reason@),
{
    fontdue::Font::from_bytes(data, fontdue::FontSettings::default())
}

/// Trusted: `fontdue::Font::rasterize` at `px` pixels per em. The claim is the
/// one its source shows for every character and size: the bitmap has exactly
/// `width * height` bytes. A character that the font lacks gets the font's
/// default glyph; nothing is claimed about the coverage values. The bound on
/// `px` keeps the bitmap of an ordinary font small enough to allocate.
#[verifier::external_body]
pub(crate) fn rasterize(font: &fontdue::Font, ch: char, px: u16) -> (glyph: RasterGlyph)
    requires
        px <= MAX_FONT_PX,
    ensures
        glyph.bitmap@.len() == glyph.width * glyph.height,
{
    let (metrics, bitmap) = font.rasterize(ch, px.into());
    RasterGlyph { width: metrics.width, height: metrics.height, bitmap }
}

/// A text layout: the glyph positions of the text appended to it so far. Opaque
/// to the verifier but for those positions.
#[verifier::external_type_specification]
#[verifier::external_body]
#[verifier::reject_recursive_types(U)]
pub struct ExLayout<U: Copy + Clone>(fontdue::layout::Layout<U>);

/// The glyph positions that a layout holds, in the order of the text.
pub uninterp spec fn laid_out(layout: fontdue::layout::Layout<()>) -> Seq<PlacedGlyph>;

/// Trusted: `fontdue::layout::Layout::new` for a y axis that points down.
/// Nothing is claimed about the new layout.
#[verifier::external_body]
pub(crate) fn new_layout() -> (layout: fontdue::layout::Layout<()>) {
    fontdue::layout::Layout::new(fontdue::layout::CoordinateSystem::PositiveYDown)
}

/// Trusted: `fontdue::layout::Layout::reset` with the origin `(x, y)` and
/// otherwise the default settings: no wrapping but at line breaks. It clears
/// what the layout held.
#[verifier::external_body]
pub(crate) fn reset_layout(layout: &mut fontdue::layout::Layout<()>, x: i16, y: i16)
    ensures
        laid_out(*final(layout)) == Seq::<PlacedGlyph>::empty(),
{
    layout.reset(
        &fontdue::layout::LayoutSettings {
            x: x.into(),
            y: y.into(),
            ..fontdue::layout::LayoutSettings::default()
        },
    );
}

/// Trusted: `fontdue::layout::Layout::append` of `text` in one style at `px`
/// pixels per em. As its source shows, it adds one position for each character
/// of the text, in the order of the text. Nothing is claimed about the
/// positions themselves.
#[verifier::external_body]
pub(crate) fn append_text(
    layout: &mut fontdue::layout::Layout<()>,
    font: &fontdue::Font,
    text: &str,
    px: u16,
)
    requires
        px <= MAX_FONT_PX,
    ensures
        placed_chars(laid_out(*final(layout))) == placed_chars(laid_out(*old(layout))) + text@,
{
    layout.append(&[font], &fontdue::layout::TextStyle::new(text, px.into(), 0));
}

/// Trusted: `fontdue::layout::Layout::glyphs`, each position handed on as its
/// character and its corner in whole pixels, which is how `fontdue` gives it.
#[verifier::external_body]
pub(crate) fn layout_glyphs(layout: &fontdue::layout::Layout<()>) -> (placed: Vec<PlacedGlyph>)
    ensures
        placed@ == laid_out(*layout),
{
    layout.glyphs().iter().map(|g| PlacedGlyph { ch: g.parent, x: g.x as i32, y: g.y as i32 }).collect()
}

/// Lays out `text` from the origin `(x, y)`: one position for each character,
/// in the order of the text.
pub fn layout_text(font: &fontdue::Font, text: &str, px: u16, x: i16, y: i16) -> (placed: Vec<
    PlacedGlyph,
>)
    requires
        px <= MAX_FONT_PX,
    ensures
        placed_chars(placed@) == text@,
{
    let mut layout = new_layout();
    reset_layout(&mut layout, x, y);
    append_text(&mut layout, font, text, px);
    let placed = layout_glyphs(&layout);
    assert(placed_chars(Seq::<PlacedGlyph>::empty()) + text@ =~= text@);
    placed
}

} // verus!
