//! The render engine: the edited text, the glyph atlas that covers it, and the
//! vertex stream that draws it.
//!
//! The engine owns its state. It never touches a graphics device: `render_text`
//! hands back what is to be uploaded and drawn, and the caller reports back with
//! `atlas_uploaded` once the atlas texture is in place.

use crate::atlas::{AtlasView, GlyphAtlas, PackOutcome, MAX_GLYPH_SIDE};
use crate::coverage::{
    coverage_outcome, glyph_chars, grown_by, holds_no_whitespace, in_cell, in_cells,
    is_padded_by, lemma_coverage_complete, lemma_coverage_keeps_whitespace_out,
    lemma_grown_contains, lemma_pack_frame, packed_all, CoverageReport, PackedGlyph,
};
use crate::chars::{
    char_at, chars_of, holds_visible_chars, same_chars, string_of, strictly_increasing,
    unique_chars,
};
use crate::dirty::{diff, diff_spec, DirtyRegion};
use crate::font::{
    font_refusal, layout_text, parse_font, placed_chars, rasterize, PlacedGlyph, MAX_FONT_PX,
};
use crate::sdf::sdf_from_raster;
use crate::text_buffer::{TextBuffer, TextBufferView};
use crate::vertices::{
    as_ints, cached_count, drawn_count, lemma_covered_count, lemma_stream_len, quads_for,
    vertex_stream,
};
use vstd::prelude::*;

verus! {

/// The font data could not be parsed.
#[derive(Debug, Clone, Copy, PartialEq, Eq)]
pub struct FontError {
    /// What the parser objected to.
    pub reason: &'static str,
}

/// The sizes that an engine is built with.
#[derive(Debug, Clone, Copy, PartialEq, Eq, Structural)]
pub struct RendererConfig {
    /// The number of glyphs that the vertex buffer of the backend is sized for.
    pub max_glyphs: usize,
    /// The side of the square atlas, in pixels.
    pub atlas_size: usize,
    /// The side of one atlas cell, in pixels.
    pub cell_size: usize,
    /// The margin around a glyph's bitmap, in pixels.
    pub buffer_size: usize,
    /// The size of the font, in pixels per em.
    pub font_px: u16,
    /// The distance, in pixels, at which the field saturates.
    pub sdf_radius: u32,
}

impl RendererConfig {
    /// The sizes make sense: cells and radius are not zero, the atlas fits into
    /// memory, the margin is not larger than a field may be, and the font is
    /// not larger than the rasterizer is asked to handle.
    pub open spec fn wf(&self) -> bool {
        &&& self.cell_size >= 1
        &&& self.atlas_size * self.atlas_size <= usize::MAX
        &&& self.buffer_size <= MAX_GLYPH_SIDE
        &&& self.font_px <= MAX_FONT_PX
        &&& self.sdf_radius >= 1
    }

    /// The standard sizes: an atlas of 1024 by 1024 pixels in cells of 64, a
    /// margin of 4 pixels, a font of 12 pixels, a radius of 4 pixels.
    pub open spec fn standard_sizes(max_glyphs: usize) -> RendererConfig {
        RendererConfig {
            max_glyphs,
            atlas_size: 1024,
            cell_size: 64,
            buffer_size: 4,
            font_px: 12,
            sdf_radius: 4,
        }
    }

    /// The standard sizes.
    pub fn standard(max_glyphs: usize) -> (config: RendererConfig)
        ensures
            config.wf(),
            config == RendererConfig::standard_sizes(max_glyphs),
    {
        RendererConfig {
            max_glyphs,
            atlas_size: 1024,
            cell_size: 64,
            buffer_size: 4,
            font_px: 12,
            sdf_radius: 4,
        }
    }

    /// The sizes for large type: an atlas of 512 by 512 pixels in cells of 64, a
    /// margin of 8 pixels, a font of 48 pixels, a radius of 4 pixels.
    pub open spec fn headline_sizes(max_glyphs: usize) -> RendererConfig {
        RendererConfig {
            max_glyphs,
            atlas_size: 512,
            cell_size: 64,
            buffer_size: 8,
            font_px: 48,
            sdf_radius: 4,
        }
    }

    /// The sizes for large type.
    pub fn headline(max_glyphs: usize) -> (config: RendererConfig)
        ensures
            config.wf(),
            config == RendererConfig::headline_sizes(max_glyphs),
    {
        RendererConfig {
            max_glyphs,
            atlas_size: 512,
            cell_size: 64,
            buffer_size: 8,
            font_px: 48,
            sdf_radius: 4,
        }
    }

    /// The size in bytes of a vertex buffer for `max_glyphs` glyphs, at six
    /// vertices of four 32-bit values each; `None` where that is more than the
    /// machine can address.
    pub fn vertex_buffer_bytes(&self) -> (bytes: Option<usize>)
        ensures
            bytes == if self.max_glyphs * 96 <= usize::MAX {
                Some((self.max_glyphs * 96) as usize)
            } else {
                None
            },
    {
        self.max_glyphs.checked_mul(96)
    }

    /// Whether the sizes make sense.
    pub fn is_valid(&self) -> (valid: bool)
        ensures
            valid == self.wf(),
    {
        if self.cell_size < 1 || self.buffer_size > MAX_GLYPH_SIDE || self.font_px > MAX_FONT_PX
            || self.sdf_radius < 1 {
            return false;
        }
        match self.atlas_size.checked_mul(self.atlas_size) {
            Some(_) => true,
            None => false,
        }
    }
}

/// What one render pass hands to the backend.
#[derive(Debug)]
pub struct Frame {
    /// The vertex stream: for each vertex its position in screen pixels and its
    /// texture coordinate in atlas pixels.
    pub vertices: Vec<i64>,
    /// The number of vertices to draw: six for each glyph.
    pub vertex_count: usize,
    /// The atlas has changed since it was last uploaded and must be uploaded
    /// before drawing.
    pub upload_atlas: bool,
    /// What covering the text did.
    pub coverage: CoverageReport,
}

/// The vertices of `vertices` draw `text` from `atlas`: they are the quads of
/// some placement of the characters of `text`, one position per character.
pub open spec fn draws(vertices: Seq<i64>, text: Seq<char>, atlas: AtlasView, buffer: int) -> bool {
    exists|placed: Seq<PlacedGlyph>| #[trigger]
        placed_chars(placed) == text && as_ints(vertices) == vertex_stream(placed, atlas, buffer)
}

/// `frame` is what a render pass over the committed text hands out, when the
/// pass finds the engine in the state `before` and leaves it in the state
/// `after`.
///
/// The pass has covered the committed text and changed nothing else but the
/// two flags. The frame asks for an upload exactly when the atlas is stale. Its
/// vertices draw the committed text from the atlas as the pass left it: six for
/// each character that has a place there, which is every drawn character when
/// no glyph was missing and none was dropped.
pub open spec fn is_frame_of(before: RendererView, after: RendererView, frame: Frame) -> bool {
    let buffer = before.config.buffer_size as int;
    &&& coverage_outcome(before.atlas, before.last_text, after.atlas, frame.coverage, buffer)
    &&& after == before.rendered(after.atlas, frame.coverage.packed@.len())
    &&& frame.upload_atlas == after.atlas_stale
    &&& draws(frame.vertices@, before.last_text, after.atlas, buffer)
    &&& frame.vertices@.len() == 24 * cached_count(before.last_text, after.atlas)
    &&& frame.vertex_count == 6 * cached_count(before.last_text, after.atlas)
    &&& frame.coverage.missing@.len() == 0 && frame.coverage.dropped@.len() == 0
        ==> frame.vertex_count == 6 * drawn_count(before.last_text)
}

/// The text engine. See the module documentation.
pub struct FastTextRenderer {
    font: fontdue::Font,
    atlas: GlyphAtlas,
    text_buffer: TextBuffer,
    last_text: Vec<char>,
    dirty_regions: Vec<DirtyRegion>,
    render_pending: bool,
    atlas_stale: bool,
    config: RendererConfig,
}

/// What a `FastTextRenderer` stands for. The font is not part of it.
pub struct RendererView {
    /// The glyph atlas.
    pub atlas: AtlasView,
    /// The edited text and its cursor.
    pub text: TextBufferView,
    /// The text that was committed last: the one that is drawn.
    pub last_text: Seq<char>,
    /// The regions in which the last commit changed the text.
    pub dirty_regions: Seq<DirtyRegion>,
    /// A render was asked for and has not happened yet.
    pub render_pending: bool,
    /// The atlas has changed since the backend last uploaded it.
    pub atlas_stale: bool,
    /// The sizes the engine was built with.
    pub config: RendererConfig,
}

impl View for FastTextRenderer {
    type V = RendererView;

    closed spec fn view(&self) -> RendererView {
        RendererView {
            atlas: self.atlas@,
            text: self.text_buffer@,
            last_text: self.last_text@,
            dirty_regions: self.dirty_regions@,
            render_pending: self.render_pending,
            atlas_stale: self.atlas_stale,
            config: self.config,
        }
    }
}

impl RendererView {
    /// The state of a new engine: nothing typed, nothing cached, nothing
    /// pending, and an atlas that still has to be uploaded.
    pub open spec fn initial(config: RendererConfig) -> RendererView {
        RendererView {
            atlas: (AtlasView {
                atlas_size: config.atlas_size as int,
                cell_size: config.cell_size as int,
                pixels: Seq::empty(),
                glyphs: Seq::empty(),
            }).cleared(),
            text: TextBufferView { chars: Seq::empty(), cursor: 0 },
            last_text: Seq::empty(),
            dirty_regions: Seq::empty(),
            render_pending: false,
            atlas_stale: true,
            config,
        }
    }

    /// The state after `text` was committed: the dirty regions are those between
    /// the text committed before and `text`.
    pub open spec fn committed(self, text: Seq<char>) -> RendererView {
        RendererView {
            last_text: text,
            dirty_regions: diff_spec(self.last_text, text),
            ..self
        }
    }

    /// The state after a render pass over the committed text that left the atlas
    /// as `atlas` and packed `packed` new glyphs.
    pub open spec fn rendered(self, atlas: AtlasView, packed: nat) -> RendererView {
        RendererView {
            atlas,
            atlas_stale: self.atlas_stale || packed > 0,
            render_pending: false,
            ..self
        }
    }

    /// The state after the edited text became `text`, and was committed.
    pub open spec fn edited(self, text: TextBufferView) -> RendererView {
        RendererView { text, ..self.committed(text.chars) }
    }
}

/// The distance field of `ch` in the given font, ready to be packed, or `None`
/// where the character has no drawable glyph.
fn render_glyph(font: &fontdue::Font, ch: char, config: &RendererConfig) -> (sdf: Option<
    crate::atlas::SdfGlyph,
>)
    requires
        config.wf(),
    ensures
        sdf matches Some(glyph) ==> is_padded_by(glyph, config.buffer_size as int),
{
    let raster = rasterize(font, ch, config.font_px);
    sdf_from_raster(&raster, config.buffer_size, config.sdf_radius)
}

/// A character behind everything in `list` can be appended to it.
proof fn lemma_push_keeps_order(list: Seq<char>, ch: char)
    requires
        strictly_increasing(list),
        forall|k: int| 0 <= k < list.len() ==> list[k] < ch,
    ensures
        strictly_increasing(list.push(ch)),
        forall|c: char| #[trigger] list.push(ch).contains(c) <==> (list.contains(c) || c == ch),
{
    let longer = list.push(ch);
    assert(longer[list.len() as int] == ch);
    assert forall|c: char| #[trigger] longer.contains(c) <==> (list.contains(c) || c == ch) by {
        if longer.contains(c) {
            let k = choose|k: int| 0 <= k < longer.len() && longer[k] == c;
            if k < list.len() {
                assert(list[k] == c);
            }
        }
        if list.contains(c) {
            let k = choose|k: int| 0 <= k < list.len() && list[k] == c;
            assert(longer[k] == c);
        }
    }
}

/// The first `i + 1` elements of an ordered list are the first `i` and the one
/// at `i`, which is not among them.
proof fn lemma_take_next(unique: Seq<char>, i: int)
    requires
        strictly_increasing(unique),
        0 <= i < unique.len(),
    ensures
        forall|c: char| #[trigger]
            unique.take(i + 1).contains(c) <==> (unique.take(i).contains(c) || c == unique[i]),
        !unique.take(i).contains(unique[i]),
{
    let shorter = unique.take(i);
    let longer = unique.take(i + 1);
    assert(longer =~= shorter.push(unique[i]));
    assert forall|c: char| #[trigger] longer.contains(c) <==> (shorter.contains(c) || c
        == unique[i]) by {
        if longer.contains(c) {
            let k = choose|k: int| 0 <= k < longer.len() && longer[k] == c;
            if k < i {
                assert(shorter[k] == c);
            }
        }
        if shorter.contains(c) {
            let k = choose|k: int| 0 <= k < shorter.len() && shorter[k] == c;
            assert(longer[k] == c);
        }
        if c == unique[i] {
            assert(longer[i] == c);
        }
    }
    if shorter.contains(unique[i]) {
        let k = choose|k: int| 0 <= k < shorter.len() && shorter[k] == unique[i];
        assert(unique[k] < unique[i]);
    }
}

/// Makes sure that every drawn character of `text` has a cell, as far as the
/// font and the space allow. The characters are taken in the order of their code
/// points; one that has a cell is left alone, one that has none is rasterized,
/// turned into a distance field and packed into the next free cell. Once the
/// atlas is full the remaining characters are dropped without being rasterized.
fn cover_text(
    atlas: &mut GlyphAtlas,
    font: &fontdue::Font,
    text: &Vec<char>,
    config: &RendererConfig,
) -> (report: CoverageReport)
    requires
        old(atlas).wf(),
        config.wf(),
    ensures
        final(atlas).wf(),
        coverage_outcome(old(atlas)@, text@, final(atlas)@, report, config.buffer_size as int),
{
    let unique = unique_chars(text);
    let ghost before = atlas@;
    let ghost first_new = before.glyphs.len() as int;
    let mut packed: Vec<PackedGlyph> = Vec::new();
    let mut missing: Vec<char> = Vec::new();
    let mut dropped: Vec<char> = Vec::new();
    let mut i: usize = 0;
    proof {
        assert(atlas@.glyphs.subrange(0, first_new) =~= before.glyphs);
        assert(glyph_chars(packed@) =~= Seq::empty());
    }
    while i < unique.len()
        invariant
            config.wf(),
            before.wf(),
            atlas.wf(),
            first_new == before.glyphs.len(),
            0 <= i <= unique@.len(),
            strictly_increasing(unique@),
            holds_visible_chars(unique@, text@),
            atlas@ == packed_all(before, packed@),
            forall|k: int|
                0 <= k < packed@.len() ==> is_padded_by(
                    (#[trigger] packed@[k]).glyph,
                    config.buffer_size as int,
                ),
            grown_by(before, atlas@, glyph_chars(packed@)),
            strictly_increasing(glyph_chars(packed@)),
            strictly_increasing(missing@),
            strictly_increasing(dropped@),
            forall|k: int, j: int|
                0 <= k < packed@.len() && i <= j < unique@.len() ==> #[trigger] glyph_chars(
                    packed@,
                )[k] < #[trigger] unique@[j],
            forall|k: int, j: int|
                0 <= k < missing@.len() && i <= j < unique@.len() ==> #[trigger] missing@[k]
                    < #[trigger] unique@[j],
            forall|k: int, j: int|
                0 <= k < dropped@.len() && i <= j < unique@.len() ==> #[trigger] dropped@[k]
                    < #[trigger] unique@[j],
            forall|ch: char|
                #![trigger glyph_chars(packed@).contains(ch)]
                #![trigger missing@.contains(ch)]
                #![trigger dropped@.contains(ch)]
                #![trigger unique@.take(i as int).contains(ch)]
                (unique@.take(i as int).contains(ch) && !before.contains(ch)) <==> (glyph_chars(
                    packed@,
                ).contains(ch) || missing@.contains(ch) || dropped@.contains(ch)),
            forall|ch: char| #[trigger]
                missing@.contains(ch) ==> !atlas@.contains(ch) && !dropped@.contains(ch),
            forall|ch: char| #[trigger] dropped@.contains(ch) ==> !atlas@.contains(ch),
            before.is_full() ==> packed@.len() + missing@.len() == 0,
            dropped@.len() > 0 ==> atlas@.is_full(),
        decreases unique@.len() - i,
    {
        let ch = char_at(&unique, i);
        let ghost current = atlas@;
        let ghost glyphs_before = packed@;
        let ghost packed_before = glyph_chars(packed@);
        let ghost missing_before = missing@;
        let ghost dropped_before = dropped@;
        proof {
            lemma_take_next(unique@, i as int);
            lemma_grown_contains(before, current, packed_before, ch);
            if packed_before.contains(ch) {
                let k = choose|k: int| 0 <= k < packed_before.len() && packed_before[k] == ch;
                assert(packed_before[k] < unique@[i as int]);
            }
            if missing@.contains(ch) {
                let k = choose|k: int| 0 <= k < missing@.len() && missing@[k] == ch;
                assert(missing@[k] < unique@[i as int]);
            }
            if dropped@.contains(ch) {
                let k = choose|k: int| 0 <= k < dropped@.len() && dropped@[k] == ch;
                assert(dropped@[k] < unique@[i as int]);
            }
            assert forall|k: int| 0 <= k < packed_before.len() implies packed_before[k] < ch by {
                assert(packed_before[k] < unique@[i as int]);
            }
            assert forall|k: int| 0 <= k < missing@.len() implies missing@[k] < ch by {
                assert(missing@[k] < unique@[i as int]);
            }
            assert forall|k: int| 0 <= k < dropped@.len() implies dropped@[k] < ch by {
                assert(dropped@[k] < unique@[i as int]);
            }
        }
        if atlas.contains(ch) {
        } else if atlas.is_full() {
            proof {
                lemma_push_keeps_order(dropped@, ch);
            }
            dropped.push(ch);
        } else {
            match render_glyph(font, ch, config) {
                Some(glyph) => {
                    let outcome = atlas.pack_glyph(ch, &glyph);
                    assert(outcome == PackOutcome::Packed);
                    proof {
                        lemma_push_keeps_order(packed_before, ch);
                    }
                    packed.push(PackedGlyph { ch, glyph });
                    proof {
                        let grown = atlas@;
                        let glyph = packed@.last().glyph;
                        assert(packed@.drop_last() =~= glyphs_before);
                        assert(glyph_chars(packed@) =~= packed_before.push(ch));
                        assert(grown == current.packed(ch, glyph));
                        assert(grown.glyphs.subrange(0, first_new) =~= before.glyphs) by {
                            assert(current.glyphs.subrange(0, first_new) == before.glyphs);
                            assert forall|k: int| 0 <= k < first_new implies grown.glyphs[k]
                                == before.glyphs[k] by {
                                assert(current.glyphs.subrange(0, first_new)[k] == current.glyphs[k]);
                            }
                        }
                        assert forall|k: int|
                            0 <= k < glyph_chars(packed@).len() implies grown.glyphs[first_new
                            + k].ch == #[trigger] glyph_chars(packed@)[k] by {
                            if k < packed_before.len() {
                                assert(current.glyphs[first_new + k].ch == packed_before[k]);
                            }
                        }
                        assert forall|p: int|
                            0 <= p < before.pixels.len() && !in_cells(
                                grown,
                                first_new,
                                grown.glyphs.len() as int,
                                p,
                            ) implies #[trigger] grown.pixels[p] == before.pixels[p] by {
                            let n = current.glyphs.len() as int;
                            assert(!in_cell(grown, n, p));
                            assert(in_cell(current, n, p) == in_cell(grown, n, p));
                            lemma_pack_frame(current, ch, glyph, p);
                            if in_cells(current, first_new, n, p) {
                                let at = choose|at: int|
                                    first_new <= at < n && #[trigger] in_cell(current, at, p);
                                assert(in_cell(grown, at, p));
                            }
                            assert(current.pixels[p] == before.pixels[p]);
                        }
                        assert forall|c: char| #[trigger]
                            missing@.contains(c) implies !grown.contains(c) by {
                            lemma_grown_contains(before, grown, glyph_chars(packed@), c);
                            lemma_grown_contains(before, current, packed_before, c);
                            let k = choose|k: int| 0 <= k < missing@.len() && missing@[k] == c;
                            assert(missing@[k] < unique@[i as int]);
                        }
                        assert(dropped@.len() == 0);
                        assert(!before.is_full());
                    }
                },
                None => {
                    proof {
                        lemma_push_keeps_order(missing@, ch);
                        assert(!before.is_full());
                    }
                    missing.push(ch);
                },
            }
        }
        proof {
            assert forall|k: int, j: int|
                0 <= k < packed@.len() && i + 1 <= j < unique@.len() implies #[trigger] glyph_chars(
                    packed@,
                )[k] < #[trigger] unique@[j] by {
                if k < packed_before.len() {
                    assert(packed_before[k] < unique@[j]);
                } else {
                    assert(unique@[i as int] < unique@[j]);
                }
            }
            assert forall|k: int, j: int|
                0 <= k < missing@.len() && i + 1 <= j < unique@.len() implies #[trigger] missing@[k]
                < #[trigger] unique@[j] by {
                if k < missing_before.len() {
                    assert(missing_before[k] < unique@[j]);
                } else {
                    assert(unique@[i as int] < unique@[j]);
                }
            }
            assert forall|k: int, j: int|
                0 <= k < dropped@.len() && i + 1 <= j < unique@.len() implies #[trigger] dropped@[k]
                < #[trigger] unique@[j] by {
                if k < dropped_before.len() {
                    assert(dropped_before[k] < unique@[j]);
                } else {
                    assert(unique@[i as int] < unique@[j]);
                }
            }
        }
        i += 1;
    }
    let report = CoverageReport { packed, missing, dropped };
    proof {
        assert(unique@.take(unique@.len() as int) =~= unique@);
    }
    report
}

impl FastTextRenderer {
    /// The invariant of the engine: its parts meet theirs, the atlas has the
    /// shape that the configuration asks for, and no white space has a place in
    /// it.
    pub closed spec fn wf(&self) -> bool {
        &&& self.atlas.wf()
        &&& holds_no_whitespace(self.atlas@)
        &&& self.text_buffer.wf()
        &&& self.config.wf()
        &&& self.atlas@.atlas_size == self.config.atlas_size
        &&& self.atlas@.cell_size == self.config.cell_size
    }

    /// What the invariant says of the state that callers see.
    pub proof fn lemma_wf(&self)
        requires
            self.wf(),
        ensures
            self@.atlas.wf(),
            holds_no_whitespace(self@.atlas),
            self@.config.wf(),
            self@.atlas.atlas_size == self@.config.atlas_size,
            self@.atlas.cell_size == self@.config.cell_size,
            0 <= self@.text.cursor <= self@.text.chars.len(),
    {
        self.text_buffer.lemma_cursor_in_text();
    }

    /// An engine for a parsed font.
    pub fn from_font(font: fontdue::Font, config: RendererConfig) -> (renderer: FastTextRenderer)
        requires
            config.wf(),
        ensures
            renderer.wf(),
            renderer@ == RendererView::initial(config),
    {
        let atlas = GlyphAtlas::new(config.atlas_size, config.cell_size);
        let renderer = FastTextRenderer {
            font,
            atlas,
            text_buffer: TextBuffer::new(),
            last_text: Vec::new(),
            dirty_regions: Vec::new(),
            render_pending: false,
            atlas_stale: true,
            config,
        };
        assert(renderer@.atlas == RendererView::initial(config).atlas);
        renderer
    }

    /// An engine with the standard sizes for the font in `font_data`: made when
    /// the rasterizer takes the data as a font, else refused in its words.
    pub fn new(font_data: &[u8], max_glyphs: usize) -> (made: Result<FastTextRenderer, FontError>)
        ensures
            made is Ok <==> font_refusal(font_data@) is None,
            made matches Ok(renderer) ==> renderer.wf() && renderer@ == RendererView::initial(
                RendererConfig::standard_sizes(max_glyphs),
            ),
            made matches Err(error) ==> font_refusal(font_data@) == Some(error.reason@),
    {
        FastTextRenderer::from_parsed(parse_font(font_data), RendererConfig::standard(max_glyphs))
    }

    /// An engine for what parsing a font came to: a new engine around the font
    /// where it was parsed, and the parser's refusal where it was not.
    pub fn from_parsed(parsed: Result<fontdue::Font, &'static str>, config: RendererConfig) -> (made:
        Result<FastTextRenderer, FontError>)
        requires
            config.wf(),
        ensures
            made is Ok <==> parsed is Ok,
            made matches Ok(renderer) ==> renderer.wf() && renderer@ == RendererView::initial(
                config,
            ),
            made matches Err(error) ==> parsed matches Err(reason) && error.reason == reason,
    {
        match parsed {
            Ok(font) => Ok(FastTextRenderer::from_font(font, config)),
            Err(reason) => Err(FontError { reason }),
        }
    }

    /// Commits `text` as the text to draw and records where it differs from the
    /// text committed before.
    fn commit(&mut self, text: Vec<char>)
        requires
            old(self).wf(),
        ensures
            final(self).wf(),
            final(self)@ == old(self)@.committed(text@),
    {
        self.dirty_regions = diff(&self.last_text, &text);
        self.last_text = text;
    }

    /// Commits `new_text` as the text to draw. The dirty regions are recomputed
    /// from scratch: they are the regions in which `new_text` differs from the
    /// text committed before.
    pub fn update_text(&mut self, new_text: &str)
        requires
            old(self).wf(),
        ensures
            final(self).wf(),
            final(self)@ == old(self)@.committed(new_text@),
    {
        self.commit(chars_of(new_text));
    }

    /// Types `ch` at the cursor and commits the new text.
    pub fn insert_char(&mut self, ch: char)
        requires
            old(self).wf(),
        ensures
            final(self).wf(),
            final(self)@ == old(self)@.edited(
                TextBufferView {
                    chars: old(self)@.text.chars.insert(old(self)@.text.cursor, ch),
                    cursor: old(self)@.text.cursor + 1,
                },
            ),
    {
        self.text_buffer.insert_char(ch);
        self.update_last_text();
    }

    /// Removes the character before the cursor and commits the new text. With
    /// the cursor at the start nothing changes, and nothing is committed.
    pub fn delete_char_before_cursor(&mut self)
        requires
            old(self).wf(),
        ensures
            final(self).wf(),
            old(self)@.text.cursor > 0 ==> final(self)@ == old(self)@.edited(
                TextBufferView {
                    chars: old(self)@.text.chars.remove(old(self)@.text.cursor - 1),
                    cursor: old(self)@.text.cursor - 1,
                },
            ),
            old(self)@.text.cursor <= 0 ==> final(self)@ == old(self)@,
    {
        if self.text_buffer.delete_char_before_cursor() {
            self.update_last_text();
        }
    }

    /// Moves the cursor one character towards the start. The text stays.
    pub fn move_cursor_left(&mut self)
        requires
            old(self).wf(),
        ensures
            final(self).wf(),
            final(self)@ == (RendererView {
                text: TextBufferView {
                    chars: old(self)@.text.chars,
                    cursor: if old(self)@.text.cursor > 0 {
                        old(self)@.text.cursor - 1
                    } else {
                        0
                    },
                },
                ..old(self)@
            }),
    {
        self.text_buffer.move_cursor_left();
    }

    /// Moves the cursor one character towards the end. The text stays.
    pub fn move_cursor_right(&mut self)
        requires
            old(self).wf(),
        ensures
            final(self).wf(),
            final(self)@ == (RendererView {
                text: TextBufferView {
                    chars: old(self)@.text.chars,
                    cursor: if old(self)@.text.cursor < old(self)@.text.chars.len() {
                        old(self)@.text.cursor + 1
                    } else {
                        old(self)@.text.cursor
                    },
                },
                ..old(self)@
            }),
    {
        self.text_buffer.move_cursor_right();
    }

    /// The cursor's character index.
    pub fn get_cursor_position(&self) -> (cursor: usize)
        ensures
            cursor == self@.text.cursor,
    {
        self.text_buffer.get_cursor_position()
    }

    /// The edited text.
    pub fn get_text(&self) -> (text: String)
        ensures
            text@ == self@.text.chars,
    {
        self.text_buffer.get_text()
    }

    /// Replaces the edited text, puts the cursor behind it and commits it.
    pub fn set_text(&mut self, text: &str)
        requires
            old(self).wf(),
        ensures
            final(self).wf(),
            final(self)@ == old(self)@.edited(
                TextBufferView { chars: text@, cursor: text@.len() as int },
            ),
    {
        self.text_buffer.set_text(text);
        self.update_last_text();
    }

    /// Commits the edited text.
    fn update_last_text(&mut self)
        requires
            old(self).wf(),
        ensures
            final(self).wf(),
            final(self)@ == old(self)@.committed(old(self)@.text.chars),
    {
        let mut snapshot: Vec<char> = Vec::new();
        let chars = self.text_buffer.chars();
        let mut i: usize = 0;
        while i < chars.len()
            invariant
                0 <= i <= chars@.len(),
                snapshot@ == chars@.take(i as int),
            decreases chars@.len() - i,
        {
            snapshot.push(chars[i]);
            assert(chars@.take(i + 1) =~= chars@.take(i as int).push(chars@[i as int]));
            i += 1;
        }
        assert(chars@.take(chars@.len() as int) =~= chars@);
        self.commit(snapshot);
    }

    /// Makes sure that every drawn character of `text` has a place in the atlas,
    /// as far as the font and the space allow. Characters that have a place keep
    /// it; new ones are rasterized and packed, in the order of their code
    /// points, into the cells that are still free. A character without a
    /// drawable glyph, or without a free cell, is reported and drawn as blank.
    pub fn generate_sdf_atlas(&mut self, text: &str) -> (report: CoverageReport)
        requires
            old(self).wf(),
        ensures
            final(self).wf(),
            coverage_outcome(
                old(self)@.atlas,
                text@,
                final(self)@.atlas,
                report,
                old(self)@.config.buffer_size as int,
            ),
            final(self)@ == (RendererView {
                atlas: final(self)@.atlas,
                atlas_stale: old(self)@.atlas_stale || report.packed@.len() > 0,
                ..old(self)@
            }),
    {
        let chars = chars_of(text);
        let report = cover_text(&mut self.atlas, &self.font, &chars, &self.config);
        proof {
            lemma_coverage_keeps_whitespace_out(
                old(self).atlas@,
                text@,
                self.atlas@,
                report,
                self.config.buffer_size as int,
            );
        }
        if report.packed.len() > 0 {
            self.atlas_stale = true;
        }
        report
    }

    /// Empties the atlas: every pixel neutral, no character cached. To be called
    /// when the font or its size changes.
    pub fn clear(&mut self)
        requires
            old(self).wf(),
        ensures
            final(self).wf(),
            final(self)@ == (RendererView {
                atlas: old(self)@.atlas.cleared(),
                atlas_stale: true,
                ..old(self)@
            }),
    {
        self.atlas.clear();
        self.atlas_stale = true;
    }

    /// The vertex stream that draws `text` with its first line starting at the
    /// pixel `(x, y)`: one quad for each character that has a place in the atlas,
    /// in the order of the text. White space and characters without a place move
    /// the pen and add nothing.
    pub fn generate_text_vertices(&self, text: &str, x: i16, y: i16) -> (vertices: Vec<i64>)
        requires
            self.wf(),
        ensures
            draws(vertices@, text@, self@.atlas, self@.config.buffer_size as int),
            vertices@.len() == 24 * cached_count(text@, self@.atlas),
    {
        let placed = layout_text(&self.font, text, self.config.font_px, x, y);
        let vertices = quads_for(&placed, &self.atlas, self.config.buffer_size);
        proof {
            lemma_stream_len(placed@, self.atlas@, self.config.buffer_size as int);
            assert(as_ints(vertices@).len() == vertices@.len());
            assert(placed_chars(placed@) == text@);
        }
        vertices
    }

    /// Renders the committed text: covers it, lays it out and builds its quads.
    fn render_committed(&mut self, x: i16, y: i16) -> (frame: Frame)
        requires
            old(self).wf(),
        ensures
            final(self).wf(),
            is_frame_of(old(self)@, final(self)@, frame),
    {
        let coverage = cover_text(&mut self.atlas, &self.font, &self.last_text, &self.config);
        proof {
            let buffer = self.config.buffer_size as int;
            lemma_coverage_keeps_whitespace_out(
                old(self).atlas@,
                self.last_text@,
                self.atlas@,
                coverage,
                buffer,
            );
            if coverage.missing@.len() == 0 && coverage.dropped@.len() == 0 {
                lemma_coverage_complete(
                    old(self).atlas@,
                    self.last_text@,
                    self.atlas@,
                    coverage,
                    buffer,
                );
                lemma_covered_count(self.last_text@, self.atlas@);
            }
        }
        if coverage.packed.len() > 0 {
            self.atlas_stale = true;
        }
        self.render_pending = false;
        let text = string_of(&self.last_text);
        let vertices = self.generate_text_vertices(text.as_str(), x, y);
        let vertex_count = vertices.len() / 4;
        Frame { vertices, vertex_count, upload_atlas: self.atlas_stale, coverage }
    }

    /// One render pass for `text`, with its first line starting at the pixel
    /// `(x, y)`. Where `text` is not the committed text it is committed first.
    /// Then the atlas is made to cover it and its vertex stream is built. No
    /// render is pending afterwards.
    pub fn render_text(&mut self, text: &str, x: i16, y: i16) -> (frame: Frame)
        requires
            old(self).wf(),
        ensures
            final(self).wf(),
            final(self)@.last_text == text@,
            is_frame_of(
                if text@ == old(self)@.last_text {
                    old(self)@
                } else {
                    old(self)@.committed(text@)
                },
                final(self)@,
                frame,
            ),
    {
        let chars = chars_of(text);
        if !same_chars(&chars, &self.last_text) {
            self.commit(chars);
        }
        self.render_committed(x, y)
    }

    /// One render pass for `text`; the same as `render_text`.
    pub fn render(&mut self, text: &str, x: i16, y: i16) -> (frame: Frame)
        requires
            old(self).wf(),
        ensures
            final(self).wf(),
            final(self)@.last_text == text@,
            is_frame_of(
                if text@ == old(self)@.last_text {
                    old(self)@
                } else {
                    old(self)@.committed(text@)
                },
                final(self)@,
                frame,
            ),
    {
        self.render_text(text, x, y)
    }

    /// Asks for a render of the committed text. Returns whether the caller has
    /// to schedule one: it has not when a render is pending already, which will
    /// then draw the latest text.
    pub fn request_render(&mut self) -> (schedule: bool)
        requires
            old(self).wf(),
        ensures
            final(self).wf(),
            schedule == !old(self)@.render_pending,
            final(self)@ == (RendererView { render_pending: true, ..old(self)@ }),
    {
        let schedule = !self.render_pending;
        self.render_pending = true;
        schedule
    }

    /// The render pass that was asked for, if one was: a pass for the text that
    /// is committed now, whatever was committed when it was asked for.
    pub fn render_if_dirty(&mut self, x: i16, y: i16) -> (frame: Option<Frame>)
        requires
            old(self).wf(),
        ensures
            final(self).wf(),
            frame is Some == old(self)@.render_pending,
            frame is None ==> final(self)@ == old(self)@,
            frame matches Some(frame) ==> is_frame_of(old(self)@, final(self)@, frame),
    {
        if self.render_pending {
            Some(self.render_committed(x, y))
        } else {
            None
        }
    }

    /// Tells the engine that the backend has uploaded the atlas as it is now.
    pub fn atlas_uploaded(&mut self)
        requires
            old(self).wf(),
        ensures
            final(self).wf(),
            final(self)@ == (RendererView { atlas_stale: false, ..old(self)@ }),
    {
        self.atlas_stale = false;
    }

    /// Whether a render was asked for and has not happened yet.
    pub fn is_render_pending(&self) -> (pending: bool)
        ensures
            pending == self@.render_pending,
    {
        self.render_pending
    }

    /// The text that was committed last.
    pub fn last_text(&self) -> (text: String)
        ensures
            text@ == self@.last_text,
    {
        string_of(&self.last_text)
    }

    /// The regions in which the last commit changed the text.
    pub fn dirty_regions(&self) -> (regions: &Vec<DirtyRegion>)
        ensures
            regions@ == self@.dirty_regions,
    {
        &self.dirty_regions
    }

    /// The glyph atlas.
    pub fn atlas(&self) -> (atlas: &GlyphAtlas)
        ensures
            atlas@ == self@.atlas,
    {
        &self.atlas
    }

    /// The sizes the engine was built with.
    pub fn config(&self) -> (config: RendererConfig)
        ensures
            config == self@.config,
    {
        self.config
    }
}

} // verus!
