//! What it means for the atlas to cover a text, and what one pass of covering
//! may change.

use crate::atlas::{in_rect, lemma_lookup_at, AtlasView, SdfGlyph};
use crate::chars::{is_whitespace, strictly_increasing};
use crate::sdf::is_drawable;
use vstd::prelude::*;

verus! {

/// A character with the distance field that was packed for it.
#[derive(Debug)]
pub struct PackedGlyph {
    pub ch: char,
    pub glyph: SdfGlyph,
}

/// What one pass of covering a text did with the characters that had no cell.
/// Each list is in increasing order of code points.
#[derive(Debug)]
pub struct CoverageReport {
    /// The characters that were rasterized and packed, each with its field, so
    /// that a backend can upload the new cells alone.
    pub packed: Vec<PackedGlyph>,
    /// The characters that were rasterized and have no drawable glyph. They are
    /// drawn as blank.
    pub missing: Vec<char>,
    /// The characters for which no cell was left. They were not rasterized and
    /// are drawn as blank.
    pub dropped: Vec<char>,
}

impl CoverageReport {
    /// The number of characters that were handed to the rasterizer.
    pub open spec fn rasterized(&self) -> nat {
        self.packed@.len() + self.missing@.len()
    }
}

/// The characters of a list of packed glyphs, in order.
pub open spec fn glyph_chars(packed: Seq<PackedGlyph>) -> Seq<char> {
    packed.map_values(|p: PackedGlyph| p.ch)
}

/// The atlas after the glyphs of `packed` were packed into it, one after the
/// other.
pub open spec fn packed_all(atlas: AtlasView, packed: Seq<PackedGlyph>) -> AtlasView
    decreases packed.len(),
{
    if packed.len() == 0 {
        atlas
    } else {
        packed_all(atlas, packed.drop_last()).packed(packed.last().ch, packed.last().glyph)
    }
}

/// The field of `glyph` is its bitmap with a margin of `buffer` pixels on every
/// side, and the bitmap is not empty.
pub open spec fn is_padded_by(glyph: SdfGlyph, buffer: int) -> bool {
    &&& glyph.wf()
    &&& is_drawable(glyph.width as int, glyph.height as int, buffer)
    &&& glyph.sdf_width == glyph.width + 2 * buffer
    &&& glyph.sdf_height == glyph.height + 2 * buffer
}

/// `ch` occurs in `text` and is drawn: it is not white space.
pub open spec fn is_visible_in(text: Seq<char>, ch: char) -> bool {
    text.contains(ch) && !is_whitespace(ch)
}

/// Every character of `text` that is drawn has a cell.
pub open spec fn covers(atlas: AtlasView, text: Seq<char>) -> bool {
    forall|ch: char|
        #![trigger atlas.contains(ch)]
        #![trigger text.contains(ch)]
        is_visible_in(text, ch) ==> atlas.contains(ch)
}

/// No white space has a cell.
pub open spec fn holds_no_whitespace(atlas: AtlasView) -> bool {
    forall|i: int| 0 <= i < atlas.glyphs.len() ==> !is_whitespace((#[trigger] atlas.glyphs[i]).ch)
}

/// Pixel `p` lies in cell `index`.
pub open spec fn in_cell(atlas: AtlasView, index: int, p: int) -> bool {
    in_rect(
        p,
        atlas.atlas_size,
        atlas.cell_x(index),
        atlas.cell_y(index),
        atlas.cell_size,
        atlas.cell_size,
    )
}

/// Pixel `p` lies in one of the cells `from..to`.
pub open spec fn in_cells(atlas: AtlasView, from: int, to: int, p: int) -> bool {
    exists|i: int| from <= i < to && #[trigger] in_cell(atlas, i, p)
}

/// `after` is `before` with one glyph packed for each character of `packed`, in
/// that order. Every cached character has kept its entry, and no pixel outside
/// the cells of the new characters has changed.
pub open spec fn grown_by(before: AtlasView, after: AtlasView, packed: Seq<char>) -> bool {
    &&& after.atlas_size == before.atlas_size
    &&& after.cell_size == before.cell_size
    &&& after.glyphs.len() == before.glyphs.len() + packed.len()
    &&& after.glyphs.subrange(0, before.glyphs.len() as int) == before.glyphs
    &&& forall|k: int|
        0 <= k < packed.len() ==> after.glyphs[before.glyphs.len() + k].ch == #[trigger] packed[k]
    &&& after.pixels.len() == before.pixels.len()
    &&& forall|p: int|
        0 <= p < before.pixels.len() && !in_cells(
            after,
            before.glyphs.len() as int,
            after.glyphs.len() as int,
            p,
        ) ==> #[trigger] after.pixels[p] == before.pixels[p]
}

/// What holds after one pass of covering `text`, whatever the rasterizer gave.
///
/// The atlas is the one from before with the reported glyphs packed into it, in
/// the order of the report; each of them is a bitmap with its margin. So the
/// atlas has only grown. The three lists of the report hold, between them,
/// exactly the drawn characters of `text` that had no cell before; a character
/// is in one list only. Missing and dropped characters have no cell afterwards.
/// Nothing is rasterized once the atlas is full, and a character is dropped
/// only when it is.
pub open spec fn coverage_outcome(
    before: AtlasView,
    text: Seq<char>,
    after: AtlasView,
    report: CoverageReport,
    buffer: int,
) -> bool {
    &&& after == packed_all(before, report.packed@)
    &&& forall|k: int|
        0 <= k < report.packed@.len() ==> is_padded_by((#[trigger] report.packed@[k]).glyph, buffer)
    &&& grown_by(before, after, glyph_chars(report.packed@))
    &&& strictly_increasing(glyph_chars(report.packed@))
    &&& strictly_increasing(report.missing@)
    &&& strictly_increasing(report.dropped@)
    &&& forall|ch: char|
        #![trigger glyph_chars(report.packed@).contains(ch)]
        #![trigger report.missing@.contains(ch)]
        #![trigger report.dropped@.contains(ch)]
        #![trigger text.contains(ch)]
        (is_visible_in(text, ch) && !before.contains(ch)) <==> (glyph_chars(
            report.packed@,
        ).contains(ch) || report.missing@.contains(ch) || report.dropped@.contains(ch))
    &&& forall|ch: char| #[trigger]
        report.missing@.contains(ch) ==> !after.contains(ch) && !report.dropped@.contains(ch)
    &&& forall|ch: char| #[trigger] report.dropped@.contains(ch) ==> !after.contains(ch)
    &&& before.is_full() ==> report.rasterized() == 0
    &&& report.dropped@.len() > 0 ==> after.is_full()
}

/// Growing keeps what was cached: a character that had a cell has the same
/// entry afterwards.
pub proof fn lemma_grown_keeps(before: AtlasView, after: AtlasView, packed: Seq<char>, ch: char)
    requires
        before.wf(),
        after.wf(),
        grown_by(before, after, packed),
        before.contains(ch),
    ensures
        after.contains(ch),
        after.lookup(ch) == before.lookup(ch),
{
    let i = before.index_of(ch);
    assert(before.glyphs[i].ch == ch);
    assert(after.glyphs[i] == after.glyphs.subrange(0, before.glyphs.len() as int)[i]);
    lemma_lookup_at(before, i);
    lemma_lookup_at(after, i);
}

/// A character has a cell after growing exactly when it had one before or is
/// one of the packed characters.
pub proof fn lemma_grown_contains(before: AtlasView, after: AtlasView, packed: Seq<char>, ch: char)
    requires
        grown_by(before, after, packed),
    ensures
        after.contains(ch) <==> (before.contains(ch) || packed.contains(ch)),
{
    let n = before.glyphs.len() as int;
    if after.contains(ch) {
        let i = after.index_of(ch);
        assert(after.glyphs[i].ch == ch);
        if i < n {
            assert(after.glyphs.subrange(0, n)[i] == after.glyphs[i]);
            assert(before.glyphs[i].ch == ch);
        } else {
            assert(packed[i - n] == ch);
        }
    }
    if before.contains(ch) {
        let i = before.index_of(ch);
        assert(before.glyphs[i].ch == ch);
        assert(after.glyphs.subrange(0, n)[i] == after.glyphs[i]);
        assert(after.glyphs[i].ch == ch);
    }
    if packed.contains(ch) {
        let k = choose|k: int| 0 <= k < packed.len() && packed[k] == ch;
        assert(after.glyphs[n + k].ch == packed[k]);
    }
}

/// Covering a text never gives white space a cell.
pub proof fn lemma_coverage_keeps_whitespace_out(
    before: AtlasView,
    text: Seq<char>,
    after: AtlasView,
    report: CoverageReport,
    buffer: int,
)
    requires
        coverage_outcome(before, text, after, report, buffer),
        holds_no_whitespace(before),
    ensures
        holds_no_whitespace(after),
{
    let n = before.glyphs.len() as int;
    assert forall|i: int| 0 <= i < after.glyphs.len() implies !is_whitespace(
        (#[trigger] after.glyphs[i]).ch,
    ) by {
        if i < n {
            assert(after.glyphs.subrange(0, n)[i] == after.glyphs[i]);
            assert(!is_whitespace(before.glyphs[i].ch));
        } else {
            let ch = glyph_chars(report.packed@)[i - n];
            assert(after.glyphs[n + (i - n)].ch == ch);
            assert(glyph_chars(report.packed@).contains(ch));
        }
    }
}

/// Coverage: a pass in which no glyph was missing and no character was dropped
/// leaves every drawn character of the text with a cell.
pub proof fn lemma_coverage_complete(
    before: AtlasView,
    text: Seq<char>,
    after: AtlasView,
    report: CoverageReport,
    buffer: int,
)
    requires
        coverage_outcome(before, text, after, report, buffer),
        report.missing@.len() == 0,
        report.dropped@.len() == 0,
    ensures
        covers(after, text),
{
    assert forall|ch: char| is_visible_in(text, ch) implies after.contains(ch) by {
        lemma_grown_contains(before, after, glyph_chars(report.packed@), ch);
        if !before.contains(ch) {
            assert(glyph_chars(report.packed@).contains(ch) || report.missing@.contains(ch)
                || report.dropped@.contains(ch));
        }
    }
}

/// A pass over a text that is covered already, or over a full atlas, changes
/// nothing and rasterizes nothing.
pub proof fn lemma_coverage_idle(
    before: AtlasView,
    text: Seq<char>,
    after: AtlasView,
    report: CoverageReport,
    buffer: int,
)
    requires
        coverage_outcome(before, text, after, report, buffer),
        covers(before, text) || before.is_full(),
    ensures
        after == before,
        report.rasterized() == 0,
        covers(before, text) ==> report.dropped@.len() == 0,
{
    if covers(before, text) {
        if report.packed@.len() > 0 {
            assert(glyph_chars(report.packed@)[0] == report.packed@[0].ch);
            assert(glyph_chars(report.packed@).contains(report.packed@[0].ch));
        }
        if report.missing@.len() > 0 {
            assert(report.missing@.contains(report.missing@[0]));
        }
        if report.dropped@.len() > 0 {
            assert(report.dropped@.contains(report.dropped@[0]));
        }
    }
    assert(after.glyphs =~= before.glyphs);
    assert(after.pixels =~= before.pixels) by {
        assert forall|p: int| 0 <= p < before.pixels.len() implies after.pixels[p]
            == before.pixels[p] by {
            assert(!in_cells(after, before.glyphs.len() as int, after.glyphs.len() as int, p));
        }
    }
}

/// Idempotence: when a pass found no glyph missing, a second pass over the same
/// text rasterizes nothing and leaves the atlas, pixels and places, as it is.
pub proof fn lemma_coverage_idempotent(
    start: AtlasView,
    text: Seq<char>,
    once: AtlasView,
    first: CoverageReport,
    twice: AtlasView,
    second: CoverageReport,
    buffer: int,
)
    requires
        coverage_outcome(start, text, once, first, buffer),
        coverage_outcome(once, text, twice, second, buffer),
        first.missing@.len() == 0,
    ensures
        twice == once,
        second.rasterized() == 0,
{
    if first.dropped@.len() == 0 {
        lemma_coverage_complete(start, text, once, first, buffer);
    }
    lemma_coverage_idle(once, text, twice, second, buffer);
}

/// Packing a glyph leaves every pixel outside the glyph's cell as it was.
pub proof fn lemma_pack_frame(atlas: AtlasView, ch: char, glyph: SdfGlyph, p: int)
    requires
        atlas.wf(),
        0 <= p < atlas.pixels.len(),
        !in_cell(atlas, atlas.glyphs.len() as int, p),
    ensures
        atlas.packed(ch, glyph).pixels[p] == atlas.pixels[p],
        atlas.packed(ch, glyph).pixels.len() == atlas.pixels.len(),
{
}

} // verus!
