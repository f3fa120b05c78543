//! One textured quad per visible glyph.
//!
//! Positions are screen pixels with the y axis pointing down, texture
//! coordinates are atlas pixels. Turning them into normalized device
//! coordinates and into fractions of the atlas side is left to the caller.

use crate::atlas::{lemma_cell_in_atlas, AtlasView, GlyphAtlas, GlyphInfo, MAX_GLYPH_SIDE};
use crate::chars::is_whitespace;
use crate::coverage::{covers, holds_no_whitespace};
use crate::font::{placed_chars, PlacedGlyph};
use vstd::prelude::*;

verus! {

/// A vertex is four values: position `x`, `y` and texture coordinate `u`, `v`.
pub const VALUES_PER_VERTEX: usize = 4;

/// A glyph is two triangles.
pub const VERTICES_PER_GLYPH: usize = 6;

/// The values that one glyph adds to the stream.
pub const VALUES_PER_GLYPH: usize = 24;

/// The quad of one glyph. The layout gives the corner of the glyph's bitmap; the
/// quad starts `buffer` pixels before it and spans the whole distance field. Its
/// six vertices are bottom left, bottom right, top left, and bottom right, top
/// right, top left.
pub open spec fn quad_vertices(glyph: PlacedGlyph, info: GlyphInfo, buffer: int) -> Seq<int> {
    let left = glyph.x - buffer;
    let top = glyph.y - buffer;
    let right = left + info.sdf_width;
    let bottom = top + info.sdf_height;
    let u_left = info.atlas_x as int;
    let v_top = info.atlas_y as int;
    let u_right = info.atlas_x + info.sdf_width;
    let v_bottom = info.atlas_y + info.sdf_height;
    seq![
        left, bottom, u_left, v_bottom,
        right, bottom, u_right, v_bottom,
        left, top, u_left, v_top,
        right, bottom, u_right, v_bottom,
        right, top, u_right, v_top,
        left, top, u_left, v_top,
    ]
}

/// What one placed glyph adds to the stream: its quad where its character is
/// cached, nothing where it is not.
pub open spec fn glyph_vertices(glyph: PlacedGlyph, atlas: AtlasView, buffer: int) -> Seq<int> {
    match atlas.lookup(glyph.ch) {
        Some(info) => quad_vertices(glyph, info, buffer),
        None => Seq::empty(),
    }
}

/// The vertex stream of a run of placed glyphs: their quads, in order.
pub open spec fn vertex_stream(placed: Seq<PlacedGlyph>, atlas: AtlasView, buffer: int) -> Seq<int>
    decreases placed.len(),
{
    if placed.len() == 0 {
        Seq::empty()
    } else {
        vertex_stream(placed.drop_last(), atlas, buffer) + glyph_vertices(
            placed.last(),
            atlas,
            buffer,
        )
    }
}

/// The number of positions of `text` whose character is cached.
pub open spec fn cached_count(text: Seq<char>, atlas: AtlasView) -> nat
    decreases text.len(),
{
    if text.len() == 0 {
        0
    } else {
        cached_count(text.drop_last(), atlas) + if atlas.contains(text.last()) {
            1nat
        } else {
            0nat
        }
    }
}

/// The number of positions of `text` that are drawn: those whose character is
/// not white space.
pub open spec fn drawn_count(text: Seq<char>) -> nat
    decreases text.len(),
{
    if text.len() == 0 {
        0
    } else {
        drawn_count(text.drop_last()) + if is_whitespace(text.last()) {
            0nat
        } else {
            1nat
        }
    }
}

/// Where the atlas covers the text and holds no white space, the cached
/// positions of the text are its drawn positions.
pub proof fn lemma_covered_count(text: Seq<char>, atlas: AtlasView)
    requires
        covers(atlas, text),
        holds_no_whitespace(atlas),
    ensures
        cached_count(text, atlas) == drawn_count(text),
    decreases text.len(),
{
    if text.len() > 0 {
        let shorter = text.drop_last();
        let last = text.last();
        assert(covers(atlas, shorter)) by {
            assert forall|ch: char| shorter.contains(ch) && !is_whitespace(ch) implies atlas.contains(
                ch,
            ) by {
                let k = choose|k: int| 0 <= k < shorter.len() && shorter[k] == ch;
                assert(text[k] == ch);
                assert(text.contains(ch));
            }
        }
        lemma_covered_count(shorter, atlas);
        assert(text[text.len() - 1] == last);
        assert(text.contains(last));
        if atlas.contains(last) {
            let i = atlas.index_of(last);
            assert(!is_whitespace(atlas.glyphs[i].ch));
        }
    }
}

/// The values of a stream as integers.
pub open spec fn as_ints(values: Seq<i64>) -> Seq<int> {
    values.map_values(|v: i64| v as int)
}

/// The stream holds twenty-four values for each glyph whose character is cached,
/// wherever the layout has put the glyphs.
pub proof fn lemma_stream_len(placed: Seq<PlacedGlyph>, atlas: AtlasView, buffer: int)
    ensures
        vertex_stream(placed, atlas, buffer).len() == 24 * cached_count(placed_chars(placed), atlas),
    decreases placed.len(),
{
    if placed.len() > 0 {
        lemma_stream_len(placed.drop_last(), atlas, buffer);
        assert(placed_chars(placed).drop_last() =~= placed_chars(placed.drop_last()));
        assert(placed_chars(placed).last() == placed.last().ch);
    } else {
        assert(placed_chars(placed) =~= Seq::empty());
    }
}

/// The vertex stream for glyphs that the layout has placed. A glyph whose
/// character has no place in the atlas is skipped. The stream is a function of
/// the placements and of the atlas alone.
pub fn quads_for(placed: &Vec<PlacedGlyph>, atlas: &GlyphAtlas, buffer: usize) -> (vertices: Vec<i64>)
    requires
        atlas.wf(),
        buffer <= MAX_GLYPH_SIDE,
    ensures
        as_ints(vertices@) == vertex_stream(placed@, atlas@, buffer as int),
{
    let mut vertices: Vec<i64> = Vec::new();
    let atlas_size = atlas.atlas_size();
    proof {
        assert(atlas_size <= 0xffff_ffff) by (nonlinear_arith)
            requires
                atlas_size * atlas_size <= usize::MAX,
                usize::MAX <= 0xffff_ffff_ffff_ffff,
                0 <= atlas_size,
        ;
    }
    let mut i: usize = 0;
    while i < placed.len()
        invariant
            atlas.wf(),
            buffer <= MAX_GLYPH_SIDE,
            atlas_size == atlas@.atlas_size <= 0xffff_ffff,
            0 <= i <= placed@.len(),
            as_ints(vertices@) == vertex_stream(placed@.take(i as int), atlas@, buffer as int),
        decreases placed@.len() - i,
    {
        let glyph = placed[i];
        let ghost before = vertices@;
        assert(placed@.take(i + 1).drop_last() =~= placed@.take(i as int));
        match atlas.lookup(glyph.ch) {
            Some(info) => {
                proof {
                    let at = atlas@.index_of(glyph.ch);
                    assert(atlas@.glyphs[at].ch == glyph.ch);
                    lemma_cell_in_atlas(atlas@.atlas_size, atlas@.cell_size, at);
                }
                let left: i64 = glyph.x as i64 - buffer as i64;
                let top: i64 = glyph.y as i64 - buffer as i64;
                let right: i64 = left + info.sdf_width as i64;
                let bottom: i64 = top + info.sdf_height as i64;
                let u_left: i64 = info.atlas_x as i64;
                let v_top: i64 = info.atlas_y as i64;
                let u_right: i64 = u_left + info.sdf_width as i64;
                let v_bottom: i64 = v_top + info.sdf_height as i64;
                vertices.push(left);
                vertices.push(bottom);
                vertices.push(u_left);
                vertices.push(v_bottom);
                vertices.push(right);
                vertices.push(bottom);
                vertices.push(u_right);
                vertices.push(v_bottom);
                vertices.push(left);
                vertices.push(top);
                vertices.push(u_left);
                vertices.push(v_top);
                vertices.push(right);
                vertices.push(bottom);
                vertices.push(u_right);
                vertices.push(v_bottom);
                vertices.push(right);
                vertices.push(top);
                vertices.push(u_right);
                vertices.push(v_top);
                vertices.push(left);
                vertices.push(top);
                vertices.push(u_left);
                vertices.push(v_top);
                assert(as_ints(vertices@) =~= as_ints(before) + quad_vertices(
                    glyph,
                    info,
                    buffer as int,
                ));
            },
            None => {
                assert(as_ints(vertices@) =~= as_ints(before) + Seq::<int>::empty());
            },
        }
        i += 1;
    }
    assert(placed@.take(placed@.len() as int) =~= placed@);
    vertices
}

} // verus!
