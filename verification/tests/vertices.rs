use sdf_text::atlas::{GlyphAtlas, PackOutcome, SdfGlyph};
use sdf_text::font::PlacedGlyph;
use sdf_text::vertices::{quads_for, VALUES_PER_GLYPH, VALUES_PER_VERTEX, VERTICES_PER_GLYPH};

fn field(w: usize, h: usize) -> SdfGlyph {
    SdfGlyph { width: w - 2, height: h - 2, sdf_width: w, sdf_height: h, bytes: vec![0; w * h] }
}

#[test]
fn a_glyph_is_six_vertices_of_four_values() {
    assert_eq!(VALUES_PER_VERTEX, 4);
    assert_eq!(VERTICES_PER_GLYPH, 6);
    assert_eq!(VALUES_PER_GLYPH, 24);
}

#[test]
fn a_quad_is_two_triangles_in_fixed_order() {
    let mut atlas = GlyphAtlas::new(64, 16);
    assert_eq!(atlas.pack_glyph('a', &field(3, 3)), PackOutcome::Packed);
    assert_eq!(atlas.pack_glyph('b', &field(10, 12)), PackOutcome::Packed);
    let placed = vec![PlacedGlyph { ch: 'b', x: 100, y: 50 }];
    let vertices = quads_for(&placed, &atlas, 4);
    // left 96, top 46, right 106, bottom 58; u 16..26, v 0..12
    let expected: Vec<i64> = vec![
         96, 58, 16, 12,
        106, 58, 26, 12,
         96, 46, 16,  0,
        106, 58, 26, 12,
        106, 46, 26,  0,
         96, 46, 16,  0,
    ];
    assert_eq!(vertices, expected);
}

#[test]
fn glyphs_without_a_place_are_skipped() {
    let mut atlas = GlyphAtlas::new(64, 16);
    assert_eq!(atlas.pack_glyph('a', &field(4, 4)), PackOutcome::Packed);
    let placed = vec![
        PlacedGlyph { ch: 'x', x: 0, y: 0 },
        PlacedGlyph { ch: 'a', x: 7, y: 9 },
        PlacedGlyph { ch: ' ', x: 14, y: 9 },
        PlacedGlyph { ch: 'a', x: 21, y: 9 },
    ];
    let vertices = quads_for(&placed, &atlas, 1);
    assert_eq!(vertices.len(), 48);
    assert_eq!(&vertices[0..4], &[6, 12, 0, 4]);
    assert_eq!(&vertices[24..28], &[20, 12, 0, 4]);
    assert_eq!(quads_for(&Vec::new(), &atlas, 1), Vec::<i64>::new());
}

#[test]
fn positions_may_be_negative() {
    let mut atlas = GlyphAtlas::new(64, 16);
    assert_eq!(atlas.pack_glyph('a', &field(4, 4)), PackOutcome::Packed);
    let placed = vec![PlacedGlyph { ch: 'a', x: -3, y: i32::MIN }];
    let vertices = quads_for(&placed, &atlas, 8);
    assert_eq!(&vertices[0..2], &[-11, i32::MIN as i64 - 8 + 4]);
    assert_eq!(&vertices[8..10], &[-11, i32::MIN as i64 - 8]);
}
