use fontdue::layout::{CoordinateSystem, Layout, LayoutSettings, TextStyle};
use sdf_text::atlas::{GlyphInfo, NEUTRAL_GRAY};
use sdf_text::coverage::CoverageReport;
use sdf_text::dirty::DirtyRegion;
use sdf_text::font::RasterGlyph;
use sdf_text::input::{apply_edit, commit_input, insert_char_at_cursor, key_down, EditEvent};
use sdf_text::renderer::{FastTextRenderer, RendererConfig};
use sdf_text::sdf::sdf_from_raster;

/// A font of four glyphs: boxes for the printable ASCII characters, a narrow
/// one for `i`, and no outline for `~` and for everything else.
const FONT: [u8; 588] = [
    0, 1, 0, 0, 0, 7, 0, 64, 0, 2, 0, 48, 99, 109, 97, 112,
    0, 96, 1, 158, 0, 0, 0, 124, 0, 0, 0, 232, 103, 108, 121, 102,
    7, 124, 9, 116, 0, 0, 1, 100, 0, 0, 0, 72, 104, 101, 97, 100,
    97, 218, 67, 162, 0, 0, 1, 172, 0, 0, 0, 54, 104, 104, 101, 97,
    5, 172, 1, 249, 0, 0, 1, 228, 0, 0, 0, 36, 104, 109, 116, 120,
    7, 108, 0, 100, 0, 0, 2, 8, 0, 0, 0, 16, 108, 111, 99, 97,
    0, 0, 0, 180, 0, 0, 2, 24, 0, 0, 0, 20, 109, 97, 120, 112,
    0, 6, 0, 6, 0, 0, 2, 44, 0, 0, 0, 32, 0, 0, 0, 1,
    0, 3, 0, 1, 0, 0, 0, 12, 0, 4, 0, 220, 0, 0, 0, 4,
    0, 4, 0, 1, 0, 0, 0, 126, 255, 255, 0, 0, 0, 33, 255, 255,
    0, 0, 0, 1, 0, 4, 0, 0, 0, 1, 0, 1, 0, 1, 0, 1,
    0, 1, 0, 1, 0, 1, 0, 1, 0, 1, 0, 1, 0, 1, 0, 1,
    0, 1, 0, 1, 0, 1, 0, 1, 0, 1, 0, 1, 0, 1, 0, 1,
    0, 1, 0, 1, 0, 1, 0, 1, 0, 1, 0, 1, 0, 1, 0, 1,
    0, 1, 0, 1, 0, 1, 0, 1, 0, 1, 0, 1, 0, 1, 0, 1,
    0, 1, 0, 1, 0, 1, 0, 1, 0, 1, 0, 1, 0, 1, 0, 1,
    0, 1, 0, 1, 0, 1, 0, 1, 0, 1, 0, 1, 0, 1, 0, 1,
    0, 1, 0, 1, 0, 1, 0, 1, 0, 1, 0, 1, 0, 1, 0, 1,
    0, 1, 0, 1, 0, 1, 0, 1, 0, 1, 0, 1, 0, 1, 0, 1,
    0, 1, 0, 1, 0, 1, 0, 1, 0, 2, 0, 1, 0, 1, 0, 1,
    0, 1, 0, 1, 0, 1, 0, 1, 0, 1, 0, 1, 0, 1, 0, 1,
    0, 1, 0, 1, 0, 1, 0, 1, 0, 1, 0, 1, 0, 1, 0, 1,
    0, 1, 0, 3, 0, 1, 0, 50, 0, 0, 2, 138, 2, 188, 0, 3,
    0, 0, 1, 1, 1, 1, 0, 50, 0, 0, 2, 88, 0, 0, 0, 0,
    2, 188, 0, 0, 253, 68, 0, 0, 0, 1, 0, 50, 0, 0, 0, 250,
    2, 188, 0, 3, 0, 0, 1, 1, 1, 1, 0, 50, 0, 0, 0, 200,
    0, 0, 0, 0, 2, 188, 0, 0, 253, 68, 0, 0, 0, 1, 0, 0,
    0, 1, 0, 0, 230, 24, 12, 70, 95, 15, 60, 245, 0, 11, 3, 232,
    0, 0, 0, 0, 0, 0, 0, 0, 0, 0, 0, 0, 0, 0, 0, 0,
    0, 50, 0, 0, 2, 138, 2, 188, 0, 0, 0, 8, 0, 2, 0, 1,
    0, 0, 0, 0, 0, 1, 0, 0, 3, 32, 255, 56, 0, 0, 2, 188,
    0, 0, 0, 0, 2, 138, 0, 1, 0, 0, 0, 0, 0, 0, 0, 0,
    0, 0, 0, 0, 0, 0, 0, 4, 1, 244, 0, 0, 2, 188, 0, 50,
    1, 44, 0, 50, 1, 144, 0, 0, 0, 0, 0, 0, 0, 0, 0, 0,
    0, 0, 0, 36, 0, 0, 0, 72, 0, 0, 0, 72, 0, 1, 0, 0,
    0, 4, 0, 4, 0, 1, 0, 0, 0, 0, 0, 2, 0, 0, 0, 0,
    0, 0, 0, 0, 0, 0, 0, 0, 0, 0, 0, 0,
];

fn standard() -> FastTextRenderer {
    FastTextRenderer::new(&FONT, 100).unwrap()
}

fn with_cells(atlas_size: usize, cell_size: usize) -> FastTextRenderer {
    let font = fontdue::Font::from_bytes(&FONT[..], fontdue::FontSettings::default()).unwrap();
    let config = RendererConfig {
        max_glyphs: 100,
        atlas_size,
        cell_size,
        buffer_size: 4,
        font_px: 12,
        sdf_radius: 4,
    };
    assert!(config.is_valid());
    FastTextRenderer::from_font(font, config)
}

fn packed(report: &CoverageReport) -> Vec<char> {
    report.packed.iter().map(|p| p.ch).collect()
}

fn region(start_char: usize, end_char: usize) -> DirtyRegion {
    DirtyRegion { start_char, end_char, needs_update: true }
}

fn reference_byte(d: f64, radius: u32) -> u8 {
    (((d / radius as f64) + 1.0) * 127.5).clamp(0.0, 255.0) as u8
}

#[test]
fn new_parses_a_font_and_refuses_what_is_none() {
    let renderer = standard();
    assert_eq!(renderer.config(), RendererConfig::standard(100));
    assert_eq!(renderer.config().atlas_size, 1024);
    assert_eq!(renderer.config().cell_size, 64);
    assert_eq!(renderer.config().buffer_size, 4);
    assert_eq!(renderer.config().font_px, 12);
    assert_eq!(renderer.config().sdf_radius, 4);
    assert_eq!(renderer.get_text(), "");
    assert_eq!(renderer.last_text(), "");
    assert_eq!(renderer.get_cursor_position(), 0);
    assert_eq!(renderer.atlas().len(), 0);
    assert_eq!(renderer.atlas().pixels().len(), 1024 * 1024);
    assert!(renderer.dirty_regions().is_empty());
    assert!(!renderer.is_render_pending());
    assert!(FastTextRenderer::new(&[1, 2, 3, 4], 100).is_err());
    assert!(FastTextRenderer::new(&[], 100).is_err());
}

#[test]
fn a_refused_font_is_refused_in_the_parsers_words() {
    let words = "Face data must start with 0x00010000, 0x74727565, 0x4F54544F or 0x74746366.";
    let refused = FastTextRenderer::new(&[1, 2, 3, 4], 100).err().unwrap();
    assert_eq!(refused.reason, words);
    assert_eq!(FastTextRenderer::new(&[1, 2, 3, 4], 7).err().unwrap(), refused);
    let cut = FastTextRenderer::new(&FONT[..40], 100).err().unwrap();
    assert_eq!(cut.reason, "An attempt to read out of bounds detected.");
    let mut no_head = FONT.to_vec();
    no_head[44] = b'x';
    assert_eq!(
        FastTextRenderer::new(&no_head, 100).err().unwrap().reason,
        "The head table is missing or malformed."
    );
    assert!(FastTextRenderer::new(&FONT, 100).is_ok());
    assert!(FastTextRenderer::new(&FONT, 100).is_ok());
}

#[test]
fn what_parsing_came_to_decides_the_engine() {
    let config = RendererConfig::headline(5);
    let refused = FastTextRenderer::from_parsed(Err("no font"), config).err().unwrap();
    assert_eq!(refused.reason, "no font");
    let font = fontdue::Font::from_bytes(&FONT[..], fontdue::FontSettings::default());
    let renderer = FastTextRenderer::from_parsed(font, config).unwrap();
    assert_eq!(renderer.config(), config);
    assert_eq!(renderer.atlas().len(), 0);
    assert_eq!(renderer.atlas().pixels().len(), 512 * 512);
    assert_eq!(renderer.get_text(), "");
}

#[test]
fn configurations_are_checked() {
    let good = RendererConfig::standard(7);
    assert!(good.is_valid());
    assert!(!RendererConfig { cell_size: 0, ..good }.is_valid());
    assert!(!RendererConfig { sdf_radius: 0, ..good }.is_valid());
    assert!(!RendererConfig { buffer_size: 1025, ..good }.is_valid());
    assert!(RendererConfig { buffer_size: 1024, ..good }.is_valid());
    assert!(!RendererConfig { font_px: 2049, ..good }.is_valid());
    assert!(RendererConfig { font_px: 2048, ..good }.is_valid());
    assert!(RendererConfig { font_px: 0, ..good }.is_valid());
    assert!(!RendererConfig { atlas_size: usize::MAX, ..good }.is_valid());
    assert!(RendererConfig { atlas_size: 0, ..good }.is_valid());
}

#[test]
fn typing_into_an_empty_text() {
    let mut renderer = standard();
    renderer.insert_char('H');
    assert_eq!(renderer.get_text(), "H");
    assert_eq!(renderer.last_text(), "H");
    assert_eq!(renderer.get_cursor_position(), 1);
    assert_eq!(renderer.dirty_regions(), &vec![region(0, 1)]);
    let text = renderer.get_text();
    let frame = renderer.render_text(&text, 100, 100);
    assert_eq!(renderer.dirty_regions(), &vec![region(0, 1)]);
    assert_eq!(packed(&frame.coverage), vec!['H']);
    assert!(frame.coverage.missing.is_empty());
    assert!(frame.coverage.dropped.is_empty());
    assert_eq!(renderer.atlas().len(), 1);
    let info = renderer.atlas().lookup('H').unwrap();
    assert_eq!((info.atlas_x, info.atlas_y), (0, 0));
    assert_eq!(frame.vertex_count, 6);
    assert_eq!(frame.vertices.len(), 24);
    assert!(frame.upload_atlas);
}

#[test]
fn appending_leaves_cached_glyphs_where_they_are() {
    let mut renderer = standard();
    renderer.set_text("Hi");
    let first = renderer.render_text("Hi", 100, 100);
    assert_eq!(packed(&first.coverage), vec!['H', 'i']);
    let h = renderer.atlas().lookup('H').unwrap();
    let i = renderer.atlas().lookup('i').unwrap();
    assert_eq!((h.atlas_x, h.atlas_y), (0, 0));
    assert_eq!((i.atlas_x, i.atlas_y), (64, 0));
    renderer.insert_char('t');
    assert_eq!(renderer.get_text(), "Hit");
    assert_eq!(renderer.dirty_regions(), &vec![region(2, 3)]);
    let second = renderer.render_text("Hit", 100, 100);
    assert_eq!(packed(&second.coverage), vec!['t']);
    assert_eq!(renderer.atlas().lookup('H'), Some(h));
    assert_eq!(renderer.atlas().lookup('i'), Some(i));
    let t = renderer.atlas().lookup('t').unwrap();
    assert_eq!((t.atlas_x, t.atlas_y), (128, 0));
    assert_eq!(second.vertex_count, 18);
}

#[test]
fn a_character_that_sorts_first_does_not_move_the_others() {
    let mut renderer = standard();
    renderer.generate_sdf_atlas("zy");
    let y = renderer.atlas().lookup('y').unwrap();
    let z = renderer.atlas().lookup('z').unwrap();
    assert_eq!((y.atlas_x, z.atlas_x), (0, 64));
    let report = renderer.generate_sdf_atlas("azy");
    assert_eq!(packed(&report), vec!['a']);
    assert_eq!(renderer.atlas().lookup('y'), Some(y));
    assert_eq!(renderer.atlas().lookup('z'), Some(z));
    assert_eq!(renderer.atlas().lookup('a').unwrap().atlas_x, 128);
}

#[test]
fn covering_twice_does_nothing_the_second_time() {
    let mut renderer = standard();
    let first = renderer.generate_sdf_atlas("Hello, World!");
    assert_eq!(packed(&first), vec!['!', ',', 'H', 'W', 'd', 'e', 'l', 'o', 'r']);
    let pixels = renderer.atlas().pixels().clone();
    let places: Vec<Option<GlyphInfo>> =
        "Hello, World!".chars().map(|ch| renderer.atlas().lookup(ch)).collect();
    let second = renderer.generate_sdf_atlas("Hello, World!");
    assert!(second.packed.is_empty() && second.missing.is_empty() && second.dropped.is_empty());
    assert_eq!(renderer.atlas().len(), 9);
    assert_eq!(renderer.atlas().pixels(), &pixels);
    let again: Vec<Option<GlyphInfo>> =
        "Hello, World!".chars().map(|ch| renderer.atlas().lookup(ch)).collect();
    assert_eq!(places, again);
}

#[test]
fn covering_gives_every_drawn_character_a_place() {
    let mut renderer = standard();
    let text = "The quick brown fox\njumps over\tthe lazy dog 0123456789";
    let report = renderer.generate_sdf_atlas(text);
    assert!(report.missing.is_empty() && report.dropped.is_empty());
    for ch in text.chars() {
        assert_eq!(renderer.atlas().contains(ch), !ch.is_whitespace(), "{:?}", ch);
    }
}

#[test]
fn vertices_are_the_same_on_every_call() {
    let mut renderer = standard();
    renderer.generate_sdf_atlas("Hi there");
    let first = renderer.generate_text_vertices("Hi there", 100, 100);
    let second = renderer.generate_text_vertices("Hi there", 100, 100);
    assert_eq!(first, second);
    assert_eq!(first.len(), 7 * 24);
    let frame_a = renderer.render_text("Hi there", 100, 100);
    let frame_b = renderer.render_text("Hi there", 100, 100);
    assert_eq!(frame_a.vertices, frame_b.vertices);
    assert_eq!(frame_a.vertices, first);
}

#[test]
fn one_character_more_than_the_atlas_holds() {
    let mut renderer = with_cells(128, 64);
    assert_eq!(renderer.atlas().capacity(), 4);
    let report = renderer.generate_sdf_atlas("abcde");
    assert_eq!(packed(&report), vec!['a', 'b', 'c', 'd']);
    assert!(report.missing.is_empty());
    assert_eq!(report.dropped, vec!['e']);
    assert_eq!(renderer.atlas().len(), 4);
    assert!(renderer.atlas().is_full());
    assert_eq!(renderer.atlas().lookup('e'), None);
    for ch in ['a', 'b', 'c', 'd'] {
        assert!(renderer.atlas().contains(ch));
    }
    let frame = renderer.render_text("abcde", 0, 0);
    assert_eq!(frame.vertex_count, 24);
    assert_eq!(frame.coverage.dropped, vec!['e']);
    assert!(frame.coverage.packed.is_empty() && frame.coverage.missing.is_empty());
}

#[test]
fn a_character_without_a_glyph_is_drawn_as_blank() {
    let mut renderer = standard();
    let report = renderer.generate_sdf_atlas("a~\u{e9}");
    assert_eq!(packed(&report), vec!['a']);
    assert_eq!(report.missing, vec!['~', '\u{e9}']);
    assert!(report.dropped.is_empty());
    assert_eq!(renderer.atlas().len(), 1);
    assert_eq!(renderer.atlas().lookup('~'), None);
    assert_eq!(renderer.atlas().lookup('\u{e9}'), None);
    let frame = renderer.render_text("~a\u{e9}", 0, 0);
    assert_eq!(frame.vertex_count, 6);
    assert_eq!(frame.coverage.missing, vec!['~', '\u{e9}']);
}

#[test]
fn white_space_moves_the_pen_and_draws_nothing() {
    let mut renderer = standard();
    let frame = renderer.render_text("a b", 0, 0);
    assert_eq!(packed(&frame.coverage), vec!['a', 'b']);
    assert_eq!(frame.vertex_count, 12);
    let without = renderer.generate_text_vertices("ab", 0, 0);
    assert_eq!(frame.vertices[0], without[0]);
    assert!(frame.vertices[24] > without[24]);
    let blank = renderer.render_text("  \n ", 0, 0);
    assert_eq!(blank.vertex_count, 0);
    assert!(blank.vertices.is_empty());
    let empty = renderer.render_text("", 0, 0);
    assert_eq!(empty.vertex_count, 0);
}

#[test]
fn glyph_sizes_come_from_the_rasterizer() {
    let font = fontdue::Font::from_bytes(&FONT[..], fontdue::FontSettings::default()).unwrap();
    let mut renderer = standard();
    renderer.generate_sdf_atlas("Hi");
    for ch in ['H', 'i'] {
        let (metrics, bitmap) = font.rasterize(ch, 12.0);
        assert!(metrics.width > 0 && metrics.height > 0);
        assert_eq!(bitmap.len(), metrics.width * metrics.height);
        let info = renderer.atlas().lookup(ch).unwrap();
        assert_eq!((info.width, info.height), (metrics.width, metrics.height));
        assert_eq!((info.sdf_width, info.sdf_height), (metrics.width + 8, metrics.height + 8));
    }
    let h = renderer.atlas().lookup('H').unwrap();
    let i = renderer.atlas().lookup('i').unwrap();
    assert!(i.width < h.width);
}

#[test]
fn atlas_pixels_are_the_quantized_field() {
    let font = fontdue::Font::from_bytes(&FONT[..], fontdue::FontSettings::default()).unwrap();
    let mut renderer = standard();
    renderer.generate_sdf_atlas("iH");
    let (metrics, bitmap) = font.rasterize('i', 12.0);
    let glyph =
        sdf_glyph_renderer::BitmapGlyph::from_unbuffered(&bitmap, metrics.width, metrics.height, 4)
            .unwrap();
    let field = glyph.render_sdf(4);
    let info = renderer.atlas().lookup('i').unwrap();
    assert_eq!((info.atlas_x, info.atlas_y), (64, 0));
    let pixels = renderer.atlas().pixels();
    let mut inside = 0;
    for y in 0..info.sdf_height {
        for x in 0..info.sdf_width {
            let expected = reference_byte(field[y * info.sdf_width + x], 4);
            assert_eq!(pixels[(info.atlas_y + y) * 1024 + info.atlas_x + x], expected);
            if expected < 127 {
                inside += 1;
            }
        }
    }
    assert!(inside > 0);
    // what lies outside the two cells is untouched
    for (p, &value) in pixels.iter().enumerate() {
        let (row, col) = (p / 1024, p % 1024);
        if row >= 64 || col >= 128 {
            assert_eq!(value, NEUTRAL_GRAY);
        }
    }
}

#[test]
fn the_report_holds_what_was_written() {
    let mut renderer = standard();
    renderer.generate_sdf_atlas("b");
    let report = renderer.generate_sdf_atlas("abc");
    assert_eq!(packed(&report), vec!['a', 'c']);
    let pixels = renderer.atlas().pixels();
    for entry in &report.packed {
        let info = renderer.atlas().lookup(entry.ch).unwrap();
        assert_eq!(
            (info.width, info.height, info.sdf_width, info.sdf_height),
            (entry.glyph.width, entry.glyph.height, entry.glyph.sdf_width, entry.glyph.sdf_height)
        );
        assert_eq!(entry.glyph.sdf_width, entry.glyph.width + 8);
        assert_eq!(entry.glyph.sdf_height, entry.glyph.height + 8);
        assert_eq!(entry.glyph.bytes.len(), info.sdf_width * info.sdf_height);
        for y in 0..info.sdf_height {
            for x in 0..info.sdf_width {
                assert_eq!(
                    pixels[(info.atlas_y + y) * 1024 + info.atlas_x + x],
                    entry.glyph.bytes[y * info.sdf_width + x]
                );
            }
        }
    }
    assert_eq!(renderer.atlas().lookup('a').unwrap().atlas_x, 64);
    assert_eq!(renderer.atlas().lookup('c').unwrap().atlas_x, 128);
}

#[test]
fn fields_are_buffered_and_quantized() {
    let bitmap: Vec<u8> = vec![
          0, 255,   0,
        255, 255, 255,
          0, 128,   0,
          0,  60,   0,
    ];
    let raster = RasterGlyph { width: 3, height: 4, bitmap: bitmap.clone() };
    let sdf = sdf_from_raster(&raster, 2, 3).unwrap();
    assert_eq!((sdf.width, sdf.height, sdf.sdf_width, sdf.sdf_height), (3, 4, 7, 8));
    assert_eq!(sdf.bytes.len(), 56);
    let glyph = sdf_glyph_renderer::BitmapGlyph::from_unbuffered(&bitmap, 3, 4, 2).unwrap();
    let expected: Vec<u8> = glyph.render_sdf(3).iter().map(|&d| reference_byte(d, 3)).collect();
    assert_eq!(sdf.bytes, expected);
    assert_ne!(sdf.bytes[0], sdf.bytes[3 * 7 + 3]);
}

#[test]
fn distances_come_in_units_of_the_radius() {
    let font = fontdue::Font::from_bytes(&FONT[..], fontdue::FontSettings::default()).unwrap();
    let (metrics, bitmap) = font.rasterize('H', 48.0);
    let raster = RasterGlyph { width: metrics.width, height: metrics.height, bitmap };
    for radius in [1u32, 2, 4, 8] {
        let sdf = sdf_from_raster(&raster, 8, radius).unwrap();
        let low = reference_byte(-1.0, radius);
        let high = reference_byte(1.0, radius);
        assert!(sdf.bytes.iter().all(|&b| low <= b && b <= high));
        assert!(sdf.bytes.iter().any(|&b| b == low));
        assert!(sdf.bytes.iter().any(|&b| b == high));
    }
}

#[test]
fn what_cannot_be_drawn_has_no_field() {
    let empty = RasterGlyph { width: 0, height: 0, bitmap: Vec::new() };
    assert!(sdf_from_raster(&empty, 4, 4).is_none());
    let flat = RasterGlyph { width: 3, height: 0, bitmap: Vec::new() };
    assert!(sdf_from_raster(&flat, 4, 4).is_none());
    let thin = RasterGlyph { width: 0, height: 3, bitmap: Vec::new() };
    assert!(sdf_from_raster(&thin, 4, 4).is_none());
    let short = RasterGlyph { width: 2, height: 2, bitmap: vec![255; 3] };
    assert!(sdf_from_raster(&short, 4, 4).is_none());
    let long = RasterGlyph { width: 2, height: 2, bitmap: vec![255; 5] };
    assert!(sdf_from_raster(&long, 4, 4).is_none());
    let dot = RasterGlyph { width: 1, height: 1, bitmap: vec![255] };
    assert!(sdf_from_raster(&dot, 0, 4).is_some());
    assert_eq!(sdf_from_raster(&dot, 511, 4).unwrap().bytes.len(), 1023 * 1023);
    assert!(sdf_from_raster(&dot, 512, 4).is_none());
    let wide = RasterGlyph { width: 1024, height: 1, bitmap: vec![255; 1024] };
    assert_eq!(sdf_from_raster(&wide, 0, 4).unwrap().sdf_width, 1024);
    let wider = RasterGlyph { width: 1025, height: 1, bitmap: vec![255; 1025] };
    assert!(sdf_from_raster(&wider, 0, 4).is_none());
    assert!(sdf_from_raster(&dot, usize::MAX, 4).is_none());
}

#[test]
fn quads_stand_where_the_layout_puts_the_glyphs() {
    let font = fontdue::Font::from_bytes(&FONT[..], fontdue::FontSettings::default()).unwrap();
    let mut layout: Layout = Layout::new(CoordinateSystem::PositiveYDown);
    layout.reset(&LayoutSettings { x: 100.0, y: 50.0, ..LayoutSettings::default() });
    layout.append(&[&font], &TextStyle::new("Hi\niH", 12.0, 0));
    let placed: Vec<(char, i64, i64)> =
        layout.glyphs().iter().map(|g| (g.parent, g.x as i64, g.y as i64)).collect();
    assert_eq!(placed.len(), 5);
    assert!(placed[1].1 > placed[0].1);
    assert!(placed[3].2 > placed[0].2);

    let mut renderer = standard();
    let frame = renderer.render_text("Hi\niH", 100, 50);
    assert_eq!(frame.vertex_count, 24);
    let drawn: Vec<&(char, i64, i64)> = placed.iter().filter(|g| g.0 != '\n').collect();
    for (k, g) in drawn.iter().enumerate() {
        let info = renderer.atlas().lookup(g.0).unwrap();
        let (left, top) = (g.1 - 4, g.2 - 4);
        let (right, bottom) = (left + info.sdf_width as i64, top + info.sdf_height as i64);
        let (u0, v0) = (info.atlas_x as i64, info.atlas_y as i64);
        let (u1, v1) = (u0 + info.sdf_width as i64, v0 + info.sdf_height as i64);
        let expected: Vec<i64> = vec![
            left, bottom, u0, v1,
            right, bottom, u1, v1,
            left, top, u0, v0,
            right, bottom, u1, v1,
            right, top, u1, v0,
            left, top, u0, v0,
        ];
        assert_eq!(&frame.vertices[k * 24..(k + 1) * 24], &expected[..]);
    }
}

#[test]
fn committing_records_the_dirty_regions() {
    let mut renderer = standard();
    renderer.update_text("hello");
    assert_eq!(renderer.last_text(), "hello");
    assert_eq!(renderer.get_text(), "");
    assert_eq!(renderer.dirty_regions(), &vec![region(0, 5)]);
    renderer.update_text("hallo!");
    assert_eq!(renderer.dirty_regions(), &vec![region(1, 2), region(5, 6)]);
    renderer.update_text("hallo!");
    assert!(renderer.dirty_regions().is_empty());
    let frame = renderer.render_text("hello", 0, 0);
    assert_eq!(renderer.last_text(), "hello");
    assert_eq!(renderer.dirty_regions(), &vec![region(1, 2), region(5, 6)]);
    assert_eq!(frame.vertex_count, 30);
    renderer.render("hello", 0, 0);
    assert_eq!(renderer.dirty_regions(), &vec![region(1, 2), region(5, 6)]);
}

#[test]
fn edits_commit_the_edited_text() {
    let mut renderer = standard();
    renderer.set_text("abc");
    assert_eq!(renderer.get_cursor_position(), 3);
    assert_eq!(renderer.dirty_regions(), &vec![region(0, 3)]);
    renderer.move_cursor_left();
    assert_eq!(renderer.get_cursor_position(), 2);
    assert_eq!(renderer.dirty_regions(), &vec![region(0, 3)]);
    renderer.delete_char_before_cursor();
    assert_eq!(renderer.get_text(), "ac");
    assert_eq!(renderer.last_text(), "ac");
    assert_eq!(renderer.get_cursor_position(), 1);
    assert_eq!(renderer.dirty_regions(), &vec![region(1, 3)]);
    renderer.move_cursor_left();
    renderer.move_cursor_left();
    renderer.delete_char_before_cursor();
    assert_eq!(renderer.get_text(), "ac");
    assert_eq!(renderer.dirty_regions(), &vec![region(1, 3)]);
    renderer.move_cursor_right();
    renderer.move_cursor_right();
    renderer.move_cursor_right();
    assert_eq!(renderer.get_cursor_position(), 2);
    renderer.insert_char('!');
    assert_eq!(renderer.get_text(), "ac!");
    assert_eq!(renderer.dirty_regions(), &vec![region(2, 3)]);
}

#[test]
fn a_burst_of_edits_is_one_render_of_the_latest_text() {
    let mut renderer = standard();
    assert!(renderer.render_if_dirty(0, 0).is_none());
    renderer.set_text("a");
    assert!(renderer.request_render());
    assert!(renderer.is_render_pending());
    renderer.set_text("bc");
    assert!(!renderer.request_render());
    let frame = renderer.render_if_dirty(0, 0).unwrap();
    assert_eq!(packed(&frame.coverage), vec!['b', 'c']);
    assert_eq!(frame.vertex_count, 12);
    assert!(!renderer.atlas().contains('a'));
    assert!(!renderer.is_render_pending());
    assert!(renderer.render_if_dirty(0, 0).is_none());
    assert!(renderer.request_render());
    renderer.render_text("bc", 0, 0);
    assert!(!renderer.is_render_pending());
}

#[test]
fn edits_as_events() {
    let mut renderer = standard();
    assert!(apply_edit(&mut renderer, EditEvent::SetText("ab".to_string())));
    assert!(!apply_edit(&mut renderer, EditEvent::CursorLeft));
    assert!(!apply_edit(&mut renderer, EditEvent::Insert('x')));
    assert_eq!(renderer.get_text(), "axb");
    assert_eq!(renderer.get_cursor_position(), 2);
    assert!(!apply_edit(&mut renderer, EditEvent::DeleteBeforeCursor));
    assert!(!apply_edit(&mut renderer, EditEvent::CursorRight));
    assert_eq!(renderer.get_text(), "ab");
    assert_eq!(renderer.get_cursor_position(), 2);
    assert_eq!(renderer.last_text(), "ab");
    assert_eq!(renderer.dirty_regions(), &vec![region(1, 3)]);
    let frame = renderer.render_if_dirty(0, 0).unwrap();
    assert_eq!(packed(&frame.coverage), vec!['a', 'b']);
    assert!(apply_edit(&mut renderer, EditEvent::CursorLeft));
}

#[test]
fn keys_code_points_and_bytes() {
    let mut renderer = standard();
    assert!(key_down(&mut renderer, "h"));
    assert!(!key_down(&mut renderer, "Shift"));
    assert!(!insert_char_at_cursor(&mut renderer, 0xD800));
    assert!(!insert_char_at_cursor(&mut renderer, 0x69));
    assert_eq!(renderer.get_text(), "hi");
    assert!(!key_down(&mut renderer, "Enter"));
    assert!(!key_down(&mut renderer, "ArrowLeft"));
    assert!(!key_down(&mut renderer, "Backspace"));
    assert!(!key_down(&mut renderer, "ArrowRight"));
    assert_eq!(renderer.get_text(), "h\n");
    assert_eq!(renderer.get_cursor_position(), 2);
    assert!(renderer.render_if_dirty(0, 0).is_some());
    assert!(!key_down(&mut renderer, "F5"));
    assert!(!renderer.is_render_pending());
    assert!(commit_input(&mut renderer, "h\u{e9}\u{4e16}".as_bytes()));
    assert_eq!(renderer.get_text(), "h\u{e9}\u{4e16}");
    assert_eq!(renderer.get_cursor_position(), 3);
    assert_eq!(renderer.last_text(), "h\u{e9}\u{4e16}");
    assert!(!commit_input(&mut renderer, &[0x68, 0xff, 0x69]));
    assert!(!commit_input(&mut renderer, &[0xe4, 0xb8]));
    assert_eq!(renderer.get_text(), "h\u{e9}\u{4e16}");
    assert!(!commit_input(&mut renderer, &[]));
    assert_eq!(renderer.get_text(), "");
}

#[test]
fn presets_for_both_type_sizes() {
    let small = RendererConfig::standard(10000);
    assert_eq!(small.vertex_buffer_bytes(), Some(960000));
    let large = RendererConfig::headline(3);
    assert!(large.is_valid());
    assert_eq!(
        (large.atlas_size, large.cell_size, large.buffer_size, large.font_px, large.sdf_radius),
        (512, 64, 8, 48, 4)
    );
    assert_eq!(large.vertex_buffer_bytes(), Some(288));
    assert_eq!(RendererConfig::standard(usize::MAX).vertex_buffer_bytes(), None);
    let font = fontdue::Font::from_bytes(&FONT[..], fontdue::FontSettings::default()).unwrap();
    let (metrics, _) = font.rasterize('H', 48.0);
    let mut renderer = FastTextRenderer::from_font(font, large);
    let frame = renderer.render_text("H", 0, 0);
    assert_eq!(frame.vertex_count, 6);
    let info = renderer.atlas().lookup('H').unwrap();
    assert_eq!((info.width, info.height), (metrics.width, metrics.height));
    assert_eq!(info.sdf_width, metrics.width + 16);
    assert_eq!(renderer.atlas().pixels().len(), 512 * 512);
}

#[test]
fn the_atlas_is_uploaded_when_it_has_changed() {
    let mut renderer = standard();
    assert!(renderer.render_text("", 0, 0).upload_atlas);
    renderer.atlas_uploaded();
    assert!(!renderer.render_text("", 0, 0).upload_atlas);
    assert!(renderer.render_text("ab", 0, 0).upload_atlas);
    assert!(renderer.render_text("ab", 0, 0).upload_atlas);
    renderer.atlas_uploaded();
    assert!(!renderer.render_text("ba", 0, 0).upload_atlas);
    assert!(!renderer.render_text("a~", 0, 0).upload_atlas);
    renderer.clear();
    assert_eq!(renderer.atlas().len(), 0);
    assert!(renderer.atlas().pixels().iter().all(|&p| p == NEUTRAL_GRAY));
    let frame = renderer.render_text("ba", 0, 0);
    assert!(frame.upload_atlas);
    assert_eq!(packed(&frame.coverage), vec!['a', 'b']);
}

#[test]
fn a_glyph_larger_than_its_cell_is_cut_off() {
    let mut renderer = with_cells(32, 16);
    let report = renderer.generate_sdf_atlas("Hi");
    assert_eq!(packed(&report), vec!['H', 'i']);
    let h = renderer.atlas().lookup('H').unwrap();
    assert!(h.sdf_height > 16);
    let pixels = renderer.atlas().pixels();
    for row in 16..32 {
        for col in 0..32 {
            assert_eq!(pixels[row * 32 + col], NEUTRAL_GRAY);
        }
    }
}
