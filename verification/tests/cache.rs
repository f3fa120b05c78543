use sdf_text::atlas::{GlyphAtlas, GlyphEntry, GlyphInfo, PackOutcome, SdfGlyph};
use sdf_text::cache::{CacheManager, FontAtlasCache, FONT_VERSION};

fn cache(fill: u8) -> FontAtlasCache {
    FontAtlasCache {
        atlas_data: vec![fill; 16],
        atlas_size: 4,
        glyph_map: Vec::new(),
        font_version: "test".to_string(),
    }
}

#[test]
fn a_new_store_is_empty() {
    let manager = CacheManager::new();
    assert_eq!(manager.get_cache_size(), 0);
    assert!(manager.get_font_atlas("spectral").is_none());
}

#[test]
fn a_stored_atlas_is_found_under_its_name() {
    let mut manager = CacheManager::new();
    manager.store_font_atlas("spectral", cache(1));
    manager.store_font_atlas("minipax", cache(2));
    assert_eq!(manager.get_cache_size(), 2);
    assert_eq!(manager.get_font_atlas("spectral").unwrap().atlas_data, vec![1; 16]);
    assert_eq!(manager.get_font_atlas("minipax").unwrap().atlas_data, vec![2; 16]);
    assert!(manager.get_font_atlas("Spectral").is_none());
    assert!(manager.get_font_atlas("").is_none());
}

#[test]
fn storing_again_replaces() {
    let mut manager = CacheManager::new();
    manager.store_font_atlas("spectral", cache(1));
    manager.store_font_atlas("minipax", cache(2));
    manager.store_font_atlas("spectral", cache(3));
    assert_eq!(manager.get_cache_size(), 2);
    assert_eq!(manager.get_font_atlas("spectral").unwrap().atlas_data, vec![3; 16]);
    assert_eq!(manager.get_font_atlas("minipax").unwrap().atlas_data, vec![2; 16]);
}

#[test]
fn clearing_forgets_everything() {
    let mut manager = CacheManager::new();
    manager.store_font_atlas("spectral", cache(1));
    manager.clear_cache();
    assert_eq!(manager.get_cache_size(), 0);
    assert!(manager.get_font_atlas("spectral").is_none());
    manager.store_font_atlas("spectral", cache(4));
    assert_eq!(manager.get_cache_size(), 1);
}

#[test]
fn a_fresh_atlas_is_stamped_with_the_font_version() {
    let mut atlas = GlyphAtlas::new(4, 2);
    let glyph = SdfGlyph { width: 0, height: 0, sdf_width: 2, sdf_height: 2, bytes: vec![9; 4] };
    assert_eq!(atlas.pack_glyph('a', &glyph), PackOutcome::Packed);
    let mut manager = CacheManager::new();
    manager.cache_font_atlas(
        "spectral",
        atlas.pixels().clone(),
        atlas.atlas_size(),
        atlas.entries().clone(),
    );
    let stored = manager.get_font_atlas("spectral").unwrap();
    assert_eq!(FONT_VERSION, "1.0");
    assert_eq!(stored.font_version, "1.0");
    assert_eq!(stored.atlas_size, 4);
    assert_eq!(&stored.atlas_data, atlas.pixels());
    assert_eq!(
        stored.glyph_map,
        vec![GlyphEntry {
            ch: 'a',
            info: GlyphInfo { atlas_x: 0, atlas_y: 0, width: 0, height: 0, sdf_width: 2, sdf_height: 2 },
        }]
    );
    assert_eq!(stored.atlas_data[0], 9);
}
