use roots_core::atlas::TextAtlas;
use roots_core::glyph::{CacheGlyphError, GlyphKey, GlyphPlacement};

fn key(glyph_id: u16) -> GlyphKey {
    GlyphKey {
        font_id: 7,
        glyph_id,
        font_size_bits: 0x41f00000,
        x_bin: 0,
        y_bin: 0,
        font_weight: 400,
        flags: 0,
    }
}

/// A placement that fills a whole 256-wide shelf row of the default atlas,
/// so each cached glyph owns its own reclaimable region.
fn row_placement() -> GlyphPlacement {
    GlyphPlacement { left: 0, top: 0, width: 256, height: 64 }
}

#[test]
fn cache_hit_is_idempotent() {
    let mut atlas = TextAtlas::new();
    let k = key(1);

    // First use misses; the caller then rasterizes and caches.
    assert!(!atlas.use_cached_glyph(k));
    let placement = GlyphPlacement { left: 3, top: -2, width: 10, height: 12 };
    let data = atlas.cache_glyph(k, placement).expect("fits into an empty atlas");
    assert_eq!(data.left, 3);
    assert_eq!(data.top, -2);
    assert_eq!(data.width, 10);
    assert_eq!(data.height, 12);
    assert!(data.x_max - data.x >= 10);
    assert!(data.y_max - data.y >= 12);

    // Second use in the same frame hits: no rasterization, no allocation;
    // the cached geometry is unchanged.
    assert!(atlas.use_cached_glyph(k));
    let again = atlas.get_glyph_data(&k).expect("still cached");
    assert_eq!(again, data);
}

#[test]
fn whitespace_glyph_occupies_a_valid_slot() {
    let mut atlas = TextAtlas::new();
    let placement = GlyphPlacement { left: 0, top: 0, width: 0, height: 0 };
    let data = atlas.cache_glyph(key(9), placement).expect("zero-size glyph still cached");
    assert!(data.x_max > data.x && data.y_max > data.y);
}

#[test]
fn eviction_takes_the_least_recently_used_entry() {
    let mut atlas = TextAtlas::new();
    // Four row-sized glyphs fill the atlas exactly.
    for id in 1..=4u16 {
        atlas.cache_glyph(key(id), row_placement()).expect("row fits");
    }
    // Touch glyph 1 so glyph 2 becomes the least recently used.
    assert!(atlas.use_cached_glyph(key(1)));
    atlas.post_render_trim();

    // The fifth row forces exactly one eviction: glyph 2 and nothing else.
    atlas.cache_glyph(key(5), row_placement()).expect("evicts one row and fits");
    assert!(atlas.get_glyph_data(&key(2)).is_none(), "LRU-least entry was evicted");
    assert!(atlas.get_glyph_data(&key(1)).is_some());
    assert!(atlas.get_glyph_data(&key(3)).is_some());
    assert!(atlas.get_glyph_data(&key(4)).is_some());
    assert!(atlas.get_glyph_data(&key(5)).is_some());
}

#[test]
fn evicting_a_region_frees_exactly_that_space() {
    let mut atlas = TextAtlas::new();
    // Four cached rows fill the atlas; none is in use after the frame ends.
    for id in 1..=4u16 {
        atlas.cache_glyph(key(id), row_placement()).expect("row fits");
    }
    atlas.post_render_trim();

    // A request needing exactly one freed row evicts exactly one entry.
    atlas.cache_glyph(key(10), row_placement()).expect("one eviction suffices");
    assert!(atlas.get_glyph_data(&key(1)).is_none(), "exactly the LRU entry went");
    assert!(atlas.get_glyph_data(&key(2)).is_some());
    assert!(atlas.get_glyph_data(&key(3)).is_some());
    assert!(atlas.get_glyph_data(&key(4)).is_some());
}

#[test]
fn in_use_glyphs_are_never_evicted_within_a_frame() {
    let mut atlas = TextAtlas::new();
    // All four rows cached and in use in this frame.
    for id in 1..=4u16 {
        atlas.cache_glyph(key(id), row_placement()).expect("row fits");
    }

    // Even though glyph 1 is globally least recent, it is protected:
    // the cache refuses rather than evict an in-use entry.
    let err = atlas.cache_glyph(key(5), row_placement()).unwrap_err();
    assert_eq!(err, CacheGlyphError::OutOfSpace);

    // Every in-use glyph survived the failed attempt.
    for id in 1..=4u16 {
        assert!(atlas.get_glyph_data(&key(id)).is_some());
    }
}

#[test]
fn post_render_trim_makes_previous_frame_glyphs_evictable() {
    let mut atlas = TextAtlas::new();
    for id in 1..=4u16 {
        atlas.cache_glyph(key(id), row_placement()).expect("row fits");
    }
    // Protected while the frame is still running.
    assert_eq!(
        atlas.cache_glyph(key(5), row_placement()).unwrap_err(),
        CacheGlyphError::OutOfSpace
    );

    // After the per-frame trim the same key is evictable again.
    atlas.post_render_trim();
    atlas.cache_glyph(key(5), row_placement()).expect("previously in-use LRU entry evicted");
    assert!(atlas.get_glyph_data(&key(1)).is_none());
}

#[test]
fn glyph_larger_than_the_atlas_reports_storage_error() {
    let mut atlas = TextAtlas::new();
    let huge = GlyphPlacement { left: 0, top: 0, width: 500, height: 500 };
    assert_eq!(
        atlas.cache_glyph(key(1), huge).unwrap_err(),
        CacheGlyphError::LruStorageError
    );
}

#[test]
fn error_messages_match_their_conditions() {
    assert!(CacheGlyphError::NoGlyphImage.message().contains("image"));
    assert!(CacheGlyphError::OutOfSpace.message().contains("not big enough"));
    assert!(CacheGlyphError::LruStorageError.message().contains("LRU"));
}

#[test]
fn texture_size_reports_the_atlas_dimensions() {
    let atlas = TextAtlas::new();
    let size = atlas.texture_size();
    assert_eq!(size.width, 256);
    assert_eq!(size.height, 256);
}
