//! The runtime glyph cache: memoization, degradation, exhaustion.

use teengine::FixedGlyph;
use teengine::FixedGlyphSource;
use teengine::FontError;
use teengine::RuntimeGlyphCache;

fn source() -> FixedGlyphSource {
    FixedGlyphSource::new(
        vec![
            FixedGlyph { ch: 'A', width: 10, height: 12, bearing_x: 1, bearing_y: 2, advance: 11, fill: 255 },
            FixedGlyph { ch: 'B', width: 9, height: 12, bearing_x: 0, bearing_y: 1, advance: 10, fill: 128 },
            FixedGlyph { ch: 'C', width: 7, height: 9, bearing_x: 0, bearing_y: 0, advance: 8, fill: 64 },
            FixedGlyph { ch: ' ', width: 0, height: 0, bearing_x: 0, bearing_y: 0, advance: 5, fill: 0 },
            FixedGlyph { ch: 'W', width: 300, height: 300, bearing_x: 0, bearing_y: 0, advance: 301, fill: 1 },
        ],
        19,
        16,
    )
}

#[test]
fn an_invalid_texture_size_is_a_hard_construction_error() {
    match RuntimeGlyphCache::new(300, 256, 1) {
        Err(FontError::FontLoadError(_)) => {},
        other => panic!("expected FontLoadError, got {:?}", other.map(|_| "a cache")),
    }
    assert!(RuntimeGlyphCache::new(256, 100, 1).is_err());
    assert!(RuntimeGlyphCache::new(256, 256, 1).is_ok());
    assert!(RuntimeGlyphCache::new(8192, 256, 0).is_ok());
}

#[test]
fn a_miss_packs_uploads_and_caches() {
    let src = source();
    let mut cache = RuntimeGlyphCache::new(256, 256, 1).unwrap();
    let (entry, upload) = cache.get_or_insert(&src, 'A');
    let e = entry.unwrap();
    let uv = e.uv.unwrap();
    assert_eq!((uv.x, uv.y, uv.width, uv.height), (0, 0, 10, 12));
    assert_eq!(e.advance, 11);
    let up = upload.unwrap();
    assert_eq!((up.x, up.y, up.width, up.height), (0, 0, 10, 12));
    assert_eq!(up.bytes.len(), 10 * 12);
    assert!(up.bytes.iter().all(|&b| b == 255));
}

#[test]
fn the_same_character_twice_returns_the_identical_entry_with_no_reupload() {
    let src = source();
    let mut cache = RuntimeGlyphCache::new(256, 256, 1).unwrap();
    let (first, up1) = cache.get_or_insert(&src, 'A');
    assert!(up1.is_some());
    let (second, up2) = cache.get_or_insert(&src, 'A');
    assert_eq!(first.unwrap(), second.unwrap());
    assert!(up2.is_none());
}

#[test]
fn rerequesting_leaves_the_cursor_unchanged() {
    let src = source();
    let mut cache = RuntimeGlyphCache::new(256, 256, 1).unwrap();
    let a = cache.get_or_insert(&src, 'A').0.unwrap().uv.unwrap();
    let b = cache.get_or_insert(&src, 'B').0.unwrap().uv.unwrap();
    assert_eq!((a.x, a.y), (0, 0));
    assert_eq!((b.x, b.y), (11, 0));
    // Requesting A again must not move the packing cursor: C lands
    // exactly where it would have without the repeated request.
    cache.get_or_insert(&src, 'A');
    let c = cache.get_or_insert(&src, 'C').0.unwrap().uv.unwrap();
    assert_eq!((c.x, c.y), (21, 0));
}

#[test]
fn zero_area_glyphs_cache_a_degenerate_entry() {
    let src = source();
    let mut cache = RuntimeGlyphCache::new(256, 256, 1).unwrap();
    let (entry, upload) = cache.get_or_insert(&src, ' ');
    let e = entry.unwrap();
    assert!(e.uv.is_none());
    assert_eq!(e.advance, 5);
    assert!(upload.is_none());
}

#[test]
fn exhaustion_degrades_to_no_room_without_corrupting_entries() {
    let src = source();
    let mut cache = RuntimeGlyphCache::new(256, 256, 1).unwrap();
    let a_before = cache.get_or_insert(&src, 'A').0.unwrap();
    // W is wider than the whole texture: no room, not an error.
    let (entry, upload) = cache.get_or_insert(&src, 'W');
    assert!(entry.is_none());
    assert!(upload.is_none());
    // Earlier entries are untouched and later ones still pack.
    let a_after = cache.get_or_insert(&src, 'A');
    assert_eq!(a_after.0.unwrap(), a_before);
    assert!(a_after.1.is_none());
    let b = cache.get_or_insert(&src, 'B').0.unwrap().uv.unwrap();
    assert_eq!((b.x, b.y), (11, 0));
}
