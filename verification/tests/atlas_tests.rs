//! Baking: character sets, sizing, placement and recorded metrics.

use teengine::FixedGlyph;
use teengine::FixedGlyphSource;
use teengine::FontAtlas;
use teengine::FontError;
use teengine::FontType;

fn glyph(ch: char, w: u32, h: u32, advance: u32, fill: u8) -> FixedGlyph {
    FixedGlyph { ch, width: w, height: h, bearing_x: 1, bearing_y: 2, advance, fill }
}

fn abc_source() -> FixedGlyphSource {
    FixedGlyphSource::new(
        vec![glyph('A', 10, 12, 11, 200), glyph('B', 9, 12, 10, 150), glyph(' ', 0, 0, 5, 0)],
        19,
        16,
    )
}

#[test]
fn font_type_names_parse_case_insensitively() {
    assert_eq!(FontType::from_str("ASCII").unwrap(), FontType::Ascii);
    assert_eq!(FontType::from_str("ascii").unwrap(), FontType::Ascii);
    assert_eq!(FontType::from_str("Unicode").unwrap(), FontType::Unicode);
    assert_eq!(FontType::from_str("UNICODE").unwrap(), FontType::Unicode);
    assert_eq!(FontType::Ascii.as_str(), "ASCII");
    assert_eq!(FontType::Unicode.as_str(), "UNICODE");
}

#[test]
fn unknown_font_type_is_a_configuration_error() {
    match FontType::from_str("bogus") {
        Err(FontError::InvalidFontType(name)) => assert_eq!(name, "BOGUS"),
        other => panic!("expected InvalidFontType, got {:?}", other),
    }
}

#[test]
fn baking_places_glyphs_along_one_shelf_in_encounter_order() {
    let source = abc_source();
    let atlas = FontAtlas::bake_font_atlas(&source, FontType::Ascii, 1);
    assert_eq!(atlas.width, 256);
    assert_eq!(atlas.height, 256);
    assert_eq!(atlas.font_size, 16);
    assert_eq!(atlas.line_height, 19);
    assert_eq!(atlas.padding, 1);
    assert_eq!(atlas.font_type, FontType::Ascii);

    let a = atlas.char_info('A').unwrap();
    assert_eq!((a.x, a.y, a.width, a.height), (0, 0, 10, 12));
    assert_eq!(a.xadvance, 11);
    assert_eq!((a.xoffset, a.yoffset), (1, 2));

    let b = atlas.char_info('B').unwrap();
    assert_eq!((b.x, b.y, b.width, b.height), (11, 0, 9, 12));
    assert_eq!(b.xadvance, 10);
}

#[test]
fn zero_area_glyphs_are_recorded_with_advance_only() {
    let source = abc_source();
    let atlas = FontAtlas::bake_font_atlas(&source, FontType::Ascii, 1);
    let space = atlas.char_info(' ').unwrap();
    assert_eq!((space.width, space.height), (0, 0));
    assert_eq!(space.xadvance, 5);
    // ASCII mode records every printable code point, even ones the
    // source has no box for.
    let z = atlas.char_info('z').unwrap();
    assert_eq!((z.width, z.height, z.xadvance), (0, 0, 0));
    assert!(atlas.char_info('\u{1234}').is_none());
}

#[test]
fn unicode_mode_bakes_only_defined_glyphs() {
    let source = FixedGlyphSource::new(
        vec![glyph('\u{e9}', 8, 10, 9, 255), glyph('K', 7, 9, 8, 8)],
        19,
        16,
    );
    let atlas = FontAtlas::bake_font_atlas(&source, FontType::Unicode, 1);
    assert!(atlas.char_info('\u{e9}').is_some());
    assert!(atlas.char_info('K').is_some());
    assert!(atlas.char_info('Q').is_none());
    assert_eq!(atlas.font_type, FontType::Unicode);
}

#[test]
fn baked_pixels_are_opaque_white_with_coverage_alpha() {
    let source = abc_source();
    let atlas = FontAtlas::bake_font_atlas(&source, FontType::Ascii, 1);
    let a = atlas.char_info('A').unwrap();
    // Inside the A region: white with the source's fill as alpha.
    let base = ((a.y as usize) * (atlas.width as usize) + (a.x as usize)) * 4;
    assert_eq!(&atlas.image[base..base + 4], &[255, 255, 255, 200]);
    // Far away from every placement: untouched zero bytes.
    let far = (200 * (atlas.width as usize) + 200) * 4;
    assert_eq!(&atlas.image[far..far + 4], &[0, 0, 0, 0]);
}

#[test]
fn new_rejects_an_invalid_character_set_name() {
    match FontAtlas::new(&[0u8; 4], Some(16), Some("martian".to_string()), Some(1)) {
        Err(FontError::InvalidFontType(name)) => assert_eq!(name, "MARTIAN"),
        other => panic!("expected InvalidFontType, got {:?}", other),
    }
}

#[test]
fn new_rejects_bytes_that_do_not_parse_as_a_font() {
    match FontAtlas::new(&[1, 2, 3, 4, 5], None, None, None) {
        Err(FontError::FontLoadError(_)) => {},
        other => panic!("expected FontLoadError, got {:?}", other),
    }
}
