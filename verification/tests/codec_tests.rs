//! The persisted format: round trip and both integrity layers.

use teengine::FixedGlyph;
use teengine::FixedGlyphSource;
use teengine::FontAtlas;
use teengine::FontError;
use teengine::FontType;
use teengine::FontAtlasFile;

fn small_atlas() -> FontAtlas {
    let source = FixedGlyphSource::new(
        vec![
            FixedGlyph { ch: 'A', width: 10, height: 12, bearing_x: 1, bearing_y: 2, advance: 11, fill: 200 },
            FixedGlyph { ch: 'B', width: 9, height: 12, bearing_x: 0, bearing_y: -3, advance: 10, fill: 90 },
            FixedGlyph { ch: ' ', width: 0, height: 0, bearing_x: 0, bearing_y: 0, advance: 5, fill: 0 },
        ],
        19,
        16,
    );
    FontAtlas::bake_font_atlas(&source, FontType::Ascii, 1)
}

fn load_error_message(r: Result<FontAtlas, FontError>) -> String {
    match r {
        Err(FontError::LoadError(msg)) => msg,
        other => panic!("expected LoadError, got {:?}", other),
    }
}

#[test]
fn save_then_load_reproduces_metrics_and_pixels() {
    let atlas = small_atlas();
    let bytes = FontAtlasFile::to_bytes(&atlas);
    let loaded = FontAtlasFile::load_from_bytes(&bytes).unwrap();
    assert_eq!(loaded.width, atlas.width);
    assert_eq!(loaded.height, atlas.height);
    assert_eq!(loaded.padding, atlas.padding);
    assert_eq!(loaded.line_height, atlas.line_height);
    assert_eq!(loaded.font_size, atlas.font_size);
    assert_eq!(loaded.font_type, atlas.font_type);
    assert_eq!(loaded.chars, atlas.chars);
    assert_eq!(loaded.image, atlas.image);
}

#[test]
fn negative_bearings_survive_the_round_trip() {
    let atlas = small_atlas();
    let b = atlas.char_info('B').unwrap();
    assert_eq!(b.yoffset, -3);
    let bytes = FontAtlasFile::to_bytes(&atlas);
    let loaded = FontAtlasFile::load_from_bytes(&bytes).unwrap();
    let b2 = loaded.char_info('B').unwrap();
    assert_eq!((b2.xoffset, b2.yoffset), (0, -3));
}

#[test]
fn a_version_other_than_the_current_one_is_rejected() {
    let atlas = small_atlas();
    let mut bytes = FontAtlasFile::to_bytes(&atlas);
    bytes[0] = bytes[0].wrapping_add(1);
    let msg = load_error_message(FontAtlasFile::load_from_bytes(&bytes));
    assert_eq!(msg, "Unsupported file version: 2");
}

#[test]
fn a_flipped_checksum_byte_fails_with_a_checksum_error() {
    let atlas = small_atlas();
    let mut bytes = FontAtlasFile::to_bytes(&atlas);
    // The stored digest sits right after the version field.
    bytes[8] ^= 0xff;
    let msg = load_error_message(FontAtlasFile::load_from_bytes(&bytes));
    assert_eq!(msg, "Checksum verification failed");
}

#[test]
fn a_flipped_payload_byte_never_loads_silently() {
    let atlas = small_atlas();
    let bytes = FontAtlasFile::to_bytes(&atlas);
    // Flip one byte at every position of the compressed stream's data
    // and trailer in turn: each corruption must surface as a typed load
    // failure, either failing to decompress or failing the content
    // digest. (The first ten payload bytes are the gzip stream header,
    // whose metadata fields do not influence the decompressed bytes, so
    // a flip there loads successfully.)
    let payload_start = 48;
    let payload_len = u64::from_le_bytes(bytes[40..48].try_into().unwrap()) as usize;
    assert!(payload_len > 18);
    let step = if payload_len > 58 { (payload_len - 18) / 40 } else { 1 };
    let mut at = 10;
    while at < payload_len {
        let mut corrupt = bytes.clone();
        corrupt[payload_start + at] ^= 0x01;
        let msg = load_error_message(FontAtlasFile::load_from_bytes(&corrupt));
        assert!(
            msg == "decompression failed" || msg == "Checksum verification failed",
            "unexpected rejection: {}",
            msg
        );
        at += step;
    }
}

#[test]
fn truncated_bytes_are_malformed() {
    let atlas = small_atlas();
    let bytes = FontAtlasFile::to_bytes(&atlas);
    let cut = &bytes[..bytes.len() - 5];
    let msg = load_error_message(FontAtlasFile::load_from_bytes(cut));
    assert_eq!(msg, "malformed atlas file");
}

#[test]
fn arbitrary_bytes_are_malformed() {
    let msg = load_error_message(FontAtlasFile::load_from_bytes(b"not an atlas"));
    assert_eq!(msg, "malformed atlas file");
}
