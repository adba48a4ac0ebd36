//! Rendering: builder failures, command emission, normalization, the
//! runtime cache path.

use teengine::DrawCommand;
use teengine::FixedGlyph;
use teengine::FixedGlyphSource;
use teengine::FontAtlas;
use teengine::FontType;
use teengine::RuntimeGlyphCache;
use teengine::TextError;
use teengine::TextRenderer;
use teengine::TextStyle;
use teengine::render::render_text_with_cache;

fn abc_source() -> FixedGlyphSource {
    FixedGlyphSource::new(
        vec![
            FixedGlyph { ch: 'A', width: 10, height: 12, bearing_x: 1, bearing_y: 2, advance: 11, fill: 255 },
            FixedGlyph { ch: 'B', width: 9, height: 12, bearing_x: 0, bearing_y: 1, advance: 10, fill: 128 },
            FixedGlyph { ch: ' ', width: 0, height: 0, bearing_x: 0, bearing_y: 0, advance: 5, fill: 0 },
        ],
        19,
        16,
    )
}

fn renderer() -> TextRenderer {
    let atlas = FontAtlas::bake_font_atlas(&abc_source(), FontType::Ascii, 1);
    TextRenderer::builder().with_font_atlas(atlas).build().unwrap()
}

#[test]
fn building_without_an_atlas_fails_fast() {
    match TextRenderer::new() {
        Err(TextError::FontLoadError(_)) => {},
        other => panic!("expected FontLoadError, got {:?}", other.map(|_| "a renderer")),
    }
    assert!(TextRenderer::builder().build().is_err());
}

#[test]
fn visible_glyphs_emit_one_quad_each_in_order() {
    let r = renderer();
    let cmds = r.render_text("AB A", 0, 0, &TextStyle::default());
    // Two quads for "AB", one for the trailing "A"; the space advances
    // without drawing.
    assert_eq!(cmds.len(), 3);
    match &cmds[0] {
        DrawCommand::Glyph { uv, dest_x, dest_y, .. } => {
            assert_eq!((uv.x, uv.y, uv.width, uv.height), (0, 0, 10, 12));
            // Position plus bearing.
            assert_eq!(*dest_x, 1);
            assert_eq!(*dest_y, -2);
        },
        other => panic!("expected a glyph quad, got {:?}", other),
    }
    match &cmds[1] {
        DrawCommand::Glyph { dest_x, .. } => assert_eq!(*dest_x, 11),
        other => panic!("expected a glyph quad, got {:?}", other),
    }
    match &cmds[2] {
        DrawCommand::Glyph { dest_x, .. } => {
            // After A (11), B (10) and the space (5).
            assert_eq!(*dest_x, 27);
        },
        other => panic!("expected a glyph quad, got {:?}", other),
    }
}

#[test]
fn a_configured_background_is_drawn_first() {
    let r = renderer();
    let mut style = TextStyle::default();
    style.background_color = Some([0, 0, 0, 200]);
    let cmds = r.render_text("A", 10, 20, &style);
    assert_eq!(cmds.len(), 2);
    match &cmds[0] {
        DrawCommand::Background { x, y, width, height, color } => {
            assert_eq!((*x, *y), (10, 20));
            assert_eq!(*width, 11);
            assert_eq!(*height, 19);
            assert_eq!(*color, [0, 0, 0, 200]);
        },
        other => panic!("expected the background first, got {:?}", other),
    }
}

#[test]
fn text_is_canonically_recomposed_before_lookup() {
    let source = FixedGlyphSource::new(
        vec![FixedGlyph { ch: '\u{e9}', width: 8, height: 10, bearing_x: 0, bearing_y: 0, advance: 9, fill: 7 }],
        19,
        16,
    );
    let atlas = FontAtlas::bake_font_atlas(&source, FontType::Unicode, 1);
    let r = TextRenderer::builder().with_font_atlas(atlas).build().unwrap();
    // "e" followed by a combining acute accent recomposes to one
    // character the atlas knows.
    let cmds = r.render_text("e\u{301}", 0, 0, &TextStyle::default());
    assert_eq!(cmds.len(), 1);
}

#[test]
fn the_cache_path_uploads_once_and_draws_every_frame() {
    let src = abc_source();
    let mut cache = RuntimeGlyphCache::new(256, 256, 1).unwrap();
    let style = TextStyle::default();
    let first = render_text_with_cache(&mut cache, &src, "AB", 0, 0, &style);
    assert_eq!(first.uploads.len(), 2);
    assert_eq!(first.commands.len(), 2);
    let second = render_text_with_cache(&mut cache, &src, "AB", 0, 0, &style);
    assert_eq!(second.uploads.len(), 0);
    assert_eq!(second.commands, first.commands);
}

#[test]
fn the_cache_path_omits_what_has_no_room() {
    let src = FixedGlyphSource::new(
        vec![
            FixedGlyph { ch: 'W', width: 300, height: 300, bearing_x: 0, bearing_y: 0, advance: 301, fill: 1 },
            FixedGlyph { ch: 'A', width: 10, height: 12, bearing_x: 0, bearing_y: 0, advance: 11, fill: 9 },
        ],
        19,
        16,
    );
    let mut cache = RuntimeGlyphCache::new(256, 256, 1).unwrap();
    let out = render_text_with_cache(&mut cache, &src, "WA", 0, 0, &TextStyle::default());
    // W does not fit the texture: its glyph is omitted, the frame goes on.
    assert_eq!(out.uploads.len(), 1);
    assert_eq!(out.commands.len(), 1);
}
