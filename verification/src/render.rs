//! The text renderer: cache or bake output plus layout, turned into
//! device draw commands.
//!
//! Rendering emits data, not GPU calls: an optional background rectangle
//! first when the style configures one, then one textured quad per
//! visible glyph, in layout order. The caller performs the uploads it is
//! handed before issuing the draws of the same call, and owns all device
//! state.

use vstd::prelude::*;

use unicode_normalization::UnicodeNormalization;

use crate::atlas::FontAtlas;
use crate::atlas::find_code;
use crate::cache::GlyphEntry;
use crate::cache::RuntimeGlyphCache;
use crate::cache::Upload;
use crate::cache::UvRect;
use crate::error::TextError;
use crate::layout::LayoutGlyph;
use crate::layout::PlacedGlyph;
use crate::layout::TextLayout;
use crate::layout::block_top_y;
use crate::layout::layout_matches;
use crate::layout::layout_text;
use crate::raster::GlyphSource;
use crate::style::TextStyle;

verus! {

/// The most glyphs one draw call lays out; text beyond it is not drawn.
pub const MAX_LAYOUT_GLYPHS: usize = 0x100000;

/// What a text run normalizes to under canonical recomposition (NFC).
/// A function of the character sequence alone.
pub uninterp spec fn nfc_of(s: Seq<char>) -> Seq<char>;

/// Relies on unicode_normalization's `nfc` iterator: canonical
/// recomposition of the character sequence, the same for the same
/// characters every time.
#[verifier::external_body]
fn nfc_chars(s: &str) -> (r: Vec<char>)
    ensures
        r@ == nfc_of(s@),
{
    s.nfc().collect()
}

/// The normalized characters a draw call actually lays out: all of them,
/// truncated at the layout limit.
pub open spec fn used_chars(s: Seq<char>) -> Seq<char> {
    if nfc_of(s).len() <= MAX_LAYOUT_GLYPHS {
        nfc_of(s)
    } else {
        nfc_of(s).take(MAX_LAYOUT_GLYPHS as int)
    }
}

/// A mathematical position clamped into the 64-bit range.
pub open spec fn clamp_i64(v: int) -> i64 {
    if v < i64::MIN {
        i64::MIN
    } else if v > i64::MAX {
        i64::MAX
    } else {
        v as i64
    }
}

/// One drawing instruction for the device.
#[derive(Clone, Debug, PartialEq)]
pub enum DrawCommand {
    /// Fill the block's bounding rectangle first.
    Background { x: i64, y: i64, width: i64, height: i64, color: [u8; 4] },
    /// Draw one textured quad: the texture sub-region `uv` at the
    /// destination, tinted.
    Glyph { uv: UvRect, dest_x: i64, dest_y: i64, width: u32, height: u32, tint: [u8; 4] },
}

/// What one placed glyph contributes when metrics come from a baked
/// atlas: nothing if it is invisible, unknown to the atlas, or has no
/// region; else one quad at the glyph's position offset by its bearing.
pub open spec fn atlas_cmd_for(a: FontAtlas, g: PlacedGlyph, tint: [u8; 4]) -> Seq<DrawCommand> {
    if !g.visible {
        Seq::empty()
    } else {
        match find_code(a.chars@, g.ch as u32) {
            Option::None => Seq::empty(),
            Option::Some(info) => {
                if info.width == 0 || info.height == 0 {
                    Seq::empty()
                } else {
                    seq![
                        DrawCommand::Glyph {
                            uv: UvRect {
                                x: info.x,
                                y: info.y,
                                width: info.width,
                                height: info.height,
                            },
                            dest_x: clamp_i64(g.x + info.xoffset),
                            dest_y: clamp_i64(g.y - info.yoffset),
                            width: info.width,
                            height: info.height,
                            tint,
                        },
                    ]
                }
            },
        }
    }
}

/// The quads of one laid-out line, in order.
pub open spec fn atlas_cmds_for_line(a: FontAtlas, gs: Seq<PlacedGlyph>, tint: [u8; 4]) -> Seq<
    DrawCommand,
>
    decreases gs.len(),
{
    if gs.len() == 0 {
        Seq::empty()
    } else {
        atlas_cmds_for_line(a, gs.drop_last(), tint) + atlas_cmd_for(a, gs.last(), tint)
    }
}

/// The quads of a whole laid-out block, line after line.
pub open spec fn atlas_cmds_for_lines(
    a: FontAtlas,
    lines: Seq<crate::layout::LayoutLine>,
    tint: [u8; 4],
) -> Seq<DrawCommand>
    decreases lines.len(),
{
    if lines.len() == 0 {
        Seq::empty()
    } else {
        atlas_cmds_for_lines(a, lines.drop_last(), tint) + atlas_cmds_for_line(
            a,
            lines.last().glyphs@,
            tint,
        )
    }
}

/// The background rectangle, when the style configures one: the block
/// bounds at the anchor.
pub open spec fn background_cmds(style: TextStyle, x: int, y: int, tl: TextLayout) -> Seq<
    DrawCommand,
> {
    match style.background_color {
        Option::None => Seq::empty(),
        Option::Some(bg) => seq![
            DrawCommand::Background {
                x: clamp_i64(x),
                y: clamp_i64(block_top_y(y, style, tl.lines@.len() as int) - style.padding.top),
                width: tl.width,
                height: tl.height,
                color: bg,
            },
        ],
    }
}

/// Every command a draw call emits: the optional background first, then
/// one quad per visible glyph, in layout order.
pub open spec fn render_commands(
    a: FontAtlas,
    style: TextStyle,
    x: int,
    y: int,
    tl: TextLayout,
) -> Seq<DrawCommand> {
    background_cmds(style, x, y, tl) + atlas_cmds_for_lines(a, tl.lines@, style.color)
}

/// A renderer over one baked font atlas.
pub struct TextRenderer {
    font_atlas: FontAtlas,
}

/// Assembles a [`TextRenderer`]; building without a font atlas fails.
pub struct TextRendererBuilder {
    pub font_atlas: Option<FontAtlas>,
}

impl TextRendererBuilder {
    /// An empty builder.
    pub fn new() -> (r: TextRendererBuilder)
        ensures
            r.font_atlas is None,
    {
        TextRendererBuilder { font_atlas: None }
    }

    /// Supply the baked atlas to render from.
    pub fn with_font_atlas(self, font_atlas: FontAtlas) -> (r: TextRendererBuilder)
        ensures
            r.font_atlas == Some(font_atlas),
    {
        TextRendererBuilder { font_atlas: Some(font_atlas) }
    }

    /// Build the renderer: fails fast without an atlas or with an
    /// unsound one; no partially built renderer is ever returned.
    pub fn build(self) -> (r: Result<TextRenderer, TextError>)
        ensures
            r is Ok ==> self.font_atlas is Some && r->Ok_0.wf() && r->Ok_0.atlas_spec()
                == self.font_atlas->0,
            r is Err ==> r->Err_0 is FontLoadError,
            self.font_atlas is None ==> r is Err && r->Err_0.message_spec()
                == "font load error"@,
            self.font_atlas matches Some(a) ==> (a.wf() ==> r is Ok),
            self.font_atlas matches Some(a) ==> (!a.wf() ==> r is Err
                && r->Err_0.message_spec() == "font atlas is not well formed"@),
    {
        let atlas = match self.font_atlas {
            Some(a) => a,
            None => {
                return Err(TextError::FontLoadError("font load error".to_owned()));
            },
        };
        if !atlas.check_wf() {
            return Err(TextError::FontLoadError("font atlas is not well formed".to_owned()));
        }
        Ok(TextRenderer { font_atlas: atlas })
    }
}

impl TextRenderer {
    /// The renderer's atlas is structurally sound.
    pub closed spec fn wf(self) -> bool {
        self.font_atlas.wf()
    }

    /// The baked atlas this renderer draws from.
    pub closed spec fn atlas_spec(self) -> FontAtlas {
        self.font_atlas
    }

    /// An empty builder.
    pub fn builder() -> (r: TextRendererBuilder)
        ensures
            r.font_atlas is None,
    {
        TextRendererBuilder::new()
    }

    /// Building with nothing configured: always the fast failure.
    pub fn new() -> (r: Result<TextRenderer, TextError>)
        ensures
            r is Err && r->Err_0 is FontLoadError,
    {
        TextRenderer::builder().build()
    }

    /// Emit the draw commands for a text run at anchor `(x, y)`: the
    /// optional background first, then one tinted quad per visible
    /// glyph, positions from layout over the atlas's advances. Glyphs
    /// the atlas does not know are skipped without advancing; glyphs
    /// with no region advance the cursor but emit no quad.
    pub fn render_text(&self, text: &str, x: i32, y: i32, style: &TextStyle) -> (r: Vec<
        DrawCommand,
    >)
        requires
            self.wf(),
            style.font_size <= 0xffff,
            style.line_height <= 0xffff,
        ensures
            exists|tl: TextLayout|
                layout_matches(
                    atlas_glyphs(self.atlas_spec(), used_chars(text@)),
                    *style,
                    x as int,
                    y as int,
                    tl,
                ) && r@ == render_commands(self.atlas_spec(), *style, x as int, y as int, tl),
    {
        let chars = nfc_chars(text);
        let lgs = self.atlas_layout_glyphs(&chars);
        let tl = layout_text(&lgs, style, x, y);
        proof {
            crate::layout::lemma_broken_lines_sizes(lgs@, *style);
            assert((style.font_size as int) * (style.line_height as int) <= 0xffff * 0xffff)
                by (nonlinear_arith)
                requires
                    style.font_size <= 0xffff,
                    style.line_height <= 0xffff,
            ;
            assert(0 <= (style.font_size as int) * (style.line_height as int))
                by (nonlinear_arith)
                requires
                    0 <= style.font_size,
                    0 <= style.line_height,
            ;
            assert(0 <= crate::layout::line_px(*style) < 0x100000000);
            assert((tl.lines@.len() as int) * crate::layout::line_px(*style)
                <= 0x400000 * 0x100000000) by (nonlinear_arith)
                requires
                    0 <= tl.lines@.len() < 0x400000,
                    0 <= crate::layout::line_px(*style) < 0x100000000,
            ;
            assert(0 <= (tl.lines@.len() as int) * crate::layout::line_px(*style))
                by (nonlinear_arith)
                requires
                    0 <= tl.lines@.len(),
                    0 <= crate::layout::line_px(*style),
            ;
            assert(0 <= tl.height <= 0x100000000000000);
        }
        let mut cmds: Vec<DrawCommand> = Vec::new();
        match style.background_color {
            Some(bg) => {
                let bgy: i64 = match style.vertical_alignment {
                    crate::style::VerticalAlignment::Top => y as i64,
                    crate::style::VerticalAlignment::Middle => {
                        sub_clamped(y as i64, crate::layout::half_floor_exec(tl.height))
                    },
                    crate::style::VerticalAlignment::Bottom => sub_clamped(y as i64, tl.height),
                };
                proof {
                    assert(bgy == clamp_i64(block_top_y(
                        y as int,
                        *style,
                        tl.lines@.len() as int,
                    ) - style.padding.top));
                }
                cmds.push(
                    DrawCommand::Background {
                        x: x as i64,
                        y: bgy,
                        width: tl.width,
                        height: tl.height,
                        color: bg,
                    },
                );
            },
            None => {},
        }
        proof {
            assert(cmds@ =~= background_cmds(*style, x as int, y as int, tl));
        }
        let ghost bgpart = cmds@;
        let nl = tl.lines.len();
        let mut j: usize = 0;
        proof {
            assert(tl.lines@.take(0) =~= Seq::<crate::layout::LayoutLine>::empty());
        }
        while j < nl
            invariant
                0 <= j <= nl,
                nl == tl.lines@.len(),
                self.wf(),
                cmds@ == bgpart + atlas_cmds_for_lines(
                    self.atlas_spec(),
                    tl.lines@.take(j as int),
                    style.color,
                ),
            decreases nl - j,
        {
            let gn = tl.lines[j].glyphs.len();
            let mut i: usize = 0;
            let ghost line = tl.lines@[j as int].glyphs@;
            proof {
                assert(line.take(0) =~= Seq::<PlacedGlyph>::empty());
                assert(tl.lines@.take(j + 1).drop_last() =~= tl.lines@.take(j as int));
                assert(tl.lines@.take(j + 1).last() == tl.lines@[j as int]);
            }
            while i < gn
                invariant
                    0 <= i <= gn,
                    0 <= j < nl,
                    nl == tl.lines@.len(),
                    gn == line.len(),
                    line == tl.lines@[j as int].glyphs@,
                    self.wf(),
                    cmds@ == bgpart + atlas_cmds_for_lines(
                        self.atlas_spec(),
                        tl.lines@.take(j as int),
                        style.color,
                    ) + atlas_cmds_for_line(self.atlas_spec(), line.take(i as int), style.color),
                decreases gn - i,
            {
                let g = tl.lines[j].glyphs[i];
                proof {
                    assert(line.take(i + 1).drop_last() =~= line.take(i as int));
                    assert(line.take(i + 1).last() == line[i as int]);
                }
                if g.visible {
                    match self.font_atlas.char_info(g.ch) {
                        Some(info) => {
                            if info.width > 0 && info.height > 0 {
                                let dest_x = add_clamped(g.x, info.xoffset as i64);
                                let dest_y = sub_clamped(g.y, info.yoffset as i64);
                                proof {
                                    assert(dest_x == clamp_i64(
                                        line[i as int].x + info.xoffset,
                                    ));
                                    assert(dest_y == clamp_i64(
                                        line[i as int].y - info.yoffset,
                                    ));
                                }
                                cmds.push(
                                    DrawCommand::Glyph {
                                        uv: UvRect {
                                            x: info.x,
                                            y: info.y,
                                            width: info.width,
                                            height: info.height,
                                        },
                                        dest_x,
                                        dest_y,
                                        width: info.width,
                                        height: info.height,
                                        tint: style.color,
                                    },
                                );
                            }
                        },
                        None => {},
                    }
                }
                proof {
                    assert(cmds@ =~= bgpart + atlas_cmds_for_lines(
                        self.atlas_spec(),
                        tl.lines@.take(j as int),
                        style.color,
                    ) + atlas_cmds_for_line(self.atlas_spec(), line.take(i + 1), style.color));
                }
                i = i + 1;
            }
            proof {
                assert(line.take(gn as int) =~= line);
                assert(cmds@ =~= bgpart + atlas_cmds_for_lines(
                    self.atlas_spec(),
                    tl.lines@.take(j + 1),
                    style.color,
                ));
            }
            j = j + 1;
        }
        proof {
            assert(tl.lines@.take(nl as int) =~= tl.lines@);
            assert(cmds@ =~= render_commands(self.atlas_spec(), *style, x as int, y as int, tl));
        }
        cmds
    }

    /// Turn normalized characters into layout glyphs over the atlas's
    /// metrics, truncated at the layout limit.
    fn atlas_layout_glyphs(&self, chars: &Vec<char>) -> (r: Vec<LayoutGlyph>)
        requires
            self.wf(),
        ensures
            r@ == atlas_glyphs(
                self.atlas_spec(),
                if chars@.len() <= MAX_LAYOUT_GLYPHS {
                    chars@
                } else {
                    chars@.take(MAX_LAYOUT_GLYPHS as int)
                },
            ),
            r@.len() <= MAX_LAYOUT_GLYPHS,
    {
        let n = if chars.len() <= MAX_LAYOUT_GLYPHS {
            chars.len()
        } else {
            MAX_LAYOUT_GLYPHS
        };
        let ghost used = if chars@.len() <= MAX_LAYOUT_GLYPHS {
            chars@
        } else {
            chars@.take(MAX_LAYOUT_GLYPHS as int)
        };
        let mut r: Vec<LayoutGlyph> = Vec::new();
        let mut i: usize = 0;
        while i < n
            invariant
                0 <= i <= n,
                n == used.len(),
                used.len() <= chars@.len(),
                forall|t: int| 0 <= t < used.len() ==> used[t] == chars@[t],
                self.wf(),
                r@.len() == i,
                forall|t: int|
                    0 <= t < i ==> (#[trigger] r@[t]) == atlas_glyph(
                        self.atlas_spec(),
                        used[t],
                    ),
            decreases n - i,
        {
            let c = chars[i];
            let lg = match self.font_atlas.char_info(c) {
                Some(info) => LayoutGlyph {
                    ch: c,
                    advance: info.xadvance,
                    visible: info.width > 0 && info.height > 0,
                },
                None => LayoutGlyph { ch: c, advance: 0, visible: false },
            };
            r.push(lg);
            proof {
                assert(used[i as int] == chars@[i as int]);
                assert(r@[i as int] == atlas_glyph(self.atlas_spec(), used[i as int]));
            }
            i = i + 1;
        }
        proof {
            assert(r@ =~= atlas_glyphs(self.atlas_spec(), used));
        }
        r
    }
}

/// The layout glyph a baked atlas gives one character: its advance and
/// visibility, or a skipped zero-advance glyph for characters the atlas
/// does not know.
pub open spec fn atlas_glyph(a: FontAtlas, c: char) -> LayoutGlyph {
    match find_code(a.chars@, c as u32) {
        Option::Some(info) => LayoutGlyph {
            ch: c,
            advance: info.xadvance,
            visible: info.width > 0 && info.height > 0,
        },
        Option::None => LayoutGlyph { ch: c, advance: 0u32, visible: false },
    }
}

/// The layout glyphs of a character run over a baked atlas.
pub open spec fn atlas_glyphs(a: FontAtlas, cs: Seq<char>) -> Seq<LayoutGlyph> {
    cs.map_values(|c: char| atlas_glyph(a, c))
}

/// Saturating addition on positions.
fn add_clamped(a: i64, b: i64) -> (r: i64)
    ensures
        r == clamp_i64(a + b),
{
    match a.checked_add(b) {
        Some(v) => v,
        None => {
            if b > 0 {
                i64::MAX
            } else {
                i64::MIN
            }
        },
    }
}

/// Saturating subtraction on positions.
fn sub_clamped(a: i64, b: i64) -> (r: i64)
    ensures
        r == clamp_i64(a - b),
{
    match a.checked_sub(b) {
        Some(v) => v,
        None => {
            if b < 0 {
                i64::MAX
            } else {
                i64::MIN
            }
        },
    }
}

} // verus!

verus! {

/// What one placed glyph contributes when metrics come from the runtime
/// cache: nothing if it is invisible, uncached, or cached without a
/// region; else one quad over the cached sub-region, offset by the
/// cached bearing.
pub open spec fn cache_cmd_for(
    entries: Map<u32, GlyphEntry>,
    g: PlacedGlyph,
    tint: [u8; 4],
) -> Seq<DrawCommand> {
    if !g.visible || !entries.contains_key(g.ch as u32) {
        Seq::empty()
    } else {
        let e = entries[g.ch as u32];
        match e.uv {
            Option::None => Seq::empty(),
            Option::Some(uv) => seq![
                DrawCommand::Glyph {
                    uv,
                    dest_x: clamp_i64(g.x + e.bearing_x),
                    dest_y: clamp_i64(g.y - e.bearing_y),
                    width: uv.width,
                    height: uv.height,
                    tint,
                },
            ],
        }
    }
}

/// The quads of one laid-out line from the cache, in order.
pub open spec fn cache_cmds_for_line(
    entries: Map<u32, GlyphEntry>,
    gs: Seq<PlacedGlyph>,
    tint: [u8; 4],
) -> Seq<DrawCommand>
    decreases gs.len(),
{
    if gs.len() == 0 {
        Seq::empty()
    } else {
        cache_cmds_for_line(entries, gs.drop_last(), tint) + cache_cmd_for(
            entries,
            gs.last(),
            tint,
        )
    }
}

/// The quads of a whole laid-out block from the cache, line after line.
pub open spec fn cache_cmds_for_lines(
    entries: Map<u32, GlyphEntry>,
    lines: Seq<crate::layout::LayoutLine>,
    tint: [u8; 4],
) -> Seq<DrawCommand>
    decreases lines.len(),
{
    if lines.len() == 0 {
        Seq::empty()
    } else {
        cache_cmds_for_lines(entries, lines.drop_last(), tint) + cache_cmds_for_line(
            entries,
            lines.last().glyphs@,
            tint,
        )
    }
}

/// Every command the runtime path emits for a laid-out block.
pub open spec fn cache_render_commands(
    entries: Map<u32, GlyphEntry>,
    style: TextStyle,
    x: int,
    y: int,
    tl: TextLayout,
) -> Seq<DrawCommand> {
    background_cmds(style, x, y, tl) + cache_cmds_for_lines(entries, tl.lines@, style.color)
}

/// A mid-run state of the runtime path: the cache contents and packer,
/// the layout glyphs gathered so far, and the uploads to perform.
pub struct CacheRun {
    pub entries: Map<u32, GlyphEntry>,
    pub packer: crate::packer::PackerModel,
    pub glyphs: Seq<LayoutGlyph>,
    pub uploads: Seq<crate::cache::UploadModel>,
}

/// The runtime path over a character run, one character at a time, in
/// order, mirroring the cache's lookup-or-insert semantics exactly: a
/// cached character contributes its stored entry and nothing to upload;
/// a zero-area glyph is cached advance-only; a glyph the packer accepts
/// is placed by the shelf step and its bitmap queued for upload; a glyph
/// the full texture has no room for is skipped for this frame with no
/// advance. A function of the source, the starting cache state and the
/// characters alone.
pub open spec fn cache_run<G: GlyphSource>(
    src: &G,
    entries0: Map<u32, GlyphEntry>,
    packer0: crate::packer::PackerModel,
    cs: Seq<char>,
) -> CacheRun
    decreases cs.len(),
{
    if cs.len() == 0 {
        CacheRun { entries: entries0, packer: packer0, glyphs: Seq::empty(), uploads: Seq::empty() }
    } else {
        let prev = cache_run(src, entries0, packer0, cs.drop_last());
        let c = cs.last();
        let code = c as u32;
        if prev.entries.contains_key(code) {
            let e = prev.entries[code];
            CacheRun {
                entries: prev.entries,
                packer: prev.packer,
                glyphs: prev.glyphs.push(
                    LayoutGlyph { ch: c, advance: e.advance, visible: e.uv is Some },
                ),
                uploads: prev.uploads,
            }
        } else {
            let g = src.glyph_spec(c);
            if g.width == 0 || g.height == 0 {
                let e = GlyphEntry {
                    uv: None,
                    bearing_x: g.bearing_x as i32,
                    bearing_y: g.bearing_y as i32,
                    advance: g.advance as u32,
                };
                CacheRun {
                    entries: prev.entries.insert(code, e),
                    packer: prev.packer,
                    glyphs: prev.glyphs.push(
                        LayoutGlyph { ch: c, advance: e.advance, visible: false },
                    ),
                    uploads: prev.uploads,
                }
            } else if prev.packer.accepts(g.width, g.height) {
                let (px, py) = prev.packer.place_at(g.width, g.height);
                let e = GlyphEntry {
                    uv: Some(
                        UvRect {
                            x: px as u32,
                            y: py as u32,
                            width: g.width as u32,
                            height: g.height as u32,
                        },
                    ),
                    bearing_x: g.bearing_x as i32,
                    bearing_y: g.bearing_y as i32,
                    advance: g.advance as u32,
                };
                CacheRun {
                    entries: prev.entries.insert(code, e),
                    packer: prev.packer.step(g.width, g.height),
                    glyphs: prev.glyphs.push(
                        LayoutGlyph { ch: c, advance: e.advance, visible: true },
                    ),
                    uploads: prev.uploads.push(
                        crate::cache::UploadModel {
                            x: px as u32,
                            y: py as u32,
                            width: g.width as u32,
                            height: g.height as u32,
                            bytes: g.bitmap,
                        },
                    ),
                }
            } else {
                CacheRun {
                    entries: prev.entries,
                    packer: prev.packer,
                    glyphs: prev.glyphs.push(LayoutGlyph { ch: c, advance: 0u32, visible: false }),
                    uploads: prev.uploads,
                }
            }
        }
    }
}

/// What one frame's draw call hands back: the texture sub-region uploads
/// the caller must perform first, then the draw commands of the frame.
pub struct RenderOutput {
    pub uploads: Vec<Upload>,
    pub commands: Vec<DrawCommand>,
}

/// Emit the uploads and draw commands for a text run through the runtime
/// glyph cache: normalize the text, look up or insert every character
/// (collecting the sub-region uploads to perform), lay the run out with
/// the cached advances, and emit the optional background plus one quad
/// per visible cached glyph. A glyph the full texture has no room for is
/// omitted from this frame's draw, never an error.
pub fn render_text_with_cache<G: GlyphSource>(
    cache: &mut RuntimeGlyphCache,
    source: &G,
    text: &str,
    x: i32,
    y: i32,
    style: &TextStyle,
) -> (r: RenderOutput)
    requires
        old(cache).wf(),
        style.font_size <= 0xffff,
        style.line_height <= 0xffff,
    ensures
        final(cache).wf(),
        final(cache).width_spec() == old(cache).width_spec(),
        final(cache).height_spec() == old(cache).height_spec(),
        final(cache).padding_spec() == old(cache).padding_spec(),
        ({
            let run = cache_run(
                source,
                old(cache).entries(),
                old(cache).packer_model(),
                used_chars(text@),
            );
            &&& final(cache).entries() == run.entries
            &&& final(cache).packer_model() == run.packer
            &&& r.uploads@.len() == run.uploads.len()
            &&& (forall|k: int|
                0 <= k < run.uploads.len() ==> ((#[trigger] r.uploads@[k])@) == run.uploads[k])
            &&& exists|tl: TextLayout|
                layout_matches(run.glyphs, *style, x as int, y as int, tl) && r.commands@
                    == cache_render_commands(run.entries, *style, x as int, y as int, tl)
        }),
{
    let chars = nfc_chars(text);
    let n = if chars.len() <= MAX_LAYOUT_GLYPHS {
        chars.len()
    } else {
        MAX_LAYOUT_GLYPHS
    };
    let ghost used = used_chars(text@);
    proof {
        assert(used.len() == n);
        assert(forall|t: int| 0 <= t < used.len() ==> used[t] == chars@[t]);
    }
    let mut uploads: Vec<Upload> = Vec::new();
    let mut lgs: Vec<LayoutGlyph> = Vec::new();
    let mut i: usize = 0;
    proof {
        assert(used.take(0) =~= Seq::<char>::empty());
    }
    while i < n
        invariant
            0 <= i <= n,
            n == used.len(),
            used.len() <= chars@.len(),
            forall|t: int| 0 <= t < used.len() ==> used[t] == chars@[t],
            cache.wf(),
            cache.width_spec() == old(cache).width_spec(),
            cache.height_spec() == old(cache).height_spec(),
            cache.padding_spec() == old(cache).padding_spec(),
            lgs@.len() == i,
            ({
                let run_i = cache_run(
                    source,
                    old(cache).entries(),
                    old(cache).packer_model(),
                    used.take(i as int),
                );
                &&& cache.entries() == run_i.entries
                &&& cache.packer_model() == run_i.packer
                &&& lgs@ == run_i.glyphs
                &&& uploads@.len() == run_i.uploads.len()
                &&& (forall|k: int|
                    0 <= k < run_i.uploads.len() ==> ((#[trigger] uploads@[k])@)
                        == run_i.uploads[k])
            }),
        decreases n - i,
    {
        let ghost run_prev = cache_run(
            source,
            old(cache).entries(),
            old(cache).packer_model(),
            used.take(i as int),
        );
        let ghost run_next = cache_run(
            source,
            old(cache).entries(),
            old(cache).packer_model(),
            used.take(i + 1),
        );
        let c = chars[i];
        proof {
            assert(used.take(i + 1).drop_last() =~= used.take(i as int));
            assert(used.take(i + 1).last() == used[i as int]);
            assert(used[i as int] == c);
        }
        let ghost prev_entries = cache.entries();
        let ghost prev_uploads = uploads@;
        let got = cache.get_or_insert(source, c);
        let got_entry = got.0;
        if let Some(up) = got.1 {
            uploads.push(up);
        }
        let lg = match got_entry {
            Some(e) => LayoutGlyph { ch: c, advance: e.advance, visible: e.uv.is_some() },
            None => LayoutGlyph { ch: c, advance: 0, visible: false },
        };
        let ghost prev_lgs = lgs@;
        lgs.push(lg);
        proof {
            assert(prev_lgs.len() == i);
            vstd::seq::axiom_seq_push_len::<LayoutGlyph>(prev_lgs, lg);
            vstd::seq::axiom_seq_push_index_same::<LayoutGlyph>(prev_lgs, lg, i as int);
            assert(lgs@ =~= prev_lgs.push(lg));
            assert(lgs@.len() == i + 1);
            assert(lgs@[i as int] == lg);
            let code = c as u32;
            if prev_entries.contains_key(code) {
                assert(run_next.entries == run_prev.entries);
                assert(run_next.packer == run_prev.packer);
                assert(run_next.glyphs == run_prev.glyphs.push(lg));
                assert(run_next.uploads == run_prev.uploads);
                assert(uploads@ == prev_uploads);
            } else {
                let g = source.glyph_spec(c);
                if g.width == 0 || g.height == 0 {
                    assert(run_next.glyphs == run_prev.glyphs.push(lg));
                    assert(run_next.uploads == run_prev.uploads);
                    assert(uploads@ == prev_uploads);
                } else if run_prev.packer.accepts(g.width, g.height) {
                    let up = got.1->0;
                    assert(uploads@ == prev_uploads.push(up));
                    vstd::seq::axiom_seq_push_len::<Upload>(prev_uploads, up);
                    vstd::seq::axiom_seq_push_index_same::<Upload>(
                        prev_uploads,
                        up,
                        prev_uploads.len() as int,
                    );
                    assert(up@ == run_next.uploads.last());
                    assert(run_next.glyphs == run_prev.glyphs.push(lg));
                    assert forall|k: int|
                        0 <= k < run_next.uploads.len() implies ((#[trigger] uploads@[k])@)
                            == run_next.uploads[k] by {
                        if k < prev_uploads.len() {
                            assert(uploads@[k] == prev_uploads[k]);
                            assert(run_next.uploads[k] == run_prev.uploads[k]);
                        } else {
                            assert(uploads@[k] == up);
                        }
                    }
                } else {
                    assert(run_next.glyphs == run_prev.glyphs.push(lg));
                    assert(run_next.uploads == run_prev.uploads);
                    assert(uploads@ == prev_uploads);
                }
            }
            assert(lgs@ == run_next.glyphs);
            assert(cache.entries() == run_next.entries);
            assert(cache.packer_model() == run_next.packer);
        }
        i = i + 1;
    }
    proof {
        assert(used.take(n as int) =~= used);
    }
    let tl = layout_text(&lgs, style, x, y);
    proof {
        crate::layout::lemma_broken_lines_sizes(lgs@, *style);
        assert((style.font_size as int) * (style.line_height as int) <= 0xffff * 0xffff)
            by (nonlinear_arith)
            requires
                style.font_size <= 0xffff,
                style.line_height <= 0xffff,
        ;
        assert(0 <= (style.font_size as int) * (style.line_height as int)) by (nonlinear_arith)
            requires
                0 <= style.font_size,
                0 <= style.line_height,
        ;
        assert(0 <= crate::layout::line_px(*style) < 0x100000000);
        assert((tl.lines@.len() as int) * crate::layout::line_px(*style) <= 0x400000
            * 0x100000000) by (nonlinear_arith)
            requires
                0 <= tl.lines@.len() < 0x400000,
                0 <= crate::layout::line_px(*style) < 0x100000000,
        ;
        assert(0 <= (tl.lines@.len() as int) * crate::layout::line_px(*style))
            by (nonlinear_arith)
            requires
                0 <= tl.lines@.len(),
                0 <= crate::layout::line_px(*style),
        ;
        assert(0 <= tl.height <= 0x100000000000000);
    }
    let mut cmds: Vec<DrawCommand> = Vec::new();
    match style.background_color {
        Some(bg) => {
            let bgy: i64 = match style.vertical_alignment {
                crate::style::VerticalAlignment::Top => y as i64,
                crate::style::VerticalAlignment::Middle => {
                    sub_clamped(y as i64, crate::layout::half_floor_exec(tl.height))
                },
                crate::style::VerticalAlignment::Bottom => sub_clamped(y as i64, tl.height),
            };
            proof {
                assert(bgy == clamp_i64(block_top_y(y as int, *style, tl.lines@.len() as int)
                    - style.padding.top));
            }
            cmds.push(
                DrawCommand::Background {
                    x: x as i64,
                    y: bgy,
                    width: tl.width,
                    height: tl.height,
                    color: bg,
                },
            );
        },
        None => {},
    }
    proof {
        assert(cmds@ =~= background_cmds(*style, x as int, y as int, tl));
    }
    let ghost bgpart = cmds@;
    let nl = tl.lines.len();
    let mut j: usize = 0;
    proof {
        assert(tl.lines@.take(0) =~= Seq::<crate::layout::LayoutLine>::empty());
    }
    while j < nl
        invariant
            0 <= j <= nl,
            nl == tl.lines@.len(),
            cache.wf(),
            cmds@ == bgpart + cache_cmds_for_lines(
                cache.entries(),
                tl.lines@.take(j as int),
                style.color,
            ),
        decreases nl - j,
    {
        let gn = tl.lines[j].glyphs.len();
        let mut i2: usize = 0;
        let ghost line = tl.lines@[j as int].glyphs@;
        proof {
            assert(line.take(0) =~= Seq::<PlacedGlyph>::empty());
            assert(tl.lines@.take(j + 1).drop_last() =~= tl.lines@.take(j as int));
            assert(tl.lines@.take(j + 1).last() == tl.lines@[j as int]);
        }
        while i2 < gn
            invariant
                0 <= i2 <= gn,
                0 <= j < nl,
                nl == tl.lines@.len(),
                gn == line.len(),
                line == tl.lines@[j as int].glyphs@,
                cache.wf(),
                cmds@ == bgpart + cache_cmds_for_lines(
                    cache.entries(),
                    tl.lines@.take(j as int),
                    style.color,
                ) + cache_cmds_for_line(cache.entries(), line.take(i2 as int), style.color),
            decreases gn - i2,
        {
            let g = tl.lines[j].glyphs[i2];
            proof {
                assert(line.take(i2 + 1).drop_last() =~= line.take(i2 as int));
                assert(line.take(i2 + 1).last() == line[i2 as int]);
            }
            if g.visible {
                match cache.lookup(g.ch) {
                    Some(e) => {
                        match e.uv {
                            Some(uv) => {
                                let dest_x = add_clamped(g.x, e.bearing_x as i64);
                                let dest_y = sub_clamped(g.y, e.bearing_y as i64);
                                cmds.push(
                                    DrawCommand::Glyph {
                                        uv,
                                        dest_x,
                                        dest_y,
                                        width: uv.width,
                                        height: uv.height,
                                        tint: style.color,
                                    },
                                );
                            },
                            None => {},
                        }
                    },
                    None => {},
                }
            }
            proof {
                assert(cmds@ =~= bgpart + cache_cmds_for_lines(
                    cache.entries(),
                    tl.lines@.take(j as int),
                    style.color,
                ) + cache_cmds_for_line(cache.entries(), line.take(i2 + 1), style.color));
            }
            i2 = i2 + 1;
        }
        proof {
            assert(line.take(gn as int) =~= line);
            assert(cmds@ =~= bgpart + cache_cmds_for_lines(
                cache.entries(),
                tl.lines@.take(j + 1),
                style.color,
            ));
        }
        j = j + 1;
    }
    proof {
        assert(tl.lines@.take(nl as int) =~= tl.lines@);
        assert(cmds@ =~= cache_render_commands(
            cache.entries(),
            *style,
            x as int,
            y as int,
            tl,
        ));
    }
    RenderOutput { uploads, commands: cmds }
}

} // verus!
