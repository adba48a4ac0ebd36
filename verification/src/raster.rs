//! Glyph rasterization.
//!
//! A [`GlyphSource`] turns a character into a coverage bitmap plus metrics.
//! The production implementer, [`FontRasterizer`], parses a font program
//! and rasterizes through the `rusttype` crate; [`FixedGlyphSource`] is a
//! deterministic table-backed source usable wherever no font file is at
//! hand. Zero-area glyphs (a space, characters the font does not define)
//! degrade to an empty-but-valid result, never an error.

use vstd::prelude::*;

use rusttype::Font;
use rusttype::GlyphId;
use rusttype::Scale;
use rusttype::point;

use crate::error::FontError;

verus! {

/// The mathematical model of one rasterized glyph: the metrics as
/// unbounded integers and the coverage bitmap as a byte sequence.
pub struct GlyphModel {
    pub width: int,
    pub height: int,
    pub bearing_x: int,
    pub bearing_y: int,
    pub advance: int,
    pub bitmap: Seq<u8>,
}

/// The coverage bitmap and metrics of one rasterized glyph.
///
/// `bitmap` holds `width * height` coverage bytes (0 = transparent,
/// 255 = fully covered) in scanline order over the glyph's tight bounding
/// box. `bearing_x`/`bearing_y` offset the bitmap's origin from the draw
/// cursor on the baseline; `advance` is how far the cursor moves after the
/// glyph. A zero-area glyph has an empty bitmap and may still advance.
#[derive(Clone, Debug)]
pub struct RasterGlyph {
    pub width: u32,
    pub height: u32,
    pub bearing_x: i32,
    pub bearing_y: i32,
    pub advance: u32,
    pub bitmap: Vec<u8>,
}

impl View for RasterGlyph {
    type V = GlyphModel;

    open spec fn view(&self) -> GlyphModel {
        GlyphModel {
            width: self.width as int,
            height: self.height as int,
            bearing_x: self.bearing_x as int,
            bearing_y: self.bearing_y as int,
            advance: self.advance as int,
            bitmap: self.bitmap@,
        }
    }
}

impl RasterGlyph {
    /// The bitmap holds exactly one byte per pixel of the bounding box.
    pub open spec fn wf(self) -> bool {
        self.bitmap@.len() == self.width as int * self.height as int
    }
}

/// Whether the bytes parse as a font program. Stands for what
/// `rusttype::Font::try_from_bytes` accepts; a function of the bytes
/// alone.
pub uninterp spec fn font_parses(data: Seq<u8>) -> bool;

/// The number of glyphs a parsed font program declares; 0 when the bytes
/// do not parse. A function of the bytes alone.
pub uninterp spec fn face_glyph_count_of(data: Seq<u8>) -> u16;

/// Whether a parsed font program carries a horizontal-metrics entry
/// (advance and side bearing) for one glyph identifier. A function of
/// the bytes and the identifier alone.
pub uninterp spec fn metrics_present(data: Seq<u8>, gid: u16) -> bool;

/// A usable font program: it parses, declares at least one glyph, and
/// carries horizontal metrics for every glyph it declares. Rasterizing
/// any glyph of such a program cannot abort on a data-dependent
/// condition.
pub open spec fn font_ok(data: Seq<u8>) -> bool {
    &&& font_parses(data)
    &&& face_glyph_count_of(data) >= 1
    &&& forall|gid: u16| gid < face_glyph_count_of(data) ==> #[trigger] metrics_present(data, gid)
}

/// The coverage bitmap and metrics that rasterizing one glyph of a
/// parsed font program at one pixel size produces. A function of the
/// font bytes, the glyph identifier and the size alone: identical inputs
/// always yield identical bitmap and metrics.
pub uninterp spec fn raster_of(data: Seq<u8>, gid: u16, size: u32) -> GlyphModel;

/// The glyph identifier a parsed font program's character map assigns to
/// a character; 0 is the undefined glyph, also for unmapped characters.
/// A function of the font bytes and character alone.
pub uninterp spec fn glyph_id_of(data: Seq<u8>, c: char) -> u16;

/// A parsed font program's (ascent, descent, line gap) at one pixel size,
/// rounded to whole pixels; descent is typically negative. A function of
/// the font bytes and the size alone.
pub uninterp spec fn vmetrics_of(data: Seq<u8>, size: u32) -> (i32, i32, i32);

/// Relies on `rusttype::Font::try_from_bytes`: it returns `Some` exactly
/// when the byte slice parses as a font program, and for fixed bytes it
/// always decides the same way.
#[verifier::external_body]
fn probe_font(data: &[u8]) -> (r: bool)
    ensures
        r == font_parses(data@),
{
    Font::try_from_bytes(data).is_some()
}

/// Relies on `ttf_parser::Face::from_slice` and `Face::number_of_glyphs`
/// (the same face parser rusttype builds on): the declared glyph count,
/// or 0 when the bytes do not parse.
#[verifier::external_body]
fn face_glyph_count(data: &[u8]) -> (r: u16)
    ensures
        r == face_glyph_count_of(data@),
{
    match ttf_parser::Face::from_slice(data, 0) {
        Ok(face) => face.number_of_glyphs(),
        Err(_) => 0,
    }
}

/// Relies on `ttf_parser::Face::glyph_hor_advance` and
/// `Face::glyph_hor_side_bearing`: whether the face's horizontal-metrics
/// table answers for this glyph identifier. `rusttype` unwraps exactly
/// these two lookups when it rasterizes, so a glyph probed here cannot
/// make it abort.
#[verifier::external_body]
fn glyph_metrics_present(data: &[u8], gid: u16) -> (r: bool)
    ensures
        r == metrics_present(data@, gid),
{
    match ttf_parser::Face::from_slice(data, 0) {
        Ok(face) => {
            let id = ttf_parser::GlyphId(gid);
            face.glyph_hor_advance(id).is_some() && face.glyph_hor_side_bearing(id).is_some()
        },
        Err(_) => false,
    }
}

/// Relies on `rusttype`: `Font::glyph` by identifier, then
/// `ScaledGlyph::h_metrics`, `PositionedGlyph::pixel_bounding_box` and
/// `PositionedGlyph::draw`, which rasterize the glyph analytically from
/// the font's outline. The preconditions keep the identifier below the
/// glyph count (`Font::glyph` asserts this) and guarantee the
/// horizontal-metrics entries `h_metrics` unwraps. `draw` hands back one
/// coverage value per bounding-box pixel, rounded to the nearest byte;
/// the body only converts that stream into the flat bitmap.
#[verifier::external_body]
fn rasterize_raw(data: &[u8], gid: u16, size: u32) -> (g: RasterGlyph)
    requires
        font_ok(data@),
        gid < face_glyph_count_of(data@),
    ensures
        g@ == raster_of(data@, gid, size),
        g.wf(),
{
    let font = Font::try_from_bytes(data).unwrap();
    let scaled = font.glyph(GlyphId(gid)).scaled(Scale::uniform((size.min(65535) as u16).into()));
    let advance = scaled.h_metrics().advance_width as u32;
    let positioned = scaled.positioned(point(0u8.into(), 0u8.into()));
    match positioned.pixel_bounding_box() {
        None => empty_glyph(advance),
        Some(bb) => {
            let (w, h) = (bb.width() as u32, bb.height() as u32);
            let mut bitmap = coverage_buffer(w, h);
            positioned.draw(|x, y, v| set_coverage(&mut bitmap, w, x, y, v.to_bits()));
            boxed_glyph(w, h, bb.min.x, bb.min.y, advance, bitmap)
        },
    }
}

/// A zero-area glyph: an empty bitmap, the cursor still advances.
fn empty_glyph(advance: u32) -> (g: RasterGlyph)
    ensures
        g.width == 0,
        g.height == 0,
        g.bearing_x == 0,
        g.bearing_y == 0,
        g.advance == advance,
        g.bitmap@ == Seq::<u8>::empty(),
{
    RasterGlyph { width: 0, height: 0, bearing_x: 0, bearing_y: 0, advance, bitmap: Vec::new() }
}

/// Assemble a glyph from a bounding box whose top-left corner sits at
/// `(min_x, min_y)` relative to the glyph origin.
fn boxed_glyph(w: u32, h: u32, min_x: i32, min_y: i32, advance: u32, bitmap: Vec<u8>) -> (g:
    RasterGlyph)
    requires
        min_y != i32::MIN,
    ensures
        g.width == w,
        g.height == h,
        g.bearing_x == min_x,
        g.bearing_y == -min_y,
        g.advance == advance,
        g.bitmap == bitmap,
{
    RasterGlyph { width: w, height: h, bearing_x: min_x, bearing_y: -min_y, advance, bitmap }
}

/// A zeroed coverage buffer of one byte per bounding-box pixel; empty
/// when the box is too large to hold in memory.
fn coverage_buffer(w: u32, h: u32) -> (r: Vec<u8>)
    ensures
        (w as int) * (h as int) <= usize::MAX ==> r@.len() == w as int * h as int,
{
    proof {
        assert((w as int) * (h as int) <= u64::MAX) by (nonlinear_arith)
            requires
                w <= u32::MAX,
                h <= u32::MAX,
        ;
    }
    let n = (w as u64) * (h as u64);
    if n > usize::MAX as u64 {
        return Vec::new();
    }
    let n = n as usize;
    let mut v: Vec<u8> = Vec::new();
    let mut i: usize = 0;
    while i < n
        invariant
            0 <= i <= n,
            v@.len() == i,
        decreases n - i,
    {
        v.push(0);
        i = i + 1;
    }
    v
}

/// An analytic coverage value, handed over as the bits of its IEEE 754
/// single-precision representation, scaled to a byte: 0.0 maps to 0, 1.0
/// (and anything above) to 255, values in between proportionally, rounded
/// to nearest. Negative, zero and subnormal values map to 0.
pub open spec fn coverage_byte_spec(bits: u32) -> u8 {
    let sign = bits >> 31;
    let e = (bits >> 23) & 0xff;
    let m = (bits & 0x7fffff) as u64;
    if sign == 1 || e == 0 {
        0u8
    } else if e >= 127 {
        255u8
    } else if e <= 110 {
        0u8
    } else {
        let val = ((0x800000u64 + m) * 255) as u64;
        let t = val >> ((149 - e) as u64);
        ((t >> 1) + (t & 1)) as u8
    }
}

/// Scale a fractional coverage value, given as IEEE 754 bits, to a byte.
pub fn coverage_byte(bits: u32) -> (r: u8)
    ensures
        r == coverage_byte_spec(bits),
{
    let sign = bits >> 31;
    let e = (bits >> 23) & 0xff;
    let m = (bits & 0x7fffff) as u64;
    if sign == 1 || e == 0 {
        0
    } else if e >= 127 {
        255
    } else if e <= 110 {
        0
    } else {
        let val = (0x800000u64 + m) * 255;
        let sh = (149 - e) as u64;
        let t = val >> sh;
        proof {
            assert((bits & 0x7fffff) < 0x800000u32) by (bit_vector);
            assert(val >> sh < 510) by (bit_vector)
                requires
                    m < 0x800000u64,
                    val == (0x800000u64 + m) * 255,
                    23 <= sh,
            ;
            assert((t >> 1) + (t & 1) < 256) by (bit_vector)
                requires
                    t < 510u64,
            ;
        }
        ((t >> 1) + (t & 1)) as u8
    }
}

/// Store the coverage value given as IEEE 754 bits, scaled to a byte, at
/// bounding-box position `(x, y)` of a bitmap `w` pixels wide. Positions
/// outside the bitmap are ignored.
pub fn set_coverage(bitmap: &mut Vec<u8>, w: u32, x: u32, y: u32, bits: u32)
    ensures
        final(bitmap)@.len() == old(bitmap)@.len(),
        w * y + x < old(bitmap)@.len() ==> final(bitmap)@ == old(bitmap)@.update(
            w as int * y as int + x as int,
            coverage_byte_spec(bits),
        ),
        w * y + x >= old(bitmap)@.len() ==> final(bitmap)@ == old(bitmap)@,
{
    let v = coverage_byte(bits);
    proof {
        assert((w as int) * (y as int) + (x as int) <= u64::MAX) by (nonlinear_arith)
            requires
                w <= u32::MAX,
                y <= u32::MAX,
                x <= u32::MAX,
        ;
    }
    let idx = (w as u64) * (y as u64) + (x as u64);
    if idx < bitmap.len() as u64 {
        bitmap.set(idx as usize, v);
    }
}

/// Relies on `rusttype::IntoGlyphId for char`: the character map's
/// lookup, 0 for unmapped characters; unlike `Font::glyph` it asserts
/// nothing, so a malformed map cannot abort here.
#[verifier::external_body]
fn glyph_id_raw(data: &[u8], c: char) -> (r: u16)
    requires
        font_parses(data@),
    ensures
        r == glyph_id_of(data@, c),
{
    let font = Font::try_from_bytes(data).unwrap();
    rusttype::IntoGlyphId::into_glyph_id(c, &font).0
}

/// Relies on `rusttype::Font::v_metrics`: the font's shared vertical
/// metrics at the given scale, rounded to whole pixels.
#[verifier::external_body]
fn v_metrics_raw(data: &[u8], size: u32) -> (r: (i32, i32, i32))
    requires
        font_parses(data@),
    ensures
        r == vmetrics_of(data@, size),
{
    let font = Font::try_from_bytes(data).unwrap();
    let vm = font.v_metrics(Scale::uniform((size.min(65535) as u16).into()));
    (vm.ascent as i32, vm.descent as i32, vm.line_gap as i32)
}

/// Clamp a mathematical integer into the `u32` range.
pub open spec fn clamp_to_u32(x: int) -> u32 {
    if x < 0 {
        0u32
    } else if x > u32::MAX {
        u32::MAX
    } else {
        x as u32
    }
}

/// A source of rasterized glyphs: one font at one fixed pixel size.
///
/// `rasterize` is deterministic: identical inputs always yield identical
/// bitmap and metrics, as each implementer's spec functions are functions
/// of its state alone.
pub trait GlyphSource: Sized {
    /// The glyph this source produces for a character.
    spec fn glyph_spec(&self, c: char) -> GlyphModel;

    /// Whether the source defines a (nonzero) glyph for a character.
    spec fn has_glyph_spec(&self, c: char) -> bool;

    /// The source's line height in pixels.
    spec fn line_height_spec(&self) -> u32;

    /// The source's pixel size.
    spec fn font_size_spec(&self) -> u32;

    /// Rasterize one character: a coverage bitmap over a tight bounding
    /// box plus metrics. Characters without a defined glyph degrade to an
    /// empty-but-valid result, never an error.
    fn rasterize(&self, c: char) -> (g: RasterGlyph)
        ensures
            g@ == self.glyph_spec(c),
            g.wf(),
    ;

    /// Whether the source defines a glyph for this character.
    fn has_glyph(&self, c: char) -> (b: bool)
        ensures
            b == self.has_glyph_spec(c),
    ;

    /// Line height in pixels: ascent - descent + line gap.
    fn line_height(&self) -> (h: u32)
        ensures
            h == self.line_height_spec(),
    ;

    /// The pixel size this source rasterizes at.
    fn font_size(&self) -> (s: u32)
        ensures
            s == self.font_size_spec(),
    ;
}

/// The production glyph source: a font program rasterized by `rusttype`
/// at one fixed pixel size.
pub struct FontRasterizer {
    data: Vec<u8>,
    size: u32,
    line_height: u32,
}

impl FontRasterizer {
    /// The stored font program parses; established at construction.
    #[verifier::type_invariant]
    spec fn inv(self) -> bool {
        font_ok(self.data@)
    }

    /// The font program bytes this rasterizer was built over.
    pub closed spec fn data_spec(self) -> Seq<u8> {
        self.data@
    }

    /// Parse and probe a font program and fix the pixel size: the bytes
    /// must parse and every declared glyph must carry horizontal metrics,
    /// so that no later rasterization can abort on a data-dependent
    /// condition. Failures are fast; no partially built rasterizer is
    /// ever returned. The line height is the font's vertical metrics at
    /// the pixel size: ascent - descent + line gap, clamped to `u32`.
    pub fn new(data: Vec<u8>, size: u32) -> (r: Result<Self, FontError>)
        ensures
            r is Ok <==> font_ok(data@),
            r is Ok ==> r->Ok_0.data_spec() == data@ && r->Ok_0.font_size_spec() == size
                && r->Ok_0.line_height_spec() == line_height_of(vmetrics_of(data@, size)),
            r is Err ==> r->Err_0 is FontLoadError,
    {
        if !probe_font(data.as_slice()) {
            return Err(FontError::FontLoadError("font program did not parse".to_owned()));
        }
        let count = face_glyph_count(data.as_slice());
        if count == 0 {
            return Err(FontError::FontLoadError("font program declares no glyphs".to_owned()));
        }
        let mut gid: u16 = 0;
        while gid < count
            invariant
                0 <= gid <= count,
                count == face_glyph_count_of(data@),
                forall|t: u16| t < gid ==> #[trigger] metrics_present(data@, t),
            decreases count - gid,
        {
            if !glyph_metrics_present(data.as_slice(), gid) {
                return Err(
                    FontError::FontLoadError(
                        "font program lacks horizontal metrics for a glyph".to_owned(),
                    ),
                );
            }
            gid = gid + 1;
        }
        let vm = v_metrics_raw(data.as_slice(), size);
        let lh64: i64 = vm.0 as i64 - vm.1 as i64 + vm.2 as i64;
        let line_height: u32 = if lh64 < 0 {
            0
        } else if lh64 > u32::MAX as i64 {
            u32::MAX
        } else {
            lh64 as u32
        };
        Ok(FontRasterizer { data, size, line_height })
    }
}

/// The recorded line height of vertical metrics (ascent, descent, line
/// gap): ascent - descent + line gap, clamped into the `u32` range.
pub open spec fn line_height_of(vm: (i32, i32, i32)) -> u32 {
    clamp_to_u32(vm.0 - vm.1 + vm.2)
}

/// A glyph model with no box, no bearing and no advance.
pub open spec fn empty_glyph_model() -> GlyphModel {
    GlyphModel { width: 0, height: 0, bearing_x: 0, bearing_y: 0, advance: 0, bitmap: Seq::empty() }
}

impl GlyphSource for FontRasterizer {
    open spec fn glyph_spec(&self, c: char) -> GlyphModel {
        let gid = glyph_id_of(self.data_spec(), c);
        if gid < face_glyph_count_of(self.data_spec()) {
            raster_of(self.data_spec(), gid, self.font_size_spec())
        } else {
            empty_glyph_model()
        }
    }

    open spec fn has_glyph_spec(&self, c: char) -> bool {
        glyph_id_of(self.data_spec(), c) != 0
    }

    closed spec fn line_height_spec(&self) -> u32 {
        self.line_height
    }

    closed spec fn font_size_spec(&self) -> u32 {
        self.size
    }

    fn rasterize(&self, c: char) -> (g: RasterGlyph) {
        proof {
            use_type_invariant(self);
        }
        let gid = glyph_id_raw(self.data.as_slice(), c);
        let count = face_glyph_count(self.data.as_slice());
        if gid < count {
            rasterize_raw(self.data.as_slice(), gid, self.size)
        } else {
            let g = empty_glyph(0);
            proof {
                assert(g.bitmap@.len() == 0);
                assert(g.width as int * g.height as int == 0);
                assert(g@ == empty_glyph_model());
            }
            g
        }
    }

    fn has_glyph(&self, c: char) -> (b: bool) {
        proof {
            use_type_invariant(self);
        }
        glyph_id_raw(self.data.as_slice(), c) != 0
    }

    fn line_height(&self) -> (h: u32) {
        self.line_height
    }

    fn font_size(&self) -> (s: u32) {
        self.size
    }
}

/// One entry of a [`FixedGlyphSource`]: the glyph the source yields for a
/// character, with every pixel of the bounding box at coverage `fill`.
#[derive(Clone, Copy, Debug)]
pub struct FixedGlyph {
    pub ch: char,
    pub width: u32,
    pub height: u32,
    pub bearing_x: i32,
    pub bearing_y: i32,
    pub advance: u32,
    pub fill: u8,
}

impl FixedGlyph {
    /// The bounding box is small enough that the bitmap can be built.
    pub open spec fn wf(self) -> bool {
        self.width as int * self.height as int <= u32::MAX
    }
}

/// A deterministic glyph source backed by a fixed table: the stand-in for
/// a font backend wherever no font file is at hand. Characters not in the
/// table degrade to an empty glyph with no advance.
pub struct FixedGlyphSource {
    glyphs: Vec<FixedGlyph>,
    line_height: u32,
    font_size: u32,
}

/// The first table entry for `c`, if any.
pub open spec fn fixed_lookup(glyphs: Seq<FixedGlyph>, c: char) -> Option<FixedGlyph>
    decreases glyphs.len(),
{
    if glyphs.len() == 0 {
        None
    } else if glyphs[0].ch == c {
        Some(glyphs[0])
    } else {
        fixed_lookup(glyphs.skip(1), c)
    }
}

/// The glyph a fixed table yields for `c`: the stored box filled with the
/// stored coverage byte, an empty glyph for characters not in the table,
/// and an empty box (the advance kept) for an entry whose box is too large
/// for a bitmap.
pub open spec fn fixed_glyph_of(glyphs: Seq<FixedGlyph>, c: char) -> GlyphModel {
    match fixed_lookup(glyphs, c) {
        Some(e) => {
            if e.wf() {
                GlyphModel {
                    width: e.width as int,
                    height: e.height as int,
                    bearing_x: e.bearing_x as int,
                    bearing_y: e.bearing_y as int,
                    advance: e.advance as int,
                    bitmap: Seq::new((e.width * e.height) as nat, |i: int| e.fill),
                }
            } else {
                GlyphModel {
                    width: 0,
                    height: 0,
                    bearing_x: 0,
                    bearing_y: 0,
                    advance: e.advance as int,
                    bitmap: Seq::empty(),
                }
            }
        },
        None => GlyphModel {
            width: 0,
            height: 0,
            bearing_x: 0,
            bearing_y: 0,
            advance: 0,
            bitmap: Seq::empty(),
        },
    }
}

impl FixedGlyphSource {
    /// The glyph table this source answers from.
    pub closed spec fn glyphs_spec(self) -> Seq<FixedGlyph> {
        self.glyphs@
    }

    /// A source answering from a fixed glyph table, with a fixed line
    /// height and nominal pixel size.
    pub fn new(glyphs: Vec<FixedGlyph>, line_height: u32, font_size: u32) -> (r: Self)
        ensures
            r.glyphs_spec() == glyphs@,
            r.line_height_spec() == line_height,
            r.font_size_spec() == font_size,
    {
        FixedGlyphSource { glyphs, line_height, font_size }
    }
}

impl GlyphSource for FixedGlyphSource {
    open spec fn glyph_spec(&self, c: char) -> GlyphModel {
        fixed_glyph_of(self.glyphs_spec(), c)
    }

    open spec fn has_glyph_spec(&self, c: char) -> bool {
        fixed_lookup(self.glyphs_spec(), c) is Some
    }

    closed spec fn line_height_spec(&self) -> u32 {
        self.line_height
    }

    closed spec fn font_size_spec(&self) -> u32 {
        self.font_size
    }

    fn rasterize(&self, c: char) -> (g: RasterGlyph) {
        let n = self.glyphs.len();
        let mut i: usize = 0;
        proof {
            assert(self.glyphs@.skip(0) =~= self.glyphs@);
        }
        while i < n
            invariant
                n == self.glyphs@.len(),
                0 <= i <= n,
                fixed_lookup(self.glyphs@, c) == fixed_lookup(self.glyphs@.skip(i as int), c),
            decreases n - i,
        {
            proof {
                assert(self.glyphs@.skip(i as int).len() > 0);
                assert(self.glyphs@.skip(i as int)[0] == self.glyphs@[i as int]);
                assert(self.glyphs@.skip(i as int).skip(1) =~= self.glyphs@.skip(i + 1));
            }
            if self.glyphs[i].ch == c {
                let e = self.glyphs[i];
                proof {
                    assert((e.width as int) * (e.height as int) <= u64::MAX) by (nonlinear_arith)
                        requires
                            e.width <= u32::MAX,
                            e.height <= u32::MAX,
                    ;
                }
                let area64 = (e.width as u64) * (e.height as u64);
                if area64 <= u32::MAX as u64 {
                    let area = area64 as usize;
                    let mut bitmap: Vec<u8> = Vec::new();
                    let mut j: usize = 0;
                    while j < area
                        invariant
                            0 <= j <= area,
                            bitmap@ =~= Seq::new(j as nat, |k: int| e.fill),
                        decreases area - j,
                    {
                        bitmap.push(e.fill);
                        j = j + 1;
                    }
                    proof {
                        assert(bitmap@ =~= Seq::new((e.width * e.height) as nat, |k: int| e.fill));
                    }
                    return RasterGlyph {
                        width: e.width,
                        height: e.height,
                        bearing_x: e.bearing_x,
                        bearing_y: e.bearing_y,
                        advance: e.advance,
                        bitmap,
                    };
                } else {
                    let empty: Vec<u8> = Vec::new();
                    let g = RasterGlyph {
                        width: 0,
                        height: 0,
                        bearing_x: 0,
                        bearing_y: 0,
                        advance: e.advance,
                        bitmap: empty,
                    };
                    assert(g.bitmap@.len() == 0);
                    assert(g.width == 0);
                    assert(g.height == 0);
                    assert(g.width as int * g.height as int == 0);
                    assert(g.wf());
                    return g;
                }
            }
            i = i + 1;
        }
        proof {
            assert(self.glyphs@.skip(n as int) =~= Seq::<FixedGlyph>::empty());
        }
        let empty: Vec<u8> = Vec::new();
        let g = RasterGlyph {
            width: 0,
            height: 0,
            bearing_x: 0,
            bearing_y: 0,
            advance: 0,
            bitmap: empty,
        };
        assert(g.bitmap@.len() == 0);
        assert(g.width == 0);
        assert(g.height == 0);
        assert(g.width as int * g.height as int == 0);
        assert(g.wf());
        g
    }

    fn has_glyph(&self, c: char) -> (b: bool) {
        let n = self.glyphs.len();
        let mut i: usize = 0;
        proof {
            assert(self.glyphs@.skip(0) =~= self.glyphs@);
        }
        while i < n
            invariant
                n == self.glyphs@.len(),
                0 <= i <= n,
                fixed_lookup(self.glyphs@, c) == fixed_lookup(self.glyphs@.skip(i as int), c),
            decreases n - i,
        {
            proof {
                assert(self.glyphs@.skip(i as int).len() > 0);
                assert(self.glyphs@.skip(i as int)[0] == self.glyphs@[i as int]);
                assert(self.glyphs@.skip(i as int).skip(1) =~= self.glyphs@.skip(i + 1));
            }
            if self.glyphs[i].ch == c {
                return true;
            }
            i = i + 1;
        }
        proof {
            assert(self.glyphs@.skip(n as int) =~= Seq::<FixedGlyph>::empty());
        }
        false
    }

    fn line_height(&self) -> (h: u32) {
        self.line_height
    }

    fn font_size(&self) -> (s: u32) {
        self.font_size
    }
}

} // verus!
