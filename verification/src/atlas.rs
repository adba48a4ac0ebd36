//! The baked font atlas: one image packed with many glyph sub-images and
//! a per-character metrics table.
//!
//! An atlas is built once for a declared character set: 95 printable ASCII
//! code points, or every Basic Multilingual Plane code point the font
//! defines a glyph for. Glyphs are rasterized, row-packed left to right by
//! the shelf packer, and drawn into a shared RGBA buffer (opaque white,
//! alpha = coverage). Atlas sides are powers of two, clamped to
//! [256, 8192] pixels.

use vstd::prelude::*;

use crate::error::FontError;
use crate::packer::PRect;
use crate::packer::PackerModel;
use crate::packer::ShelfPacker;
use crate::packer::rect_in_bounds;
use crate::packer::rects_disjoint;
use crate::raster::FontRasterizer;
use crate::raster::GlyphModel;
use crate::raster::GlyphSource;
use crate::raster::RasterGlyph;

verus! {

/// The declared character set of a baked atlas.
#[derive(Clone, Debug, PartialEq, Eq, Structural)]
pub enum FontType {
    /// The 95 printable ASCII code points, 32 through 126.
    Ascii,
    /// Every Basic Multilingual Plane code point the font defines a
    /// nonzero glyph for.
    Unicode,
}

/// The character sequence is `"ASCII"` under ASCII case folding.
pub open spec fn is_ascii_name(s: Seq<char>) -> bool {
    s.len() == 5 && (s[0] == 'A' || s[0] == 'a') && (s[1] == 'S' || s[1] == 's') && (s[2] == 'C'
        || s[2] == 'c') && (s[3] == 'I' || s[3] == 'i') && (s[4] == 'I' || s[4] == 'i')
}

/// A character with any ASCII lowercase letter raised to its uppercase.
pub open spec fn ascii_upper_char(c: char) -> char {
    if 'a' <= c && c <= 'z' {
        ((c as u32) - 32) as char
    } else {
        c
    }
}

/// What a character sequence uppercases to under the full Unicode
/// mapping. A function of the characters alone.
pub uninterp spec fn upper_of(s: Seq<char>) -> Seq<char>;

/// Relies on `str::to_uppercase`: the Unicode uppercase mapping, the
/// same for the same characters every time; on an ASCII string it is
/// exactly the per-character ASCII mapping.
#[verifier::external_body]
fn to_uppercase_string(s: &str) -> (r: String)
    ensures
        r@ == upper_of(s@),
        s.is_ascii() ==> r@ == s@.map_values(|c: char| ascii_upper_char(c)),
{
    s.to_uppercase()
}

/// The character sequence is `"UNICODE"` under ASCII case folding.
pub open spec fn is_unicode_name(s: Seq<char>) -> bool {
    s.len() == 7 && (s[0] == 'U' || s[0] == 'u') && (s[1] == 'N' || s[1] == 'n') && (s[2] == 'I'
        || s[2] == 'i') && (s[3] == 'C' || s[3] == 'c') && (s[4] == 'O' || s[4] == 'o') && (s[5]
        == 'D' || s[5] == 'd') && (s[6] == 'E' || s[6] == 'e')
}

impl FontType {
    /// Parse a character-set name, case-insensitively: `"ASCII"` or
    /// `"UNICODE"`. Any other name is a configuration error carrying the
    /// rejected name, uppercased. Acceptance folds case per ASCII
    /// character, so a spelling that only the full Unicode uppercase
    /// mapping would turn into one of the two names is rejected.
    pub fn from_str(s: &str) -> (r: Result<FontType, FontError>)
        ensures
            r == Ok::<FontType, FontError>(FontType::Ascii) <==> is_ascii_name(s@),
            r == Ok::<FontType, FontError>(FontType::Unicode) <==> is_unicode_name(s@),
            r is Err <==> !is_ascii_name(s@) && !is_unicode_name(s@),
            r is Err ==> r->Err_0 is InvalidFontType && r->Err_0.message_spec() == upper_of(s@),
    {
        let n = s.unicode_len();
        if n == 5 {
            let c0 = s.get_char(0);
            let c1 = s.get_char(1);
            let c2 = s.get_char(2);
            let c3 = s.get_char(3);
            let c4 = s.get_char(4);
            if (c0 == 'A' || c0 == 'a') && (c1 == 'S' || c1 == 's') && (c2 == 'C' || c2 == 'c')
                && (c3 == 'I' || c3 == 'i') && (c4 == 'I' || c4 == 'i') {
                return Ok(FontType::Ascii);
            }
        } else if n == 7 {
            let c0 = s.get_char(0);
            let c1 = s.get_char(1);
            let c2 = s.get_char(2);
            let c3 = s.get_char(3);
            let c4 = s.get_char(4);
            let c5 = s.get_char(5);
            let c6 = s.get_char(6);
            if (c0 == 'U' || c0 == 'u') && (c1 == 'N' || c1 == 'n') && (c2 == 'I' || c2 == 'i')
                && (c3 == 'C' || c3 == 'c') && (c4 == 'O' || c4 == 'o') && (c5 == 'D' || c5
                == 'd') && (c6 == 'E' || c6 == 'e') {
                return Ok(FontType::Unicode);
            }
        }
        Err(FontError::InvalidFontType(to_uppercase_string(s)))
    }

    /// The canonical name of this character set.
    pub fn as_str(&self) -> (r: &'static str)
        ensures
            *self is Ascii ==> r@ == "ASCII"@,
            *self is Unicode ==> r@ == "UNICODE"@,
    {
        match self {
            FontType::Ascii => "ASCII",
            FontType::Unicode => "UNICODE",
        }
    }
}

/// The metrics of one character in a baked atlas. The region `(x, y,
/// width, height)` is in atlas pixels; dividing by the atlas sides gives
/// the normalized, resolution-independent coordinates. `xoffset` and
/// `yoffset` are the bearing from the draw cursor, `xadvance` how far the
/// cursor moves after the character.
#[derive(Clone, Copy, Debug, PartialEq, Eq, Structural)]
pub struct CharInfo {
    pub x: u32,
    pub y: u32,
    pub width: u32,
    pub height: u32,
    pub xoffset: i32,
    pub yoffset: i32,
    pub xadvance: u32,
}

impl CharInfo {
    /// Bundle the metrics of one character.
    pub fn new(x: u32, y: u32, width: u32, height: u32, xoffset: i32, yoffset: i32, xadvance: u32)
        -> (r: CharInfo)
        ensures
            r == (CharInfo { x, y, width, height, xoffset, yoffset, xadvance }),
    {
        CharInfo { x, y, width, height, xoffset, yoffset, xadvance }
    }

    /// The character's atlas region lies fully within a `w x h` atlas.
    pub open spec fn in_bounds(self, w: int, h: int) -> bool {
        self.x + self.width <= w && self.y + self.height <= h
    }

    /// The character has no atlas region, only an advance.
    pub open spec fn is_degenerate(self) -> bool {
        self.width == 0 || self.height == 0
    }
}

/// One row of the atlas metrics table: a Unicode code point and the
/// character's metrics.
#[derive(Clone, Copy, Debug, PartialEq, Eq, Structural)]
pub struct CharEntry {
    pub code: u32,
    pub info: CharInfo,
}

/// A legal atlas side: a power of two clamped to [256, 8192].
pub open spec fn is_atlas_dim(n: int) -> bool {
    n == 256 || n == 512 || n == 1024 || n == 2048 || n == 4096 || n == 8192
}

/// The metrics table is strictly ascending by code point, so every code
/// appears at most once.
pub open spec fn entries_sorted(chars: Seq<CharEntry>) -> bool {
    forall|i: int, j: int| 0 <= i < j < chars.len() ==> chars[i].code < chars[j].code
}

/// Every entry's region lies within a `w x h` atlas.
pub open spec fn entries_in_bounds(chars: Seq<CharEntry>, w: int, h: int) -> bool {
    forall|i: int| 0 <= i < chars.len() ==> (#[trigger] chars[i]).info.in_bounds(w, h)
}

/// The first entry for `code`, if any.
pub open spec fn find_code(chars: Seq<CharEntry>, code: u32) -> Option<CharInfo>
    decreases chars.len(),
{
    if chars.len() == 0 {
        None
    } else if chars[0].code == code {
        Some(chars[0].info)
    } else {
        find_code(chars.skip(1), code)
    }
}

/// Relies on `core::char::from_u32`: it returns the character of a code
/// point below the surrogate range or between it and 0x10FFFF, and `None`
/// for every other value.
pub assume_specification [ char::from_u32 ](i: u32) -> (r: Option<char>)
    ensures
        (i < 0xD800 || (0xE000 <= i && i <= 0x10FFFF)) ==> r == Some(i as char),
        !(i < 0xD800 || (0xE000 <= i && i <= 0x10FFFF)) ==> r is None,
;

/// A baked font atlas: the packed RGBA image, the per-character metrics
/// table, and the bake-time parameters.
#[derive(Clone, Debug)]
pub struct FontAtlas {
    /// RGBA pixels, `width * height * 4` bytes, row by row.
    pub image: Vec<u8>,
    /// Metrics per baked character, strictly ascending by code point.
    pub chars: Vec<CharEntry>,
    /// The pixel size the glyphs were rasterized at.
    pub font_size: u32,
    /// Inter-glyph padding in pixels.
    pub padding: u32,
    /// Atlas width in pixels: a power of two in [256, 8192].
    pub width: u32,
    /// Atlas height in pixels: a power of two in [256, 8192].
    pub height: u32,
    /// Baseline-to-baseline distance at the bake size, in pixels.
    pub line_height: u32,
    /// The character set this atlas was baked for.
    pub font_type: FontType,
}

impl FontAtlas {
    /// Structural soundness: legal dimensions, an image buffer of exactly
    /// the right size, and a sorted table whose regions lie within the
    /// atlas. Established at bake time and re-checked on every load.
    pub open spec fn wf(self) -> bool {
        &&& is_atlas_dim(self.width as int)
        &&& is_atlas_dim(self.height as int)
        &&& self.image@.len() == self.width as int * self.height as int * 4
        &&& entries_sorted(self.chars@)
        &&& entries_in_bounds(self.chars@, self.width as int, self.height as int)
    }

    /// Whether this atlas is structurally sound: legal dimensions, an
    /// image buffer of the right size, a sorted in-bounds metrics table.
    pub fn check_wf(&self) -> (r: bool)
        ensures
            r == self.wf(),
    {
        let dims_ok = (self.width == 256 || self.width == 512 || self.width == 1024 || self.width
            == 2048 || self.width == 4096 || self.width == 8192) && (self.height == 256
            || self.height == 512 || self.height == 1024 || self.height == 2048 || self.height
            == 4096 || self.height == 8192);
        if !dims_ok {
            return false;
        }
        proof {
            assert((self.width as int) * (self.height as int) <= 8192 * 8192) by (nonlinear_arith)
                requires
                    self.width <= 8192,
                    self.height <= 8192,
            ;
        }
        if (self.image.len() as u64) != (self.width as u64) * (self.height as u64) * 4 {
            return false;
        }
        let n = self.chars.len();
        let mut i: usize = 0;
        while i < n
            invariant
                0 <= i <= n,
                n == self.chars@.len(),
                forall|p: int, q: int|
                    0 <= p < q < i ==> (#[trigger] self.chars@[p]).code < (
                    #[trigger] self.chars@[q]).code,
                forall|p: int|
                    0 <= p < i ==> (#[trigger] self.chars@[p]).info.in_bounds(
                        self.width as int,
                        self.height as int,
                    ),
            decreases n - i,
        {
            let e = self.chars[i];
            if i > 0 {
                if self.chars[i - 1].code >= e.code {
                    proof {
                        assert(!entries_sorted(self.chars@));
                    }
                    return false;
                }
            }
            if (e.info.x as u64) + (e.info.width as u64) > self.width as u64 || (e.info.y as u64)
                + (e.info.height as u64) > self.height as u64 {
                proof {
                    assert(!self.chars@[i as int].info.in_bounds(
                        self.width as int,
                        self.height as int,
                    ));
                    assert(!entries_in_bounds(
                        self.chars@,
                        self.width as int,
                        self.height as int,
                    ));
                }
                return false;
            }
            proof {
                assert forall|p: int, q: int| 0 <= p < q < i + 1 implies (
                #[trigger] self.chars@[p]).code < (#[trigger] self.chars@[q]).code by {
                    if q == i {
                        if p < i - 1 {
                            assert(self.chars@[p].code < self.chars@[i - 1].code);
                        }
                    }
                }
            }
            i = i + 1;
        }
        true
    }

    /// The metrics of one character, found by binary search over the
    /// sorted table: exactly the table's entry for it, if one was baked.
    pub fn char_info(&self, c: char) -> (r: Option<CharInfo>)
        requires
            self.wf(),
        ensures
            r == find_code(self.chars@, c as u32),
    {
        let code = c as u32;
        let mut lo: usize = 0;
        let mut hi: usize = self.chars.len();
        proof {
            assert(self.chars@.skip(0) =~= self.chars@);
            lemma_find_code_in_range(self.chars@, code, 0, self.chars@.len() as int);
        }
        while lo < hi
            invariant
                0 <= lo <= hi <= self.chars@.len(),
                code == c as u32,
                entries_sorted(self.chars@),
                find_code(self.chars@, code) == find_code_in(self.chars@, code, lo as int, hi as int),
            decreases hi - lo,
        {
            let mid = lo + (hi - lo) / 2;
            let e = self.chars[mid];
            if e.code == code {
                proof {
                    lemma_find_code_in_found(self.chars@, code, lo as int, hi as int, mid as int);
                }
                return Some(e.info);
            } else if e.code < code {
                proof {
                    lemma_find_code_in_narrow(self.chars@, code, lo as int, hi as int, mid as int);
                }
                lo = mid + 1;
            } else {
                proof {
                    lemma_find_code_in_narrow(self.chars@, code, lo as int, hi as int, mid as int);
                }
                hi = mid;
            }
        }
        None
    }
}

/// The first entry for `code` among indices `[lo, hi)`.
pub open spec fn find_code_in(chars: Seq<CharEntry>, code: u32, lo: int, hi: int) -> Option<
    CharInfo,
>
    decreases hi - lo,
{
    if lo < 0 || hi > chars.len() || lo >= hi {
        None
    } else if chars[lo].code == code {
        Some(chars[lo].info)
    } else {
        find_code_in(chars, code, lo + 1, hi)
    }
}

/// Searching the whole table and searching the full index range agree.
proof fn lemma_find_code_in_range(chars: Seq<CharEntry>, code: u32, lo: int, hi: int)
    requires
        0 <= lo <= hi <= chars.len(),
    ensures
        hi == chars.len() ==> find_code(chars.skip(lo), code) == find_code_in(chars, code, lo, hi),
    decreases hi - lo,
{
    if lo < hi && hi == chars.len() {
        assert(chars.skip(lo).len() > 0);
        assert(chars.skip(lo)[0] == chars[lo]);
        assert(chars.skip(lo).skip(1) =~= chars.skip(lo + 1));
        lemma_find_code_in_range(chars, code, lo + 1, hi);
    } else if lo == hi && hi == chars.len() {
        assert(chars.skip(lo) =~= Seq::<CharEntry>::empty());
    }
}

/// In a sorted table, finding `code` at `mid` settles the range search.
proof fn lemma_find_code_in_found(chars: Seq<CharEntry>, code: u32, lo: int, hi: int, mid: int)
    requires
        entries_sorted(chars),
        0 <= lo <= mid < hi <= chars.len(),
        chars[mid].code == code,
    ensures
        find_code_in(chars, code, lo, hi) == Some(chars[mid].info),
    decreases mid - lo,
{
    if lo < mid {
        assert(chars[lo].code < chars[mid].code);
        lemma_find_code_in_found(chars, code, lo + 1, hi, mid);
    }
}

/// In a sorted table, the half of the range on the wrong side of a probe
/// that missed can be discarded.
proof fn lemma_find_code_in_narrow(chars: Seq<CharEntry>, code: u32, lo: int, hi: int, mid: int)
    requires
        entries_sorted(chars),
        0 <= lo <= mid < hi <= chars.len(),
        chars[mid].code != code,
    ensures
        chars[mid].code < code ==> find_code_in(chars, code, lo, hi) == find_code_in(
            chars,
            code,
            mid + 1,
            hi,
        ),
        chars[mid].code > code ==> find_code_in(chars, code, lo, hi) == find_code_in(
            chars,
            code,
            lo,
            mid,
        ),
    decreases hi - lo,
{
    if chars[mid].code < code {
        if lo < mid {
            assert(chars[lo].code < chars[mid].code);
            lemma_find_code_in_narrow(chars, code, lo + 1, hi, mid);
        }
    } else {
        lemma_find_code_out_of_range(chars, code, lo, mid, hi);
    }
}

/// In a sorted table, if every entry from `mid` on is above `code`, the
/// search over `[lo, hi)` agrees with the search over `[lo, mid)`.
proof fn lemma_find_code_out_of_range(chars: Seq<CharEntry>, code: u32, lo: int, mid: int, hi: int)
    requires
        entries_sorted(chars),
        0 <= lo <= mid < hi <= chars.len(),
        chars[mid].code > code,
    ensures
        find_code_in(chars, code, lo, hi) == find_code_in(chars, code, lo, mid),
    decreases hi - lo,
{
    if lo < mid {
        lemma_find_code_out_of_range(chars, code, lo + 1, mid, hi);
    } else {
        lemma_find_code_all_above(chars, code, lo, hi, mid);
    }
}

/// A buffer of `n` zero bytes.
pub fn zero_buffer(n: usize) -> (r: Vec<u8>)
    ensures
        r@ == Seq::new(n as nat, |i: int| 0u8),
{
    let mut v: Vec<u8> = Vec::new();
    let mut i: usize = 0;
    while i < n
        invariant
            0 <= i <= n,
            v@ =~= Seq::new(i as nat, |k: int| 0u8),
        decreases n - i,
    {
        v.push(0);
        i = i + 1;
    }
    proof {
        assert(v@ =~= Seq::new(n as nat, |i: int| 0u8));
    }
    v
}

/// One glyph pixel written into the RGBA atlas buffer: opaque white with
/// the coverage value as alpha.
pub open spec fn put_pixel_spec(img: Seq<u8>, aw: int, px: int, py: int, a: u8) -> Seq<u8> {
    let base = (py * aw + px) * 4;
    img.update(base, 255u8).update(base + 1, 255u8).update(base + 2, 255u8).update(base + 3, a)
}

/// The atlas buffer after the first `n` pixels of a glyph bitmap, taken
/// in scanline order, have been written at offset `(x, y)`.
pub open spec fn blit_upto(img: Seq<u8>, aw: int, x: int, y: int, g: GlyphModel, n: int) -> Seq<
    u8,
>
    decreases n,
{
    if n <= 0 {
        img
    } else {
        let k = n - 1;
        put_pixel_spec(
            blit_upto(img, aw, x, y, g, k),
            aw,
            x + (k % g.width),
            y + (k / g.width),
            g.bitmap[k],
        )
    }
}

/// The atlas buffer after a whole glyph bitmap has been written at offset
/// `(x, y)`: each bounding-box pixel becomes opaque white with the
/// glyph's coverage as alpha; every other byte is untouched.
pub open spec fn blit_spec(img: Seq<u8>, aw: int, x: int, y: int, g: GlyphModel) -> Seq<u8> {
    blit_upto(img, aw, x, y, g, g.width * g.height)
}

/// Write a rasterized glyph into the shared RGBA atlas buffer at pixel
/// offset `(x, y)`: color opaque white, alpha = coverage.
pub fn draw_glyph_to_atlas(
    image: &mut Vec<u8>,
    atlas_width: u32,
    atlas_height: u32,
    x: u32,
    y: u32,
    glyph: &RasterGlyph,
)
    requires
        old(image)@.len() == atlas_width as int * atlas_height as int * 4,
        glyph.wf(),
        0 < glyph.width,
        0 < glyph.height,
        x + glyph.width <= atlas_width,
        y + glyph.height <= atlas_height,
    ensures
        final(image)@ == blit_spec(old(image)@, atlas_width as int, x as int, y as int, glyph@),
        final(image)@.len() == old(image)@.len(),
{
    let n = glyph.bitmap.len();
    proof {
        assert(n == glyph@.width * glyph@.height);
    }
    let mut k: usize = 0;
    while k < n
        invariant
            0 <= k <= n,
            n == glyph@.width * glyph@.height,
            glyph.wf(),
            0 < glyph.width,
            0 < glyph.height,
            x + glyph.width <= atlas_width,
            y + glyph.height <= atlas_height,
            old(image)@.len() == atlas_width as int * atlas_height as int * 4,
            image@ == blit_upto(
                old(image)@,
                atlas_width as int,
                x as int,
                y as int,
                glyph@,
                k as int,
            ),
            image@.len() == old(image)@.len(),
        decreases n - k,
    {
        let gw = glyph.width as u64;
        let gx = ((k as u64) % gw) as u32;
        let gy = ((k as u64) / gw) as u32;
        proof {
            assert((k as u64) / gw < glyph.height) by (nonlinear_arith)
                requires
                    0 < gw,
                    gw == glyph.width,
                    (k as int) < glyph.width as int * glyph.height as int,
            ;
            assert((k as u64) % gw < gw) by (nonlinear_arith)
                requires
                    0 < gw,
            ;
        }
        let px = x as u64 + gx as u64;
        let py = y as u64 + gy as u64;
        let imglen = image.len();
        proof {
            assert((py as int) * (atlas_width as int) + (px as int) < (atlas_width as int) * (
            atlas_height as int)) by (nonlinear_arith)
                requires
                    px < atlas_width,
                    py < atlas_height,
                    0 < atlas_width,
            ;
            assert(((py as int) * (atlas_width as int) + (px as int)) * 4 + 3 < imglen);
        }
        let base = ((py * atlas_width as u64) + px) * 4;
        let a = glyph.bitmap[k];
        image.set(base as usize, 255);
        image.set(base as usize + 1, 255);
        image.set(base as usize + 2, 255);
        image.set(base as usize + 3, a);
        proof {
            assert((k as u64) as int % (gw as int) == (k as int) % (glyph@.width));
            assert((k as u64) as int / (gw as int) == (k as int) / (glyph@.width));
            assert(image@ =~= blit_upto(
                old(image)@,
                atlas_width as int,
                x as int,
                y as int,
                glyph@,
                k as int + 1,
            ));
        }
        k = k + 1;
    }
}

/// Whether a character belongs to the atlas character set: every
/// printable ASCII code point in ASCII mode; every Basic Multilingual
/// Plane code point with a defined glyph in Unicode mode.
pub open spec fn is_candidate<G: GlyphSource>(src: &G, ft: FontType, c: char) -> bool {
    let n = c as u32;
    if ft == FontType::Ascii {
        32 <= n && n < 127
    } else {
        n <= 0xFFFF && src.has_glyph_spec(c)
    }
}

/// A Unicode scalar value: any code point outside the surrogate range.
pub open spec fn valid_scalar(u: u32) -> bool {
    u < 0xD800 || (0xE000 <= u && u <= 0x10FFFF)
}

/// `cs` enumerates the atlas character set, in ascending code-point
/// order, exactly once each. At most one sequence satisfies this.
pub open spec fn is_candidate_seq<G: GlyphSource>(src: &G, ft: FontType, cs: Seq<char>) -> bool {
    &&& forall|i: int, j: int|
        0 <= i < j < cs.len() ==> ((#[trigger] cs[i]) as u32) < ((#[trigger] cs[j]) as u32)
    &&& forall|i: int| 0 <= i < cs.len() ==> is_candidate(src, ft, #[trigger] cs[i])
    &&& forall|u: u32|
        valid_scalar(u) && is_candidate(src, ft, u as char) ==> exists|i: int|
            0 <= i < cs.len() && ((#[trigger] cs[i]) as u32) == u
}

/// The estimated total row width of the character set: the sum of glyph
/// width plus padding over every glyph with a nonzero bounding box.
pub open spec fn total_width_spec<G: GlyphSource>(src: &G, cs: Seq<char>, pad: int) -> int
    decreases cs.len(),
{
    if cs.len() == 0 {
        0
    } else {
        let g = src.glyph_spec(cs.last());
        total_width_spec(src, cs.drop_last(), pad) + if g.width == 0 || g.height == 0 {
            0
        } else {
            g.width + pad
        }
    }
}

/// The tallest padded glyph of the character set; 0 if every glyph is
/// degenerate.
pub open spec fn max_height_spec<G: GlyphSource>(src: &G, cs: Seq<char>, pad: int) -> int
    decreases cs.len(),
{
    if cs.len() == 0 {
        0
    } else {
        let g = src.glyph_spec(cs.last());
        let rest = max_height_spec(src, cs.drop_last(), pad);
        let own: int = if g.width == 0 || g.height == 0 {
            0
        } else {
            g.height + pad
        };
        if own > rest {
            own
        } else {
            rest
        }
    }
}

/// The atlas width for a total row width: the smallest power of two
/// whose square covers the total, clamped to [256, 8192].
pub open spec fn atlas_width_for(total: int) -> int {
    if total <= 256 * 256 {
        256
    } else if total <= 512 * 512 {
        512
    } else if total <= 1024 * 1024 {
        1024
    } else if total <= 2048 * 2048 {
        2048
    } else if total <= 4096 * 4096 {
        4096
    } else {
        8192
    }
}

/// The smallest legal atlas side of at least `need` pixels, clamped to
/// [256, 8192].
pub open spec fn atlas_dim_at_least(need: int) -> int {
    if need <= 256 {
        256
    } else if need <= 512 {
        512
    } else if need <= 1024 {
        1024
    } else if need <= 2048 {
        2048
    } else if need <= 4096 {
        4096
    } else {
        8192
    }
}

/// The atlas height: rows of the tallest padded glyph, as many as the
/// total row width spills over the chosen atlas width, rounded up to the
/// next legal side.
pub open spec fn atlas_height_for(total: int, width: int, maxh: int) -> int {
    let rows = (total + width - 1) / width;
    atlas_dim_at_least(rows * maxh)
}

/// Pick both atlas sides from the measured character set.
fn compute_dims(total: u64, maxh: u64) -> (r: (u32, u32))
    requires
        total <= 0x2000000000000,
        maxh <= 0x200000000,
        maxh == 0 <==> total == 0,
    ensures
        r.0 == atlas_width_for(total as int),
        r.1 == atlas_height_for(total as int, r.0 as int, maxh as int),
        is_atlas_dim(r.0 as int),
        is_atlas_dim(r.1 as int),
{
    let width: u32 = if total <= 256 * 256 {
        256
    } else if total <= 512 * 512 {
        512
    } else if total <= 1024 * 1024 {
        1024
    } else if total <= 2048 * 2048 {
        2048
    } else if total <= 4096 * 4096 {
        4096
    } else {
        8192
    };
    let rows = (total + width as u64 - 1) / width as u64;
    let height: u32 = if maxh == 0 {
        256
    } else if rows >= 8192 {
        proof {
            assert(rows as int * maxh as int >= 8192) by (nonlinear_arith)
                requires
                    rows >= 8192,
                    maxh >= 1,
            ;
        }
        8192
    } else if maxh > 4096 {
        proof {
            assert(rows >= 1) by (nonlinear_arith)
                requires
                    rows == ((total as int) + (width as int) - 1) / (width as int),
                    total >= 1,
                    1 <= width,
            ;
            assert(rows as int * maxh as int > 4096) by (nonlinear_arith)
                requires
                    rows >= 1,
                    maxh > 4096,
            ;
        }
        8192
    } else {
        proof {
            assert(rows as int * maxh as int <= 0x2000u64 * 0x1000u64) by (nonlinear_arith)
                requires
                    rows < 8192,
                    maxh <= 4096,
            ;
        }
        let need = rows * maxh;
        if need <= 256 {
            256
        } else if need <= 512 {
            512
        } else if need <= 1024 {
            1024
        } else if need <= 2048 {
            2048
        } else if need <= 4096 {
            4096
        } else {
            8192
        }
    };
    (width, height)
}

/// The candidates with code points below `n`, in ascending order.
pub open spec fn candidates_below<G: GlyphSource>(src: &G, ft: FontType, n: int) -> Seq<char>
    decreases n,
{
    if n <= 0 {
        Seq::empty()
    } else {
        let prev = candidates_below(src, ft, n - 1);
        let code = (n - 1) as u32;
        if valid_scalar(code) && is_candidate(src, ft, code as char) {
            prev.push(code as char)
        } else {
            prev
        }
    }
}

/// The atlas character set, enumerated in ascending code-point order:
/// every candidate lies below the Basic Multilingual Plane's end, so
/// this is the whole set.
pub open spec fn candidates_of<G: GlyphSource>(src: &G, ft: FontType) -> Seq<char> {
    candidates_below(src, ft, 0x10000)
}

/// A code-point range without candidates contributes nothing to the
/// enumeration.
pub proof fn lemma_candidates_below_stable<G: GlyphSource>(src: &G, ft: FontType, n: int, m: int)
    requires
        0 <= n <= m <= 0x100000000,
        forall|u: u32|
            n <= u < m && valid_scalar(u) ==> !is_candidate(src, ft, #[trigger] (u as char)),
    ensures
        candidates_below(src, ft, m) == candidates_below(src, ft, n),
    decreases m - n,
{
    if n < m {
        lemma_candidates_below_stable(src, ft, n, m - 1);
        assert(!(valid_scalar((m - 1) as u32) && is_candidate(src, ft, ((m - 1) as u32) as char)));
    }
}

/// Enumerate the atlas character set in ascending code-point order.
fn collect_candidates<G: GlyphSource>(source: &G, font_type: &FontType) -> (r: Vec<char>)
    ensures
        is_candidate_seq(source, *font_type, r@),
        r@ == candidates_of(source, *font_type),
        r@.len() <= 0x10000,
{
    let mut cands: Vec<char> = Vec::new();
    let lo: u32 = if let FontType::Ascii = font_type {
        32
    } else {
        0
    };
    let hi: u32 = if let FontType::Ascii = font_type {
        127
    } else {
        0x10000
    };
    proof {
        if *font_type is Ascii {
            lemma_candidates_below_stable(source, *font_type, 0, 32);
        }
        assert(candidates_below(source, *font_type, 0) =~= Seq::<char>::empty());
        assert(cands@ =~= candidates_below(source, *font_type, lo as int));
    }
    let mut code: u32 = lo;
    while code < hi
        invariant
            lo <= code <= hi,
            lo == (if *font_type is Ascii { 32int } else { 0int }),
            hi == (if *font_type is Ascii { 127int } else { 0x10000int }),
            cands@.len() <= code - lo,
            cands@ == candidates_below(source, *font_type, code as int),
            forall|i: int, j: int|
                0 <= i < j < cands@.len() ==> ((#[trigger] cands@[i]) as u32) < ((
                #[trigger] cands@[j]) as u32),
            forall|i: int| 0 <= i < cands@.len() ==> ((#[trigger] cands@[i]) as u32) < code,
            forall|i: int|
                0 <= i < cands@.len() ==> is_candidate(source, *font_type, #[trigger] cands@[i]),
            forall|u: u32|
                u < code && valid_scalar(u) && is_candidate(source, *font_type, u as char)
                    ==> exists|i: int| 0 <= i < cands@.len() && ((#[trigger] cands@[i]) as u32) == u,
        decreases hi - code,
    {
        let ghost prev = cands@;
        let mut pushed: Option<char> = None;
        if let Some(c) = char::from_u32(code) {
            let take = if let FontType::Ascii = font_type {
                true
            } else {
                source.has_glyph(c)
            };
            if take {
                cands.push(c);
                pushed = Some(c);
            }
        }
        proof {
            if pushed is Some {
                assert(cands@ == prev.push(pushed->0));
                assert(cands@[prev.len() as int] == pushed->0);
            }
            if valid_scalar(code) && is_candidate(source, *font_type, code as char) {
                assert(pushed is Some && pushed->0 == ((code as char)));
                assert(cands@ == candidates_below(source, *font_type, code + 1));
            } else {
                assert(pushed is Some ==> is_candidate(source, *font_type, pushed->0));
                assert(pushed is None);
                assert(cands@ == candidates_below(source, *font_type, code + 1));
            }
            assert forall|u: u32|
                u < code + 1 && valid_scalar(u) && is_candidate(source, *font_type, u as char)
                    implies exists|i: int|
                    0 <= i < cands@.len() && ((#[trigger] cands@[i]) as u32) == u by {
                if u < code {
                    let i = choose|i: int| 0 <= i < prev.len() && ((prev[i]) as u32) == u;
                    assert(cands@[i] == prev[i]);
                    assert(0 <= i < cands@.len() && ((cands@[i]) as u32) == u);
                } else {
                    assert(u == code);
                    assert(pushed is Some);
                    let i = prev.len() as int;
                    assert(((cands@[i]) as u32) == u);
                }
            }
        }
        code = code + 1;
    }
    proof {
        if *font_type is Ascii {
            lemma_candidates_below_stable(source, *font_type, 127, 0x10000);
        }
    }
    cands
}

/// Rasterize every candidate once and measure the character set: the
/// total padded row width and the tallest padded glyph.
fn measure_glyphs<G: GlyphSource>(source: &G, cands: &Vec<char>, padding: u32) -> (r: (
    Vec<RasterGlyph>,
    u64,
    u64,
))
    requires
        cands@.len() <= 0x10000,
    ensures
        r.0@.len() == cands@.len(),
        forall|i: int|
            0 <= i < cands@.len() ==> (#[trigger] r.0@[i])@ == source.glyph_spec(cands@[i])
                && r.0@[i].wf(),
        r.1 == total_width_spec(source, cands@, padding as int),
        r.2 == max_height_spec(source, cands@, padding as int),
        r.1 <= 0x2000000000000,
        r.2 <= 0x200000000,
        r.2 == 0 <==> r.1 == 0,
{
    let n = cands.len();
    let mut glyphs: Vec<RasterGlyph> = Vec::new();
    let mut total: u64 = 0;
    let mut maxh: u64 = 0;
    let mut i: usize = 0;
    proof {
        assert(cands@.take(0) =~= Seq::<char>::empty());
    }
    while i < n
        invariant
            0 <= i <= n,
            n == cands@.len(),
            n <= 0x10000,
            glyphs@.len() == i,
            forall|j: int|
                0 <= j < i ==> (#[trigger] glyphs@[j])@ == source.glyph_spec(cands@[j])
                    && glyphs@[j].wf(),
            total == total_width_spec(source, cands@.take(i as int), padding as int),
            maxh == max_height_spec(source, cands@.take(i as int), padding as int),
            total <= i * 0x200000000,
            maxh <= 0x200000000,
            maxh == 0 <==> total == 0,
        decreases n - i,
    {
        let g = source.rasterize(cands[i]);
        proof {
            assert(cands@.take(i + 1).drop_last() =~= cands@.take(i as int));
            assert(cands@.take(i + 1).last() == cands@[i as int]);
        }
        if g.width > 0 && g.height > 0 {
            total = total + (g.width as u64 + padding as u64);
            let h = g.height as u64 + padding as u64;
            if h > maxh {
                maxh = h;
            }
        }
        glyphs.push(g);
        i = i + 1;
    }
    proof {
        assert(cands@.take(n as int) =~= cands@);
    }
    (glyphs, total, maxh)
}

/// The metrics table row agrees with the rasterized glyph: the advance
/// and bearings are the glyph's, and the region has the glyph's bounding
/// box, or none for a zero-area glyph.
pub open spec fn info_matches(g: GlyphModel, info: CharInfo) -> bool {
    &&& info.xadvance as int == g.advance
    &&& info.xoffset as int == g.bearing_x
    &&& info.yoffset as int == g.bearing_y
    &&& if g.width == 0 || g.height == 0 {
        info.width == 0 && info.height == 0
    } else {
        info.width as int == g.width && info.height as int == g.height
    }
}

/// The padded rectangle a table entry occupies in the atlas.
pub open spec fn entry_prect(e: CharEntry, pad: int) -> PRect {
    PRect {
        x: e.info.x as int,
        y: e.info.y as int,
        w: e.info.width + pad,
        h: e.info.height + pad,
    }
}

/// Packing safety over the baked table: no two placed regions, padding
/// included, overlap.
pub open spec fn entries_disjoint(chars: Seq<CharEntry>, pad: int) -> bool {
    forall|i: int, j: int|
        0 <= i < j < chars.len() && !(#[trigger] chars[i]).info.is_degenerate() && !(
        #[trigger] chars[j]).info.is_degenerate() ==> rects_disjoint(
            entry_prect(chars[i], pad),
            entry_prect(chars[j], pad),
        )
}

/// A mid-bake state: the packer, the metrics rows recorded so far, and
/// the atlas image written so far.
pub struct BakeRun {
    pub packer: PackerModel,
    pub entries: Seq<CharEntry>,
    pub image: Seq<u8>,
}

/// The state a bake starts from: a fresh packer over the chosen sides,
/// no rows, and a zeroed image buffer.
pub open spec fn bake_init(aw: int, ah: int, pad: int) -> BakeRun {
    BakeRun {
        packer: PackerModel {
            width: aw,
            height: ah,
            padding: pad,
            cursor_x: 0,
            cursor_y: 0,
            shelf_height: 0,
            placed: Seq::empty(),
        },
        entries: Seq::empty(),
        image: Seq::new((aw * ah * 4) as nat, |i: int| 0u8),
    }
}

/// The metrics row recorded for a zero-area glyph: the advance and
/// bearing alone, no region.
pub open spec fn bake_degenerate_entry(g: GlyphModel, code: u32) -> CharEntry {
    CharEntry {
        code,
        info: CharInfo {
            x: 0,
            y: 0,
            width: 0,
            height: 0,
            xoffset: g.bearing_x as i32,
            yoffset: g.bearing_y as i32,
            xadvance: g.advance as u32,
        },
    }
}

/// The metrics row recorded for a glyph placed at `(x, y)`.
pub open spec fn bake_entry(g: GlyphModel, code: u32, x: int, y: int) -> CharEntry {
    CharEntry {
        code,
        info: CharInfo {
            x: x as u32,
            y: y as u32,
            width: g.width as u32,
            height: g.height as u32,
            xoffset: g.bearing_x as i32,
            yoffset: g.bearing_y as i32,
            xadvance: g.advance as u32,
        },
    }
}

/// The whole packing pass, one candidate at a time, in order: a
/// zero-area glyph is recorded with its advance and no region; a glyph
/// the packer accepts is placed by the shelf step, written into the
/// image, and recorded; a glyph the full atlas has no room for is
/// skipped. This is a function of the source, the sides and the
/// candidates alone, so two bakes of identical inputs yield identical
/// tables and pixel-identical images.
pub open spec fn bake_run<G: GlyphSource>(
    src: &G,
    aw: int,
    cs: Seq<char>,
    init: BakeRun,
) -> BakeRun
    decreases cs.len(),
{
    if cs.len() == 0 {
        init
    } else {
        let prev = bake_run(src, aw, cs.drop_last(), init);
        let c = cs.last();
        let g = src.glyph_spec(c);
        if g.width == 0 || g.height == 0 {
            BakeRun {
                packer: prev.packer,
                entries: prev.entries.push(bake_degenerate_entry(g, c as u32)),
                image: prev.image,
            }
        } else if prev.packer.accepts(g.width, g.height) {
            let (px, py) = prev.packer.place_at(g.width, g.height);
            BakeRun {
                packer: prev.packer.step(g.width, g.height),
                entries: prev.entries.push(bake_entry(g, c as u32, px, py)),
                image: blit_spec(prev.image, aw, px, py, g),
            }
        } else {
            prev
        }
    }
}

/// The whole contract of baking: the atlas is structurally sound,
/// carries the bake parameters and the source's size and line height,
/// its placed regions never overlap, and its table, dimensions and
/// pixels are exactly what packing the (unique) candidate enumeration
/// produces: sides from the measured totals, and rows and pixels from
/// the shelf-packing pass `bake_run`, one candidate at a time in order.
pub open spec fn baked_from<G: GlyphSource>(
    source: &G,
    font_type: FontType,
    padding: u32,
    r: FontAtlas,
) -> bool {
    &&& r.wf()
    &&& r.font_type == font_type
    &&& r.padding == padding
    &&& r.font_size == source.font_size_spec()
    &&& r.line_height == source.line_height_spec()
    &&& entries_disjoint(r.chars@, padding as int)
    &&& ({
        let cs = candidates_of(source, font_type);
        {
            &&& is_candidate_seq(source, font_type, cs)
            &&& r.width as int == atlas_width_for(total_width_spec(source, cs, padding as int))
            &&& r.height as int == atlas_height_for(
                total_width_spec(source, cs, padding as int),
                r.width as int,
                max_height_spec(source, cs, padding as int),
            )
            &&& forall|k: int|
                0 <= k < r.chars@.len() ==> exists|i: int|
                    0 <= i < cs.len() && (((#[trigger] cs[i]) as u32) == (
                    #[trigger] r.chars@[k]).code) && info_matches(
                        source.glyph_spec(cs[i]),
                        r.chars@[k].info,
                    )
            &&& forall|i: int|
                0 <= i < cs.len() && ((#[trigger] source.glyph_spec(cs[i])).width == 0
                    || source.glyph_spec(cs[i]).height == 0) ==> exists|k: int|
                    0 <= k < r.chars@.len() && ((#[trigger] r.chars@[k]).code) == (cs[i] as u32)
            &&& ({
                let run = bake_run(
                    source,
                    r.width as int,
                    cs,
                    bake_init(r.width as int, r.height as int, padding as int),
                );
                r.chars@ == run.entries && r.image@ == run.image
            })
        }
    })
}

/// Inter-glyph padding used when none is configured.
pub const DEFAULT_PADDING: u32 = 10;

/// Pixel size used when none is configured.
pub const DEFAULT_FONT_SIZE: u32 = 16;

impl FontAtlas {
    /// The file-format version this library writes and accepts.
    pub const CURRENT_VERSION: u32 = 1;

    /// Bake one full atlas for the declared character set: enumerate the
    /// candidates, rasterize each once, size the atlas from the measured
    /// total, then row-pack the glyphs left to right into a shared RGBA
    /// buffer (opaque white, alpha = coverage), recording each placed
    /// character's metrics. A glyph the full atlas has no room for is
    /// omitted, never an error; a zero-area glyph is recorded with its
    /// advance and no region.
    pub fn bake_font_atlas<G: GlyphSource>(source: &G, font_type: FontType, padding: u32) -> (r:
        FontAtlas)
        ensures
            baked_from(source, font_type, padding, r),
    {
        let cands = collect_candidates(source, &font_type);
        let measured = measure_glyphs(source, &cands, padding);
        let glyphs = measured.0;
        let dims = compute_dims(measured.1, measured.2);
        let atlas_width = dims.0;
        let atlas_height = dims.1;
        proof {
            assert((atlas_width as int) * (atlas_height as int) <= 8192 * 8192)
                by (nonlinear_arith)
                requires
                    atlas_width <= 8192,
                    atlas_height <= 8192,
            ;
        }
        let buf_len = (atlas_width as u64) * (atlas_height as u64) * 4;
        let mut image = zero_buffer(buf_len as usize);
        let mut packer = ShelfPacker::new(atlas_width, atlas_height, padding);
        let mut chars: Vec<CharEntry> = Vec::new();
        let ghost init = bake_init(atlas_width as int, atlas_height as int, padding as int);
        proof {
            assert(cands@.take(0) =~= Seq::<char>::empty());
            assert(packer@.placed =~= init.packer.placed);
            assert(packer@ == init.packer);
            assert(image@ =~= init.image);
            assert(chars@ =~= Seq::<CharEntry>::empty());
        }
        let n = cands.len();
        let mut i: usize = 0;
        while i < n
            invariant
                0 <= i <= n,
                n == cands@.len(),
                glyphs@.len() == n,
                init == bake_init(atlas_width as int, atlas_height as int, padding as int),
                packer@ == bake_run(source, atlas_width as int, cands@.take(i as int), init).packer,
                chars@ == bake_run(source, atlas_width as int, cands@.take(i as int), init).entries,
                image@ == bake_run(source, atlas_width as int, cands@.take(i as int), init).image,
                forall|j: int|
                    0 <= j < n ==> (#[trigger] glyphs@[j])@ == source.glyph_spec(cands@[j])
                        && glyphs@[j].wf(),
                forall|p: int, q: int|
                    0 <= p < q < n ==> ((#[trigger] cands@[p]) as u32) < ((
                    #[trigger] cands@[q]) as u32),
                packer.wf(),
                packer@.width == atlas_width as int,
                packer@.height == atlas_height as int,
                packer@.padding == padding as int,
                is_atlas_dim(atlas_width as int),
                is_atlas_dim(atlas_height as int),
                image@.len() == atlas_width as int * atlas_height as int * 4,
                entries_sorted(chars@),
                entries_in_bounds(chars@, atlas_width as int, atlas_height as int),
                entries_disjoint(chars@, padding as int),
                forall|k: int|
                    0 <= k < chars@.len() ==> exists|j: int|
                        0 <= j < i && (((#[trigger] cands@[j]) as u32) == (
                        #[trigger] chars@[k]).code) && info_matches(
                            source.glyph_spec(cands@[j]),
                            chars@[k].info,
                        ),
                forall|k: int|
                    0 <= k < chars@.len() && !(#[trigger] chars@[k]).info.is_degenerate()
                        ==> packer@.placed.contains(entry_prect(chars@[k], padding as int)),
                forall|j: int|
                    0 <= j < i && ((#[trigger] source.glyph_spec(cands@[j])).width == 0
                        || source.glyph_spec(cands@[j]).height == 0) ==> exists|k: int|
                        0 <= k < chars@.len() && ((#[trigger] chars@[k]).code) == (
                        cands@[j] as u32),
            decreases n - i,
        {
            let g = &glyphs[i];
            let code = cands[i] as u32;
            let ghost prev_chars = chars@;
            let ghost prev_placed = packer@.placed;
            let ghost aw = atlas_width as int;
            let ghost run_prev = bake_run(source, aw, cands@.take(i as int), init);
            let ghost run_next = bake_run(source, aw, cands@.take(i + 1), init);
            proof {
                assert(cands@.take(i + 1).drop_last() =~= cands@.take(i as int));
                assert(cands@.take(i + 1).last() == cands@[i as int]);
                assert(g@ == source.glyph_spec(cands@[i as int]));
                assert forall|k: int| 0 <= k < prev_chars.len() implies ((
                #[trigger] prev_chars[k]).code) < code by {
                    let j = choose|j: int|
                        0 <= j < i && ((cands@[j]) as u32) == prev_chars[k].code && info_matches(
                            source.glyph_spec(cands@[j]),
                            prev_chars[k].info,
                        );
                    assert(((cands@[j]) as u32) < ((cands@[i as int]) as u32));
                }
            }
            if g.width == 0 || g.height == 0 {
                let entry = CharEntry {
                    code,
                    info: CharInfo::new(0, 0, 0, 0, g.bearing_x, g.bearing_y, g.advance),
                };
                chars.push(entry);
                proof {
                    assert(chars@ == prev_chars.push(entry));
                    assert(chars@[prev_chars.len() as int] == entry);
                    assert(entry == bake_degenerate_entry(
                        source.glyph_spec(cands@[i as int]),
                        code,
                    ));
                    assert(run_next.entries == run_prev.entries.push(entry));
                    assert(chars@ == run_next.entries);
                    assert(packer@ == run_next.packer);
                    assert(image@ == run_next.image);
                    assert forall|k: int|
                        0 <= k < chars@.len() && !(#[trigger] chars@[k]).info.is_degenerate()
                            implies packer@.placed.contains(
                        entry_prect(chars@[k], padding as int),
                    ) by {
                        assert(chars@[k] == prev_chars[k]);
                    }
                    assert forall|j: int|
                        0 <= j < i + 1 && ((#[trigger] source.glyph_spec(cands@[j])).width == 0
                            || source.glyph_spec(cands@[j]).height == 0) implies exists|k: int|
                        0 <= k < chars@.len() && ((#[trigger] chars@[k]).code) == (
                        cands@[j] as u32) by {
                        if j < i {
                            let k = choose|k: int|
                                0 <= k < prev_chars.len() && ((#[trigger] prev_chars[k]).code)
                                    == (cands@[j] as u32);
                            assert(chars@[k] == prev_chars[k]);
                            assert(((chars@[k]).code) == (cands@[j] as u32));
                        } else {
                            assert(((chars@[prev_chars.len() as int]).code) == (
                            cands@[j] as u32));
                        }
                    }
                    assert forall|k: int|
                        0 <= k < chars@.len() implies exists|j: int|
                        0 <= j < i + 1 && (((#[trigger] cands@[j]) as u32) == (
                        #[trigger] chars@[k]).code) && info_matches(
                            source.glyph_spec(cands@[j]),
                            chars@[k].info,
                        ) by {
                        if k < prev_chars.len() {
                            assert(chars@[k] == prev_chars[k]);
                            let j = choose|j: int|
                                0 <= j < i && (((#[trigger] cands@[j]) as u32)
                                    == prev_chars[k].code) && info_matches(
                                    source.glyph_spec(cands@[j]),
                                    prev_chars[k].info,
                                );
                            assert(0 <= j < i + 1 && ((cands@[j] as u32) == chars@[k].code)
                                && info_matches(source.glyph_spec(cands@[j]), chars@[k].info));
                        } else {
                            assert(((cands@[i as int] as u32) == chars@[k].code)
                                && info_matches(
                                source.glyph_spec(cands@[i as int]),
                                chars@[k].info,
                            ));
                        }
                    }
                }
            } else {
                let placed = packer.insert(g.width, g.height);
                if let Some(p) = placed {
                    draw_glyph_to_atlas(&mut image, atlas_width, atlas_height, p.x, p.y, g);
                    let entry = CharEntry {
                        code,
                        info: CharInfo::new(
                            p.x,
                            p.y,
                            g.width,
                            g.height,
                            g.bearing_x,
                            g.bearing_y,
                            g.advance,
                        ),
                    };
                    chars.push(entry);
                    proof {
                        let pad = padding as int;
                        let newrect = entry_prect(entry, pad);
                        assert(chars@ == prev_chars.push(entry));
                        assert(chars@[prev_chars.len() as int] == entry);
                        assert(packer@.placed == prev_placed.push(newrect));
                        assert(packer@.placed[prev_placed.len() as int] == newrect);
                        let gm = source.glyph_spec(cands@[i as int]);
                        assert(run_prev.packer.accepts(gm.width, gm.height));
                        assert(p.x as int == run_prev.packer.place_at(gm.width, gm.height).0);
                        assert(p.y as int == run_prev.packer.place_at(gm.width, gm.height).1);
                        assert(entry == bake_entry(gm, code, p.x as int, p.y as int));
                        assert(run_next.packer == run_prev.packer.step(gm.width, gm.height));
                        assert(run_next.entries == run_prev.entries.push(entry));
                        assert(run_next.image == blit_spec(
                            run_prev.image,
                            aw,
                            p.x as int,
                            p.y as int,
                            gm,
                        ));
                        assert(packer@ == run_next.packer);
                        assert(chars@ == run_next.entries);
                        assert(image@ == run_next.image);
                        assert forall|k: int|
                            0 <= k < chars@.len() && !(#[trigger] chars@[k]).info.is_degenerate()
                                implies packer@.placed.contains(entry_prect(chars@[k], pad)) by {
                            if k < prev_chars.len() {
                                assert(chars@[k] == prev_chars[k]);
                                let m = choose|m: int|
                                    0 <= m < prev_placed.len() && prev_placed[m] == entry_prect(
                                        prev_chars[k],
                                        pad,
                                    );
                                assert(packer@.placed[m] == entry_prect(chars@[k], pad));
                            } else {
                                assert(packer@.placed[prev_placed.len() as int] == entry_prect(
                                    chars@[k],
                                    pad,
                                ));
                            }
                        }
                        assert forall|k1: int, k2: int|
                            0 <= k1 < k2 < chars@.len() && !(
                            #[trigger] chars@[k1]).info.is_degenerate() && !(
                            #[trigger] chars@[k2]).info.is_degenerate() implies rects_disjoint(
                            entry_prect(chars@[k1], pad),
                            entry_prect(chars@[k2], pad),
                        ) by {
                            if k2 == prev_chars.len() {
                                assert(chars@[k1] == prev_chars[k1]);
                                let m = choose|m: int|
                                    0 <= m < prev_placed.len() && prev_placed[m] == entry_prect(
                                        prev_chars[k1],
                                        pad,
                                    );
                                assert(packer@.placed[m] == entry_prect(chars@[k1], pad));
                                assert(packer@.placed[prev_placed.len() as int] == entry_prect(
                                    chars@[k2],
                                    pad,
                                ));
                                assert(rects_disjoint(
                                    packer@.placed[m],
                                    packer@.placed[prev_placed.len() as int],
                                ));
                            } else {
                                assert(chars@[k1] == prev_chars[k1]);
                                assert(chars@[k2] == prev_chars[k2]);
                            }
                        }
                        assert forall|j: int|
                            0 <= j < i + 1 && ((#[trigger] source.glyph_spec(cands@[j])).width
                                == 0 || source.glyph_spec(cands@[j]).height == 0) implies exists|
                            k: int,
                        |
                            0 <= k < chars@.len() && ((#[trigger] chars@[k]).code) == (
                            cands@[j] as u32) by {
                            if j < i {
                                let k = choose|k: int|
                                    0 <= k < prev_chars.len() && ((
                                    #[trigger] prev_chars[k]).code) == (cands@[j] as u32);
                                assert(chars@[k] == prev_chars[k]);
                                assert(((chars@[k]).code) == (cands@[j] as u32));
                            }
                        }
                        assert forall|k: int|
                            0 <= k < chars@.len() implies exists|j: int|
                            0 <= j < i + 1 && (((#[trigger] cands@[j]) as u32) == (
                            #[trigger] chars@[k]).code) && info_matches(
                                source.glyph_spec(cands@[j]),
                                chars@[k].info,
                            ) by {
                            if k < prev_chars.len() {
                                assert(chars@[k] == prev_chars[k]);
                                let j = choose|j: int|
                                    0 <= j < i && (((#[trigger] cands@[j]) as u32)
                                        == prev_chars[k].code) && info_matches(
                                        source.glyph_spec(cands@[j]),
                                        prev_chars[k].info,
                                    );
                                assert(0 <= j < i + 1 && ((cands@[j] as u32) == chars@[k].code)
                                    && info_matches(
                                    source.glyph_spec(cands@[j]),
                                    chars@[k].info,
                                ));
                            } else {
                                assert(((cands@[i as int] as u32) == chars@[k].code)
                                    && info_matches(
                                    source.glyph_spec(cands@[i as int]),
                                    chars@[k].info,
                                ));
                            }
                        }
                    }
                } else {
                    proof {
                        let gm = source.glyph_spec(cands@[i as int]);
                        assert(!run_prev.packer.accepts(gm.width, gm.height));
                        assert(run_next == run_prev);
                    }
                }
            }
            i = i + 1;
        }
        let font_size = source.font_size();
        let line_height = source.line_height();
        let r = FontAtlas {
            image,
            chars,
            font_size,
            padding,
            width: atlas_width,
            height: atlas_height,
            line_height,
            font_type,
        };
        proof {
            let cs = cands@;
            assert(is_candidate_seq(source, font_type, cs) && r.width as int == atlas_width_for(
                total_width_spec(source, cs, padding as int),
            ) && r.height as int == atlas_height_for(
                total_width_spec(source, cs, padding as int),
                r.width as int,
                max_height_spec(source, cs, padding as int),
            ));
            assert(cands@.take(n as int) =~= cs);
            let run = bake_run(source, r.width as int, cs, bake_init(
                r.width as int,
                r.height as int,
                padding as int,
            ));
            assert(r.chars@ == run.entries && r.image@ == run.image);
        }
        r
    }

    /// Parse a font program and bake an atlas from it, with defaults for
    /// any parameter not given: size 16, padding 10, the Unicode
    /// character set. An unknown character-set name or an unparsable font
    /// program fails fast; no partially built atlas is ever returned.
    pub fn new(
        font_data: &[u8],
        font_size: Option<u32>,
        font_type: Option<String>,
        padding: Option<u32>,
    ) -> (r: Result<FontAtlas, FontError>)
        ensures
            r is Ok ==> r->Ok_0.wf() && crate::raster::font_ok(font_data@),
            r is Ok ==> r->Ok_0.font_size == (if font_size is Some {
                font_size->0
            } else {
                DEFAULT_FONT_SIZE
            }),
            r is Ok ==> r->Ok_0.padding == (if padding is Some {
                padding->0
            } else {
                DEFAULT_PADDING
            }),
            font_type is None ==> (r is Ok ==> r->Ok_0.font_type == FontType::Unicode),
            font_type matches Some(s) ==> (r is Ok ==> ((is_ascii_name(s@)
                && r->Ok_0.font_type == FontType::Ascii) || (is_unicode_name(s@)
                && r->Ok_0.font_type == FontType::Unicode))),
            r is Err ==> r->Err_0 is InvalidFontType || r->Err_0 is FontLoadError,
            font_type matches Some(s) ==> (!is_ascii_name(s@) && !is_unicode_name(s@) ==> r
                is Err && r->Err_0 is InvalidFontType),
            font_type is None ==> (r is Ok <==> crate::raster::font_ok(font_data@)),
            font_type is None ==> (r is Err ==> r->Err_0 is FontLoadError),
            font_type matches Some(s) ==> ((is_ascii_name(s@) || is_unicode_name(s@)) ==> (r
                is Ok <==> crate::raster::font_ok(font_data@))),
            font_type matches Some(s) ==> ((is_ascii_name(s@) || is_unicode_name(s@)) ==> (r
                is Err ==> r->Err_0 is FontLoadError)),
            r is Err && r->Err_0 is FontLoadError ==> !crate::raster::font_ok(font_data@),
            r is Ok ==> exists|rast: FontRasterizer|
                {
                    let size = if font_size is Some {
                        font_size->0
                    } else {
                        DEFAULT_FONT_SIZE
                    };
                    &&& (#[trigger] rast.data_spec()) == font_data@
                    &&& rast.font_size_spec() == size
                    &&& rast.line_height_spec() == crate::raster::line_height_of(
                        crate::raster::vmetrics_of(font_data@, size),
                    )
                    &&& baked_from(
                        &rast,
                        r->Ok_0.font_type,
                        if padding is Some {
                            padding->0
                        } else {
                            DEFAULT_PADDING
                        },
                        r->Ok_0,
                    )
                },
    {
        let ft = match font_type {
            Some(s) => {
                match FontType::from_str(s.as_str()) {
                    Ok(t) => t,
                    Err(e) => {
                        return Err(e);
                    },
                }
            },
            None => FontType::Unicode,
        };
        let size = match font_size {
            Some(s) => s,
            None => DEFAULT_FONT_SIZE,
        };
        let pad = match padding {
            Some(p) => p,
            None => DEFAULT_PADDING,
        };
        let rasterizer = match FontRasterizer::new(vstd::slice::slice_to_vec(font_data), size) {
            Ok(r) => r,
            Err(e) => {
                return Err(e);
            },
        };
        let ghost witness = rasterizer;
        let atlas = Self::bake_font_atlas(&rasterizer, ft, pad);
        proof {
            assert(witness.data_spec() == font_data@);
            assert(baked_from(&witness, ft, pad, atlas));
        }
        Ok(atlas)
    }
}

/// In a sorted table, a range whose entries all sit above `code` holds no
/// entry for it.
proof fn lemma_find_code_all_above(chars: Seq<CharEntry>, code: u32, lo: int, hi: int, mid: int)
    requires
        entries_sorted(chars),
        0 <= mid <= lo <= hi <= chars.len(),
        mid < chars.len(),
        chars[mid].code > code,
        lo >= mid,
    ensures
        find_code_in(chars, code, lo, hi) is None,
    decreases hi - lo,
{
    if lo < hi {
        if lo > mid {
            assert(chars[mid].code < chars[lo].code);
        }
        lemma_find_code_all_above(chars, code, lo + 1, hi, mid);
    }
}

} // verus!

