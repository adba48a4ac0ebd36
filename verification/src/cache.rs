//! The runtime glyph cache: rasterize, pack, upload and memoize on
//! demand, for an open character set.
//!
//! A cache is bound to exactly one GPU-resident texture of fixed,
//! declared size. On a miss the glyph is rasterized and packed; the
//! caller is handed the sub-region upload to perform. Entries are never
//! evicted: exhaustion degrades to missing glyphs ("no room"), never a
//! failed frame, and never disturbs earlier entries. Requesting a cached
//! character returns the identical entry with no re-upload.

use vstd::prelude::*;

use std::collections::HashMap;

use crate::atlas::is_atlas_dim;
use crate::error::FontError;
use crate::packer::PRect;
use crate::packer::ShelfPacker;
use crate::packer::rects_disjoint;
use crate::raster::GlyphSource;

verus! {

broadcast use vstd::std_specs::hash::group_hash_axioms;

/// A glyph's sub-region of the cache texture, in pixels. Dividing by the
/// texture's sides gives the normalized UV rectangle.
#[derive(Clone, Copy, Debug, PartialEq, Eq, Structural)]
pub struct UvRect {
    pub x: u32,
    pub y: u32,
    pub width: u32,
    pub height: u32,
}

/// One cached glyph: its texture sub-region (none for a zero-area
/// glyph), bearing and advance.
#[derive(Clone, Copy, Debug, PartialEq, Eq, Structural)]
pub struct GlyphEntry {
    pub uv: Option<UvRect>,
    pub bearing_x: i32,
    pub bearing_y: i32,
    pub advance: u32,
}

/// A texture sub-region update the caller must perform: `bytes` holds
/// `width * height` coverage bytes for the region at `(x, y)`.
#[derive(Clone, Debug)]
pub struct Upload {
    pub x: u32,
    pub y: u32,
    pub width: u32,
    pub height: u32,
    pub bytes: Vec<u8>,
}

/// The mathematical model of one texture sub-region update.
pub struct UploadModel {
    pub x: u32,
    pub y: u32,
    pub width: u32,
    pub height: u32,
    pub bytes: Seq<u8>,
}

impl View for Upload {
    type V = UploadModel;

    open spec fn view(&self) -> UploadModel {
        UploadModel {
            x: self.x,
            y: self.y,
            width: self.width,
            height: self.height,
            bytes: self.bytes@,
        }
    }
}

/// The padded texture rectangle an entry's region occupies.
pub open spec fn entry_rect(uv: UvRect, pad: int) -> PRect {
    PRect { x: uv.x as int, y: uv.y as int, w: uv.width + pad, h: uv.height + pad }
}

/// An on-demand glyph cache over one fixed-size texture.
pub struct RuntimeGlyphCache {
    map: HashMap<u32, GlyphEntry>,
    packer: ShelfPacker,
    width: u32,
    height: u32,
    padding: u32,
}

impl RuntimeGlyphCache {
    /// The cached entries, keyed by code point.
    pub closed spec fn entries(self) -> Map<u32, GlyphEntry> {
        self.map@
    }

    /// The texture width this cache was declared with.
    pub closed spec fn width_spec(self) -> u32 {
        self.width
    }

    /// The texture height this cache was declared with.
    pub closed spec fn height_spec(self) -> u32 {
        self.height
    }

    /// The inter-glyph padding this cache was declared with.
    pub closed spec fn padding_spec(self) -> u32 {
        self.padding
    }

    /// The packer's abstract state: the cursor and every placed
    /// rectangle.
    pub closed spec fn packer_model(self) -> crate::packer::PackerModel {
        self.packer@
    }

    /// Cache soundness: the texture sides are legal, the packer is well
    /// formed over them, every cached region is one of the packer's
    /// placements (padding included, inside the texture), and the
    /// regions of distinct entries never overlap.
    pub closed spec fn wf(self) -> bool {
        &&& is_atlas_dim(self.width as int)
        &&& is_atlas_dim(self.height as int)
        &&& self.packer.wf()
        &&& self.packer@.width == self.width as int
        &&& self.packer@.height == self.height as int
        &&& self.packer@.padding == self.padding as int
        &&& forall|k: u32|
            self.map@.contains_key(k) && (#[trigger] self.map@[k]).uv is Some
                ==> self.packer@.placed.contains(entry_rect(self.map@[k].uv->0, self.padding as int))
        &&& forall|k1: u32, k2: u32|
            k1 != k2 && self.map@.contains_key(k1) && self.map@.contains_key(k2) && (
            #[trigger] self.map@[k1]).uv is Some && (#[trigger] self.map@[k2]).uv is Some
                ==> rects_disjoint(
                entry_rect(self.map@[k1].uv->0, self.padding as int),
                entry_rect(self.map@[k2].uv->0, self.padding as int),
            )
    }

    /// A fresh, empty cache over a `width x height` texture. A side that
    /// is not a power of two in [256, 8192] is a hard construction
    /// error: no partially built cache is ever returned.
    pub fn new(width: u32, height: u32, padding: u32) -> (r: Result<RuntimeGlyphCache, FontError>)
        ensures
            r is Ok <==> is_atlas_dim(width as int) && is_atlas_dim(height as int),
            r is Err ==> r->Err_0 is FontLoadError,
            r is Ok ==> {
                let c = r->Ok_0;
                &&& c.wf()
                &&& c.entries() == Map::<u32, GlyphEntry>::empty()
                &&& c.width_spec() == width
                &&& c.height_spec() == height
                &&& c.padding_spec() == padding
                &&& c.packer_model().cursor_x == 0
                &&& c.packer_model().cursor_y == 0
                &&& c.packer_model().placed == Seq::<PRect>::empty()
            },
    {
        let dims_ok = (width == 256 || width == 512 || width == 1024 || width == 2048 || width
            == 4096 || width == 8192) && (height == 256 || height == 512 || height == 1024
            || height == 2048 || height == 4096 || height == 8192);
        if !dims_ok {
            return Err(FontError::FontLoadError("cache texture size must be a power of two in [256, 8192]".to_owned()));
        }
        let map: HashMap<u32, GlyphEntry> = HashMap::new();
        let packer = ShelfPacker::new(width, height, padding);
        Ok(RuntimeGlyphCache { map, packer, width, height, padding })
    }

    /// The stored entry for one character, without rasterizing or
    /// packing anything.
    pub fn lookup(&self, c: char) -> (r: Option<GlyphEntry>)
        ensures
            self.entries().contains_key(c as u32) ==> r == Some(self.entries()[c as u32]),
            !self.entries().contains_key(c as u32) ==> r is None,
    {
        let code = c as u32;
        match self.map.get(&code) {
            Some(e) => Some(*e),
            None => None,
        }
    }

    /// Look up or create the entry for one character. A hit returns the
    /// identical stored entry and uploads nothing. A miss rasterizes the
    /// glyph: a zero-area glyph is cached as an advance-only entry; else
    /// the glyph is packed and the caller receives the sub-region upload
    /// to perform. A full texture yields no entry ("no room") and leaves
    /// every earlier entry and the packer exactly as they were.
    pub fn get_or_insert<G: GlyphSource>(&mut self, source: &G, c: char) -> (r: (
        Option<GlyphEntry>,
        Option<Upload>,
    ))
        requires
            old(self).wf(),
        ensures
            final(self).wf(),
            final(self).width_spec() == old(self).width_spec(),
            final(self).height_spec() == old(self).height_spec(),
            final(self).padding_spec() == old(self).padding_spec(),
            old(self).entries().contains_key(c as u32) ==> {
                &&& *final(self) == *old(self)
                &&& r.0 == Some(old(self).entries()[c as u32])
                &&& r.1 is None
            },
            !old(self).entries().contains_key(c as u32) ==> {
                let g = source.glyph_spec(c);
                if g.width == 0 || g.height == 0 {
                    let e = GlyphEntry {
                        uv: None,
                        bearing_x: g.bearing_x as i32,
                        bearing_y: g.bearing_y as i32,
                        advance: g.advance as u32,
                    };
                    &&& final(self).entries() == old(self).entries().insert(c as u32, e)
                    &&& final(self).packer_model() == old(self).packer_model()
                    &&& r.0 == Some(e)
                    &&& r.1 is None
                } else if old(self).packer_model().accepts(g.width, g.height) {
                    let (px, py) = old(self).packer_model().place_at(g.width, g.height);
                    let e = GlyphEntry {
                        uv: Some(
                            UvRect {
                                x: px as u32,
                                y: py as u32,
                                width: g.width as u32,
                                height: g.height as u32,
                            },
                        ),
                        bearing_x: g.bearing_x as i32,
                        bearing_y: g.bearing_y as i32,
                        advance: g.advance as u32,
                    };
                    &&& final(self).entries() == old(self).entries().insert(c as u32, e)
                    &&& final(self).packer_model() == old(self).packer_model().step(
                        g.width,
                        g.height,
                    )
                    &&& r.0 == Some(e)
                    &&& r.1 matches Some(up) && up.x == px && up.y == py && up.width == g.width
                        && up.height == g.height && up.bytes@ == g.bitmap
                } else {
                    &&& final(self).entries() == old(self).entries()
                    &&& final(self).packer_model() == old(self).packer_model()
                    &&& r.0 is None
                    &&& r.1 is None
                }
            },
    {
        let code = c as u32;
        if let Some(e) = self.map.get(&code) {
            return (Some(*e), None);
        }
        let g = source.rasterize(c);
        if g.width == 0 || g.height == 0 {
            let e = GlyphEntry {
                uv: None,
                bearing_x: g.bearing_x,
                bearing_y: g.bearing_y,
                advance: g.advance,
            };
            let ghost prev = self.map@;
            self.map.insert(code, e);
            proof {
                assert(self.map@ == prev.insert(code, e));
                assert forall|k: u32|
                    self.map@.contains_key(k) && (#[trigger] self.map@[k]).uv is Some
                        implies self.packer@.placed.contains(
                    entry_rect(self.map@[k].uv->0, self.padding as int),
                ) by {
                    if k != code {
                        assert(self.map@[k] == prev[k]);
                    }
                }
            }
            return (Some(e), None);
        }
        let placed = self.packer.insert(g.width, g.height);
        match placed {
            None => (None, None),
            Some(p) => {
                let uv = UvRect { x: p.x, y: p.y, width: g.width, height: g.height };
                let e = GlyphEntry {
                    uv: Some(uv),
                    bearing_x: g.bearing_x,
                    bearing_y: g.bearing_y,
                    advance: g.advance,
                };
                let ghost prev = self.map@;
                let ghost prev_placed = old(self).packer@.placed;
                self.map.insert(code, e);
                proof {
                    let pad = self.padding as int;
                    let newrect = entry_rect(uv, pad);
                    assert(self.map@ == prev.insert(code, e));
                    assert(self.packer@.placed == prev_placed.push(newrect));
                    assert(self.packer@.placed[prev_placed.len() as int] == newrect);
                    assert forall|k: u32|
                        self.map@.contains_key(k) && (#[trigger] self.map@[k]).uv is Some
                            implies self.packer@.placed.contains(
                        entry_rect(self.map@[k].uv->0, pad),
                    ) by {
                        if k == code {
                            assert(self.packer@.placed[prev_placed.len() as int] == entry_rect(
                                self.map@[k].uv->0,
                                pad,
                            ));
                        } else {
                            assert(self.map@[k] == prev[k]);
                            let m = choose|m: int|
                                0 <= m < prev_placed.len() && prev_placed[m] == entry_rect(
                                    prev[k].uv->0,
                                    pad,
                                );
                            assert(self.packer@.placed[m] == entry_rect(self.map@[k].uv->0, pad));
                        }
                    }
                    assert forall|k1: u32, k2: u32|
                        k1 != k2 && self.map@.contains_key(k1) && self.map@.contains_key(k2) && (
                        #[trigger] self.map@[k1]).uv is Some && (#[trigger] self.map@[k2]).uv
                            is Some implies rects_disjoint(
                        entry_rect(self.map@[k1].uv->0, pad),
                        entry_rect(self.map@[k2].uv->0, pad),
                    ) by {
                        if k1 != code && k2 != code {
                            assert(self.map@[k1] == prev[k1]);
                            assert(self.map@[k2] == prev[k2]);
                        } else {
                            let other = if k1 == code {
                                k2
                            } else {
                                k1
                            };
                            assert(self.map@[other] == prev[other]);
                            let m = choose|m: int|
                                0 <= m < prev_placed.len() && prev_placed[m] == entry_rect(
                                    prev[other].uv->0,
                                    pad,
                                );
                            assert(self.packer@.placed[m] == entry_rect(prev[other].uv->0, pad));
                            assert(rects_disjoint(
                                self.packer@.placed[m],
                                self.packer@.placed[prev_placed.len() as int],
                            ));
                        }
                    }
                }
                (
                    Some(e),
                    Some(
                        Upload {
                            x: p.x,
                            y: p.y,
                            width: g.width,
                            height: g.height,
                            bytes: g.bitmap,
                        },
                    ),
                )
            },
        }
    }
}

} // verus!
