//! Greedy append-only shelf packer over a fixed region.
//!
//! Rectangles are placed left to right along the current shelf; when a
//! rectangle no longer fits, a new shelf is opened below. Space is never
//! reclaimed. Every placement, padding included, stays inside the region
//! and is disjoint from every earlier placement.

use vstd::prelude::*;

verus! {

/// A padded rectangle already placed in the atlas, in mathematical
/// coordinates: it occupies `[x, x + w) x [y, y + h)` where `w` and `h`
/// include the inter-glyph padding.
pub struct PRect {
    pub x: int,
    pub y: int,
    pub w: int,
    pub h: int,
}

/// The abstract state of a packer: region size, padding, the cursor of the
/// current shelf, and every padded rectangle placed so far.
pub struct PackerModel {
    pub width: int,
    pub height: int,
    pub padding: int,
    pub cursor_x: int,
    pub cursor_y: int,
    pub shelf_height: int,
    pub placed: Seq<PRect>,
}

/// Two padded rectangles occupy disjoint areas.
pub open spec fn rects_disjoint(a: PRect, b: PRect) -> bool {
    a.x + a.w <= b.x || b.x + b.w <= a.x || a.y + a.h <= b.y || b.y + b.h <= a.y
}

/// A padded rectangle lies inside the `w x h` region.
pub open spec fn rect_in_bounds(r: PRect, w: int, h: int) -> bool {
    0 <= r.x && 0 <= r.y && 0 < r.w && 0 < r.h && r.x + r.w <= w && r.y + r.h <= h
}

impl PackerModel {
    /// Packing safety: every placement, padding included, lies inside the
    /// region, and no two placements overlap; the cursor sits at or after
    /// every placement.
    pub open spec fn wf(self) -> bool {
        &&& 0 < self.width
        &&& 0 < self.height
        &&& 0 <= self.padding
        &&& 0 <= self.cursor_x <= self.width
        &&& 0 <= self.cursor_y
        &&& 0 <= self.shelf_height
        &&& self.cursor_y + self.shelf_height <= self.height
        &&& forall|i: int|
            0 <= i < self.placed.len() ==> rect_in_bounds(
                #[trigger] self.placed[i],
                self.width,
                self.height,
            )
        &&& forall|i: int, j: int|
            0 <= i < j < self.placed.len() ==> rects_disjoint(
                #[trigger] self.placed[i],
                #[trigger] self.placed[j],
            )
        &&& forall|i: int|
            0 <= i < self.placed.len() ==> {
                let r = #[trigger] self.placed[i];
                r.y + r.h <= self.cursor_y || (r.y == self.cursor_y && r.x + r.w <= self.cursor_x
                    && r.h <= self.shelf_height)
            }
    }

    /// A `w x h` rectangle fits on the current shelf.
    pub open spec fn fits_current(self, w: int, h: int) -> bool {
        self.cursor_x + w + self.padding <= self.width && self.cursor_y + h + self.padding
            <= self.height
    }

    /// A `w x h` rectangle fits at the start of a fresh shelf opened below
    /// the current one.
    pub open spec fn fits_new_shelf(self, w: int, h: int) -> bool {
        w + self.padding <= self.width && self.cursor_y + self.shelf_height + h + self.padding
            <= self.height
    }

    /// The packer accepts a `w x h` rectangle exactly when it fits on the
    /// current shelf or on a fresh one.
    pub open spec fn accepts(self, w: int, h: int) -> bool {
        self.fits_current(w, h) || self.fits_new_shelf(w, h)
    }

    /// Where a `w x h` rectangle is placed, if it is.
    pub open spec fn place_at(self, w: int, h: int) -> (int, int) {
        if self.fits_current(w, h) {
            (self.cursor_x, self.cursor_y)
        } else {
            (0, self.cursor_y + self.shelf_height)
        }
    }

    /// The state after an insertion: the deterministic shelf-packing step.
    pub open spec fn step(self, w: int, h: int) -> PackerModel {
        if self.fits_current(w, h) {
            PackerModel {
                cursor_x: self.cursor_x + w + self.padding,
                shelf_height: if h + self.padding > self.shelf_height {
                    h + self.padding
                } else {
                    self.shelf_height
                },
                placed: self.placed.push(
                    PRect {
                        x: self.cursor_x,
                        y: self.cursor_y,
                        w: w + self.padding,
                        h: h + self.padding,
                    },
                ),
                ..self
            }
        } else if self.fits_new_shelf(w, h) {
            PackerModel {
                cursor_x: w + self.padding,
                cursor_y: self.cursor_y + self.shelf_height,
                shelf_height: h + self.padding,
                placed: self.placed.push(
                    PRect {
                        x: 0,
                        y: self.cursor_y + self.shelf_height,
                        w: w + self.padding,
                        h: h + self.padding,
                    },
                ),
                ..self
            }
        } else {
            self
        }
    }
}

/// The shelf-packing step keeps the packer well formed: after any sequence
/// of insertions every placement, padding included, is inside the region
/// and disjoint from every other.
pub proof fn lemma_step_preserves_wf(m: PackerModel, w: int, h: int)
    requires
        m.wf(),
        0 < w,
        0 < h,
    ensures
        m.step(w, h).wf(),
        m.accepts(w, h) ==> m.step(w, h).placed == m.placed.push(
            PRect {
                x: m.place_at(w, h).0,
                y: m.place_at(w, h).1,
                w: w + m.padding,
                h: h + m.padding,
            },
        ),
        !m.accepts(w, h) ==> m.step(w, h) == m,
{
    let s = m.step(w, h);
    if m.fits_current(w, h) {
        let r = PRect { x: m.cursor_x, y: m.cursor_y, w: w + m.padding, h: h + m.padding };
        assert forall|i: int| 0 <= i < m.placed.len() implies rects_disjoint(
            #[trigger] m.placed[i],
            r,
        ) by {}
        assert(s.wf());
    } else if m.fits_new_shelf(w, h) {
        let r = PRect {
            x: 0,
            y: m.cursor_y + m.shelf_height,
            w: w + m.padding,
            h: h + m.padding,
        };
        assert forall|i: int| 0 <= i < m.placed.len() implies rects_disjoint(
            #[trigger] m.placed[i],
            r,
        ) by {}
        assert(s.wf());
    }
}

/// The pixel position assigned to an inserted rectangle.
#[derive(Clone, Copy, Debug, PartialEq, Eq, Structural)]
pub struct Placement {
    pub x: u32,
    pub y: u32,
}

/// Greedy append-only shelf packer over a fixed `width x height` region
/// with a fixed padding. It hands out positions for rectangles and records,
/// in ghost state, every padded rectangle placed so far.
pub struct ShelfPacker {
    width: u32,
    height: u32,
    padding: u32,
    cursor_x: u32,
    cursor_y: u32,
    shelf_height: u32,
    placed: Ghost<Seq<PRect>>,
}

impl ShelfPacker {
    /// The abstract state of this packer.
    pub closed spec fn view(self) -> PackerModel {
        PackerModel {
            width: self.width as int,
            height: self.height as int,
            padding: self.padding as int,
            cursor_x: self.cursor_x as int,
            cursor_y: self.cursor_y as int,
            shelf_height: self.shelf_height as int,
            placed: self.placed@,
        }
    }

    /// The packer is well formed; established at construction and kept by
    /// every insertion.
    pub open spec fn wf(self) -> bool {
        self.view().wf()
    }

    /// A fresh packer over an empty `width x height` region.
    pub fn new(width: u32, height: u32, padding: u32) -> (r: Self)
        requires
            0 < width,
            0 < height,
        ensures
            r.wf(),
            r.view().width == width,
            r.view().height == height,
            r.view().padding == padding,
            r.view().cursor_x == 0,
            r.view().cursor_y == 0,
            r.view().shelf_height == 0,
            r.view().placed == Seq::<PRect>::empty(),
    {
        ShelfPacker {
            width,
            height,
            padding,
            cursor_x: 0,
            cursor_y: 0,
            shelf_height: 0,
            placed: Ghost(Seq::empty()),
        }
    }

    /// The region width this packer was made with.
    pub fn width(&self) -> (r: u32)
        ensures
            r == self.view().width,
    {
        self.width
    }

    /// The region height this packer was made with.
    pub fn height(&self) -> (r: u32)
        ensures
            r == self.view().height,
    {
        self.height
    }

    /// The inter-glyph padding this packer was made with.
    pub fn padding(&self) -> (r: u32)
        ensures
            r == self.view().padding,
    {
        self.padding
    }

    /// The x coordinate of the next placement on the current shelf.
    pub fn cursor_x(&self) -> (r: u32)
        ensures
            r == self.view().cursor_x,
    {
        self.cursor_x
    }

    /// The y coordinate of the current shelf.
    pub fn cursor_y(&self) -> (r: u32)
        ensures
            r == self.view().cursor_y,
    {
        self.cursor_y
    }

    /// Place a `w x h` rectangle: on the current shelf if it fits there,
    /// else at the start of a fresh shelf below, else refuse with `None`
    /// ("no room") and leave the state exactly as it was. A refusal never
    /// disturbs earlier placements.
    pub fn insert(&mut self, w: u32, h: u32) -> (r: Option<Placement>)
        requires
            old(self).wf(),
            0 < w,
            0 < h,
        ensures
            final(self).wf(),
            final(self)@ == old(self)@.step(w as int, h as int),
            r is Some <==> old(self)@.accepts(w as int, h as int),
            r is Some ==> {
                let p = r->Some_0;
                &&& (p.x as int, p.y as int) == old(self)@.place_at(w as int, h as int)
                &&& final(self)@.placed == old(self)@.placed.push(
                    PRect {
                        x: p.x as int,
                        y: p.y as int,
                        w: w + old(self)@.padding,
                        h: h + old(self)@.padding,
                    },
                )
                &&& p.x + w + old(self)@.padding <= old(self)@.width
                &&& p.y + h + old(self)@.padding <= old(self)@.height
            },
            r is None ==> final(self)@ == old(self)@,
    {
        proof {
            lemma_step_preserves_wf(self@, w as int, h as int);
        }
        let pad = self.padding;
        let w64 = w as u64;
        let h64 = h as u64;
        let pad64 = pad as u64;
        if self.cursor_x as u64 + w64 + pad64 <= self.width as u64 && self.cursor_y as u64 + h64
            + pad64 <= self.height as u64 {
            let p = Placement { x: self.cursor_x, y: self.cursor_y };
            self.cursor_x = self.cursor_x + w + pad;
            if h + pad > self.shelf_height {
                self.shelf_height = h + pad;
            }
            proof {
                self.placed@ = self.placed@.push(
                    PRect { x: p.x as int, y: p.y as int, w: w + pad, h: h + pad },
                );
            }
            Some(p)
        } else if w64 + pad64 <= self.width as u64 && self.cursor_y as u64 + self.shelf_height
            as u64 + h64 + pad64 <= self.height as u64 {
            let p = Placement { x: 0, y: self.cursor_y + self.shelf_height };
            self.cursor_y = self.cursor_y + self.shelf_height;
            self.shelf_height = h + pad;
            self.cursor_x = w + pad;
            proof {
                self.placed@ = self.placed@.push(
                    PRect { x: p.x as int, y: p.y as int, w: w + pad, h: h + pad },
                );
            }
            Some(p)
        } else {
            None
        }
    }
}

} // verus!
