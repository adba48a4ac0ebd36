//! Text layout: line breaking, alignment and per-glyph positions.
//!
//! An explicit `'\n'` always starts a new hard line. With a wrap
//! threshold configured, a line ends before the first glyph whose
//! addition would exceed it, provided the line is not empty: a single
//! glyph wider than the threshold occupies its own line alone, never
//! dropped, never split. Horizontal alignment shifts each line's start;
//! vertical alignment places the whole block around the anchor. Trailing
//! letter-spacing is excluded from width computations but not from the
//! live draw cursor.

use vstd::prelude::*;

use crate::style::TextAlignment;
use crate::style::TextStyle;
use crate::style::VerticalAlignment;

verus! {

/// One glyph handed to layout: the character, how far it advances the
/// cursor, and whether it has pixels to draw. A degenerate cache entry
/// (a space) still advances the cursor but emits no draw command.
#[derive(Clone, Copy, Debug, PartialEq, Eq, Structural)]
pub struct LayoutGlyph {
    pub ch: char,
    pub advance: u32,
    pub visible: bool,
}

/// One glyph placed by layout: its character, pixel position, and
/// whether a draw command should be emitted for it.
#[derive(Clone, Copy, Debug, PartialEq, Eq, Structural)]
pub struct PlacedGlyph {
    pub ch: char,
    pub x: i64,
    pub y: i64,
    pub visible: bool,
}

/// One laid-out line: its placed glyphs and its width (trailing
/// letter-spacing excluded).
#[derive(Clone, Debug)]
pub struct LayoutLine {
    pub glyphs: Vec<PlacedGlyph>,
    pub width: i64,
}

/// A laid-out block: the lines with all glyph positions, and the block
/// bounds (padding included) used for backgrounds and vertical
/// alignment.
#[derive(Clone, Debug)]
pub struct TextLayout {
    pub lines: Vec<LayoutLine>,
    pub width: i64,
    pub height: i64,
}

/// The draw cursor after the first `i` glyphs of a line: the sum of
/// their advances plus letter-spacing after each one.
pub open spec fn cursor_at(gs: Seq<LayoutGlyph>, sp: int, i: int) -> int
    decreases i,
{
    if i <= 0 {
        0
    } else {
        cursor_at(gs, sp, i - 1) + gs[i - 1].advance + sp
    }
}

/// A line's width: advances plus letter-spacing between glyphs, the
/// trailing spacing excluded. An empty line has width 0.
pub open spec fn line_width(gs: Seq<LayoutGlyph>, sp: int) -> int {
    if gs.len() == 0 {
        0
    } else {
        cursor_at(gs, sp, gs.len() as int) - sp
    }
}

/// How many glyphs the first soft line takes, having already taken `k`:
/// it extends while the next glyph's addition stays within `maxw`.
pub open spec fn take_line(gs: Seq<LayoutGlyph>, maxw: int, sp: int, k: int) -> int
    decreases gs.len() - k,
{
    if k < 1 || k >= gs.len() {
        k
    } else if line_width(gs.take(k + 1), sp) <= maxw {
        take_line(gs, maxw, sp, k + 1)
    } else {
        k
    }
}

/// The first soft line takes between 1 and all of the glyphs.
pub proof fn lemma_take_line_range(gs: Seq<LayoutGlyph>, maxw: int, sp: int, k: int)
    requires
        1 <= k <= gs.len(),
    ensures
        k <= take_line(gs, maxw, sp, k) <= gs.len(),
    decreases gs.len() - k,
{
    if k < gs.len() && line_width(gs.take(k + 1), sp) <= maxw {
        lemma_take_line_range(gs, maxw, sp, k + 1);
    }
}

/// Soft-wrap one hard line: greedily fill lines left to right; a glyph
/// that would overflow a non-empty line starts the next one.
pub open spec fn wrap_soft(gs: Seq<LayoutGlyph>, maxw: Option<u32>, sp: int) -> Seq<
    Seq<LayoutGlyph>,
>
    decreases gs.len(),
{
    if maxw is None || gs.len() == 0 {
        seq![gs]
    } else {
        let k0 = take_line(gs, maxw->0 as int, sp, 1);
        let k = if k0 < 1 {
            1
        } else {
            k0
        };
        if k >= gs.len() {
            seq![gs]
        } else {
            seq![gs.take(k)] + wrap_soft(gs.skip(k), maxw, sp)
        }
    }
}

/// Split at explicit newlines; the `'\n'` glyphs themselves appear in no
/// line. Text without newlines is a single hard line; every `'\n'`
/// starts a new one.
pub open spec fn split_hard(gs: Seq<LayoutGlyph>) -> Seq<Seq<LayoutGlyph>>
    decreases gs.len(),
{
    if gs.len() == 0 {
        seq![Seq::<LayoutGlyph>::empty()]
    } else {
        let rest = split_hard(gs.drop_last());
        if gs.last().ch == '\n' {
            rest.push(Seq::empty())
        } else {
            rest.update(rest.len() - 1, rest.last().push(gs.last()))
        }
    }
}

/// Soft-wrap every hard line, in order.
pub open spec fn wrap_all(hls: Seq<Seq<LayoutGlyph>>, maxw: Option<u32>, sp: int) -> Seq<
    Seq<LayoutGlyph>,
>
    decreases hls.len(),
{
    if hls.len() == 0 {
        Seq::empty()
    } else {
        wrap_all(hls.drop_last(), maxw, sp) + wrap_soft(hls.last(), maxw, sp)
    }
}

/// The lines a glyph run breaks into under a style: hard breaks at
/// newlines, then greedy soft wrapping.
pub open spec fn broken_lines(gs: Seq<LayoutGlyph>, style: TextStyle) -> Seq<Seq<LayoutGlyph>> {
    wrap_all(split_hard(gs), style.max_width, style.letter_spacing as int)
}

/// The baseline-to-baseline distance in pixels: the font size scaled by
/// the line-height percentage.
pub open spec fn line_px(style: TextStyle) -> int {
    (style.font_size * style.line_height) / 100
}

/// The block height: one line height per line plus vertical padding.
pub open spec fn block_height(nlines: int, style: TextStyle) -> int {
    nlines * line_px(style) + style.padding.top + style.padding.bottom
}

/// The widest line.
pub open spec fn max_line_width(lines: Seq<Seq<LayoutGlyph>>, sp: int) -> int
    decreases lines.len(),
{
    if lines.len() == 0 {
        0
    } else {
        let rest = max_line_width(lines.drop_last(), sp);
        let own = line_width(lines.last(), sp);
        if own > rest {
            own
        } else {
            rest
        }
    }
}

/// Floor of half, for centering: rounds toward negative infinity.
pub open spec fn half_floor(w: int) -> int {
    w / 2
}

/// Where a line starts horizontally: the anchor plus left padding,
/// shifted by 0, half the line width, or the whole line width for
/// left, center and right alignment.
pub open spec fn line_start_x(x: int, style: TextStyle, lw: int) -> int {
    x + style.padding.left + match style.alignment {
        TextAlignment::Left => 0,
        TextAlignment::Center => -half_floor(lw),
        TextAlignment::Right => -lw,
    }
}

/// Where the block's first line starts vertically: the anchor plus top
/// padding, with the whole block kept below, centered on, or above the
/// anchor.
pub open spec fn block_top_y(y: int, style: TextStyle, nlines: int) -> int {
    match style.vertical_alignment {
        VerticalAlignment::Top => y + style.padding.top,
        VerticalAlignment::Middle => y - half_floor(block_height(nlines, style))
            + style.padding.top,
        VerticalAlignment::Bottom => y - block_height(nlines, style) + style.padding.top,
    }
}

/// The whole contract of layout: `r` lays out `gs` under `style` at
/// anchor `(x, y)`: the lines are exactly the broken lines, each line
/// carries its width, each glyph sits at its line's start plus the
/// cursor before it, lines descend one line height at a time from the
/// block top, and the block bounds are the widest line and the line
/// count, padding included.
pub open spec fn layout_matches(
    gs: Seq<LayoutGlyph>,
    style: TextStyle,
    x: int,
    y: int,
    r: TextLayout,
) -> bool {
    let lines = broken_lines(gs, style);
    let sp = style.letter_spacing as int;
    let y0 = block_top_y(y, style, lines.len() as int);
    &&& r.lines@.len() == lines.len()
    &&& forall|j: int|
        0 <= j < lines.len() ==> (#[trigger] r.lines@[j]).glyphs@.len() == lines[j].len()
    &&& forall|j: int|
        0 <= j < lines.len() ==> (#[trigger] r.lines@[j]).width == line_width(lines[j], sp)
    &&& forall|j: int, i: int|
        #![trigger r.lines@[j].glyphs@[i]]
        0 <= j < lines.len() && 0 <= i < lines[j].len() ==> {
            let g = r.lines@[j].glyphs@[i];
            &&& g.ch == lines[j][i].ch
            &&& g.visible == lines[j][i].visible
            &&& g.x == line_start_x(x, style, line_width(lines[j], sp)) + cursor_at(
                lines[j],
                sp,
                i,
            )
            &&& g.y == y0 + j * line_px(style)
        }
    &&& r.width == max_line_width(lines, sp) + style.padding.left + style.padding.right
    &&& r.height == block_height(lines.len() as int, style)
}

/// Bounds on the cursor, from the advances being 32-bit and the spacing
/// a 32-bit offset.
pub proof fn lemma_cursor_at_bound(gs: Seq<LayoutGlyph>, sp: int, i: int)
    requires
        0 <= i <= gs.len(),
        -0x80000000 <= sp <= 0x7fffffff,
    ensures
        -(i * 0x80000000) <= cursor_at(gs, sp, i) <= i * 0x180000000,
    decreases i,
{
    if i > 0 {
        lemma_cursor_at_bound(gs, sp, i - 1);
    }
}

/// Bounds on a line's width.
pub proof fn lemma_line_width_bound(gs: Seq<LayoutGlyph>, sp: int)
    requires
        -0x80000000 <= sp <= 0x7fffffff,
    ensures
        -(gs.len() * 0x80000000) - 0x80000000 <= line_width(gs, sp) <= gs.len() * 0x180000000
            + 0x80000000,
{
    if gs.len() > 0 {
        lemma_cursor_at_bound(gs, sp, gs.len() as int);
    }
}

/// The number of glyphs across a set of lines.
pub open spec fn sum_lens(lines: Seq<Seq<LayoutGlyph>>) -> int
    decreases lines.len(),
{
    if lines.len() == 0 {
        0
    } else {
        sum_lens(lines.drop_last()) + lines.last().len()
    }
}

/// Hard splitting yields at most one line more than there are glyphs,
/// and keeps no more glyphs than it was given; no line outgrows the
/// input.
pub proof fn lemma_split_hard_sizes(gs: Seq<LayoutGlyph>)
    ensures
        1 <= split_hard(gs).len() <= gs.len() + 1,
        sum_lens(split_hard(gs)) <= gs.len(),
        forall|j: int|
            0 <= j < split_hard(gs).len() ==> (#[trigger] split_hard(gs)[j]).len() <= gs.len(),
    decreases gs.len(),
{
    if gs.len() == 0 {
        let whole = split_hard(gs);
        assert(whole == seq![Seq::<LayoutGlyph>::empty()]);
        assert(whole.drop_last() =~= Seq::<Seq<LayoutGlyph>>::empty());
        assert(whole.last() =~= Seq::<LayoutGlyph>::empty());
        assert(sum_lens(Seq::<Seq<LayoutGlyph>>::empty()) == 0);
        assert(sum_lens(whole) == 0);
    } else {
        let prev = gs.drop_last();
        let rest = split_hard(prev);
        let whole = split_hard(gs);
        lemma_split_hard_sizes(prev);
        if gs.last().ch == '\n' {
            assert(whole == rest.push(Seq::empty()));
            assert(sum_lens(whole) == sum_lens(rest)) by {
                assert(whole.drop_last() =~= rest);
                assert(whole.last() =~= Seq::<LayoutGlyph>::empty());
            }
            assert forall|j: int| 0 <= j < whole.len() implies (#[trigger] whole[j]).len()
                <= gs.len() by {
                if j < rest.len() {
                    assert(whole[j] == rest[j]);
                    assert(rest[j].len() <= prev.len());
                }
            }
        } else {
            assert(whole == rest.update(rest.len() - 1, rest.last().push(gs.last())));
            assert(sum_lens(whole) == sum_lens(rest) + 1) by {
                assert(whole.drop_last() =~= rest.drop_last());
                assert(whole.last() == rest.last().push(gs.last()));
            }
            assert forall|j: int| 0 <= j < whole.len() implies (#[trigger] whole[j]).len()
                <= gs.len() by {
                if j < rest.len() - 1 {
                    assert(whole[j] == rest[j]);
                    assert(rest[j].len() <= prev.len());
                } else {
                    assert(whole[j] == rest.last().push(gs.last()));
                    assert(rest.last().len() <= prev.len());
                }
            }
        }
    }
}

/// Soft wrapping yields at most one line more than there are glyphs,
/// and every wrapped line is a piece of the hard line.
pub proof fn lemma_wrap_soft_sizes(gs: Seq<LayoutGlyph>, maxw: Option<u32>, sp: int)
    ensures
        1 <= wrap_soft(gs, maxw, sp).len() <= gs.len() + 1,
        forall|j: int|
            0 <= j < wrap_soft(gs, maxw, sp).len() ==> (#[trigger] wrap_soft(gs, maxw, sp)[j]).len()
                <= gs.len(),
    decreases gs.len(),
{
    if maxw is None || gs.len() == 0 {
    } else {
        let k0 = take_line(gs, maxw->0 as int, sp, 1);
        lemma_take_line_range(gs, maxw->0 as int, sp, 1);
        let k = if k0 < 1 {
            1int
        } else {
            k0
        };
        if k < gs.len() {
            lemma_wrap_soft_sizes(gs.skip(k), maxw, sp);
        }
    }
}

/// Breaking yields at most one line per glyph plus one per hard line.
pub proof fn lemma_wrap_all_sizes(hls: Seq<Seq<LayoutGlyph>>, maxw: Option<u32>, sp: int)
    ensures
        wrap_all(hls, maxw, sp).len() <= sum_lens(hls) + hls.len(),
        forall|j: int|
            0 <= j < wrap_all(hls, maxw, sp).len() ==> exists|h: int|
                0 <= h < hls.len() && (#[trigger] wrap_all(hls, maxw, sp)[j]).len() <= (
                #[trigger] hls[h]).len(),
    decreases hls.len(),
{
    if hls.len() > 0 {
        lemma_wrap_all_sizes(hls.drop_last(), maxw, sp);
        lemma_wrap_soft_sizes(hls.last(), maxw, sp);
        let whole = wrap_all(hls, maxw, sp);
        let front = wrap_all(hls.drop_last(), maxw, sp);
        let back = wrap_soft(hls.last(), maxw, sp);
        assert forall|j: int| 0 <= j < whole.len() implies exists|h: int|
            0 <= h < hls.len() && (#[trigger] whole[j]).len() <= (#[trigger] hls[h]).len() by {
            if j < front.len() {
                let h = choose|h: int|
                    0 <= h < hls.drop_last().len() && (#[trigger] front[j]).len() <= (
                    #[trigger] hls.drop_last()[h]).len();
                assert(hls.drop_last()[h] == hls[h]);
                assert(whole[j] == front[j]);
            } else {
                let h = (hls.len() - 1) as int;
                assert(whole[j] == back[j - front.len()]);
                assert(whole[j].len() <= hls[h].len());
            }
        }
    }
}

/// The cursor reads only the glyphs before it.
pub proof fn lemma_cursor_at_agree(s1: Seq<LayoutGlyph>, s2: Seq<LayoutGlyph>, sp: int, i: int)
    requires
        0 <= i <= s1.len(),
        i <= s2.len(),
        forall|k: int| 0 <= k < i ==> s1[k] == s2[k],
    ensures
        cursor_at(s1, sp, i) == cursor_at(s2, sp, i),
    decreases i,
{
    if i > 0 {
        lemma_cursor_at_agree(s1, s2, sp, i - 1);
    }
}

/// A line one glyph longer is wider by the glyph's advance plus one
/// letter-spacing.
pub proof fn lemma_line_width_step(s: Seq<LayoutGlyph>, sp: int, k: int)
    requires
        1 <= k < s.len(),
    ensures
        line_width(s.take(k + 1), sp) == line_width(s.take(k), sp) + sp + s[k].advance,
{
    lemma_cursor_at_agree(s.take(k + 1), s, sp, k + 1);
    lemma_cursor_at_agree(s.take(k), s, sp, k);
}

/// A one-glyph line is as wide as its glyph's advance.
pub proof fn lemma_line_width_one(s: Seq<LayoutGlyph>, sp: int)
    requires
        s.len() >= 1,
    ensures
        line_width(s.take(1), sp) == s[0].advance,
{
    assert(s.take(1).len() == 1);
    assert(s.take(1)[0] == s[0]);
    assert(cursor_at(s.take(1), sp, 0) == 0);
    assert(cursor_at(s.take(1), sp, 1) == s[0].advance + sp);
}

/// The element views of a vector of glyph vectors.
pub open spec fn views_of(vs: Seq<Vec<LayoutGlyph>>) -> Seq<Seq<LayoutGlyph>> {
    vs.map_values(|v: Vec<LayoutGlyph>| v@)
}

/// The glyphs of `v` from `from` (inclusive) to `to` (exclusive).
fn copy_glyphs(v: &Vec<LayoutGlyph>, from: usize, to: usize) -> (r: Vec<LayoutGlyph>)
    requires
        from <= to <= v@.len(),
    ensures
        r@ == v@.subrange(from as int, to as int),
{
    let mut r: Vec<LayoutGlyph> = Vec::new();
    let mut i: usize = from;
    while i < to
        invariant
            from <= i <= to <= v@.len(),
            r@ =~= v@.subrange(from as int, i as int),
        decreases to - i,
    {
        r.push(v[i]);
        proof {
            assert(r@ =~= v@.subrange(from as int, i + 1));
        }
        i = i + 1;
    }
    r
}

/// Split the glyph run at explicit newlines.
fn split_hard_exec(glyphs: &Vec<LayoutGlyph>) -> (r: Vec<Vec<LayoutGlyph>>)
    ensures
        views_of(r@) == split_hard(glyphs@),
{
    let mut done: Vec<Vec<LayoutGlyph>> = Vec::new();
    let mut cur: Vec<LayoutGlyph> = Vec::new();
    let n = glyphs.len();
    let mut i: usize = 0;
    proof {
        assert(glyphs@.take(0) =~= Seq::<LayoutGlyph>::empty());
        assert(views_of(done@).push(cur@) =~= split_hard(glyphs@.take(0)));
    }
    while i < n
        invariant
            0 <= i <= n,
            n == glyphs@.len(),
            views_of(done@).push(cur@) == split_hard(glyphs@.take(i as int)),
        decreases n - i,
    {
        let ghost prev_done = done@;
        let ghost prev_cur = cur@;
        let g = glyphs[i];
        proof {
            assert(glyphs@.take(i + 1).drop_last() =~= glyphs@.take(i as int));
            assert(glyphs@.take(i + 1).last() == glyphs@[i as int]);
        }
        if g.ch == '\n' {
            done.push(cur);
            cur = Vec::new();
            proof {
                assert(done@.len() == prev_done.len() + 1);
                assert(views_of(done@) =~= views_of(prev_done).push(prev_cur));
                assert(views_of(done@).push(cur@) =~= split_hard(glyphs@.take(i as int)).push(
                    Seq::empty(),
                ));
                assert(views_of(done@).push(cur@) =~= split_hard(glyphs@.take(i + 1)));
            }
        } else {
            cur.push(g);
            proof {
                let rest = split_hard(glyphs@.take(i as int));
                assert(rest == views_of(prev_done).push(prev_cur));
                assert(rest.len() == views_of(prev_done).len() + 1);
                assert(rest.last() == prev_cur);
                assert(split_hard(glyphs@.take(i + 1)) == rest.update(
                    rest.len() - 1,
                    rest.last().push(glyphs@[i as int]),
                ));
                assert(views_of(done@).push(cur@) =~= rest.update(
                    rest.len() - 1,
                    rest.last().push(glyphs@[i as int]),
                ));
            }
        }
        i = i + 1;
    }
    proof {
        assert(glyphs@.take(n as int) =~= glyphs@);
    }
    done.push(cur);
    proof {
        assert(views_of(done@) =~= split_hard(glyphs@));
    }
    done
}

/// Soft-wrap one hard line onto the end of `out`.
fn wrap_line_exec(line: &Vec<LayoutGlyph>, maxw_opt: Option<u32>, sp: i32, out: &mut Vec<
    Vec<LayoutGlyph>,
>)
    requires
        line@.len() <= 0x100000,
    ensures
        views_of(final(out)@) == views_of(old(out)@) + wrap_soft(line@, maxw_opt, sp as int),
{
    let n = line.len();
    let maxw: u32 = match maxw_opt {
        None => {
            let whole = copy_glyphs(line, 0, n);
            proof {
                assert(whole@ =~= line@);
            }
            out.push(whole);
            proof {
                assert(views_of(out@) =~= views_of(old(out)@) + wrap_soft(
                    line@,
                    maxw_opt,
                    sp as int,
                ));
            }
            return ;
        },
        Some(m) => m,
    };
    if n == 0 {
        let empty: Vec<LayoutGlyph> = Vec::new();
        out.push(empty);
        proof {
            assert(line@ =~= Seq::<LayoutGlyph>::empty());
            assert(views_of(out@) =~= views_of(old(out)@) + wrap_soft(line@, maxw_opt, sp as int));
        }
        return ;
    }
    let mut off: usize = 0;
    proof {
        assert(line@.skip(0) =~= line@);
    }
    while off < n
        invariant
            0 <= off <= n,
            n == line@.len(),
            n <= 0x100000,
            maxw_opt == Some(maxw),
            off < n ==> views_of(old(out)@) + wrap_soft(line@, maxw_opt, sp as int) == views_of(
                out@,
            ) + wrap_soft(line@.skip(off as int), maxw_opt, sp as int),
            off == n ==> views_of(out@) == views_of(old(out)@) + wrap_soft(
                line@,
                maxw_opt,
                sp as int,
            ),
        decreases n - off,
    {
        let ghost sub = line@.skip(off as int);
        let mut k: usize = 1;
        let mut w: i64 = line[off].advance as i64;
        proof {
            lemma_line_width_one(sub, sp as int);
            assert(sub[0] == line@[off as int]);
            assert(w as int == line_width(sub.take(1), sp as int));
        }
        while off + k < n
            invariant
                1 <= k,
                off + k <= n,
                0 <= off < n,
                n == line@.len(),
                n <= 0x100000,
                sub == line@.skip(off as int),
                w as int == line_width(sub.take(k as int), sp as int),
                take_line(sub, maxw as int, sp as int, k as int) == take_line(
                    sub,
                    maxw as int,
                    sp as int,
                    1,
                ),
                -0x40000000000000 <= w <= 0x40000000000000,
            ensures
                1 <= k,
                off + k <= n,
                take_line(sub, maxw as int, sp as int, 1) == k as int,
            decreases n - off - k,
        {
            proof {
                assert(sub[k as int] == line@[off + k]);
                lemma_line_width_step(sub, sp as int, k as int);
            }
            let wa = w + sp as i64 + line[off + k].advance as i64;
            if wa > maxw as i64 {
                proof {
                    assert(line_width(sub.take(k as int + 1), sp as int) > maxw);
                    assert(take_line(sub, maxw as int, sp as int, k as int) == k as int);
                }
                break ;
            }
            proof {
                assert(line_width(sub.take(k as int + 1), sp as int) <= maxw);
                assert(take_line(sub, maxw as int, sp as int, k as int) == take_line(
                    sub,
                    maxw as int,
                    sp as int,
                    k as int + 1,
                ));
                lemma_line_width_bound(sub.take(k as int + 1), sp as int);
            }
            w = wa;
            k = k + 1;
        }
        let ghost before = out@;
        let piece = copy_glyphs(line, off, off + k);
        out.push(piece);
        proof {
            let m = maxw as int;
            let spi = sp as int;
            let k0 = take_line(sub, m, spi, 1);
            assert(k0 == k as int);
            assert(views_of(out@) =~= views_of(before).push(piece@));
            if k >= n - off {
                assert(piece@ =~= sub);
                assert(wrap_soft(sub, maxw_opt, spi) == seq![sub]);
                assert(views_of(out@) =~= views_of(before) + seq![sub]);
                assert(views_of(out@) =~= views_of(old(out)@) + wrap_soft(line@, maxw_opt, spi));
            } else {
                assert(piece@ =~= sub.take(k as int));
                assert(wrap_soft(sub, maxw_opt, spi) == seq![sub.take(k as int)] + wrap_soft(
                    sub.skip(k as int),
                    maxw_opt,
                    spi,
                ));
                assert(sub.skip(k as int) =~= line@.skip(off + k));
                assert(views_of(out@) + wrap_soft(line@.skip(off + k), maxw_opt, spi) =~= views_of(
                    old(out)@,
                ) + wrap_soft(line@, maxw_opt, spi));
            }
        }
        off = off + k;
    }
}

/// The lines a run breaks into: never more than a couple per glyph, and
/// none longer than the run.
pub proof fn lemma_broken_lines_sizes(gs: Seq<LayoutGlyph>, style: TextStyle)
    ensures
        broken_lines(gs, style).len() <= 2 * gs.len() + 2,
        forall|j: int|
            0 <= j < broken_lines(gs, style).len() ==> (#[trigger] broken_lines(
                gs,
                style,
            )[j]).len() <= gs.len(),
{
    let hls = split_hard(gs);
    lemma_split_hard_sizes(gs);
    lemma_wrap_all_sizes(hls, style.max_width, style.letter_spacing as int);
    assert forall|j: int| 0 <= j < broken_lines(gs, style).len() implies (#[trigger] broken_lines(
        gs,
        style,
    )[j]).len() <= gs.len() by {
        let h = choose|h: int|
            0 <= h < hls.len() && broken_lines(gs, style)[j].len() <= (#[trigger] hls[h]).len();
        assert(hls[h].len() <= gs.len());
    }
}

} // verus!

verus! {

/// A line's width, trailing letter-spacing excluded.
fn line_width_exec(line: &Vec<LayoutGlyph>, sp: i32) -> (w: i64)
    requires
        line@.len() <= 0x200000,
    ensures
        w as int == line_width(line@, sp as int),
        -0x40000000000000 <= w <= 0x40000000000000,
{
    let n = line.len();
    if n == 0 {
        return 0;
    }
    let mut w: i64 = line[0].advance as i64;
    proof {
        lemma_line_width_one(line@, sp as int);
        assert(line@.take(1) =~= line@.take(1));
    }
    let mut k: usize = 1;
    while k < n
        invariant
            1 <= k <= n,
            n == line@.len(),
            n <= 0x200000,
            w as int == line_width(line@.take(k as int), sp as int),
            -0x40000000000000 <= w <= 0x40000000000000,
        decreases n - k,
    {
        proof {
            lemma_line_width_step(line@, sp as int, k as int);
            lemma_line_width_bound(line@.take(k as int + 1), sp as int);
        }
        w = w + sp as i64 + line[k].advance as i64;
        k = k + 1;
    }
    proof {
        assert(line@.take(n as int) =~= line@);
    }
    w
}

/// Half of `w`, rounded toward negative infinity.
pub fn half_floor_exec(w: i64) -> (r: i64)
    requires
        -0x100000000000000 <= w <= 0x100000000000000,
    ensures
        r as int == half_floor(w as int),
{
    if w >= 0 {
        w / 2
    } else {
        let m = -w;
        let q = (m + 1) / 2;
        proof {
            assert(-((m + 1) / 2) == (w as int) / 2) by (nonlinear_arith)
                requires
                    m == -(w as int),
                    0 < m <= 0x100000000000000,
            ;
        }
        -q
    }
}

/// Lay out a glyph run under a style at anchor `(x, y)`: break it into
/// lines, compute each line's width, and place every glyph. The same run
/// and style always yield the same line breaks and positions.
pub fn layout_text(glyphs: &Vec<LayoutGlyph>, style: &TextStyle, x: i32, y: i32) -> (r: TextLayout)
    requires
        glyphs@.len() <= 0x100000,
        style.font_size <= 0xffff,
        style.line_height <= 0xffff,
    ensures
        layout_matches(glyphs@, *style, x as int, y as int, r),
{
    let sp = style.letter_spacing;
    let hards = split_hard_exec(glyphs);
    proof {
        lemma_split_hard_sizes(glyphs@);
        lemma_broken_lines_sizes(glyphs@, *style);
    }
    let mut wrapped: Vec<Vec<LayoutGlyph>> = Vec::new();
    let hn = hards.len();
    let mut h: usize = 0;
    proof {
        assert(views_of(hards@).take(0) =~= Seq::<Seq<LayoutGlyph>>::empty());
        assert(views_of(wrapped@) =~= wrap_all(
            views_of(hards@).take(0),
            style.max_width,
            sp as int,
        ));
    }
    while h < hn
        invariant
            0 <= h <= hn,
            hn == hards@.len(),
            views_of(hards@) == split_hard(glyphs@),
            glyphs@.len() <= 0x100000,
            views_of(wrapped@) == wrap_all(views_of(hards@).take(h as int), style.max_width, sp as int),
        decreases hn - h,
    {
        proof {
            lemma_split_hard_sizes(glyphs@);
            assert(views_of(hards@)[h as int] == hards@[h as int]@);
            assert(hards@[h as int]@.len() <= glyphs@.len());
        }
        wrap_line_exec(&hards[h], style.max_width, sp, &mut wrapped);
        proof {
            assert(views_of(hards@).take(h + 1).drop_last() =~= views_of(hards@).take(h as int));
            assert(views_of(hards@).take(h + 1).last() == hards@[h as int]@);
            assert(views_of(wrapped@) =~= wrap_all(
                views_of(hards@).take(h + 1),
                style.max_width,
                sp as int,
            ));
        }
        h = h + 1;
    }
    proof {
        assert(views_of(hards@).take(hn as int) =~= views_of(hards@));
    }
    let ghost lines = broken_lines(glyphs@, *style);
    proof {
        assert(views_of(wrapped@) == lines);
    }
    let nlines = wrapped.len();
    proof {
        assert(nlines <= 2 * glyphs@.len() + 2);
    }
    proof {
        assert((style.font_size as int) * (style.line_height as int) <= 0xffff * 0xffff)
            by (nonlinear_arith)
            requires
                style.font_size <= 0xffff,
                style.line_height <= 0xffff,
        ;
        assert(0 <= (style.font_size as int) * (style.line_height as int)) by (nonlinear_arith)
            requires
                0 <= style.font_size,
                0 <= style.line_height,
        ;
    }
    let lh: i64 = ((style.font_size as i64) * (style.line_height as i64)) / 100;
    proof {
        assert(lh as int == line_px(*style));
        assert(0 <= lh < 0x100000000);
    }
    let mut widths: Vec<i64> = Vec::new();
    let mut max_w: i64 = 0;
    let mut j: usize = 0;
    proof {
        assert(lines.take(0) =~= Seq::<Seq<LayoutGlyph>>::empty());
    }
    while j < nlines
        invariant
            0 <= j <= nlines,
            nlines == wrapped@.len(),
            views_of(wrapped@) == lines,
            glyphs@.len() <= 0x100000,
            forall|t: int| 0 <= t < lines.len() ==> (#[trigger] lines[t]).len() <= glyphs@.len(),
            widths@.len() == j,
            forall|t: int|
                0 <= t < j ==> (#[trigger] widths@[t]) as int == line_width(lines[t], sp as int),
            forall|t: int|
                0 <= t < j ==> -0x40000000000000 <= #[trigger] widths@[t] <= 0x40000000000000,
            max_w as int == max_line_width(lines.take(j as int), sp as int),
            0 <= max_w <= 0x40000000000000,
        decreases nlines - j,
    {
        proof {
            assert(views_of(wrapped@)[j as int] == wrapped@[j as int]@);
        }
        let wj = line_width_exec(&wrapped[j], sp);
        widths.push(wj);
        if wj > max_w {
            max_w = wj;
        }
        proof {
            assert(lines.take(j + 1).drop_last() =~= lines.take(j as int));
            assert(lines.take(j + 1).last() == lines[j as int]);
        }
        j = j + 1;
    }
    proof {
        assert(lines.take(nlines as int) =~= lines);
    }
    proof {
        assert((nlines as int) * (lh as int) <= 0x400000 * 0x100000000) by (nonlinear_arith)
            requires
                0 <= nlines <= 0x400000,
                0 <= lh < 0x100000000,
        ;
        assert(0 <= (nlines as int) * (lh as int)) by (nonlinear_arith)
            requires
                0 <= nlines,
                0 <= lh,
        ;
    }
    let bh: i64 = (nlines as i64) * lh + style.padding.top as i64 + style.padding.bottom as i64;
    proof {
        assert(bh as int == block_height(nlines as int, *style));
        assert(0 <= bh <= 0x100000000000000);
    }
    let y0: i64 = match style.vertical_alignment {
        VerticalAlignment::Top => y as i64 + style.padding.top as i64,
        VerticalAlignment::Middle => y as i64 - half_floor_exec(bh) + style.padding.top as i64,
        VerticalAlignment::Bottom => y as i64 - bh + style.padding.top as i64,
    };
    proof {
        assert(y0 as int == block_top_y(y as int, *style, nlines as int));
    }
    let mut lines_out: Vec<LayoutLine> = Vec::new();
    let mut j: usize = 0;
    while j < nlines
        invariant
            0 <= j <= nlines,
            nlines == wrapped@.len(),
            views_of(wrapped@) == lines,
            glyphs@.len() <= 0x100000,
            forall|t: int| 0 <= t < lines.len() ==> (#[trigger] lines[t]).len() <= glyphs@.len(),
            widths@.len() == nlines,
            forall|t: int|
                0 <= t < nlines ==> (#[trigger] widths@[t]) as int == line_width(
                    lines[t],
                    sp as int,
                ),
            forall|t: int|
                0 <= t < nlines ==> -0x40000000000000 <= #[trigger] widths@[t]
                    <= 0x40000000000000,
            0 <= lh < 0x100000000,
            -0x200000000000000 <= y0 <= 0x200000000000000,
            nlines <= 0x400000,
            lines_out@.len() == j,
            forall|t: int|
                0 <= t < j ==> (#[trigger] lines_out@[t]).glyphs@.len() == lines[t].len(),
            forall|t: int|
                0 <= t < j ==> (#[trigger] lines_out@[t]).width as int == line_width(
                    lines[t],
                    sp as int,
                ),
            forall|t: int, i: int|
                #![trigger lines_out@[t].glyphs@[i]]
                0 <= t < j && 0 <= i < lines[t].len() ==> {
                    let g = lines_out@[t].glyphs@[i];
                    &&& g.ch == lines[t][i].ch
                    &&& g.visible == lines[t][i].visible
                    &&& g.x == line_start_x(x as int, *style, line_width(lines[t], sp as int))
                        + cursor_at(lines[t], sp as int, i)
                    &&& g.y == y0 + t * lh
                },
        decreases nlines - j,
    {
        proof {
            assert(views_of(wrapped@)[j as int] == wrapped@[j as int]@);
        }
        let lw = widths[j];
        let shift: i64 = match style.alignment {
            TextAlignment::Left => 0,
            TextAlignment::Center => -half_floor_exec(lw),
            TextAlignment::Right => -lw,
        };
        let sx: i64 = x as i64 + style.padding.left as i64 + shift;
        proof {
            assert(sx as int == line_start_x(x as int, *style, line_width(
                lines[j as int],
                sp as int,
            )));
        }
        proof {
            assert((j as int) * (lh as int) <= 0x400000 * 0x100000000) by (nonlinear_arith)
                requires
                    0 <= j < 0x400000,
                    0 <= lh < 0x100000000,
            ;
            assert(0 <= (j as int) * (lh as int)) by (nonlinear_arith)
                requires
                    0 <= j,
                    0 <= lh,
            ;
        }
        let gy: i64 = y0 + (j as i64) * lh;
        proof {
            assert(gy as int == y0 + (j as int) * (lh as int));
        }
        let ln = wrapped[j].len();
        let mut placed: Vec<PlacedGlyph> = Vec::new();
        let mut cursor: i64 = 0;
        let mut i: usize = 0;
        while i < ln
            invariant
                0 <= i <= ln,
                0 <= j < nlines,
                nlines == wrapped@.len(),
                views_of(wrapped@) == lines,
                ln == lines[j as int].len(),
                ln <= 0x100000,
                cursor as int == cursor_at(lines[j as int], sp as int, i as int),
                -0x200000000000000 <= sx <= 0x200000000000000,
                -0x400000000000000 <= gy <= 0x400000000000000,
                placed@.len() == i,
                forall|t: int|
                    #![trigger placed@[t]]
                    0 <= t < i ==> {
                        let g = placed@[t];
                        &&& g.ch == lines[j as int][t].ch
                        &&& g.visible == lines[j as int][t].visible
                        &&& g.x == sx + cursor_at(lines[j as int], sp as int, t)
                        &&& g.y == gy
                    },
            decreases ln - i,
        {
            proof {
                lemma_cursor_at_bound(lines[j as int], sp as int, i as int);
                lemma_cursor_at_bound(lines[j as int], sp as int, i + 1);
                assert(wrapped@[j as int]@[i as int] == lines[j as int][i as int]);
            }
            let g = wrapped[j][i];
            placed.push(
                PlacedGlyph { ch: g.ch, x: sx + cursor, y: gy, visible: g.visible },
            );
            cursor = cursor + g.advance as i64 + sp as i64;
            i = i + 1;
        }
        lines_out.push(LayoutLine { glyphs: placed, width: lw });
        j = j + 1;
    }
    let width: i64 = max_w + style.padding.left as i64 + style.padding.right as i64;
    let r = TextLayout { lines: lines_out, width, height: bh };
    proof {
        assert(layout_matches(glyphs@, *style, x as int, y as int, r));
    }
    r
}

} // verus!

verus! {

/// All the glyphs of a set of lines, in order.
pub open spec fn concat_lines(ls: Seq<Seq<LayoutGlyph>>) -> Seq<LayoutGlyph>
    decreases ls.len(),
{
    if ls.len() == 0 {
        Seq::empty()
    } else {
        ls[0] + concat_lines(ls.drop_first())
    }
}

/// What the greedy scan guarantees about where it stops: a line of two
/// or more glyphs fits the threshold, and whenever glyphs remain, the
/// very next one would not have fit.
proof fn lemma_take_line_props(gs: Seq<LayoutGlyph>, maxw: int, sp: int, k: int)
    requires
        1 <= k <= gs.len(),
        k >= 2 ==> line_width(gs.take(k), sp) <= maxw,
    ensures
        ({
            let r = take_line(gs, maxw, sp, k);
            &&& k <= r <= gs.len()
            &&& (r >= 2 ==> line_width(gs.take(r), sp) <= maxw)
            &&& (r < gs.len() ==> line_width(gs.take(r + 1), sp) > maxw)
        }),
    decreases gs.len() - k,
{
    lemma_take_line_range(gs, maxw, sp, k);
    if k < gs.len() && line_width(gs.take(k + 1), sp) <= maxw {
        lemma_take_line_props(gs, maxw, sp, k + 1);
    }
}

/// The first glyph of the first wrapped line is the run's first glyph.
proof fn lemma_wrap_soft_head(gs: Seq<LayoutGlyph>, maxw: Option<u32>, sp: int)
    requires
        gs.len() >= 1,
    ensures
        wrap_soft(gs, maxw, sp).len() >= 1,
        wrap_soft(gs, maxw, sp)[0].len() >= 1,
        wrap_soft(gs, maxw, sp)[0][0] == gs[0],
{
    if maxw is None {
    } else {
        let k0 = take_line(gs, maxw->0 as int, sp, 1);
        lemma_take_line_range(gs, maxw->0 as int, sp, 1);
        if k0 < gs.len() {
            assert(wrap_soft(gs, maxw, sp)[0] == gs.take(k0));
        }
    }
}

/// Wrapping correctness: soft wrapping drops and splits nothing; every
/// line holds at least one glyph; a line of two or more glyphs stays
/// within the threshold; and each break falls exactly before the first
/// glyph whose addition would have exceeded the threshold, so a single
/// over-wide glyph occupies its own line alone.
pub proof fn lemma_wrap_soft_correct(gs: Seq<LayoutGlyph>, maxw: u32, sp: int)
    requires
        gs.len() >= 1,
    ensures
        ({
            let ls = wrap_soft(gs, Some(maxw), sp);
            &&& concat_lines(ls) == gs
            &&& forall|j: int| 0 <= j < ls.len() ==> (#[trigger] ls[j]).len() >= 1
            &&& forall|j: int|
                0 <= j < ls.len() && (#[trigger] ls[j]).len() >= 2 ==> line_width(ls[j], sp)
                    <= maxw
            &&& forall|j: int|
                0 <= j < ls.len() - 1 ==> line_width(
                    (#[trigger] ls[j]).push(ls[j + 1][0]),
                    sp,
                ) > maxw
        }),
    decreases gs.len(),
{
    let m = maxw as int;
    let ls = wrap_soft(gs, Some(maxw), sp);
    let k0 = take_line(gs, m, sp, 1);
    lemma_take_line_props(gs, m, sp, 1);
    if k0 >= gs.len() {
        assert(ls == seq![gs]);
        assert(ls.drop_first() =~= Seq::<Seq<LayoutGlyph>>::empty());
        assert(concat_lines(Seq::<Seq<LayoutGlyph>>::empty()) =~= Seq::<LayoutGlyph>::empty());
        assert(concat_lines(ls) =~= gs);
        if gs.len() >= 2 {
            assert(gs.take(k0) =~= gs);
        }
    } else {
        let head = gs.take(k0);
        let tail = gs.skip(k0);
        assert(ls == seq![head] + wrap_soft(tail, Some(maxw), sp));
        let rest = wrap_soft(tail, Some(maxw), sp);
        lemma_wrap_soft_correct(tail, maxw, sp);
        lemma_wrap_soft_head(tail, Some(maxw), sp);
        assert(ls[0] == head);
        assert forall|j: int| 1 <= j < ls.len() implies ls[j] == rest[j - 1] by {}
        assert(ls.drop_first() =~= rest);
        assert(concat_lines(ls) == head + concat_lines(rest));
        assert(concat_lines(ls) =~= gs);
        assert forall|j: int| 0 <= j < ls.len() - 1 implies line_width(
            (#[trigger] ls[j]).push(ls[j + 1][0]),
            sp,
        ) > maxw by {
            if j == 0 {
                assert(ls[1] == rest[0]);
                assert(rest[0][0] == tail[0]);
                assert(tail[0] == gs[k0]);
                assert(head.push(gs[k0]) =~= gs.take(k0 + 1));
            } else {
                assert(ls[j] == rest[j - 1]);
                assert(ls[j + 1] == rest[j]);
            }
        }
    }
}

/// Layout idempotence: laying out identical text and style twice yields
/// identical line breaks and positions.
pub proof fn lemma_layout_idempotent(
    gs: Seq<LayoutGlyph>,
    style: TextStyle,
    x: int,
    y: int,
    r1: TextLayout,
    r2: TextLayout,
)
    requires
        layout_matches(gs, style, x, y, r1),
        layout_matches(gs, style, x, y, r2),
    ensures
        r1.lines@.len() == r2.lines@.len(),
        forall|j: int|
            0 <= j < r1.lines@.len() ==> (#[trigger] r1.lines@[j]).glyphs@ == (
            #[trigger] r2.lines@[j]).glyphs@,
        forall|j: int|
            0 <= j < r1.lines@.len() ==> (#[trigger] r1.lines@[j]).width == (
            #[trigger] r2.lines@[j]).width,
        r1.width == r2.width,
        r1.height == r2.height,
{
    let lines = broken_lines(gs, style);
    assert forall|j: int| 0 <= j < r1.lines@.len() implies (#[trigger] r1.lines@[j]).glyphs@ == (
    #[trigger] r2.lines@[j]).glyphs@ by {
        assert forall|i: int|
            0 <= i < r1.lines@[j].glyphs@.len() implies r1.lines@[j].glyphs@[i] == r2.lines@[
            j
        ].glyphs@[i] by {
            assert(0 <= j < lines.len() && 0 <= i < lines[j].len());
            let g1 = r1.lines@[j].glyphs@[i];
            let g2 = r2.lines@[j].glyphs@[i];
            assert(g1.ch == g2.ch && g1.x == g2.x && g1.y == g2.y && g1.visible == g2.visible);
        }
        assert(r1.lines@[j].glyphs@ =~= r2.lines@[j].glyphs@);
    }
}

} // verus!
