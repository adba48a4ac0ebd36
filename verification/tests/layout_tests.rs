//! Layout: wrapping, hard breaks, alignment, spacing, block bounds.

use teengine::LayoutGlyph;
use teengine::Padding;
use teengine::TextAlignment;
use teengine::TextLayout;
use teengine::TextStyle;
use teengine::VerticalAlignment;
use teengine::layout::layout_text;

fn glyphs_of(advances: &[u32]) -> Vec<LayoutGlyph> {
    advances
        .iter()
        .map(|&a| LayoutGlyph { ch: 'x', advance: a, visible: true })
        .collect()
}

fn plain_style() -> TextStyle {
    TextStyle::default()
}

#[test]
fn wrapping_breaks_exactly_before_the_overflowing_glyph() {
    let glyphs = glyphs_of(&[30, 30, 30, 30]);
    let mut style = plain_style();
    style.max_width = Some(100);
    let tl = layout_text(&glyphs, &style, 0, 0);
    assert_eq!(tl.lines.len(), 2);
    assert_eq!(tl.lines[0].glyphs.len(), 3);
    assert_eq!(tl.lines[1].glyphs.len(), 1);
    let xs: Vec<i64> = tl.lines[0].glyphs.iter().map(|g| g.x).collect();
    assert_eq!(xs, vec![0, 30, 60]);
    assert_eq!(tl.lines[1].glyphs[0].x, 0);
}

#[test]
fn a_single_glyph_wider_than_the_threshold_keeps_its_own_line() {
    let glyphs = glyphs_of(&[150, 10]);
    let mut style = plain_style();
    style.max_width = Some(100);
    let tl = layout_text(&glyphs, &style, 0, 0);
    assert_eq!(tl.lines.len(), 2);
    assert_eq!(tl.lines[0].glyphs.len(), 1);
    assert_eq!(tl.lines[0].width, 150);
    assert_eq!(tl.lines[1].glyphs.len(), 1);
}

#[test]
fn an_explicit_newline_always_starts_a_hard_line() {
    let mut glyphs = glyphs_of(&[10, 10]);
    glyphs.insert(1, LayoutGlyph { ch: '\n', advance: 0, visible: false });
    let tl = layout_text(&glyphs, &plain_style(), 0, 0);
    assert_eq!(tl.lines.len(), 2);
    assert_eq!(tl.lines[0].glyphs.len(), 1);
    assert_eq!(tl.lines[1].glyphs.len(), 1);
}

#[test]
fn identical_input_lays_out_identically() {
    let glyphs = glyphs_of(&[12, 7, 30, 9, 14]);
    let mut style = plain_style();
    style.max_width = Some(40);
    style.letter_spacing = 2;
    let a: TextLayout = layout_text(&glyphs, &style, 5, 7);
    let b: TextLayout = layout_text(&glyphs, &style, 5, 7);
    assert_eq!(a.lines.len(), b.lines.len());
    assert_eq!(a.width, b.width);
    assert_eq!(a.height, b.height);
    for (la, lb) in a.lines.iter().zip(b.lines.iter()) {
        assert_eq!(la.width, lb.width);
        assert_eq!(la.glyphs, lb.glyphs);
    }
}

#[test]
fn trailing_letter_spacing_is_excluded_from_widths() {
    let glyphs = glyphs_of(&[10, 10]);
    let mut style = plain_style();
    style.letter_spacing = 5;
    let tl = layout_text(&glyphs, &style, 0, 0);
    assert_eq!(tl.lines[0].width, 25);
    // The live cursor still includes the spacing between glyphs.
    assert_eq!(tl.lines[0].glyphs[1].x, 15);
}

#[test]
fn center_alignment_shifts_each_line_by_half_its_width() {
    let glyphs = glyphs_of(&[30, 30]);
    let mut style = plain_style();
    style.alignment = TextAlignment::Center;
    let tl = layout_text(&glyphs, &style, 100, 0);
    assert_eq!(tl.lines[0].width, 60);
    assert_eq!(tl.lines[0].glyphs[0].x, 70);
}

#[test]
fn right_alignment_shifts_each_line_by_its_width() {
    let glyphs = glyphs_of(&[30, 30]);
    let mut style = plain_style();
    style.alignment = TextAlignment::Right;
    let tl = layout_text(&glyphs, &style, 100, 0);
    assert_eq!(tl.lines[0].glyphs[0].x, 40);
}

#[test]
fn block_bounds_count_lines_and_padding() {
    let glyphs = glyphs_of(&[10, 10, 10]);
    let mut style = plain_style();
    style.max_width = Some(25);
    style.padding = Padding { left: 3, right: 4, top: 5, bottom: 6 };
    let tl = layout_text(&glyphs, &style, 0, 0);
    // 16 px at 120 percent: 19 px per line.
    assert_eq!(tl.lines.len(), 2);
    assert_eq!(tl.height, 2 * 19 + 5 + 6);
    assert_eq!(tl.width, 20 + 3 + 4);
}

#[test]
fn bottom_alignment_anchors_the_block_bottom() {
    let glyphs = glyphs_of(&[10]);
    let mut style = plain_style();
    style.vertical_alignment = VerticalAlignment::Bottom;
    let tl = layout_text(&glyphs, &style, 0, 100);
    // One 19 px line, no padding: the line top sits one block above the anchor.
    assert_eq!(tl.lines[0].glyphs[0].y, 100 - 19);
}

#[test]
fn middle_alignment_centers_the_block_on_the_anchor() {
    let glyphs = glyphs_of(&[10]);
    let mut style = plain_style();
    style.vertical_alignment = VerticalAlignment::Middle;
    let tl = layout_text(&glyphs, &style, 0, 100);
    assert_eq!(tl.lines[0].glyphs[0].y, 100 - 9);
}

#[test]
fn empty_text_is_one_empty_line() {
    let glyphs: Vec<LayoutGlyph> = Vec::new();
    let tl = layout_text(&glyphs, &plain_style(), 0, 0);
    assert_eq!(tl.lines.len(), 1);
    assert_eq!(tl.lines[0].glyphs.len(), 0);
    assert_eq!(tl.lines[0].width, 0);
    assert_eq!(tl.height, 19);
}

#[test]
fn negative_letter_spacing_tightens_lines() {
    let glyphs = glyphs_of(&[10, 10]);
    let mut style = plain_style();
    style.letter_spacing = -2;
    let tl = layout_text(&glyphs, &style, 0, 0);
    assert_eq!(tl.lines[0].width, 18);
    assert_eq!(tl.lines[0].glyphs[1].x, 8);
}
