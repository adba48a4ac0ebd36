//! Text styling: size, color, spacing, alignment, wrapping and padding.
//!
//! All measurements are integer pixels; colors are 8-bit RGBA channels;
//! the line height is a percentage of the font size (120 means lines
//! 1.2 times the font size apart).

use vstd::prelude::*;

verus! {

/// Horizontal placement of each line within the block.
#[derive(Clone, Copy, Debug, PartialEq, Eq, Structural)]
pub enum TextAlignment {
    /// Lines start at the anchor.
    Left,
    /// Lines are centered on the anchor.
    Center,
    /// Lines end at the anchor.
    Right,
}

/// Vertical placement of the whole block relative to the anchor.
#[derive(Clone, Copy, Debug, PartialEq, Eq, Structural)]
pub enum VerticalAlignment {
    /// The block's top sits at the anchor.
    Top,
    /// The block is centered on the anchor.
    Middle,
    /// The block's bottom sits at the anchor.
    Bottom,
}

/// Four-sided padding around a text block, in pixels.
#[derive(Clone, Copy, Debug, PartialEq, Eq, Structural)]
pub struct Padding {
    pub left: u32,
    pub right: u32,
    pub top: u32,
    pub bottom: u32,
}

impl Default for Padding {
    /// No padding on any side.
    fn default() -> (r: Padding)
        ensures
            r == (Padding { left: 0u32, right: 0u32, top: 0u32, bottom: 0u32 }),
    {
        Padding { left: 0, right: 0, top: 0, bottom: 0 }
    }
}

/// How a run of text is drawn: pixel size, RGBA color, line height as a
/// percentage of the size, letter spacing, alignment on both axes, an
/// optional wrap threshold, an optional background color, padding, and
/// optional vertical clip bounds.
#[derive(Clone, Debug)]
pub struct TextStyle {
    pub font_size: u32,
    pub color: [u8; 4],
    pub line_height: u32,
    pub letter_spacing: i32,
    pub alignment: TextAlignment,
    pub max_width: Option<u32>,
    pub vertical_alignment: VerticalAlignment,
    pub background_color: Option<[u8; 4]>,
    pub padding: Padding,
    pub clip_bounds: Option<(i32, i32)>,
}

impl Default for TextStyle {
    /// White 16-pixel text, lines 1.2 sizes apart, no spacing, wrapping,
    /// background, padding or clipping, anchored top-left.
    fn default() -> (r: TextStyle)
        ensures
            r.font_size == 16,
            r.color@ == seq![255u8, 255u8, 255u8, 255u8],
            r.line_height == 120,
            r.letter_spacing == 0,
            r.alignment is Left,
            r.max_width is None,
            r.vertical_alignment is Top,
            r.background_color is None,
            r.padding == (Padding { left: 0u32, right: 0u32, top: 0u32, bottom: 0u32 }),
            r.clip_bounds is None,
    {
        let r = TextStyle {
            font_size: 16,
            color: [255, 255, 255, 255],
            line_height: 120,
            letter_spacing: 0,
            alignment: TextAlignment::Left,
            max_width: None,
            vertical_alignment: VerticalAlignment::Top,
            background_color: None,
            padding: Padding { left: 0, right: 0, top: 0, bottom: 0 },
            clip_bounds: None,
        };
        proof {
            assert(r.color@ =~= seq![255u8, 255u8, 255u8, 255u8]);
        }
        r
    }
}

} // verus!
