//! The thrown rose: chiba's mark.
//!
//! Drawn at half-block resolution: the design grid is 16 by 10 square
//! pixels, and each terminal cell carries two vertically stacked pixels via
//! the upper half block, with the lower pixel as the cell's background. A
//! terminal cell is roughly 1:2, so a half-cell pixel comes out square.
//!
//! The bloom takes the priority-A colour and the stem the theme accent, so
//! the mark works in every palette.
use vstd::prelude::*;
use crate::chars::{chars_of, push_char, string_of};
use crate::theme::{Color, Theme};
use crate::ui::{colored, plain, segments_view, Segment, SegmentView};

verus! {

/// Columns of the mark.
pub const WIDTH: u16 = 16;

/// Terminal rows of the mark: two pixel rows each.
pub const HEIGHT: u16 = 5;

/// 16 columns by 10 pixel rows. `k` is bloom, `b` is stem and leaf, `.` is
/// empty. Deliberately asymmetric: an angled stem reads as a rose in
/// flight, a symmetric blob as a face.
pub const GRID: [&'static str; 10] = [
    "..kkkk..........",
    ".kkkkkk.........",
    ".kkkkkk.........",
    "..kkkk.b........",
    "...kk...b.......",
    ".........b......",
    "......bbb.b.....",
    "...........b....",
    "............b...",
    ".............b..",
];

/// The colour of a design pixel, `None` for empty.
pub open spec fn pixel_spec(theme: Theme, c: char) -> Option<Color> {
    if c == 'k' {
        Some(theme.pri_a)
    } else if c == 'b' {
        Some(theme.accent)
    } else {
        None
    }
}

pub fn pixel(theme: &Theme, c: char) -> (r: Option<Color>)
    ensures
        r == pixel_spec(*theme, c),
{
    if c == 'k' {
        Some(theme.pri_a)
    } else if c == 'b' {
        Some(theme.accent)
    } else {
        None
    }
}

/// The cell showing a top and a bottom pixel: a blank, an upper or lower
/// half block in the pixel's colour, a full block when both pixels share a
/// colour, and for two colours the upper half in the foreground over the
/// lower one as background.
pub open spec fn cell_spec(top: Option<Color>, bottom: Option<Color>) -> SegmentView {
    match (top, bottom) {
        (None, None) => plain(seq![' ']),
        (Some(t), None) => colored(seq!['▀'], t),
        (None, Some(b)) => colored(seq!['▄'], b),
        (Some(t), Some(b)) => if t == b {
            colored(seq!['█'], t)
        } else {
            SegmentView { text: seq!['▀'], fg: Some(t), bg: Some(b), bold: false }
        },
    }
}

fn cell(top: Option<Color>, bottom: Option<Color>) -> (s: Segment)
    ensures
        crate::ui::segment_view(s) == cell_spec(top, bottom),
{
    let (text, fg, bg) = match (top, bottom) {
        (None, None) => (' ', None, None),
        (Some(t), None) => ('▀', Some(t), None),
        (None, Some(b)) => ('▄', Some(b), None),
        (Some(t), Some(b)) => if t == b {
            ('█', Some(t), None)
        } else {
            ('▀', Some(t), Some(b))
        },
    };
    let mut s = String::new();
    push_char(&mut s, text);
    assert(s@ =~= seq![text]);
    Segment { text: s, fg, bg, bold: false }
}

/// Left padding that centres the mark in a panel `inner_width` wide; none
/// when the panel is narrower than the mark.
pub open spec fn pad_width(inner_width: u16) -> nat {
    if inner_width > WIDTH {
        ((inner_width - WIDTH) / 2) as nat
    } else {
        0
    }
}

/// Row `r` of the mark: the padding, then one cell per column.
pub open spec fn logo_row(theme: Theme, inner_width: u16, r: int) -> Seq<SegmentView> {
    seq![plain(Seq::new(pad_width(inner_width), |i: int| ' '))] + Seq::new(
        WIDTH as nat,
        |c: int| cell_spec(pixel_spec(theme, GRID[2 * r]@[c]), pixel_spec(theme, GRID[2 * r + 1]@[c])),
    )
}

proof fn lemma_grid_shape()
    ensures
        forall|r: int| 0 <= r < 10 ==> (#[trigger] GRID[r])@.len() == 16,
{
    reveal_strlit("..kkkk..........");
    reveal_strlit(".kkkkkk.........");
    reveal_strlit("..kkkk.b........");
    reveal_strlit("...kk...b.......");
    reveal_strlit(".........b......");
    reveal_strlit("......bbb.b.....");
    reveal_strlit("...........b....");
    reveal_strlit("............b...");
    reveal_strlit(".............b..");
}

/// The mark, centred in a panel `inner_width` cells wide: `HEIGHT` lines,
/// each the padding then `WIDTH` one-character cells.
pub fn centered_lines(theme: &Theme, inner_width: u16) -> (lines: Vec<Vec<Segment>>)
    ensures
        lines@.len() == HEIGHT,
        forall|r: int| 0 <= r < HEIGHT ==> segments_view(#[trigger] lines@[r]@) == logo_row(
            *theme,
            inner_width,
            r,
        ),
{
    proof {
        lemma_grid_shape();
    }
    let pad_w: u16 = if inner_width > WIDTH {
        (inner_width - WIDTH) / 2
    } else {
        0
    };
    let mut pad = String::new();
    let mut k: u16 = 0;
    while k < pad_w
        invariant
            k <= pad_w,
            pad@ == Seq::new(k as nat, |i: int| ' '),
        decreases pad_w - k,
    {
        push_char(&mut pad, ' ');
        assert(pad@ =~= Seq::new((k + 1) as nat, |i: int| ' '));
        k = k + 1;
    }
    let mut lines: Vec<Vec<Segment>> = Vec::new();
    let mut r: usize = 0;
    while r < 5
        invariant
            r <= 5,
            pad@ == Seq::new(pad_width(inner_width), |i: int| ' '),
            forall|q: int| 0 <= q < 10 ==> (#[trigger] GRID[q])@.len() == 16,
            lines@.len() == r,
            forall|q: int| 0 <= q < r ==> segments_view(#[trigger] lines@[q]@) == logo_row(
                *theme,
                inner_width,
                q,
            ),
        decreases 5 - r,
    {
        let top = chars_of(GRID[2 * r]);
        let bottom = chars_of(GRID[2 * r + 1]);
        let mut row: Vec<Segment> = Vec::new();
        let pv = chars_of(pad.as_str());
        row.push(Segment { text: string_of(pv.as_slice()), fg: None, bg: None, bold: false });
        let mut c: usize = 0;
        while c < 16
            invariant
                c <= 16,
                r < 5,
                top@ == GRID[2 * r as int]@,
                bottom@ == GRID[2 * r + 1]@,
                top@.len() == 16,
                bottom@.len() == 16,
                row@.len() == c + 1,
                segments_view(row@) == logo_row(*theme, inner_width, r as int).take(c + 1),
            decreases 16 - c,
        {
            let s = cell(pixel(theme, top[c]), pixel(theme, bottom[c]));
            let ghost before = row@;
            row.push(s);
            assert(segments_view(row@) =~= logo_row(*theme, inner_width, r as int).take(c + 2));
            c = c + 1;
        }
        assert(logo_row(*theme, inner_width, r as int).take(17) =~= logo_row(*theme, inner_width, r as int));
        lines.push(row);
        r = r + 1;
    }
    lines
}

} // verus!
