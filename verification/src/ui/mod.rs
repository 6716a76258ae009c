//! What the screen shows, as styled text; drawing it is the caller's.
pub mod header;
pub mod logo;

use vstd::prelude::*;
use crate::theme::Color;

verus! {

/// A run of text in one style.
pub struct Segment {
    pub text: String,
    pub fg: Option<Color>,
    pub bg: Option<Color>,
    pub bold: bool,
}

/// A segment by value.
pub struct SegmentView {
    pub text: Seq<char>,
    pub fg: Option<Color>,
    pub bg: Option<Color>,
    pub bold: bool,
}

pub open spec fn segment_view(s: Segment) -> SegmentView {
    SegmentView { text: s.text@, fg: s.fg, bg: s.bg, bold: s.bold }
}

pub open spec fn segments_view(v: Seq<Segment>) -> Seq<SegmentView> {
    v.map_values(|s: Segment| segment_view(s))
}

/// Unstyled text.
pub open spec fn plain(text: Seq<char>) -> SegmentView {
    SegmentView { text, fg: None, bg: None, bold: false }
}

/// Text in a foreground colour.
pub open spec fn colored(text: Seq<char>, fg: Color) -> SegmentView {
    SegmentView { text, fg: Some(fg), bg: None, bold: false }
}

} // verus!
