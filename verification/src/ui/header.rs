//! The header bar at the top of the screen.
use vstd::prelude::*;
use crate::chars::{chars_of, decimal, decimal_string, push_str, string_of};
use crate::store::filter::Filter;
use crate::theme::{Color, Theme};
use crate::ui::{colored, plain, segment_view, segments_view, Segment, SegmentView};

verus! {

/// The filter chip: `+project`, else `@context`, else `/search`, the same
/// precedence the sidebar shows; nothing when no filter is active.
pub open spec fn filter_label_spec(filter: Filter) -> Option<Seq<char>> {
    match filter.project {
        Some(p) => Some(seq!['+'] + p@),
        None => match filter.context {
            Some(c) => Some(seq!['@'] + c@),
            None => if filter.search@.len() > 0 {
                Some(seq!['/'] + filter.search@)
            } else {
                None
            },
        },
    }
}

/// The human-readable filter chip shown in the header, `None` when no
/// filter is active.
pub fn filter_label(filter: &Filter) -> (r: Option<String>)
    ensures
        crate::todo::opt_view(r) == filter_label_spec(*filter),
{
    let (mark, text): (char, &str) = match &filter.project {
        Some(p) => ('+', p.as_str()),
        None => match &filter.context {
            Some(c) => ('@', c.as_str()),
            None => {
                let sv = chars_of(filter.search.as_str());
                if sv.len() == 0 {
                    return None;
                }
                ('/', filter.search.as_str())
            },
        },
    };
    let mut s = String::new();
    crate::chars::push_char(&mut s, mark);
    push_str(&mut s, text);
    assert(s@ =~= seq![mark] + text@);
    Some(s)
}

/// What the header shows, as labelled fields.
pub struct HeaderProps<'a> {
    pub title: Option<&'a str>,
    pub count: usize,
    pub sort: &'a str,
    pub filter: Option<&'a str>,
}

/// The header's text: the one-row rose (a bloom over a trailing stem),
/// the title in bold, the task count, the sort order, and the filter when
/// one is active.
pub open spec fn header_spec(theme: Theme, title: Option<Seq<char>>, count: nat, sort: Seq<char>, filter: Option<Seq<char>>) -> Seq<SegmentView> {
    let rose = seq![
        plain(seq![' ']),
        colored(seq!['▀'], theme.pri_a),
        colored(seq!['▚'], theme.accent),
        plain(seq![' ']),
    ];
    let titled = match title {
        Some(t) => rose.push(SegmentView { text: t, fg: Some(theme.fg), bg: None, bold: true }),
        None => rose,
    };
    let counted = titled + seq![
        colored("  •  "@, theme.dim),
        colored(decimal(count) + " tasks"@, theme.dim),
        colored("  •  "@, theme.dim),
        colored("sort:"@ + sort, theme.accent),
    ];
    match filter {
        Some(f) => counted + seq![plain("   "@), colored("filter:"@ + f, theme.context)],
        None => counted,
    }
}

fn text_of(s: &str) -> (r: String)
    ensures
        r@ == s@,
{
    let v = chars_of(s);
    string_of(v.as_slice())
}

fn seg(text: String, fg: Option<Color>, bold: bool) -> (s: Segment)
    ensures
        s.text@ == text@,
        s.fg == fg,
        s.bg is None,
        s.bold == bold,
{
    Segment { text, fg, bg: None, bold }
}

fn push_seg(r: &mut Vec<Segment>, s: Segment)
    ensures
        segments_view(final(r)@) == segments_view(old(r)@).push(segment_view(s)),
{
    let ghost before = r@;
    r.push(s);
    assert(segments_view(r@) =~= segments_view(before).push(segment_view(s)));
}

/// The header's segments, left to right.
pub fn header_segments(theme: &Theme, props: &HeaderProps) -> (r: Vec<Segment>)
    ensures
        segments_view(r@) == header_spec(
            *theme,
            match props.title {
                Some(t) => Some(t@),
                None => None,
            },
            props.count as nat,
            props.sort@,
            match props.filter {
                Some(f) => Some(f@),
                None => None,
            },
        ),
{
    proof {
        reveal_strlit(" ");
        reveal_strlit("▀");
        reveal_strlit("▚");
    }
    let ghost rose = seq![
        plain(seq![' ']),
        colored(seq!['▀'], theme.pri_a),
        colored(seq!['▚'], theme.accent),
        plain(seq![' ']),
    ];
    let mut r: Vec<Segment> = Vec::new();
    let sp = text_of(" ");
    assert(sp@ == seq![' ']);
    push_seg(&mut r, seg(sp, None, false));
    let up = text_of("▀");
    assert(up@ == seq!['▀']);
    push_seg(&mut r, seg(up, Some(theme.pri_a), false));
    let qu = text_of("▚");
    assert(qu@ == seq!['▚']);
    push_seg(&mut r, seg(qu, Some(theme.accent), false));
    let sp2 = text_of(" ");
    assert(sp2@ == seq![' ']);
    push_seg(&mut r, seg(sp2, None, false));
    assert(segments_view(r@) =~= rose);
    match props.title {
        Some(t) => {
            push_seg(&mut r, seg(text_of(t), Some(theme.fg), true));
        },
        None => {},
    }
    let ghost titled = segments_view(r@);
    push_seg(&mut r, seg(text_of("  •  "), Some(theme.dim), false));
    let mut count = decimal_string(props.count);
    push_str(&mut count, " tasks");
    push_seg(&mut r, seg(count, Some(theme.dim), false));
    push_seg(&mut r, seg(text_of("  •  "), Some(theme.dim), false));
    let mut sort = text_of("sort:");
    push_str(&mut sort, props.sort);
    push_seg(&mut r, seg(sort, Some(theme.accent), false));
    let ghost counted = segments_view(r@);
    assert(counted =~= titled + seq![
        colored("  •  "@, theme.dim),
        colored(decimal(props.count as nat) + " tasks"@, theme.dim),
        colored("  •  "@, theme.dim),
        colored("sort:"@ + props.sort@, theme.accent),
    ]);
    match props.filter {
        Some(f) => {
            push_seg(&mut r, seg(text_of("   "), None, false));
            let mut chip = text_of("filter:");
            push_str(&mut chip, f);
            push_seg(&mut r, seg(chip, Some(theme.context), false));
            assert(segments_view(r@) =~= counted + seq![plain("   "@), colored("filter:"@ + f@, theme.context)]);
        },
        None => {},
    }
    r
}

} // verus!
