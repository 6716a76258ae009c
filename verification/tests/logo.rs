use chiba::store::filter::Filter;
use chiba::theme::{Color, Theme};
use chiba::ui::header::{filter_label, header_segments, HeaderProps};
use chiba::ui::logo::{centered_lines, pixel, HEIGHT, WIDTH, GRID};
use chiba::ui::Segment;

fn theme() -> Theme {
    Theme {
        fg: Color::White,
        dim: Color::DarkGray,
        accent: Color::Cyan,
        context: Color::Yellow,
        panel: Color::Black,
        pri_a: Color::Red,
    }
}

fn cells(line: &[Segment]) -> usize {
    line.iter().map(|s| s.text.chars().count()).sum()
}

#[test]
fn grid_is_well_formed() {
    assert_eq!(GRID.len() % 2, 0, "pixel rows must pair into terminal rows");
    assert_eq!(GRID.len() / 2, HEIGHT as usize);
    assert!(GRID.iter().all(|r| r.len() == WIDTH as usize));
    assert!(
        GRID.iter().flat_map(|r| r.chars()).all(|c| matches!(c, 'k' | 'b' | '.')),
        "only bloom, stem, and empty pixels are defined",
    );
}

#[test]
fn renders_height_rows_of_exactly_width_cells() {
    let lines = centered_lines(&theme(), WIDTH);
    assert_eq!(lines.len(), HEIGHT as usize);
    for line in &lines {
        assert_eq!(cells(line), WIDTH as usize, "each row must be WIDTH cells");
    }
}

#[test]
fn bloom_is_red_and_stem_is_accent() {
    let t = theme();
    let at = |r: usize, c: usize| GRID[r].chars().nth(c).unwrap();
    assert_eq!(pixel(&t, at(0, 2)), Some(t.pri_a), "grid row 0 is bloom");
    assert_eq!(pixel(&t, at(8, 12)), Some(t.accent), "grid row 8 is stem");
    assert_eq!(pixel(&t, '.'), None);
}

#[test]
fn centering_pads_without_overflowing_a_narrow_panel() {
    assert_eq!(cells(&centered_lines(&theme(), 60)[0]), 22 + WIDTH as usize);
    let narrow = centered_lines(&theme(), 4);
    assert_eq!(narrow.len(), HEIGHT as usize);
    assert_eq!(cells(&narrow[0]), WIDTH as usize);
}

#[test]
fn cells_pick_half_and_full_blocks() {
    let t = theme();
    let lines = centered_lines(&t, WIDTH);
    // Row 0 pairs grid rows 0 and 1: column 0 is empty, column 1 lower
    // half bloom, column 2 full bloom.
    assert_eq!(lines[0][1].text, " ");
    assert_eq!(lines[0][2].text, "▄");
    assert_eq!(lines[0][2].fg, Some(Color::Red));
    assert_eq!(lines[0][3].text, "█");
    // Row 1 pairs grid rows 2 and 3: column 8 (grid col 7) is a lower stem.
    assert_eq!(lines[1][8].text, "▄");
    assert_eq!(lines[1][8].fg, Some(Color::Cyan));
    // A palette whose bloom and stem share a colour draws two-pixel cells as
    // full blocks.
    let mono = Theme { accent: Color::Red, ..theme() };
    let same = centered_lines(&mono, WIDTH);
    assert!(same.iter().flatten().all(|s| s.bg.is_none()));
}

#[test]
fn filter_label_prefers_project_then_context_then_search() {
    let mut f = Filter::new();
    assert_eq!(filter_label(&f), None);
    f.search = "milk".into();
    assert_eq!(filter_label(&f).as_deref(), Some("/milk"));
    f.context = Some("home".into());
    assert_eq!(filter_label(&f).as_deref(), Some("@home"));
    f.project = Some("work".into());
    assert_eq!(filter_label(&f).as_deref(), Some("+work"));
}

#[test]
fn header_lists_title_count_sort_and_filter() {
    let t = theme();
    let props = HeaderProps { title: Some("chiba"), count: 12, sort: "due", filter: Some("+work") };
    let segs = header_segments(&t, &props);
    let text: Vec<&str> = segs.iter().map(|s| s.text.as_str()).collect();
    assert_eq!(text, vec![" ", "▀", "▚", " ", "chiba", "  •  ", "12 tasks", "  •  ", "sort:due", "   ", "filter:+work"]);
    assert!(segs[4].bold);
    assert_eq!(segs[10].fg, Some(Color::Yellow));
    let bare = HeaderProps { title: None, count: 0, sort: "file", filter: None };
    assert_eq!(header_segments(&t, &bare).len(), 8);
}
