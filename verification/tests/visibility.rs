use chiba::app::{App, ArchiveMode, GroupKey, Sort, ViewMode};
use chiba::convert::from_todotxt;
use chiba::doc::parse_doc;
use chiba::store::filter::ListDueBucket;
use chiba::store::outcome::ReadResult;
use chiba::store::{Archive, Store};

fn md(raw: &str) -> String {
    from_todotxt(raw)
}

/// A store over `raw` (written as markdown checkboxes), today fixed at
/// 2026-05-06, the archive loaded and empty.
fn build_store(raw: &str) -> Store {
    Store::open_sync(
        "/tmp/chiba-test/todo.md".to_string(),
        md(raw),
        "2026-05-06".to_string(),
        ReadResult::NotFound,
    )
}

fn build_app(raw: &str) -> App {
    App::new(build_store(raw))
}

fn with_archive(app: &mut App, raw: &str) {
    let path = app.archive().path().to_string();
    app.store.archive = Archive::load_sync_at(path, ReadResult::Read(md(raw)));
}

#[test]
fn search_matches_subsequence() {
    let mut app = build_app("2026-05-01 Call dentist\n2026-05-01 buy milk\n");
    app.filter.search = "cade".into();
    app.recompute_visible();
    assert_eq!(app.visible_indices().len(), 1);
}

#[test]
fn search_matches_body_not_dates() {
    let mut app = build_app("2026-05-01 buy milk\n2026-04-01 something else\n");
    app.filter.search = "2026".into();
    app.recompute_visible();
    assert_eq!(app.visible_indices().len(), 0);
}

#[test]
fn visible_cache_updates_after_mutation() {
    let mut app = build_app("a\nb\nc\n");
    assert_eq!(app.visible_indices().len(), 3);
    let doc = parse_doc("- [ ] d\n");
    let task = doc.tasks.into_iter().next().unwrap();
    app.store.task_push(task);
    app.recompute_visible();
    assert_eq!(app.visible_indices().len(), 4);
}

#[test]
fn list_cursor_survives_archive_roundtrip() {
    let mut app = build_app("a\nb\nc\nd\ne\n");
    app.cursor = 3;
    app.set_view(ViewMode::Archive);
    app.set_view(ViewMode::List);
    assert_eq!(app.cursor, 3, "cursor lost on List → Archive → List");
}

#[test]
fn archive_indices_point_into_archive_tasks() {
    let mut app = build_app("a\n");
    with_archive(&mut app, "x 2026-05-01 2026-04-01 first\nx 2026-05-02 2026-04-02 second\n");
    app.set_view(ViewMode::Archive);
    let idxs = app.visible_indices();
    assert_eq!(idxs.len(), 2);
    for &i in idxs {
        assert!(app.archive().tasks().get(i).is_some());
    }
}

#[test]
fn list_groups_are_none_under_sort_file() {
    let mut app = build_app("(A) a\n(B) b\nc\n");
    app.prefs.sort = Sort::File;
    app.recompute_visible();
    let groups = app.visible_groups();
    assert_eq!(groups.len(), 3);
    for g in groups {
        assert!(matches!(g, GroupKey::NoGroup));
    }
}

#[test]
fn list_groups_track_priority_under_sort_priority() {
    let mut app = build_app("(A) a\n(B) b\nc\n(A) a2\n");
    app.prefs.sort = Sort::Priority;
    app.recompute_visible();
    let groups = app.visible_groups();
    assert_eq!(groups.len(), 4);
    assert_eq!(groups[0], GroupKey::ListPriority(Some('A')));
    assert_eq!(groups[1], GroupKey::ListPriority(Some('A')));
    assert_eq!(groups[2], GroupKey::ListPriority(Some('B')));
    assert_eq!(groups[3], GroupKey::ListPriority(None));
}

#[test]
fn list_groups_bucket_due_dates_under_sort_due() {
    let raw = "a due:2026-05-04\n\
               b due:2026-05-06\n\
               c due:2026-05-08\n\
               d due:2026-05-15\n\
               e due:2026-05-25\n\
               f\n";
    let mut app = build_app(raw);
    app.prefs.sort = Sort::Due;
    app.recompute_visible();
    let groups = app.visible_groups();
    assert_eq!(groups.len(), 6);
    assert_eq!(groups[0], GroupKey::ListDue(ListDueBucket::Overdue));
    assert_eq!(groups[1], GroupKey::ListDue(ListDueBucket::Today));
    assert_eq!(groups[2], GroupKey::ListDue(ListDueBucket::ThisWeek));
    assert_eq!(groups[3], GroupKey::ListDue(ListDueBucket::NextWeek));
    assert_eq!(groups[4], GroupKey::ListDue(ListDueBucket::Later));
    assert_eq!(groups[5], GroupKey::ListDue(ListDueBucket::NoDue));
}

#[test]
fn future_absolute_threshold_hidden_by_default() {
    let mut app = build_app("future task t:2030-01-01\nvisible task\n");
    assert_eq!(app.visible_indices().len(), 1);
    assert_eq!(app.tasks()[app.visible_indices()[0]].raw, "visible task");
    app.prefs.show_future = true;
    app.recompute_visible();
    assert_eq!(app.visible_indices().len(), 2);
}

#[test]
fn relative_threshold_anchors_on_due() {
    let mut app = build_app("Pay rent due:2026-05-15 t:-3d\n");
    assert_eq!(app.visible_indices().len(), 0);
    app.prefs.show_future = true;
    app.recompute_visible();
    assert_eq!(app.visible_indices().len(), 1);
}

#[test]
fn refresh_today_unhides_tasks_when_date_advances() {
    let mut app = build_app("future task t:2026-05-07\nvisible task\n");
    assert_eq!(app.visible_indices().len(), 1);
    let changed = app.refresh_today("2026-05-07".into());
    assert!(changed);
    assert_eq!(app.today(), "2026-05-07");
    assert_eq!(app.visible_indices().len(), 2);
}

#[test]
fn refresh_today_is_noop_when_date_unchanged() {
    let mut app = build_app("a\n");
    let changed = app.refresh_today("2026-05-06".into());
    assert!(!changed);
    assert_eq!(app.today(), "2026-05-06");
}

#[test]
fn archive_visible_groups_are_done_date_desc() {
    let mut app = build_app("a\n");
    with_archive(&mut app, "x 2026-04-01 2026-03-01 older\nx 2026-05-02 2026-04-02 newer\n");
    app.set_view(ViewMode::Archive);
    let groups = app.visible_groups();
    assert_eq!(groups.len(), 2);
    let first = match &groups[0] {
        GroupKey::ArchiveDate(d) => d.as_str(),
        _ => panic!("expected ArchiveDate"),
    };
    let second = match &groups[1] {
        GroupKey::ArchiveDate(d) => d.as_str(),
        _ => panic!("expected ArchiveDate"),
    };
    assert_eq!(first, "2026-05-02");
    assert_eq!(second, "2026-04-01");
}

#[test]
fn in_place_archive_view_lists_completed_tasks_from_the_live_file() {
    let mut app = build_app("open one\nx 2026-05-05 2026-05-01 done one\nopen two\n");
    app.prefs.archive_mode = ArchiveMode::InPlace;
    assert!(app.archive_source_is_live());
    app.set_view(ViewMode::Archive);
    let idxs = app.visible_indices().to_vec();
    assert_eq!(idxs.len(), 1, "only the completed task");
    assert!(app.tasks()[idxs[0]].done);
    assert!(app.tasks()[idxs[0]].raw.contains("done one"));
}

#[test]
fn sorting_reorders_the_rows_and_never_the_tasks() {
    let mut app = build_app("(A) alpha\n(C) charlie due:2026-05-01\n(B) bravo\n");
    let before: Vec<String> = app.tasks().iter().map(|t| t.raw.clone()).collect();
    app.prefs.sort = Sort::Priority;
    app.recompute_visible();
    let by_priority = app.visible_indices().to_vec();
    assert_eq!(by_priority, vec![0, 2, 1]);
    app.prefs.sort = Sort::Due;
    app.recompute_visible();
    assert_eq!(app.visible_indices().to_vec(), vec![1, 0, 2]);
    app.prefs.sort = Sort::File;
    app.recompute_visible();
    assert_eq!(app.visible_indices().to_vec(), vec![0, 1, 2]);
    let after: Vec<String> = app.tasks().iter().map(|t| t.raw.clone()).collect();
    assert_eq!(before, after);
}

#[test]
fn hiding_done_tasks_drops_them_from_the_list() {
    let mut app = build_app("open\nx 2026-05-05 2026-05-01 closed\n");
    assert_eq!(app.visible_indices().len(), 2);
    app.prefs.show_done = false;
    app.recompute_visible();
    assert_eq!(app.visible_indices().to_vec(), vec![0]);
}

#[test]
fn project_and_context_filters_narrow_the_list() {
    let mut app = build_app("a +work @home\nb +work\nc @home\n");
    app.filter.project = Some("work".into());
    app.recompute_visible();
    assert_eq!(app.visible_indices().to_vec(), vec![0, 1]);
    app.filter.project = None;
    app.filter.context = Some("home".into());
    app.recompute_visible();
    assert_eq!(app.visible_indices().to_vec(), vec![0, 2]);
}

#[test]
fn cursor_is_clamped_to_the_rows_and_follows_a_task() {
    let mut app = build_app("a\nb\nc\n");
    app.cursor = 10;
    app.clamp_cursor();
    assert_eq!(app.cursor, 2);
    assert_eq!(app.cur_abs(), Some(2));
    app.follow_cursor(1);
    assert_eq!(app.cursor, 1);
    app.filter.search = "zzz".into();
    app.recompute_visible();
    app.clamp_cursor();
    assert_eq!(app.cursor, 0);
    assert_eq!(app.cur_abs(), None);
}
