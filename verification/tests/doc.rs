use chiba::convert::{from_todotxt, starts_with_iso_date, starts_with_priority, to_todotxt};
use chiba::doc::{parse_doc, serialize_doc};
use chiba::store::filter::{date_of, due_bucket, is_future, parse_date, subsequence_match, ListDueBucket, Weekday};
use chiba::store::outcome::{ReadResult, Reconcile};
use chiba::store::Store;

fn chars(s: &str) -> Vec<char> {
    s.chars().collect()
}

#[test]
fn parsing_then_writing_gives_the_file_back() {
    let body = "# Work\n\nNotes about things.\n\n- [ ] (A) 2026-05-01 deck +work @laptop due:2026-05-06\n  * [x] 2026-05-05 2026-05-01 nested\n```\n- [ ] not a task in a fence\n```\n+ [X] done with a plus\ntrailing prose\n";
    let d = parse_doc(body);
    assert_eq!(d.tasks.len(), 3);
    assert_eq!(serialize_doc(&d.tasks, &d.text), body);
}

#[test]
fn a_body_without_a_final_newline_comes_back_without_one() {
    let d = parse_doc("- [ ] a\nprose");
    assert_eq!(serialize_doc(&d.tasks, &d.text), "- [ ] a\nprose");
    let t = parse_doc("# H\r\n- [ ] a\r\n- [x] b");
    assert_eq!(serialize_doc(&t.tasks, &t.text), "# H\r\n- [ ] a\r\n- [x] b");
    let e = parse_doc("");
    assert_eq!(e.tasks.len(), 0);
    assert_eq!(serialize_doc(&e.tasks, &e.text), "");
}

#[test]
fn task_fields_come_from_the_body() {
    let d = parse_doc("- [ ] (B) 2026-05-02 review +work @laptop due:2026-05-07 rec:+1w t:2026-05-01\n- [x] 2026-05-05 2026-05-01 submit +work\n");
    let t = &d.tasks[0];
    assert_eq!(t.raw, "(B) 2026-05-02 review +work @laptop due:2026-05-07 rec:+1w t:2026-05-01");
    assert!(!t.done);
    assert_eq!(t.priority, Some('B'));
    assert_eq!(t.created_date.as_deref(), Some("2026-05-02"));
    assert_eq!(t.projects, vec!["work".to_string()]);
    assert_eq!(t.contexts, vec!["laptop".to_string()]);
    assert_eq!(t.due.as_deref(), Some("2026-05-07"));
    assert_eq!(t.rec.as_deref(), Some("+1w"));
    assert_eq!(t.threshold.as_deref(), Some("2026-05-01"));
    let u = &d.tasks[1];
    assert!(u.done);
    assert_eq!(u.done_date.as_deref(), Some("2026-05-05"));
    assert_eq!(u.created_date.as_deref(), Some("2026-05-01"));
    assert_eq!(u.priority, None);
}

#[test]
fn import_then_eject_gives_the_todotxt_lines_back() {
    let txt = "(A) 2026-08-01 legacy +work\nx 2026-08-03 2026-08-01 finished\nplain\n";
    let md = from_todotxt(txt);
    assert_eq!(md, "- [ ] (A) 2026-08-01 legacy +work\n- [x] 2026-08-03 2026-08-01 finished\n- [ ] plain\n");
    let (back, dropped) = to_todotxt(&md);
    assert_eq!(back, txt);
    assert_eq!(dropped, 0);
}

#[test]
fn eject_drops_prose_and_counts_it() {
    let (txt, dropped) = to_todotxt("# H\n\n- [ ] a\nsome prose\n- [X] 2026-01-02 b\n");
    assert_eq!(txt, "a\nx 2026-01-02 b\n");
    assert_eq!(dropped, 2);
}

#[test]
fn todotxt_prefixes_are_recognised() {
    assert!(starts_with_priority(&chars("(A) x")));
    assert!(starts_with_priority(&chars("(Z)")));
    assert!(!starts_with_priority(&chars("(a) x")));
    assert!(!starts_with_priority(&chars("(A)x")));
    assert!(starts_with_iso_date(&chars("2026-05-01 x")));
    assert!(!starts_with_iso_date(&chars("2026-5-01 x")));
}

#[test]
fn dates_parse_to_day_numbers() {
    let a = parse_date(&chars("2026-05-06")).unwrap();
    let b = parse_date(&chars("2026-05-07")).unwrap();
    assert_eq!(b, a + 1);
    let c = parse_date(&chars("2024-03-01")).unwrap();
    let d = parse_date(&chars("2024-02-28")).unwrap();
    assert_eq!(c, d + 2, "2024 is a leap year");
    assert!(parse_date(&chars("2026-02-30")).is_none());
    assert!(parse_date(&chars("2026-13-01")).is_none());
    assert!(parse_date(&chars("not a date")).is_none());
}

#[test]
fn due_buckets_follow_the_week() {
    let d = parse_doc("- [ ] a due:2026-05-05\n- [ ] b due:2026-05-06\n- [ ] c due:2026-05-10\n- [ ] d due:2026-05-11\n- [ ] e due:2026-05-18\n- [ ] f\n- [ ] g due:soon\n");
    let b: Vec<ListDueBucket> = d.tasks.iter().map(|t| due_bucket(t, "2026-05-06", Weekday::Monday)).collect();
    assert_eq!(
        b,
        vec![
            ListDueBucket::Overdue,
            ListDueBucket::Today,
            ListDueBucket::ThisWeek,
            ListDueBucket::NextWeek,
            ListDueBucket::Later,
            ListDueBucket::NoDue,
            ListDueBucket::NoDue,
        ]
    );
}

#[test]
fn thresholds_hide_future_tasks() {
    let d = parse_doc("- [ ] a t:2026-05-07\n- [ ] b t:2026-05-06\n- [ ] c due:2026-05-10 t:-3d\n- [ ] d due:2026-05-10 t:-1w\n- [ ] e\n");
    let f: Vec<bool> = d.tasks.iter().map(|t| is_future(t, "2026-05-06")).collect();
    assert_eq!(f, vec![true, false, true, false, false]);
}

#[test]
fn search_is_a_case_insensitive_subsequence() {
    assert!(subsequence_match(&chars("cade"), &chars("call dentist")));
    assert!(subsequence_match(&chars("CD"), &chars("call dentist")));
    assert!(!subsequence_match(&chars("dc"), &chars("cd")));
    assert!(subsequence_match(&chars(""), &chars("anything")));
}

#[test]
fn reconcile_reloads_only_a_changed_file() {
    let mut store = Store::open_sync(
        "/tmp/chiba-test/todo.md".into(),
        "- [ ] a\n".into(),
        "2026-05-06".into(),
        ReadResult::NotFound,
    );
    assert!(matches!(store.reconcile(ReadResult::Read("- [ ] a\n".into())), Reconcile::Unchanged));
    assert!(matches!(store.reconcile(ReadResult::Read("- [ ] a\n- [ ] b\n".into())), Reconcile::Reloaded));
    assert_eq!(store.tasks().len(), 2);
    assert!(matches!(store.reconcile(ReadResult::NotFound), Reconcile::Missing));
    assert_eq!(store.tasks().len(), 2);
    assert_eq!(store.persist_body(), "- [ ] a\n- [ ] b\n");
}

#[test]
fn a_removed_task_takes_nothing_else_with_it() {
    let mut store = Store::open_sync(
        "/tmp/chiba-test/todo.md".into(),
        "# H\n- [ ] a\nprose about b\n- [ ] b\n- [ ] c\n".into(),
        "2026-05-06".into(),
        ReadResult::NotFound,
    );
    let t = store.task_remove(1);
    assert_eq!(t.raw, "b");
    assert_eq!(store.persist_body(), "# H\n- [ ] a\nprose about b\n- [ ] c\n");
    // Text before the task that is pushed down travels with it.
    store.task_insert(0, t);
    assert_eq!(store.persist_body(), "- [ ] b\n# H\n- [ ] a\nprose about b\n- [ ] c\n");
}

#[test]
fn days_since_the_epoch_become_dates() {
    assert_eq!(date_of(0).as_deref(), Some("1970-01-01"));
    assert_eq!(date_of(20579).as_deref(), Some("2026-05-06"));
    assert_eq!(date_of(11016).as_deref(), Some("2000-02-29"));
    assert_eq!(date_of(2932896).as_deref(), Some("9999-12-31"));
    assert_eq!(date_of(2932897), None);
    let n = parse_date(&chars("2026-05-06")).unwrap();
    assert_eq!(parse_date(&chars(&date_of(20579).unwrap())), Some(n));
}

#[test]
fn a_store_writes_back_a_file_without_a_final_newline_as_it_was() {
    let mut store = Store::open_sync(
        "/tmp/chiba-test/todo.md".into(),
        "# H\n- [ ] a\n- [ ] b".into(),
        "2026-05-06".into(),
        ReadResult::NotFound,
    );
    assert_eq!(store.persist_body(), "# H\n- [ ] a\n- [ ] b");
    let t = store.task_remove(0);
    assert_eq!(t.raw, "a");
    assert_eq!(store.persist_body(), "# H\n- [ ] b");
}
