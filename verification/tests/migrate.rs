use chiba::convert::to_todotxt;
use chiba::migrate::{plan, state, unmigrated_lines, Direction, Error, State, StemFiles};
use chiba::store::outcome::IoFailure;

const TXT: &str = "(A) 2026-08-01 legacy +work @home due:2026-08-06\n\
                   2026-08-02 another one\n\
                   \n\
                   x 2026-08-03 2026-08-01 finished thing +work\n";

fn found(body: &str) -> StemFiles {
    StemFiles { from_exists: true, backup_exists: false, source: Ok(body.to_string()) }
}

fn absent() -> StemFiles {
    StemFiles { from_exists: false, backup_exists: false, source: Ok(String::new()) }
}

fn significant(s: &str) -> Vec<String> {
    s.lines().map(|l| l.trim_end().to_string()).filter(|l| !l.trim().is_empty()).collect()
}

#[test]
fn unmigrated_lines_spots_a_todotxt_and_ignores_a_note() {
    assert_eq!(unmigrated_lines(TXT), 3);
    let note = "# Journal\n\nToday I wrote some prose about things.\n\nAnd more.\n";
    assert_eq!(unmigrated_lines(note), 0);
    assert_eq!(unmigrated_lines("- [ ] a\n(A) stray legacy line +work\n"), 0);
}

#[test]
fn todotxt_markers_are_recognised_and_prose_is_not() {
    assert_eq!(unmigrated_lines("call mom @phone\n"), 1);
    assert_eq!(unmigrated_lines("ship it due:2026-01-01\n"), 1);
    assert_eq!(unmigrated_lines("time is 10:30 now\n"), 1);
    assert_eq!(unmigrated_lines("a note: with a colon\n"), 0);
    assert_eq!(unmigrated_lines("x done thing\n"), 1);
    assert_eq!(unmigrated_lines("# heading +tag\n```\n~~~\n"), 0);
    assert_eq!(unmigrated_lines("lone + and @ signs\n"), 0);
}

#[test]
fn import_converts_the_whole_file_set() {
    let files = vec![found(TXT), found("x 2026-07-01 2026-06-01 old +work\n"), found("buy milk tomorrow\n")];
    let p = plan("/d", Direction::Import, false, state(false, true), files).unwrap();
    assert_eq!(p.steps.len(), 3);
    assert_eq!(p.steps[0].from, "/d/todo.txt");
    assert_eq!(p.steps[0].to, "/d/todo.md");
    assert_eq!(p.steps[0].backup, "/d/todo.txt.bak");
    assert!(p.steps[0].body.starts_with("- [ ] (A)"));
    assert_eq!(p.steps[1].to, "/d/done.md");
    // The inbox is a plain spool: renamed, never wrapped in checkboxes.
    assert!(p.steps[2].renamed_only);
    assert_eq!(p.steps[2].to, "/d/inbox.md");
    assert_eq!(p.steps[2].body, "buy milk tomorrow\n");
    assert_eq!(p.tasks(), 4);
    assert_eq!(p.dropped(), 0);
}

#[test]
fn import_round_trips_losslessly() {
    let files = vec![found(TXT), absent(), absent()];
    let p = plan("/d", Direction::Import, false, State::TodoTxt, files).unwrap();
    let (back, _) = to_todotxt(&p.steps[0].body);
    assert_eq!(significant(&back), significant(TXT));
    assert_eq!(p.tasks(), 3);
}

#[test]
fn eject_reverses_and_reports_prose_it_cannot_carry() {
    let md = "# Work\n\nNotes.\n\n- [ ] (A) a +work\n- [x] 2026-08-01 2026-07-01 b\n";
    let files = vec![found(md), absent(), absent()];
    let p = plan("/d", Direction::Eject, false, State::Markdown, files).unwrap();
    assert_eq!(p.tasks(), 2);
    assert_eq!(p.dropped(), 2, "heading + prose counted, blanks not");
    assert_eq!(p.steps[0].body, "(A) a +work\nx 2026-08-01 2026-07-01 b\n");
    assert_eq!(p.steps[0].to, "/d/todo.txt");
    assert_eq!(p.steps[0].backup, "/d/todo.md.bak");
}

#[test]
fn both_files_present_is_refused() {
    assert_eq!(state(true, true), State::Ambiguous);
    let r = plan("/d", Direction::Import, false, State::Ambiguous, vec![found(TXT), absent(), absent()]);
    assert!(matches!(r, Err(Error::Ambiguous)));
}

#[test]
fn migrating_twice_is_a_no_op_not_a_disaster() {
    assert_eq!(state(true, false), State::Markdown);
    let r = plan("/d", Direction::Import, false, State::Markdown, vec![found("- [ ] a\n"), absent(), absent()]);
    assert!(matches!(r, Err(Error::NothingToDo)));
    let r = plan("/d", Direction::Eject, false, State::TodoTxt, vec![found("a\n"), absent(), absent()]);
    assert!(matches!(r, Err(Error::NothingToDo)));
    assert_eq!(state(false, false), State::Fresh);
    let r = plan("/d", Direction::Import, false, State::Fresh, vec![absent(), absent(), absent()]);
    assert!(matches!(r, Err(Error::NothingToDo)));
}

#[test]
fn an_existing_backup_is_never_clobbered() {
    let mut todo = found(TXT);
    todo.backup_exists = true;
    let r = plan("/d", Direction::Import, false, State::TodoTxt, vec![todo, absent(), absent()]);
    match r {
        Err(Error::BackupExists(p)) => assert_eq!(p, "/d/todo.txt.bak"),
        other => panic!("expected BackupExists, got {other:?}"),
    }
    let mut todo = found(TXT);
    todo.backup_exists = true;
    assert!(plan("/d", Direction::Import, true, State::TodoTxt, vec![todo, absent(), absent()]).is_ok(), "--force wins");
}

#[test]
fn a_read_failure_names_the_file() {
    let todo = StemFiles { from_exists: true, backup_exists: false, source: Err(IoFailure { message: "denied".into() }) };
    let r = plan("/d", Direction::Import, false, State::TodoTxt, vec![todo, absent(), absent()]);
    match r {
        Err(e) => assert_eq!(e.message(), "/d/todo.txt: denied"),
        Ok(_) => panic!("expected an error"),
    }
}

#[test]
fn error_messages_read_as_the_cli_prints_them() {
    assert_eq!(
        Error::Ambiguous.message(),
        "both todo.md and todo.txt exist — resolve which one is authoritative first"
    );
    assert_eq!(Error::NothingToDo.message(), "nothing to do; already in that format");
    assert_eq!(
        Error::BackupExists("/d/todo.txt.bak".into()).message(),
        "/d/todo.txt.bak already exists — move it aside or pass --force"
    );
    assert_eq!(
        Error::Verify { file: "/d/todo.txt".into(), detail: "3 lines in, 2 back".into() }.message(),
        "/d/todo.txt failed verification (3 lines in, 2 back); nothing was written"
    );
}

#[test]
fn directions_name_their_extensions() {
    assert_eq!(Direction::Import.source_ext(), "txt");
    assert_eq!(Direction::Import.target_ext(), "md");
    assert_eq!(Direction::Eject.source_ext(), "md");
    assert_eq!(Direction::Eject.target_ext(), "txt");
}

#[test]
fn importing_any_todotxt_verifies() {
    let odd = "  indented line  \n\n```\nx \ttab after x\n(Q)\n~~~ tilde\n- [ ] already a box\nlast without newline";
    let p = plan("/d", Direction::Import, false, State::TodoTxt, vec![found(odd), absent(), absent()]).unwrap();
    assert_eq!(p.tasks(), 7);
    let (back, _) = to_todotxt(&p.steps[0].body);
    assert_eq!(significant(&back), significant(odd));
}

#[test]
fn ejecting_an_open_task_that_reads_as_done_is_refused() {
    let md = "- [ ] x marks the spot\n";
    let r = plan("/d", Direction::Eject, false, State::Markdown, vec![found(md), absent(), absent()]);
    match r {
        Err(e) => assert_eq!(e.message(), "/d/todo.md failed verification (1 tasks in, 1 back); nothing was written"),
        Ok(_) => panic!("expected the round trip to fail"),
    }
}

#[test]
fn a_plan_moves_exactly_the_files_that_exist() {
    let files = vec![found("a\n\nb\n"), absent(), found("one\n\ntwo\nthree\n")];
    let p = plan("/d", Direction::Import, false, State::TodoTxt, files).unwrap();
    assert_eq!(p.steps.len(), 2);
    assert_eq!(p.steps[0].from, "/d/todo.txt");
    assert_eq!(p.steps[0].tasks, 2);
    assert!(!p.steps[0].renamed_only);
    assert_eq!(p.steps[1].from, "/d/inbox.txt");
    assert_eq!(p.steps[1].to, "/d/inbox.md");
    assert_eq!(p.steps[1].backup, "/d/inbox.txt.bak");
    assert_eq!(p.steps[1].tasks, 3);
    assert!(p.steps[1].renamed_only);
    assert_eq!(p.tasks(), 2);
}
