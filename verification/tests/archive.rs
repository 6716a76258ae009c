use chiba::app::ArchiveMode;
use chiba::convert::from_todotxt;
use chiba::store::archive::{ArchiveJob, LoaderEvent};
use chiba::store::outcome::{
    ArchiveDeleteOutcome, ArchiveOutcome, IoFailure, ReadResult, Reconcile, Step, UnarchiveOutcome,
};
use chiba::store::{Archive, Store};

fn md(raw: &str) -> String {
    from_todotxt(raw)
}

const TODO: &str = "/tmp/chiba-test/todo.md";

fn build_store(raw: &str) -> Store {
    Store::open_sync(TODO.to_string(), md(raw), "2026-05-06".to_string(), ReadResult::NotFound)
}

fn store_with_done(raw: &str, done: &str) -> Store {
    Store::open_sync(
        TODO.to_string(),
        md(raw),
        "2026-05-06".to_string(),
        ReadResult::Read(md(done)),
    )
}

fn raws(ts: &[chiba::todo::Task]) -> Vec<String> {
    ts.iter().map(|t| t.raw.clone()).collect()
}

#[test]
fn archive_nothing_when_no_completed() {
    let mut store = build_store("a\nb\n");
    let disk = store.last_disk.clone();
    assert!(matches!(
        store.archive_completed(ArchiveMode::File, ReadResult::Read(disk), ReadResult::NotFound),
        Step::Finished(ArchiveOutcome::Nothing)
    ));
}

#[test]
fn poll_archive_preserves_archived_on_io_error() {
    let mut store = build_store("a\n");
    let path = store.archive.path().to_string();
    store.archive = Archive::load_sync_at(path, ReadResult::Read(md("x 2026-05-01 2026-04-01 prior\n")));
    let err = IoFailure { message: "denied".into() };
    assert!(!store.apply_archive_read(ReadResult::Failed(err)));
    assert_eq!(store.archive.len(), 1);
}

#[test]
fn in_place_skips_polling_the_done_file() {
    let mut store = build_store("a\n");
    // Even with a real external edit pending, in-place never looks.
    let edit = ReadResult::Read(md("x 2026-05-01 2026-04-01 external\n"));
    assert!(!store.poll_archive_with(ArchiveMode::InPlace, LoaderEvent::Gone, edit));
    assert_eq!(store.archive.len(), 0);
}

#[test]
fn archiving_writes_the_done_file_then_the_todo_file() {
    let raw = "(A) 2026-05-01 keep this +work\nx 2026-05-05 2026-05-01 archive this +work\n";
    let mut store = build_store(raw);
    let disk = store.last_disk.clone();
    let step = store.archive_completed(
        ArchiveMode::File,
        ReadResult::Read(disk),
        ReadResult::Read(md("x 2026-04-01 2026-03-01 prior\n")),
    );
    // The archive file is written first, holding the prior entries and the new one.
    let job = match step {
        Step::Write { path, body, job } => {
            assert!(path.ends_with("done.md"));
            assert!(body.contains("prior"));
            assert!(body.contains("archive this"));
            assert!(!body.contains("keep this"));
            job
        }
        Step::Finished(o) => panic!("expected a write, got {o:?}"),
    };
    assert!(matches!(job, ArchiveJob::WriteArchive(_)));
    // Then the task file, without the completed task.
    let step = store.archive_step(job, Ok(()));
    let job = match step {
        Step::Write { path, body, job } => {
            assert_eq!(path, TODO);
            assert!(body.contains("keep this"));
            assert!(!body.contains("archive this"));
            job
        }
        Step::Finished(o) => panic!("expected a write, got {o:?}"),
    };
    let step = store.archive_step(job, Ok(()));
    assert!(matches!(step, Step::Finished(ArchiveOutcome::Archived { count: 1 })));
    assert_eq!(raws(store.tasks()), vec!["(A) 2026-05-01 keep this +work".to_string()]);
    assert_eq!(store.archive.len(), 2);
    assert_eq!(store.history().len(), 1);
}

#[test]
fn in_place_archives_nothing_and_writes_nothing() {
    let raw = "(A) 2026-05-01 keep this +work\nx 2026-05-05 2026-05-01 completed thing +work\n";
    let mut store = build_store(raw);
    let disk = store.last_disk.clone();
    let outcome = store.archive_completed(ArchiveMode::InPlace, ReadResult::Read(disk), ReadResult::NotFound);
    assert!(matches!(outcome, Step::Finished(ArchiveOutcome::InPlace { count: 1 })));
    assert_eq!(store.tasks().len(), 2, "the completed task stays in the list");
    assert!(store.history().is_empty(), "nothing happened, so nothing to undo");
}

#[test]
fn archiving_is_aborted_when_the_todo_file_changed() {
    let mut store = build_store("x 2026-05-05 2026-05-01 done\n");
    let step = store.archive_completed(
        ArchiveMode::File,
        ReadResult::Read(md("x 2026-05-05 2026-05-01 done\nexternal\n")),
        ReadResult::NotFound,
    );
    assert!(matches!(step, Step::Finished(ArchiveOutcome::Aborted(Reconcile::Reloaded))));
    // The store now holds the file as it is on disk.
    assert_eq!(raws(store.tasks()), vec!["2026-05-05 2026-05-01 done".to_string(), "external".to_string()]);
    assert_eq!(store.archive.len(), 0);
    assert!(store.history().is_empty());
}

#[test]
fn unarchiving_is_aborted_when_the_todo_file_is_gone() {
    let mut store = store_with_done("a\n", "x 2026-05-01 2026-04-01 first\n");
    let done = store.archive.last_disk.clone();
    let step = store.unarchive(0, ReadResult::NotFound, ReadResult::Read(done));
    assert!(matches!(step, Step::Finished(UnarchiveOutcome::Aborted(Reconcile::Missing))));
    assert_eq!(store.tasks().len(), 1);
    assert_eq!(store.archive.len(), 1);
}

#[test]
fn archive_loader_result_lands_then_external_edits_are_noticed() {
    let mut store = Store::new(TODO.to_string(), md("(A) 2026-05-06 still open\n"), "2026-05-06".to_string());
    assert!(store.archive.loading);
    assert!(!store.poll_archive(LoaderEvent::Pending, ReadResult::NotFound));
    let body = md("x 2026-05-01 2026-04-01 first\nx 2026-05-02 2026-04-15 second\n");
    assert!(store.poll_archive(LoaderEvent::Landed(body.clone()), ReadResult::NotFound));
    assert!(!store.archive.loading);
    assert_eq!(store.archive.len(), 2);
    assert!(store.archive.tasks()[0].raw.contains("first"));
    // Unchanged on disk: nothing to do.
    assert!(!store.poll_archive(LoaderEvent::Gone, ReadResult::Read(body)));
    // Edited on disk: reloaded.
    let edited = md("x 2026-05-05 2026-05-01 added externally\n");
    assert!(store.poll_archive(LoaderEvent::Gone, ReadResult::Read(edited)));
    assert_eq!(store.archive.len(), 1);
    assert!(store.archive.tasks()[0].raw.contains("added externally"));
}

#[test]
fn unarchive_moves_a_task_back_and_keeps_the_done_prose() {
    let mut store = Store::open_sync(
        TODO.to_string(),
        "- [ ] live\n".to_string(),
        "2026-05-06".to_string(),
        ReadResult::Read(
            "# Archived\n\nStuff I finished.\n\n- [x] 2026-05-01 2026-04-01 first\n- [x] 2026-05-02 2026-04-02 second\n"
                .to_string(),
        ),
    );
    let disk = store.last_disk.clone();
    let done = store.archive.last_disk.clone();
    let step = store.unarchive(0, ReadResult::Read(disk), ReadResult::Read(done));
    let job = match step {
        Step::Write { body, job, .. } => {
            assert!(body.contains("# Archived"), "heading eaten:\n{body}");
            assert!(body.contains("Stuff I finished."), "prose eaten:\n{body}");
            assert!(!body.contains("first"), "unarchived task should be gone");
            assert!(body.contains("second"), "other archived task should remain");
            job
        }
        Step::Finished(o) => panic!("expected a write, got {o:?}"),
    };
    let step = store.unarchive_step(job, Ok(()));
    let job = match step {
        Step::Write { body, job, .. } => {
            assert!(body.contains("live"));
            assert!(body.contains("first"));
            job
        }
        Step::Finished(o) => panic!("expected a write, got {o:?}"),
    };
    let step = store.unarchive_step(job, Ok(()));
    assert!(matches!(step, Step::Finished(UnarchiveOutcome::Unarchived)));
    assert_eq!(store.tasks().len(), 2);
    assert!(!store.tasks()[1].done);
    assert_eq!(store.archive.len(), 1);
}

#[test]
fn unarchive_out_of_range_changes_nothing() {
    let mut store = store_with_done("a\n", "x 2026-05-01 2026-04-01 first\n");
    let disk = store.last_disk.clone();
    let done = store.archive.last_disk.clone();
    let step = store.unarchive(5, ReadResult::Read(disk), ReadResult::Read(done));
    assert!(matches!(step, Step::Finished(UnarchiveOutcome::OutOfRange)));
    assert_eq!(store.archive.len(), 1);
}

#[test]
fn archive_delete_refreshes_the_done_file_before_writing() {
    let mut store = store_with_done("open\n", "x 2026-05-01 2026-04-01 stale\n");
    let external = md("x 2026-05-01 2026-04-01 stale\nx 2026-05-02 2026-04-02 external\n");
    let step = store.archive_delete(0, ReadResult::Read(external));
    assert!(matches!(step, Step::Finished(ArchiveDeleteOutcome::DoneReloaded)));
    assert_eq!(store.archive.len(), 2);
    let done = store.archive.last_disk.clone();
    let step = store.archive_delete(0, ReadResult::Read(done));
    let plan = match step {
        Step::Write { body, job, .. } => {
            assert!(!body.contains("stale"));
            assert!(body.contains("external"));
            job
        }
        Step::Finished(o) => panic!("expected a write, got {o:?}"),
    };
    let step = store.archive_delete_step(plan, Ok(()));
    assert!(matches!(step, Step::Finished(ArchiveDeleteOutcome::Deleted)));
    assert_eq!(store.archive.len(), 1);
}

#[test]
fn a_failed_archive_write_is_reported() {
    let mut store = build_store("x 2026-05-05 2026-05-01 done\n");
    let disk = store.last_disk.clone();
    let step = store.archive_completed(ArchiveMode::File, ReadResult::Read(disk), ReadResult::NotFound);
    let job = match step {
        Step::Write { job, .. } => job,
        Step::Finished(o) => panic!("expected a write, got {o:?}"),
    };
    let step = store.archive_step(job, Err(IoFailure { message: "denied".into() }));
    assert!(matches!(step, Step::Finished(ArchiveOutcome::Error(_))));
    assert_eq!(store.tasks().len(), 1);
    assert_eq!(store.archive.len(), 0);
}

#[test]
fn the_archive_lives_beside_the_task_file() {
    assert_eq!(chiba::store::archive::done_path("/tmp/a/todo.md"), "/tmp/a/done.md");
    assert_eq!(chiba::store::archive::done_path("todo.md"), "done.md");
    let store = build_store("a\n");
    assert_eq!(store.archive.path(), "/tmp/chiba-test/done.md");
}
