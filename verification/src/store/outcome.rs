//! Structured results of store operations, and the I/O results the store is
//! handed.
use vstd::prelude::*;

verus! {

/// An I/O failure, described.
#[derive(Debug)]
pub struct IoFailure {
    pub message: String,
}

/// The result of reading a file.
#[derive(Debug)]
pub enum ReadResult {
    Read(String),
    NotFound,
    Failed(IoFailure),
}

/// The body a read gives, a missing file counting as empty; `None` when
/// the read failed.
pub open spec fn read_body(r: ReadResult) -> Option<Seq<char>> {
    match r {
        ReadResult::Read(s) => Some(s@),
        ReadResult::NotFound => Some(Seq::empty()),
        ReadResult::Failed(_) => None,
    }
}

#[derive(Debug)]
pub enum StoreError {
    /// Reading or writing the archive file failed.
    ArchiveIo(IoFailure),
    /// Writing the task file failed.
    Write(IoFailure),
    /// Reading the task file failed.
    Read(IoFailure),
}

/// What checking the task file against the last known body found.
#[derive(Debug)]
pub enum Reconcile {
    /// The file is as the store last read or wrote it.
    Unchanged,
    /// The file changed on disk; the store now holds its new contents.
    Reloaded,
    /// The file is gone.
    Missing,
    Error(StoreError),
}

#[derive(Debug)]
pub enum ArchiveOutcome {
    Archived { count: usize },
    Nothing,
    InPlace { count: usize },
    Aborted(Reconcile),
    Error(StoreError),
}

#[derive(Debug)]
pub enum UnarchiveOutcome {
    Unarchived,
    OutOfRange,
    DoneReloaded,
    Aborted(Reconcile),
    Error(StoreError),
}

#[derive(Debug)]
pub enum ArchiveDeleteOutcome {
    Deleted,
    OutOfRange,
    DoneReloaded,
    Error(StoreError),
}

/// One step of an operation that writes files: either it is finished, or
/// the caller writes `body` to `path` and hands the result back with `job`.
pub enum Step<J, O> {
    Finished(O),
    Write { path: String, body: String, job: J },
}

} // verus!
