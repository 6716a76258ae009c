//! Headless core: the durable task store, its archive, and all task
//! mutations. It carries no view state; operations return structured
//! outcomes. Reading and writing files is the caller's: the store is handed
//! what a read gave, and asks for writes through [`outcome::Step`].
use vstd::prelude::*;
use crate::chars::string_of;
use crate::doc::{
    anchors_wf, clone_tasks, doc_body, doc_out, doc_task_lines, doc_text, lines_of, parse_doc, render,
    serialize_doc, shift_down, shift_up, task_lines, tasks_view, Text,
};
use crate::todo::{opt_view, Task, TaskView};
use crate::store::history::History;
use crate::store::outcome::{read_body, ReadResult, Reconcile, StoreError};

pub mod archive;
pub mod filter;
pub mod history;
pub mod outcome;

pub use archive::Archive;

verus! {

/// All tasks parsed, anchors in order and within the list.
pub open spec fn tasks_wf(ts: Seq<Task>, x: Seq<(int, Seq<char>)>) -> bool {
    &&& anchors_wf(x, ts.len() as int)
    &&& forall|j: int| 0 <= j < ts.len() ==> (#[trigger] ts[j]).parsed()
}

/// The durable task store: the live task list and the text around it, the
/// archive, undo history, and the file body last read or written.
pub struct Store {
    pub tasks: Vec<Task>,
    /// Non-task lines of the todo file, anchored to the tasks they precede.
    pub text: Text,
    pub history: History,
    pub archive: Archive,
    pub file_path: String,
    /// The file body the last time the store read or wrote it.
    pub last_disk: String,
    pub today: String,
}

/// The tasks and text a file body parses into.
pub open spec fn parsed_from(ts: Seq<Task>, x: Seq<(int, Seq<char>)>, body: Seq<char>) -> bool {
    &&& task_lines(ts) == doc_task_lines(lines_of(body))
    &&& x == doc_text(lines_of(body))
    &&& tasks_wf(ts, x)
    &&& render(task_lines(ts), x) == lines_of(body)
}

/// What reconciling the store with a read of its task file gives: an
/// unchanged file leaves everything as it was; a changed one is loaded (its
/// tasks, text and body replace the store's); a missing or unreadable file
/// is reported and changes nothing. The archive, history, path and date are
/// never touched.
pub open spec fn reconciled(before: Store, after: Store, disk: ReadResult, r: Reconcile) -> bool {
    &&& after.archive == before.archive
    &&& after.history == before.history
    &&& after.file_path == before.file_path
    &&& after.today == before.today
    &&& match disk {
        ReadResult::Read(body) => if body@ == before.last_disk@ {
            r is Unchanged && after.tasks == before.tasks && after.text == before.text
                && after.last_disk == before.last_disk
        } else {
            &&& r is Reloaded
            &&& after.last_disk@ == body@
            &&& task_lines(after.tasks@) == doc_task_lines(lines_of(body@))
            &&& after.text@ == doc_text(lines_of(body@))
        },
        ReadResult::NotFound => r is Missing && after.tasks == before.tasks && after.text
            == before.text && after.last_disk == before.last_disk,
        ReadResult::Failed(e) => r == Reconcile::Error(StoreError::Read(e)) && after.tasks
            == before.tasks && after.text == before.text && after.last_disk == before.last_disk,
    }
}

impl Store {
    pub open spec fn wf(&self) -> bool {
        &&& tasks_wf(self.tasks@, self.text@)
        &&& self.archive.wf()
    }

    fn assemble(file_path: String, archive: Archive, body: String, today: String) -> (s: Store)
        requires
            archive.wf(),
        ensures
            s.wf(),
            task_lines(s.tasks@) == doc_task_lines(lines_of(body@)),
            s.text@ == doc_text(lines_of(body@)),
            render(task_lines(s.tasks@), s.text@) == lines_of(body@),
            s.last_disk@ == body@,
            s.today@ == today@,
            s.file_path@ == file_path@,
            s.history.snapshots@.len() == 0,
            s.archive == archive,
    {
        let doc = parse_doc(body.as_str());
        Store {
            tasks: doc.tasks,
            text: doc.text,
            history: History::new(),
            archive,
            file_path,
            last_disk: body,
            today,
        }
    }

    /// A store whose archive (`done.md` beside the task file) loads in the
    /// background: it starts empty and pending.
    pub fn new(file_path: String, body: String, today: String) -> (s: Store)
        ensures
            s.wf(),
            task_lines(s.tasks@) == doc_task_lines(lines_of(body@)),
            s.text@ == doc_text(lines_of(body@)),
            s.last_disk@ == body@,
            s.today@ == today@,
            s.file_path@ == file_path@,
            s.history.snapshots@.len() == 0,
            s.archive.loading,
            s.archive.tasks@.len() == 0,
            s.archive.path@ == archive::done_path_spec(file_path@),
    {
        let archive = Archive::spawn(file_path.as_str());
        Self::assemble(file_path, archive, body, today)
    }

    /// As [`Store::new`], with an explicit archive path.
    pub fn new_with_done(file_path: String, done_path: String, body: String, today: String) -> (s:
        Store)
        ensures
            s.wf(),
            task_lines(s.tasks@) == doc_task_lines(lines_of(body@)),
            s.text@ == doc_text(lines_of(body@)),
            s.last_disk@ == body@,
            s.today@ == today@,
            s.file_path@ == file_path@,
            s.history.snapshots@.len() == 0,
            s.archive.loading,
            s.archive.tasks@.len() == 0,
            s.archive.path@ == done_path@,
    {
        let archive = Archive::spawn_at(done_path);
        Self::assemble(file_path, archive, body, today)
    }

    /// A store whose archive is loaded now, from what reading `done.md`
    /// beside the task file gave (a failed read counts as empty).
    pub fn open_sync(file_path: String, body: String, today: String, done_read: ReadResult) -> (s:
        Store)
        ensures
            s.wf(),
            task_lines(s.tasks@) == doc_task_lines(lines_of(body@)),
            s.text@ == doc_text(lines_of(body@)),
            s.last_disk@ == body@,
            s.today@ == today@,
            s.file_path@ == file_path@,
            s.history.snapshots@.len() == 0,
            !s.archive.loading,
            s.archive.path@ == archive::done_path_spec(file_path@),
            s.archive.last_disk@ == archive::loaded_body(done_read),
            task_lines(s.archive.tasks@) == doc_task_lines(lines_of(archive::loaded_body(done_read))),
            s.archive.text@ == doc_text(lines_of(archive::loaded_body(done_read))),
    {
        let archive = Archive::load_sync(file_path.as_str(), done_read);
        Self::assemble(file_path, archive, body, today)
    }

    /// As [`Store::open_sync`], with an explicit archive path.
    pub fn open_sync_with_done(
        file_path: String,
        done_path: String,
        body: String,
        today: String,
        done_read: ReadResult,
    ) -> (s: Store)
        ensures
            s.wf(),
            task_lines(s.tasks@) == doc_task_lines(lines_of(body@)),
            s.text@ == doc_text(lines_of(body@)),
            s.last_disk@ == body@,
            s.today@ == today@,
            s.file_path@ == file_path@,
            s.history.snapshots@.len() == 0,
            !s.archive.loading,
            s.archive.path@ == done_path@,
            s.archive.last_disk@ == archive::loaded_body(done_read),
            task_lines(s.archive.tasks@) == doc_task_lines(lines_of(archive::loaded_body(done_read))),
            s.archive.text@ == doc_text(lines_of(archive::loaded_body(done_read))),
    {
        let archive = Archive::load_sync_at(done_path, done_read);
        Self::assemble(file_path, archive, body, today)
    }

    pub fn tasks(&self) -> (r: &[Task])
        ensures
            r@ == self.tasks@,
    {
        self.tasks.as_slice()
    }

    pub fn archive(&self) -> (r: &Archive)
        ensures
            r == self.archive,
    {
        &self.archive
    }

    pub fn today(&self) -> (r: &str)
        ensures
            r@ == self.today@,
    {
        self.today.as_str()
    }

    pub fn file_path(&self) -> (r: &str)
        ensures
            r@ == self.file_path@,
    {
        self.file_path.as_str()
    }

    pub fn history(&self) -> (r: &History)
        ensures
            r == self.history,
    {
        &self.history
    }

    /// The body of the task at `abs`, or `None` when out of range.
    pub fn task_raw(&self, abs: usize) -> (r: Option<String>)
        ensures
            abs < self.tasks@.len() ==> (r matches Some(s) && s@ == self.tasks@[abs as int].raw@),
            abs >= self.tasks@.len() ==> r is None,
    {
        if abs < self.tasks.len() {
            Some(self.tasks[abs].raw.clone())
        } else {
            None
        }
    }

    /// At least one live task is marked done.
    pub fn has_completed(&self) -> (b: bool)
        ensures
            b == exists|j: int| 0 <= j < self.tasks@.len() && (#[trigger] self.tasks@[j]).done,
    {
        let mut i: usize = 0;
        while i < self.tasks.len()
            invariant
                i <= self.tasks@.len(),
                forall|j: int| 0 <= j < i ==> !(#[trigger] self.tasks@[j]).done,
            decreases self.tasks@.len() - i,
        {
            if self.tasks[i].done {
                return true;
            }
            i = i + 1;
        }
        false
    }

    /// Updates the cached "today"; `true` iff it changed.
    pub fn set_today(&mut self, today: String) -> (changed: bool)
        ensures
            changed == (old(self).today@ != today@),
            final(self).today@ == today@,
            final(self).tasks == old(self).tasks,
            final(self).text == old(self).text,
            final(self).archive == old(self).archive,
            final(self).history == old(self).history,
            final(self).last_disk == old(self).last_disk,
            final(self).file_path == old(self).file_path,
    {
        if self.today == today {
            return false;
        }
        self.today = today;
        true
    }

    /// Inserts a task at `idx`, moving the text anchors with it.
    pub fn task_insert(&mut self, idx: usize, task: Task)
        requires
            old(self).wf(),
            task.parsed(),
            idx <= old(self).tasks@.len(),
            old(self).tasks@.len() + 1 < usize::MAX,
        ensures
            final(self).wf(),
            final(self).tasks@ == old(self).tasks@.insert(idx as int, task),
            final(self).text@ == shift_up(old(self).text@, idx as int),
            final(self).archive == old(self).archive,
            final(self).history == old(self).history,
            final(self).last_disk == old(self).last_disk,
            final(self).file_path == old(self).file_path,
            final(self).today == old(self).today,
    {
        proof {
            crate::doc::law_insert_keeps_other_lines(
                task_lines(self.tasks@),
                self.text@,
                idx as int,
                task.line(),
            );
        }
        self.text.on_insert(idx);
        self.tasks.insert(idx, task);
        proof {
            assert forall|j: int| 0 <= j < self.tasks@.len() implies (#[trigger] self.tasks@[j]).parsed() by {
                if j < idx {
                    assert(self.tasks@[j] == old(self).tasks@[j]);
                } else if j > idx {
                    assert(self.tasks@[j] == old(self).tasks@[j - 1]);
                }
            }
        }
    }

    /// Removes the task at `idx`, moving the text anchors past it.
    pub fn task_remove(&mut self, idx: usize) -> (t: Task)
        requires
            old(self).wf(),
            idx < old(self).tasks@.len(),
        ensures
            final(self).wf(),
            t == old(self).tasks@[idx as int],
            final(self).tasks@ == old(self).tasks@.remove(idx as int),
            final(self).text@ == shift_down(old(self).text@, idx as int),
            final(self).archive == old(self).archive,
            final(self).history == old(self).history,
            final(self).last_disk == old(self).last_disk,
            final(self).file_path == old(self).file_path,
            final(self).today == old(self).today,
    {
        proof {
            crate::doc::law_remove_keeps_other_lines(task_lines(self.tasks@), self.text@, idx as int);
        }
        self.text.on_remove(idx);
        let t = self.tasks.remove(idx);
        proof {
            assert forall|j: int| 0 <= j < self.tasks@.len() implies (#[trigger] self.tasks@[j]).parsed() by {
                if j < idx {
                    assert(self.tasks@[j] == old(self).tasks@[j]);
                } else {
                    assert(self.tasks@[j] == old(self).tasks@[j + 1]);
                }
            }
        }
        t
    }

    /// Appends a task; anchors are untouched, so it lands after any
    /// trailing prose.
    pub fn task_push(&mut self, task: Task)
        requires
            old(self).wf(),
            task.parsed(),
            old(self).tasks@.len() + 1 < usize::MAX,
        ensures
            final(self).wf(),
            final(self).tasks@ == old(self).tasks@.push(task),
            final(self).text == old(self).text,
            final(self).archive == old(self).archive,
            final(self).history == old(self).history,
            final(self).last_disk == old(self).last_disk,
            final(self).file_path == old(self).file_path,
            final(self).today == old(self).today,
    {
        proof {
            crate::doc::law_push_lands_last(task_lines(self.tasks@), self.text@, task.line());
        }
        self.tasks.push(task);
        proof {
            assert forall|j: int| 0 <= j < self.tasks@.len() implies (#[trigger] self.tasks@[j]).parsed() by {
                if j < old(self).tasks@.len() {
                    assert(self.tasks@[j] == old(self).tasks@[j]);
                }
            }
        }
    }

    /// Records the current tasks and text for undo.
    pub fn push_history(&mut self)
        ensures
            final(self).history.view_seq() == old(self).history.view_seq().push(
                (tasks_view(old(self).tasks@), old(self).text@),
            ),
            final(self).tasks == old(self).tasks,
            final(self).text == old(self).text,
            final(self).archive == old(self).archive,
            final(self).last_disk == old(self).last_disk,
            final(self).file_path == old(self).file_path,
            final(self).today == old(self).today,
    {
        let ts = clone_tasks(&self.tasks);
        let tx = self.text.duplicate();
        self.history.push(ts, tx);
    }

    /// Checks the task file against the body last read or written: an
    /// unchanged file leaves everything as it is; a changed one is loaded.
    pub fn reconcile(&mut self, disk: ReadResult) -> (r: Reconcile)
        requires
            old(self).wf(),
        ensures
            final(self).wf(),
            reconciled(*old(self), *final(self), disk, r),
    {
        match disk {
            ReadResult::Read(body) => {
                if body == self.last_disk {
                    Reconcile::Unchanged
                } else {
                    let doc = parse_doc(body.as_str());
                    self.tasks = doc.tasks;
                    self.text = doc.text;
                    self.last_disk = body;
                    Reconcile::Reloaded
                }
            },
            ReadResult::NotFound => Reconcile::Missing,
            ReadResult::Failed(e) => Reconcile::Error(StoreError::Read(e)),
        }
    }

    /// The body the task file is written as now.
    pub fn persist_body(&self) -> (b: String)
        ensures
            b@ == doc_out(self.tasks@, self.text),
    {
        serialize_doc(self.tasks.as_slice(), &self.text)
    }

    /// Records that `body` was written to the task file, or reports the
    /// failure.
    pub fn persist_done(&mut self, body: String, written: Result<(), crate::store::outcome::IoFailure>) -> (r:
        Result<(), StoreError>)
        ensures
            final(self).tasks == old(self).tasks,
            final(self).text == old(self).text,
            final(self).archive == old(self).archive,
            final(self).history == old(self).history,
            match written {
                Ok(()) => r is Ok && final(self).last_disk@ == body@,
                Err(e) => r == Err::<(), StoreError>(StoreError::Write(e)) && final(self).last_disk
                    == old(self).last_disk,
            },
    {
        match written {
            Ok(()) => {
                self.last_disk = body;
                Ok(())
            },
            Err(e) => Err(StoreError::Write(e)),
        }
    }
}

} // verus!
