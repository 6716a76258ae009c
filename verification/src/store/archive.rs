//! The archive (`done.md`): loading it, noticing external edits, and moving
//! tasks into it and back out.
use vstd::prelude::*;
use crate::app::ArchiveMode;
use crate::chars::{push_char, string_of};
use crate::doc::{
    anchors_wf, clone_tasks, doc_body, doc_out, doc_task_lines, doc_text, join_lines, lines_of, parse_doc, render,
    serialize_doc, shift_down, task_lines, tasks_view, Text,
};
use crate::paths::{join, parent_of, path_join, path_parent};
use crate::store::outcome::{
    read_body, ArchiveDeleteOutcome, ArchiveOutcome, IoFailure, ReadResult, Reconcile, Step,
    StoreError, UnarchiveOutcome,
};
use crate::store::{parsed_from, reconciled, tasks_wf, Store};
use crate::todo::{lemma_parsed_view, unmark_raw, Task, TaskView};

verus! {

/// The archived tasks and the text around them, the archive file's path,
/// its body as last read or written, and whether the initial load is still
/// pending.
pub struct Archive {
    pub tasks: Vec<Task>,
    pub text: Text,
    pub path: String,
    pub last_disk: String,
    pub loading: bool,
}

pub open spec fn done_name() -> Seq<char> {
    seq!['d', 'o', 'n', 'e', '.', 'm', 'd']
}

/// `done.md` in the directory of the task file.
pub open spec fn done_path_spec(todo_path: Seq<char>) -> Seq<char> {
    match path_parent(todo_path) {
        Some(d) => path_join(d, done_name()),
        None => done_name(),
    }
}

/// What a startup load takes from a read: the body, or nothing at all.
pub open spec fn loaded_body(r: ReadResult) -> Seq<char> {
    match r {
        ReadResult::Read(s) => s@,
        _ => Seq::empty(),
    }
}

fn done_name_string() -> (s: String)
    ensures
        s@ == done_name(),
{
    let v = ['d', 'o', 'n', 'e', '.', 'm', 'd'];
    let s = string_of(&v);
    assert(s@ =~= done_name());
    s
}

/// `done.md` beside the task file.
pub fn done_path(todo_path: &str) -> (p: String)
    ensures
        p@ == done_path_spec(todo_path@),
{
    let name = done_name_string();
    match parent_of(todo_path) {
        Some(d) => join(d.as_str(), name.as_str()),
        None => name,
    }
}

impl Archive {
    pub open spec fn wf(&self) -> bool {
        tasks_wf(self.tasks@, self.text@)
    }

    /// An archive for `done.md` beside `todo_path` whose contents arrive
    /// later (the caller reads the file in the background).
    pub fn spawn(todo_path: &str) -> (a: Archive)
        ensures
            a.wf(),
            a.loading,
            a.tasks@.len() == 0,
            a.text@.len() == 0,
            a.last_disk@.len() == 0,
            a.path@ == done_path_spec(todo_path@),
    {
        Self::spawn_at(done_path(todo_path))
    }

    /// As [`Archive::spawn`], for an explicit path.
    pub fn spawn_at(path: String) -> (a: Archive)
        ensures
            a.wf(),
            a.loading,
            a.tasks@.len() == 0,
            a.text@.len() == 0,
            a.last_disk@.len() == 0,
            a.path == path,
    {
        let a = Archive { tasks: Vec::new(), text: Text::new(), path, last_disk: String::new(), loading: false };
        Archive { loading: true, ..a }
    }

    /// An archive for `done.md` beside `todo_path`, loaded from what
    /// reading it gave; any failure reads as empty.
    pub fn load_sync(todo_path: &str, read: ReadResult) -> (a: Archive)
        ensures
            a.wf(),
            !a.loading,
            a.path@ == done_path_spec(todo_path@),
            a.last_disk@ == loaded_body(read),
            task_lines(a.tasks@) == doc_task_lines(lines_of(loaded_body(read))),
            a.text@ == doc_text(lines_of(loaded_body(read))),
    {
        Self::load_sync_at(done_path(todo_path), read)
    }

    /// As [`Archive::load_sync`], for an explicit path.
    pub fn load_sync_at(path: String, read: ReadResult) -> (a: Archive)
        ensures
            a.wf(),
            !a.loading,
            a.path == path,
            a.last_disk@ == loaded_body(read),
            task_lines(a.tasks@) == doc_task_lines(lines_of(loaded_body(read))),
            a.text@ == doc_text(lines_of(loaded_body(read))),
    {
        let body = match read {
            ReadResult::Read(s) => s,
            _ => String::new(),
        };
        let doc = parse_doc(body.as_str());
        Archive { tasks: doc.tasks, text: doc.text, path, last_disk: body, loading: false }
    }

    pub fn tasks(&self) -> (r: &[Task])
        ensures
            r@ == self.tasks@,
    {
        self.tasks.as_slice()
    }

    pub fn path(&self) -> (r: &str)
        ensures
            r@ == self.path@,
    {
        self.path.as_str()
    }

    pub fn len(&self) -> (n: usize)
        ensures
            n == self.tasks@.len(),
    {
        self.tasks.len()
    }

    pub fn is_empty(&self) -> (b: bool)
        ensures
            b == (self.tasks@.len() == 0),
    {
        self.tasks.len() == 0
    }
}

/// What the background load of the archive reported.
pub enum LoaderEvent {
    /// The load finished with this file body.
    Landed(String),
    /// Still running.
    Pending,
    /// The loader went away without a result.
    Gone,
}

/// The archive before a mutation that rewrites it.
pub enum ArchiveRefresh {
    Ready,
    Reloaded,
    Error(IoFailure),
}

// ----- specifications of the archive operations -------------------------------
/// The completed tasks, in order.
pub open spec fn done_list(ts: Seq<Task>) -> Seq<Task>
    decreases ts.len(),
{
    if ts.len() == 0 {
        Seq::empty()
    } else if ts.last().done {
        done_list(ts.drop_last()).push(ts.last())
    } else {
        done_list(ts.drop_last())
    }
}

/// The open tasks, in order.
pub open spec fn open_list(ts: Seq<TaskView>) -> Seq<TaskView>
    decreases ts.len(),
{
    if ts.len() == 0 {
        Seq::empty()
    } else if ts[0].done {
        open_list(ts.drop_first())
    } else {
        seq![ts[0]] + open_list(ts.drop_first())
    }
}

/// The text after removing every completed task at or past `i`, highest
/// index first.
pub open spec fn strip_text(ts: Seq<TaskView>, x: Seq<(int, Seq<char>)>, i: int) -> Seq<(int, Seq<char>)>
    decreases ts.len() - i,
{
    if i >= ts.len() || i < 0 {
        x
    } else {
        let x1 = strip_text(ts, x, i + 1);
        if ts[i].done {
            shift_down(x1, i)
        } else {
            x1
        }
    }
}

/// A previous archive body with more lines appended, a line feed put
/// between them when the old body does not end in one.
pub open spec fn combine(prev: Seq<char>, add: Seq<char>) -> Seq<char> {
    if prev.len() > 0 && prev.last() != '\n' {
        prev + seq!['\n'] + add
    } else {
        prev + add
    }
}

/// The body the given tasks alone are written as.
pub open spec fn serialize_tasks(ts: Seq<Task>) -> Seq<char> {
    doc_body(ts, Seq::empty())
}

/// Moving completed tasks to the archive, worked out before anything is
/// written.
pub struct ArchivePlan {
    pub count: usize,
    /// The archive file body before the move.
    pub previous: String,
    /// The archive file body after the move.
    pub combined: String,
    /// The tasks that stay, with their text.
    pub kept: Vec<Task>,
    pub kept_text: Text,
    /// The task file body after the move.
    pub remaining: String,
}

impl ArchivePlan {
    pub open spec fn wf(&self) -> bool {
        &&& tasks_wf(self.kept@, self.kept_text@)
        &&& self.remaining@ == doc_out(self.kept@, self.kept_text)
    }
}

/// Where an archive move stands between writes.
pub enum ArchiveJob {
    /// The archive file is being written with the combined body.
    WriteArchive(ArchivePlan),
    /// The task file is being written with the remaining tasks.
    WriteTodo(ArchivePlan),
    /// Writing the task file failed; the archive file is being put back.
    RollBack(IoFailure),
}

pub open spec fn archive_job_wf(j: ArchiveJob) -> bool {
    match j {
        ArchiveJob::WriteArchive(p) => p.wf(),
        ArchiveJob::WriteTodo(p) => p.wf(),
        ArchiveJob::RollBack(_) => true,
    }
}

/// Taking a task out of the archive, worked out before anything is written.
pub struct UnarchivePlan {
    /// The task, reopened.
    pub task: Task,
    pub remaining: Vec<Task>,
    pub remaining_text: Text,
    /// The archive file body without the task.
    pub body: String,
}

impl UnarchivePlan {
    pub open spec fn wf(&self) -> bool {
        &&& tasks_wf(self.remaining@, self.remaining_text@)
        &&& self.task.parsed()
        &&& self.body@ == doc_out(self.remaining@, self.remaining_text)
    }
}

pub enum UnarchiveJob {
    /// The archive file is being written without the task.
    WriteArchive(UnarchivePlan),
    /// The task file is being written with the task appended.
    WriteTodo(String),
}

pub open spec fn unarchive_job_wf(j: UnarchiveJob) -> bool {
    match j {
        UnarchiveJob::WriteArchive(p) => p.wf(),
        UnarchiveJob::WriteTodo(_) => true,
    }
}

/// Deleting an archived task, worked out before the archive is written.
pub struct DeletePlan {
    pub remaining: Vec<Task>,
    pub remaining_text: Text,
    pub body: String,
}

impl DeletePlan {
    pub open spec fn wf(&self) -> bool {
        &&& tasks_wf(self.remaining@, self.remaining_text@)
        &&& self.body@ == doc_out(self.remaining@, self.remaining_text)
    }
}

pub type ArchiveStep = Step<ArchiveJob, ArchiveOutcome>;

pub type UnarchiveStep = Step<UnarchiveJob, UnarchiveOutcome>;

pub type DeleteStep = Step<DeletePlan, ArchiveDeleteOutcome>;

/// Everything but the archive is as it was.
pub open spec fn same_live(a: Store, b: Store) -> bool {
    &&& a.tasks == b.tasks
    &&& a.text == b.text
    &&& a.history == b.history
    &&& a.last_disk == b.last_disk
    &&& a.file_path == b.file_path
    &&& a.today == b.today
}

proof fn lemma_tasks_wf_view(a: Seq<Task>, b: Seq<Task>, x: Seq<(int, Seq<char>)>)
    requires
        tasks_view(a) == tasks_view(b),
        tasks_wf(a, x),
    ensures
        tasks_wf(b, x),
        task_lines(a) == task_lines(b),
{
    assert(a.len() == tasks_view(a).len() && b.len() == tasks_view(b).len());
    assert forall|j: int| 0 <= j < b.len() implies (#[trigger] b[j]).parsed() by {
        assert(tasks_view(a)[j] == a[j]@ && tasks_view(b)[j] == b[j]@);
        lemma_parsed_view(a[j], b[j]);
    }
    crate::doc::lemma_task_lines_view(a, b);
}

impl Store {
    /// Applies a read of the archive file: a missing file reads as empty,
    /// any other failure keeps what is in memory. `true` when the archive
    /// changed.
    pub fn apply_archive_read(&mut self, read: ReadResult) -> (changed: bool)
        requires
            old(self).wf(),
        ensures
            final(self).wf(),
            same_live(*final(self), *old(self)),
            final(self).archive.path == old(self).archive.path,
            final(self).archive.loading == old(self).archive.loading,
            match read_body(read) {
                None => !changed && final(self).archive == old(self).archive,
                Some(b) => if b == old(self).archive.last_disk@ {
                    !changed && final(self).archive == old(self).archive
                } else {
                    &&& changed
                    &&& final(self).archive.last_disk@ == b
                    &&& parsed_from(final(self).archive.tasks@, final(self).archive.text@, b)
                },
            },
    {
        let on_disk = match read {
            ReadResult::Read(s) => s,
            ReadResult::NotFound => String::new(),
            ReadResult::Failed(_) => return false,
        };
        if on_disk == self.archive.last_disk {
            return false;
        }
        let doc = parse_doc(on_disk.as_str());
        self.archive.tasks = doc.tasks;
        self.archive.text = doc.text;
        self.archive.last_disk = on_disk;
        true
    }

    /// Pumps archive state: takes the background load's result when it has
    /// landed, otherwise checks the file for an external edit. `true` when
    /// the visible archive changed. With `in_place` archiving nothing is
    /// looked at.
    pub fn poll_archive_with(&mut self, mode: ArchiveMode, loader: LoaderEvent, disk: ReadResult) -> (changed: bool)
        requires
            old(self).wf(),
        ensures
            final(self).wf(),
            same_live(*final(self), *old(self)),
            final(self).archive.path == old(self).archive.path,
            mode == ArchiveMode::InPlace ==> !changed && final(self).archive == old(self).archive,
            mode == ArchiveMode::File && old(self).archive.loading ==> match loader {
                LoaderEvent::Landed(b) => changed && !final(self).archive.loading
                    && final(self).archive.last_disk@ == b@ && parsed_from(
                    final(self).archive.tasks@,
                    final(self).archive.text@,
                    b@,
                ),
                LoaderEvent::Pending => !changed && final(self).archive == old(self).archive,
                LoaderEvent::Gone => !final(self).archive.loading && archive_read_applied(
                    old(self).archive,
                    final(self).archive,
                    disk,
                    changed,
                ),
            },
            mode == ArchiveMode::File && !old(self).archive.loading ==> !final(self).archive.loading
                && archive_read_applied(old(self).archive, final(self).archive, disk, changed),
    {
        if mode == ArchiveMode::InPlace {
            return false;
        }
        let mut changed = false;
        if self.archive.loading {
            match loader {
                LoaderEvent::Landed(body) => {
                    let doc = parse_doc(body.as_str());
                    self.archive.last_disk = body;
                    self.archive.tasks = doc.tasks;
                    self.archive.text = doc.text;
                    self.archive.loading = false;
                    changed = true;
                },
                LoaderEvent::Pending => return false,
                LoaderEvent::Gone => {
                    self.archive.loading = false;
                },
            }
        }
        if !changed {
            changed = self.apply_archive_read(disk);
        }
        changed
    }

    /// [`Store::poll_archive_with`] for the default (`done.md`) mode.
    pub fn poll_archive(&mut self, loader: LoaderEvent, disk: ReadResult) -> (changed: bool)
        requires
            old(self).wf(),
        ensures
            final(self).wf(),
            same_live(*final(self), *old(self)),
            final(self).archive.path == old(self).archive.path,
            old(self).archive.loading ==> match loader {
                LoaderEvent::Landed(b) => changed && !final(self).archive.loading
                    && final(self).archive.last_disk@ == b@ && parsed_from(
                    final(self).archive.tasks@,
                    final(self).archive.text@,
                    b@,
                ),
                LoaderEvent::Pending => !changed && final(self).archive == old(self).archive,
                LoaderEvent::Gone => !final(self).archive.loading && archive_read_applied(
                    old(self).archive,
                    final(self).archive,
                    disk,
                    changed,
                ),
            },
            !old(self).archive.loading ==> !final(self).archive.loading && archive_read_applied(
                old(self).archive,
                final(self).archive,
                disk,
                changed,
            ),
    {
        self.poll_archive_with(ArchiveMode::File, loader, disk)
    }

    /// Re-reads the archive before rewriting it: a body other than the one
    /// last seen is loaded instead, so an external edit is never overwritten.
    pub fn refresh_archive_for_mutation(&mut self, read: ReadResult) -> (r: ArchiveRefresh)
        requires
            old(self).wf(),
        ensures
            final(self).wf(),
            same_live(*final(self), *old(self)),
            final(self).archive.path == old(self).archive.path,
            match read {
                ReadResult::Failed(e) => r == ArchiveRefresh::Error(e) && final(self).archive
                    == old(self).archive,
                _ => !final(self).archive.loading && if read_body(read) == Some(
                    old(self).archive.last_disk@,
                ) {
                    r is Ready && final(self).archive.tasks == old(self).archive.tasks
                        && final(self).archive.text == old(self).archive.text
                        && final(self).archive.last_disk == old(self).archive.last_disk
                } else {
                    &&& r is Reloaded
                    &&& final(self).archive.last_disk@ == read_body(read)->0
                    &&& parsed_from(final(self).archive.tasks@, final(self).archive.text@, read_body(read)->0)
                },
            },
    {
        let body = match read {
            ReadResult::Read(b) => b,
            ReadResult::NotFound => String::new(),
            ReadResult::Failed(e) => return ArchiveRefresh::Error(e),
        };
        if body != self.archive.last_disk {
            let doc = parse_doc(body.as_str());
            self.archive.tasks = doc.tasks;
            self.archive.text = doc.text;
            self.archive.last_disk = body;
            self.archive.loading = false;
            return ArchiveRefresh::Reloaded;
        }
        self.archive.loading = false;
        ArchiveRefresh::Ready
    }
}

/// The archive after a read of its file was applied.
pub open spec fn archive_read_applied(before: Archive, after: Archive, read: ReadResult, changed: bool) -> bool {
    match read_body(read) {
        None => !changed && after.tasks == before.tasks && after.text == before.text
            && after.last_disk == before.last_disk,
        Some(b) => if b == before.last_disk@ {
            !changed && after.tasks == before.tasks && after.text == before.text
                && after.last_disk == before.last_disk
        } else {
            changed && after.last_disk@ == b && parsed_from(after.tasks@, after.text@, b)
        },
    }
}


/// `plan` moves the completed tasks of `st` to the end of the archive body
/// `prev`.
pub open spec fn archive_plan_for(st: Store, plan: ArchivePlan, prev: Seq<char>) -> bool {
    &&& plan.wf()
    &&& plan.count == done_list(st.tasks@).len()
    &&& plan.previous@ == prev
    &&& plan.combined@ == combine(prev, serialize_tasks(done_list(st.tasks@)))
    &&& tasks_view(plan.kept@) == open_list(tasks_view(st.tasks@))
    &&& plan.kept_text@ == strip_text(tasks_view(st.tasks@), st.text@, 0)
}

/// Archiving appends: the lines of the new archive body are the lines it
/// had, then the lines of the archived tasks. A previous body without a
/// final line feed gets one first, so no archived task is glued onto its
/// last line and every archived task is a line of its own.
pub proof fn law_archive_appends_lines(st: Store, plan: ArchivePlan, prev: Seq<char>)
    requires
        archive_plan_for(st, plan, prev),
    ensures
        lines_of(plan.combined@) == lines_of(prev) + lines_of(serialize_tasks(done_list(st.tasks@))),
{
    let add = serialize_tasks(done_list(st.tasks@));
    let la = lines_of(prev);
    let lb = lines_of(add);
    if prev.len() > 0 && prev.last() != '\n' {
        crate::doc::lemma_lines_open_end(prev);
        assert(plan.combined@ =~= prev.push('\n') + add);
    } else {
        crate::doc::lemma_lines_round_trip(prev);
    }
    assert(join_lines(la) + add == plan.combined@);
    let r = render(task_lines(done_list(st.tasks@)), Seq::empty());
    if r.len() > 0 {
        assert(add.last() == '\n');
    }
    crate::doc::lemma_lines_round_trip(add);
    crate::doc::lemma_join_lines_concat(la, lb);
    crate::convert::lemma_lines_have_no_nl(prev);
    crate::convert::lemma_lines_have_no_nl(add);
    assert forall|j: int| 0 <= j < (la + lb).len() implies crate::convert::has_no_nl(#[trigger] (la + lb)[j]) by {
        if j < la.len() {
            assert((la + lb)[j] == la[j]);
        } else {
            assert((la + lb)[j] == lb[j - la.len()]);
        }
    }
    crate::convert::lemma_lines_of_join(la + lb);
}

/// After a move: the kept tasks are live, the old list is in the history,
/// and the archive holds the combined body.
pub open spec fn archive_committed(before: Store, after: Store, plan: ArchivePlan) -> bool {
    &&& after.tasks == plan.kept
    &&& after.text == plan.kept_text
    &&& after.last_disk@ == plan.remaining@
    &&& after.history.view_seq() == before.history.view_seq().push(
        (tasks_view(before.tasks@), before.text@),
    )
    &&& after.archive.last_disk@ == plan.combined@
    &&& parsed_from(after.archive.tasks@, after.archive.text@, plan.combined@)
    &&& !after.archive.loading
    &&& after.archive.path == before.archive.path
    &&& after.file_path == before.file_path
    &&& after.today == before.today
}

/// The task file reads as the store last saw it.
pub open spec fn reads_unchanged(st: Store, r: ReadResult) -> bool {
    r matches ReadResult::Read(b) && b@ == st.last_disk@
}

proof fn lemma_open_list_step(ts: Seq<TaskView>, i: int)
    requires
        0 <= i < ts.len(),
    ensures
        open_list(ts.skip(i)) == if ts[i].done {
            open_list(ts.skip(i + 1))
        } else {
            seq![ts[i]] + open_list(ts.skip(i + 1))
        },
{
    assert(ts.skip(i).drop_first() =~= ts.skip(i + 1));
    assert(ts.skip(i)[0] == ts[i]);
}

impl Store {
    /// Starts moving the completed tasks to the archive.
    ///
    /// The task file must read as last seen, else the move is aborted with
    /// what reconciling found. With nothing completed, or with `in_place`
    /// archiving, nothing is written. Otherwise the archive file is to be
    /// written first with its previous body (as read now) plus the completed
    /// tasks; nothing in the store changes until the writes are reported.
    pub fn archive_completed(&mut self, mode: ArchiveMode, todo_read: ReadResult, done_read: ReadResult) -> (s: ArchiveStep)
        requires
            old(self).wf(),
        ensures
            final(self).wf(),
            !reads_unchanged(*old(self), todo_read) ==> (s matches Step::Finished(
                ArchiveOutcome::Aborted(r),
            ) && reconciled(*old(self), *final(self), todo_read, r)),
            reads_unchanged(*old(self), todo_read) ==> {
                let c = done_list(old(self).tasks@).len();
                &&& *final(self) == *old(self)
                &&& c == 0 ==> (s matches Step::Finished(ArchiveOutcome::Nothing))
                &&& c > 0 && mode == ArchiveMode::InPlace ==> (s matches Step::Finished(
                    ArchiveOutcome::InPlace { count },
                ) && count == c)
                &&& c > 0 && mode == ArchiveMode::File ==> match done_read {
                    ReadResult::Failed(e) => s == Step::<ArchiveJob, ArchiveOutcome>::Finished(
                        ArchiveOutcome::Error(StoreError::ArchiveIo(e)),
                    ),
                    _ => (s matches Step::Write { path, body, job: ArchiveJob::WriteArchive(plan) }
                        && path == old(self).archive.path && body@ == plan.combined@
                        && archive_plan_for(*old(self), plan, read_body(done_read)->0)),
                }
            },
    {
        let r = self.reconcile(todo_read);
        match r {
            Reconcile::Unchanged => {},
            other => {
                return Step::Finished(ArchiveOutcome::Aborted(other));
            },
        }
        let ghost tv = tasks_view(self.tasks@);
        let n = self.tasks.len();
        let mut to_move: Vec<Task> = Vec::new();
        let mut i: usize = 0;
        while i < n
            invariant
                i <= n,
                n == self.tasks@.len(),
                tasks_view(to_move@) == tasks_view(done_list(self.tasks@.take(i as int))),
                to_move@.len() <= i,
            decreases n - i,
        {
            assert(self.tasks@.take(i + 1).drop_last() =~= self.tasks@.take(i as int));
            assert(self.tasks@.take(i + 1).last() == self.tasks@[i as int]);
            if self.tasks[i].done {
                let t = self.tasks[i].clone();
                let ghost before = to_move@;
                to_move.push(t);
                assert(tasks_view(to_move@) =~= tasks_view(before).push(self.tasks@[i as int]@));
                assert(tasks_view(done_list(self.tasks@.take(i + 1))) =~= tasks_view(
                    done_list(self.tasks@.take(i as int)),
                ).push(self.tasks@[i as int]@));
            }
            i = i + 1;
        }
        assert(self.tasks@.take(n as int) =~= self.tasks@);
        if to_move.len() == 0 {
            return Step::Finished(ArchiveOutcome::Nothing);
        }
        if mode == ArchiveMode::InPlace {
            return Step::Finished(ArchiveOutcome::InPlace { count: to_move.len() });
        }
        let previous = match done_read {
            ReadResult::Read(b) => b,
            ReadResult::NotFound => String::new(),
            ReadResult::Failed(e) => {
                return Step::Finished(ArchiveOutcome::Error(StoreError::ArchiveIo(e)));
            },
        };
        let pv = crate::chars::chars_of(previous.as_str());
        let mut combined = previous.clone();
        if pv.len() > 0 && pv[pv.len() - 1] != '\n' {
            push_char(&mut combined, '\n');
        }
        let empty = Text::new();
        let add = serialize_doc(to_move.as_slice(), &empty);
        proof {
            crate::doc::lemma_task_lines_view(to_move@, done_list(self.tasks@));
        }
        crate::chars::push_str(&mut combined, add.as_str());
        assert(combined@ =~= combine(previous@, serialize_tasks(done_list(self.tasks@))));
        let mut kept = clone_tasks(&self.tasks);
        let mut kept_text = self.text.duplicate();
        proof {
            lemma_tasks_wf_view(self.tasks@, kept@, self.text@);
            assert(tv.take(n as int) =~= tv);
            assert(tv.skip(n as int) =~= Seq::<TaskView>::empty());
        }
        let mut i: usize = n;
        while i > 0
            invariant
                i <= n,
                n == self.tasks@.len(),
                tv == tasks_view(self.tasks@),
                tasks_view(kept@) == tv.take(i as int) + open_list(tv.skip(i as int)),
                kept_text@ == strip_text(tv, self.text@, i as int),
                tasks_wf(kept@, kept_text@),
            decreases i,
        {
            i = i - 1;
            proof {
                lemma_open_list_step(tv, i as int);
                assert(tv.take(i + 1) =~= tv.take(i as int).push(tv[i as int]));
                assert(kept@.len() == tasks_view(kept@).len());
                assert(tasks_view(kept@)[i as int] == tv[i as int]);
                assert(tasks_view(kept@)[i as int] == kept@[i as int]@);
            }
            if kept[i].done {
                proof {
                    crate::doc::law_remove_keeps_other_lines(task_lines(kept@), kept_text@, i as int);
                }
                let ghost before = kept@;
                kept.remove(i);
                kept_text.on_remove(i);
                proof {
                    assert(kept@ =~= before.remove(i as int));
                    assert(tasks_view(kept@) =~= tasks_view(before).remove(i as int));
                    assert(tasks_view(before) == tv.take(i + 1) + open_list(tv.skip(i + 1)));
                    assert((tv.take(i as int).push(tv[i as int]) + open_list(tv.skip(i + 1))).remove(
                        i as int,
                    ) =~= tv.take(i as int) + open_list(tv.skip(i + 1)));
                    assert(tasks_view(kept@) =~= tv.take(i as int) + open_list(tv.skip(i as int)));
                    assert forall|j: int| 0 <= j < kept@.len() implies (#[trigger] kept@[j]).parsed() by {
                        if j < i {
                            assert(kept@[j] == before[j]);
                        } else {
                            assert(kept@[j] == before[j + 1]);
                        }
                    }
                    assert(task_lines(before).remove(i as int) =~= task_lines(kept@));
                }
            } else {
                assert(tasks_view(kept@) =~= tv.take(i as int) + open_list(tv.skip(i as int)));
            }
        }
        assert(tv.take(0) + open_list(tv.skip(0)) =~= open_list(tv));
        assert(tv.skip(0) =~= tv);
        let remaining = serialize_doc(kept.as_slice(), &kept_text);
        let count = to_move.len();
        proof {
            assert(tasks_view(to_move@).len() == to_move@.len());
            assert(tasks_view(done_list(self.tasks@)).len() == done_list(self.tasks@).len());
        }
        let path = self.archive.path.clone();
        let body = combined.clone();
        let plan = ArchivePlan { count, previous, combined, kept, kept_text, remaining };
        Step::Write { path, body, job: ArchiveJob::WriteArchive(plan) }
    }

    /// Continues a move to the archive with the result of the write it
    /// asked for: after the archive file, the task file is written; if that
    /// fails, the archive file is put back. The store changes only when
    /// both writes succeeded.
    pub fn archive_step(&mut self, job: ArchiveJob, written: Result<(), IoFailure>) -> (s: ArchiveStep)
        requires
            old(self).wf(),
            archive_job_wf(job),
        ensures
            final(self).wf(),
            match job {
                ArchiveJob::WriteArchive(plan) => *final(self) == *old(self) && match written {
                    Err(e) => s == Step::<ArchiveJob, ArchiveOutcome>::Finished(
                        ArchiveOutcome::Error(StoreError::ArchiveIo(e)),
                    ),
                    Ok(()) => (s matches Step::Write { path, body, job: ArchiveJob::WriteTodo(p) }
                        && path == old(self).file_path && body@ == plan.remaining@ && p == plan),
                },
                ArchiveJob::WriteTodo(plan) => match written {
                    Err(e) => *final(self) == *old(self) && (s matches Step::Write {
                        path,
                        body,
                        job: ArchiveJob::RollBack(f),
                    } && path == old(self).archive.path && body@ == plan.previous@ && f == e),
                    Ok(()) => archive_committed(*old(self), *final(self), plan) && s
                        == Step::<ArchiveJob, ArchiveOutcome>::Finished(
                        ArchiveOutcome::Archived { count: plan.count },
                    ),
                },
                ArchiveJob::RollBack(e) => *final(self) == *old(self) && s == Step::<
                    ArchiveJob,
                    ArchiveOutcome,
                >::Finished(ArchiveOutcome::Error(StoreError::Write(e))),
            },
    {
        match job {
            ArchiveJob::WriteArchive(plan) => match written {
                Err(e) => Step::Finished(ArchiveOutcome::Error(StoreError::ArchiveIo(e))),
                Ok(()) => {
                    let path = self.file_path.clone();
                    let body = plan.remaining.clone();
                    Step::Write { path, body, job: ArchiveJob::WriteTodo(plan) }
                },
            },
            ArchiveJob::WriteTodo(plan) => match written {
                Err(e) => {
                    let path = self.archive.path.clone();
                    let body = plan.previous.clone();
                    Step::Write { path, body, job: ArchiveJob::RollBack(e) }
                },
                Ok(()) => {
                    self.push_history();
                    let count = plan.count;
                    let doc = parse_doc(plan.combined.as_str());
                    self.tasks = plan.kept;
                    self.text = plan.kept_text;
                    self.last_disk = plan.remaining;
                    self.archive.tasks = doc.tasks;
                    self.archive.text = doc.text;
                    self.archive.last_disk = plan.combined;
                    self.archive.loading = false;
                    Step::Finished(ArchiveOutcome::Archived { count })
                },
            },
            ArchiveJob::RollBack(e) => Step::Finished(ArchiveOutcome::Error(StoreError::Write(e))),
        }
    }
}


/// The archived task at `idx`, reopened.
pub open spec fn reopened(t: Task, old_t: Task) -> bool {
    &&& t.parsed()
    &&& t.check == ' '
    &&& t.indent@ == old_t.indent@
    &&& t.bullet == old_t.bullet
    &&& t.raw@ == if old_t.check == ' ' {
        old_t.raw@
    } else {
        unmark_raw(old_t.raw@)
    }
}

/// `plan` takes archived task `idx` of `a` out, reopened.
pub open spec fn unarchive_plan_for(a: Archive, plan: UnarchivePlan, idx: int) -> bool {
    &&& plan.wf()
    &&& reopened(plan.task, a.tasks@[idx])
    &&& tasks_view(plan.remaining@) == tasks_view(a.tasks@).remove(idx)
    &&& plan.remaining_text@ == shift_down(a.text@, idx)
}

/// `plan` deletes archived task `idx` of `a`.
pub open spec fn delete_plan_for(a: Archive, plan: DeletePlan, idx: int) -> bool {
    &&& plan.wf()
    &&& tasks_view(plan.remaining@) == tasks_view(a.tasks@).remove(idx)
    &&& plan.remaining_text@ == shift_down(a.text@, idx)
}

impl Store {
    /// The archive without task `idx`: tasks, text and body.
    fn archive_without(&self, idx: usize) -> (r: (Vec<Task>, Text, String))
        requires
            self.wf(),
            idx < self.archive.tasks@.len(),
        ensures
            tasks_wf(r.0@, r.1@),
            tasks_view(r.0@) == tasks_view(self.archive.tasks@).remove(idx as int),
            r.1@ == shift_down(self.archive.text@, idx as int),
            r.1.ends_open() == self.archive.text.ends_open(),
            r.2@ == doc_out(r.0@, r.1),
    {
        let mut rest = clone_tasks(&self.archive.tasks);
        let mut rest_text = self.archive.text.duplicate();
        proof {
            lemma_tasks_wf_view(self.archive.tasks@, rest@, self.archive.text@);
            crate::doc::law_remove_keeps_other_lines(task_lines(rest@), rest_text@, idx as int);
        }
        let ghost before = rest@;
        rest.remove(idx);
        rest_text.on_remove(idx);
        proof {
            assert(rest@ =~= before.remove(idx as int));
            assert(tasks_view(rest@) =~= tasks_view(before).remove(idx as int));
            assert forall|j: int| 0 <= j < rest@.len() implies (#[trigger] rest@[j]).parsed() by {
                if j < idx {
                    assert(rest@[j] == before[j]);
                } else {
                    assert(rest@[j] == before[j + 1]);
                }
            }
            assert(task_lines(before).remove(idx as int) =~= task_lines(rest@));
        }
        let body = serialize_doc(rest.as_slice(), &rest_text);
        (rest, rest_text, body)
    }

    /// Starts moving archived task `archive_idx` back into the live list.
    ///
    /// The task file must read as last seen, else the move is aborted with
    /// what reconciling found (the store then holds what reconciling left).
    /// Reopening the task cannot fail: clearing its completion mark and
    /// completion date is defined for every task, so there is no parse
    /// error to report. The archive file must read as last seen too: a changed archive is loaded instead and reported, so the
    /// index the user picked is never applied to different contents. The
    /// archive file is then to be written without the task.
    pub fn unarchive(&mut self, archive_idx: usize, todo_read: ReadResult, done_read: ReadResult) -> (s: UnarchiveStep)
        requires
            old(self).wf(),
        ensures
            final(self).wf(),
            !reads_unchanged(*old(self), todo_read) ==> (s matches Step::Finished(
                UnarchiveOutcome::Aborted(r),
            ) && reconciled(*old(self), *final(self), todo_read, r)),
            reads_unchanged(*old(self), todo_read) ==> {
                &&& same_live(*final(self), *old(self))
                &&& final(self).archive.path == old(self).archive.path
                &&& match done_read {
                    ReadResult::Failed(e) => s == Step::<UnarchiveJob, UnarchiveOutcome>::Finished(
                        UnarchiveOutcome::Error(StoreError::ArchiveIo(e)),
                    ) && final(self).archive == old(self).archive,
                    _ => !final(self).archive.loading && if read_body(done_read) != Some(
                        old(self).archive.last_disk@,
                    ) {
                        &&& s matches Step::Finished(UnarchiveOutcome::DoneReloaded)
                        &&& final(self).archive.last_disk@ == read_body(done_read)->0
                        &&& parsed_from(final(self).archive.tasks@, final(self).archive.text@, read_body(done_read)->0)
                    } else {
                        &&& final(self).archive.tasks == old(self).archive.tasks
                        &&& final(self).archive.text == old(self).archive.text
                        &&& final(self).archive.last_disk == old(self).archive.last_disk
                        &&& archive_idx >= old(self).archive.tasks@.len() ==> (s matches Step::Finished(
                            UnarchiveOutcome::OutOfRange,
                        ))
                        &&& archive_idx < old(self).archive.tasks@.len() ==> (s matches Step::Write {
                            path,
                            body,
                            job: UnarchiveJob::WriteArchive(plan),
                        } && path == old(self).archive.path && body@ == plan.body@
                            && unarchive_plan_for(old(self).archive, plan, archive_idx as int))
                    },
                }
            },
    {
        let r = self.reconcile(todo_read);
        match r {
            Reconcile::Unchanged => {},
            other => {
                return Step::Finished(UnarchiveOutcome::Aborted(other));
            },
        }
        match self.refresh_archive_for_mutation(done_read) {
            ArchiveRefresh::Ready => {},
            ArchiveRefresh::Reloaded => {
                return Step::Finished(UnarchiveOutcome::DoneReloaded);
            },
            ArchiveRefresh::Error(e) => {
                return Step::Finished(UnarchiveOutcome::Error(StoreError::ArchiveIo(e)));
            },
        }
        if archive_idx >= self.archive.tasks.len() {
            return Step::Finished(UnarchiveOutcome::OutOfRange);
        }
        let mut task = self.archive.tasks[archive_idx].clone();
        proof {
            lemma_parsed_view(self.archive.tasks@[archive_idx as int], task);
        }
        task.unmark_done();
        let (remaining, remaining_text, body) = self.archive_without(archive_idx);
        let path = self.archive.path.clone();
        let wbody = body.clone();
        let plan = UnarchivePlan { task, remaining, remaining_text, body };
        Step::Write { path, body: wbody, job: UnarchiveJob::WriteArchive(plan) }
    }

    /// Continues taking a task out of the archive: once the archive file is
    /// written the archive changes, the live list is recorded for undo and
    /// the task appended, and the task file is to be written.
    pub fn unarchive_step(&mut self, job: UnarchiveJob, written: Result<(), IoFailure>) -> (s: UnarchiveStep)
        requires
            old(self).wf(),
            unarchive_job_wf(job),
            job is WriteArchive ==> old(self).tasks@.len() + 1 < usize::MAX,
        ensures
            final(self).wf(),
            match job {
                UnarchiveJob::WriteArchive(plan) => match written {
                    Err(e) => *final(self) == *old(self) && s == Step::<UnarchiveJob, UnarchiveOutcome>::Finished(
                        UnarchiveOutcome::Error(StoreError::ArchiveIo(e)),
                    ),
                    Ok(()) => {
                        &&& final(self).archive.tasks == plan.remaining
                        &&& final(self).archive.text == plan.remaining_text
                        &&& final(self).archive.last_disk == plan.body
                        &&& final(self).archive.path == old(self).archive.path
                        &&& final(self).history.view_seq() == old(self).history.view_seq().push(
                            (tasks_view(old(self).tasks@), old(self).text@),
                        )
                        &&& final(self).tasks@ == old(self).tasks@.push(plan.task)
                        &&& final(self).text == old(self).text
                        &&& final(self).last_disk == old(self).last_disk
                        &&& final(self).file_path == old(self).file_path
                        &&& final(self).today == old(self).today
                        &&& s matches Step::Write { path, body, job: UnarchiveJob::WriteTodo(b) }
                        &&& path == old(self).file_path
                        &&& body@ == doc_out(final(self).tasks@, final(self).text)
                        &&& b@ == body@
                    },
                },
                UnarchiveJob::WriteTodo(b) => match written {
                    Err(e) => *final(self) == *old(self) && s == Step::<UnarchiveJob, UnarchiveOutcome>::Finished(
                        UnarchiveOutcome::Error(StoreError::Write(e)),
                    ),
                    Ok(()) => same_live_but_disk(*final(self), *old(self)) && final(self).last_disk@
                        == b@ && s matches Step::Finished(UnarchiveOutcome::Unarchived),
                },
            },
    {
        match job {
            UnarchiveJob::WriteArchive(plan) => match written {
                Err(e) => Step::Finished(UnarchiveOutcome::Error(StoreError::ArchiveIo(e))),
                Ok(()) => {
                    self.archive.tasks = plan.remaining;
                    self.archive.text = plan.remaining_text;
                    self.archive.last_disk = plan.body;
                    self.push_history();
                    self.task_push(plan.task);
                    let body = self.persist_body();
                    let path = self.file_path.clone();
                    let b = body.clone();
                    Step::Write { path, body, job: UnarchiveJob::WriteTodo(b) }
                },
            },
            UnarchiveJob::WriteTodo(b) => match written {
                Err(e) => Step::Finished(UnarchiveOutcome::Error(StoreError::Write(e))),
                Ok(()) => {
                    self.last_disk = b;
                    Step::Finished(UnarchiveOutcome::Unarchived)
                },
            },
        }
    }

    /// Starts deleting archived task `archive_idx` for good. The archive
    /// file must read as last seen (a changed one is loaded and reported
    /// instead); then it is to be written without the task.
    pub fn archive_delete(&mut self, archive_idx: usize, done_read: ReadResult) -> (s: DeleteStep)
        requires
            old(self).wf(),
        ensures
            final(self).wf(),
            same_live(*final(self), *old(self)),
            final(self).archive.path == old(self).archive.path,
            match done_read {
                ReadResult::Failed(e) => s == Step::<DeletePlan, ArchiveDeleteOutcome>::Finished(
                    ArchiveDeleteOutcome::Error(StoreError::ArchiveIo(e)),
                ) && final(self).archive == old(self).archive,
                _ => !final(self).archive.loading && if read_body(done_read) != Some(
                    old(self).archive.last_disk@,
                ) {
                    &&& s matches Step::Finished(ArchiveDeleteOutcome::DoneReloaded)
                    &&& final(self).archive.last_disk@ == read_body(done_read)->0
                    &&& parsed_from(final(self).archive.tasks@, final(self).archive.text@, read_body(done_read)->0)
                } else {
                    &&& final(self).archive.tasks == old(self).archive.tasks
                    &&& final(self).archive.text == old(self).archive.text
                    &&& final(self).archive.last_disk == old(self).archive.last_disk
                    &&& archive_idx >= old(self).archive.tasks@.len() ==> (s matches Step::Finished(
                        ArchiveDeleteOutcome::OutOfRange,
                    ))
                    &&& archive_idx < old(self).archive.tasks@.len() ==> (s matches Step::Write {
                        path,
                        body,
                        job: plan,
                    } && path == old(self).archive.path && body@ == plan.body@ && delete_plan_for(
                        old(self).archive,
                        plan,
                        archive_idx as int,
                    ))
                },
            },
    {
        match self.refresh_archive_for_mutation(done_read) {
            ArchiveRefresh::Ready => {},
            ArchiveRefresh::Reloaded => {
                return Step::Finished(ArchiveDeleteOutcome::DoneReloaded);
            },
            ArchiveRefresh::Error(e) => {
                return Step::Finished(ArchiveDeleteOutcome::Error(StoreError::ArchiveIo(e)));
            },
        }
        if archive_idx >= self.archive.tasks.len() {
            return Step::Finished(ArchiveDeleteOutcome::OutOfRange);
        }
        let (remaining, remaining_text, body) = self.archive_without(archive_idx);
        let path = self.archive.path.clone();
        let wbody = body.clone();
        Step::Write { path, body: wbody, job: DeletePlan { remaining, remaining_text, body } }
    }

    /// Finishes deleting an archived task with the result of the write.
    pub fn archive_delete_step(&mut self, plan: DeletePlan, written: Result<(), IoFailure>) -> (s: DeleteStep)
        requires
            old(self).wf(),
            plan.wf(),
        ensures
            final(self).wf(),
            same_live(*final(self), *old(self)),
            match written {
                Err(e) => *final(self) == *old(self) && s == Step::<DeletePlan, ArchiveDeleteOutcome>::Finished(
                    ArchiveDeleteOutcome::Error(StoreError::ArchiveIo(e)),
                ),
                Ok(()) => {
                    &&& final(self).archive.tasks == plan.remaining
                    &&& final(self).archive.text == plan.remaining_text
                    &&& final(self).archive.last_disk == plan.body
                    &&& final(self).archive.path == old(self).archive.path
                    &&& final(self).archive.loading == old(self).archive.loading
                    &&& s matches Step::Finished(ArchiveDeleteOutcome::Deleted)
                },
            },
    {
        match written {
            Err(e) => Step::Finished(ArchiveDeleteOutcome::Error(StoreError::ArchiveIo(e))),
            Ok(()) => {
                self.archive.tasks = plan.remaining;
                self.archive.text = plan.remaining_text;
                self.archive.last_disk = plan.body;
                Step::Finished(ArchiveDeleteOutcome::Deleted)
            },
        }
    }
}

/// Everything but the task file's last known body is as it was.
pub open spec fn same_live_but_disk(a: Store, b: Store) -> bool {
    &&& a.tasks == b.tasks
    &&& a.text == b.text
    &&& a.history == b.history
    &&& a.archive == b.archive
    &&& a.file_path == b.file_path
    &&& a.today == b.today
}

} // verus!
