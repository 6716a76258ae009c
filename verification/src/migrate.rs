//! Moving a directory between todo.txt and markdown, in both directions.
//!
//! Migration works on the set of files todo.txt tools and chiba share
//! (`todo`, `done`, `inbox`). Nothing is written until every file has been
//! converted and verified by converting the result back the other way; a
//! conversion that cannot prove itself lossless is refused. Reading and
//! writing the files is the caller's: [`plan`] is handed what was found.
use vstd::prelude::*;
use crate::chars::{
    chars_eq, chars_of, decimal, decimal_string, has_prefix, has_prefix_at, is_ascii_alnum,
    is_blank_line, line_is_blank, push_char, push_chars, push_str, split_whitespace, string_of,
    trim, trim_chars, trim_end, trim_end_chars, ws_tokens,
};
use crate::convert::{
    eject_dropped, eject_lines, from_todotxt, import_lines, nonblank_lines, starts_with_iso_date,
    starts_with_iso_date_spec, starts_with_priority, starts_with_priority_spec, to_todotxt,
};
use crate::doc::{doc_task_lines, doc_text, join_lines, lines_of, parse_doc, split_lines, task_raw};
use crate::paths::{join, path_join};
use crate::store::outcome::IoFailure;

verus! {

#[derive(Debug, Clone, Copy, PartialEq, Eq, Structural)]
pub enum Direction {
    /// todo.txt -> todo.md.
    Import,
    /// todo.md -> todo.txt.
    Eject,
}

pub open spec fn source_ext_spec(d: Direction) -> Seq<char> {
    match d {
        Direction::Import => seq!['t', 'x', 't'],
        Direction::Eject => seq!['m', 'd'],
    }
}

pub open spec fn target_ext_spec(d: Direction) -> Seq<char> {
    match d {
        Direction::Import => seq!['m', 'd'],
        Direction::Eject => seq!['t', 'x', 't'],
    }
}

impl Direction {
    pub fn source_ext(self) -> (s: String)
        ensures
            s@ == source_ext_spec(self),
    {
        match self {
            Direction::Import => {
                let s = string_of(&['t', 'x', 't']);
                assert(s@ =~= seq!['t', 'x', 't']);
                s
            },
            Direction::Eject => {
                let s = string_of(&['m', 'd']);
                assert(s@ =~= seq!['m', 'd']);
                s
            },
        }
    }

    pub fn target_ext(self) -> (s: String)
        ensures
            s@ == target_ext_spec(self),
    {
        match self {
            Direction::Import => {
                let s = string_of(&['m', 'd']);
                assert(s@ =~= seq!['m', 'd']);
                s
            },
            Direction::Eject => {
                let s = string_of(&['t', 'x', 't']);
                assert(s@ =~= seq!['t', 'x', 't']);
                s
            },
        }
    }
}

/// What a directory looks like.
#[derive(Debug, Clone, Copy, PartialEq, Eq, Structural)]
pub enum State {
    /// Neither task file exists.
    Fresh,
    /// Only `todo.md`.
    Markdown,
    /// Only `todo.txt`.
    TodoTxt,
    /// Both exist: there is no single source of truth.
    Ambiguous,
}

/// The state of a directory from which of `todo.md` and `todo.txt` exist.
pub fn state(todo_md_exists: bool, todo_txt_exists: bool) -> (s: State)
    ensures
        s == (if todo_md_exists && todo_txt_exists {
            State::Ambiguous
        } else if todo_md_exists {
            State::Markdown
        } else if todo_txt_exists {
            State::TodoTxt
        } else {
            State::Fresh
        }),
{
    match (todo_md_exists, todo_txt_exists) {
        (false, false) => State::Fresh,
        (true, false) => State::Markdown,
        (false, true) => State::TodoTxt,
        (true, true) => State::Ambiguous,
    }
}

#[derive(Debug)]
pub enum Error {
    /// Both `todo.md` and `todo.txt` exist.
    Ambiguous,
    /// Already in the requested format.
    NothingToDo,
    /// A backup from an earlier migration is in the way.
    BackupExists(String),
    /// The converted file did not survive a round trip; nothing was written.
    Verify { file: String, detail: String },
    Io { path: String, source: IoFailure },
}

/// An error by value.
pub enum ErrorView {
    Ambiguous,
    NothingToDo,
    BackupExists(Seq<char>),
    Verify { file: Seq<char>, detail: Seq<char> },
    Io { path: Seq<char>, message: Seq<char> },
}

pub open spec fn error_view(e: Error) -> ErrorView {
    match e {
        Error::Ambiguous => ErrorView::Ambiguous,
        Error::NothingToDo => ErrorView::NothingToDo,
        Error::BackupExists(p) => ErrorView::BackupExists(p@),
        Error::Verify { file, detail } => ErrorView::Verify { file: file@, detail: detail@ },
        Error::Io { path, source } => ErrorView::Io { path: path@, message: source.message@ },
    }
}

/// The message shown for an error.
pub open spec fn error_message(e: ErrorView) -> Seq<char> {
    match e {
        ErrorView::Ambiguous => "both todo.md and todo.txt exist — resolve which one is authoritative first"@,
        ErrorView::NothingToDo => "nothing to do; already in that format"@,
        ErrorView::BackupExists(p) => p + " already exists — move it aside or pass --force"@,
        ErrorView::Verify { file, detail } => file + " failed verification ("@ + detail
            + "); nothing was written"@,
        ErrorView::Io { path, message } => path + ": "@ + message,
    }
}

impl Error {
    /// The message shown for this error.
    pub fn message(&self) -> (s: String)
        ensures
            s@ == error_message(error_view(*self)),
    {
        match self {
            Error::Ambiguous => {
                let mut s = String::new();
                push_str(
                    &mut s,
                    "both todo.md and todo.txt exist — resolve which one is authoritative first",
                );
                s
            },
            Error::NothingToDo => {
                let mut s = String::new();
                push_str(&mut s, "nothing to do; already in that format");
                s
            },
            Error::BackupExists(p) => {
                let mut s = p.clone();
                push_str(&mut s, " already exists — move it aside or pass --force");
                s
            },
            Error::Verify { file, detail } => {
                let mut s = file.clone();
                push_str(&mut s, " failed verification (");
                push_str(&mut s, detail.as_str());
                push_str(&mut s, "); nothing was written");
                s
            },
            Error::Io { path, source } => {
                let mut s = path.clone();
                push_str(&mut s, ": ");
                push_str(&mut s, source.message.as_str());
                s
            },
        }
    }
}

/// One file's worth of work, prepared and verified in memory.
#[derive(Debug)]
pub struct Step {
    pub from: String,
    pub to: String,
    pub backup: String,
    /// Number of tasks carried across.
    pub tasks: usize,
    /// Non-task lines the destination cannot hold (ejecting only).
    pub dropped: usize,
    /// The file moves without conversion (the inbox spool).
    pub renamed_only: bool,
    /// The body to write at `to`.
    pub body: String,
}

#[derive(Debug)]
pub struct Plan {
    pub dir: String,
    pub direction: Direction,
    pub steps: Vec<Step>,
}

pub open spec fn sum_tasks(steps: Seq<Step>) -> int
    decreases steps.len(),
{
    if steps.len() == 0 {
        0
    } else {
        sum_tasks(steps.drop_last()) + if steps.last().renamed_only {
            0int
        } else {
            steps.last().tasks as int
        }
    }
}

pub open spec fn sum_dropped(steps: Seq<Step>) -> int
    decreases steps.len(),
{
    if steps.len() == 0 {
        0
    } else {
        sum_dropped(steps.drop_last()) + steps.last().dropped
    }
}

proof fn lemma_sum_tasks_mono(steps: Seq<Step>, i: int)
    requires
        0 <= i <= steps.len(),
    ensures
        0 <= sum_tasks(steps.take(i)) <= sum_tasks(steps),
    decreases steps.len() - i,
{
    if i < steps.len() {
        lemma_sum_tasks_mono(steps, i + 1);
        assert(steps.take(i + 1).drop_last() =~= steps.take(i));
    } else {
        assert(steps.take(i) =~= steps);
    }
    lemma_sum_tasks_nonneg(steps.take(i));
}

proof fn lemma_sum_tasks_nonneg(steps: Seq<Step>)
    ensures
        sum_tasks(steps) >= 0,
    decreases steps.len(),
{
    if steps.len() > 0 {
        lemma_sum_tasks_nonneg(steps.drop_last());
    }
}

proof fn lemma_sum_dropped_mono(steps: Seq<Step>, i: int)
    requires
        0 <= i <= steps.len(),
    ensures
        0 <= sum_dropped(steps.take(i)) <= sum_dropped(steps),
    decreases steps.len() - i,
{
    if i < steps.len() {
        lemma_sum_dropped_mono(steps, i + 1);
        assert(steps.take(i + 1).drop_last() =~= steps.take(i));
    } else {
        assert(steps.take(i) =~= steps);
    }
    lemma_sum_dropped_nonneg(steps.take(i));
}

proof fn lemma_sum_dropped_nonneg(steps: Seq<Step>)
    ensures
        sum_dropped(steps) >= 0,
    decreases steps.len(),
{
    if steps.len() > 0 {
        lemma_sum_dropped_nonneg(steps.drop_last());
    }
}

impl Plan {
    /// Tasks carried across; the inbox spool's lines are not tasks.
    pub fn tasks(&self) -> (n: usize)
        requires
            sum_tasks(self.steps@) <= usize::MAX,
        ensures
            n == sum_tasks(self.steps@),
    {
        let mut n: usize = 0;
        let mut i: usize = 0;
        while i < self.steps.len()
            invariant
                i <= self.steps@.len(),
                sum_tasks(self.steps@) <= usize::MAX,
                n == sum_tasks(self.steps@.take(i as int)),
            decreases self.steps@.len() - i,
        {
            proof {
                lemma_sum_tasks_mono(self.steps@, i + 1);
                assert(self.steps@.take(i + 1).drop_last() =~= self.steps@.take(i as int));
            }
            if !self.steps[i].renamed_only {
                n = n + self.steps[i].tasks;
            }
            i = i + 1;
        }
        assert(self.steps@.take(i as int) =~= self.steps@);
        n
    }

    /// Non-task lines dropped, over all files.
    pub fn dropped(&self) -> (n: usize)
        requires
            sum_dropped(self.steps@) <= usize::MAX,
        ensures
            n == sum_dropped(self.steps@),
    {
        let mut n: usize = 0;
        let mut i: usize = 0;
        while i < self.steps.len()
            invariant
                i <= self.steps@.len(),
                sum_dropped(self.steps@) <= usize::MAX,
                n == sum_dropped(self.steps@.take(i as int)),
            decreases self.steps@.len() - i,
        {
            proof {
                lemma_sum_dropped_mono(self.steps@, i + 1);
                assert(self.steps@.take(i + 1).drop_last() =~= self.steps@.take(i as int));
            }
            n = n + self.steps[i].dropped;
            i = i + 1;
        }
        assert(self.steps@.take(i as int) =~= self.steps@);
        n
    }
}

// ----- verification of a conversion ---------------------------------------------
/// Non-blank lines with trailing whitespace removed: what a todo.txt round
/// trip has to reproduce.
pub open spec fn significant(s: Seq<char>) -> Seq<Seq<char>> {
    nonblank_lines(lines_of(s)).map_values(|l: Seq<char>| trim_end(l))
}

/// The bodies of the tasks of a markdown document, in order.
pub open spec fn task_raws(s: Seq<char>) -> Seq<Seq<char>> {
    doc_task_lines(lines_of(s)).map_values(|l: Seq<char>| task_raw(l))
}

/// The converted body and how many lines it dropped.
pub open spec fn converted(d: Direction, src: Seq<char>) -> (Seq<char>, nat) {
    match d {
        Direction::Import => (join_lines(import_lines(lines_of(src))), 0),
        Direction::Eject => (join_lines(eject_lines(lines_of(src))), eject_dropped(lines_of(src))),
    }
}

/// Importing must give back every significant line; ejecting every task
/// body, in order.
pub open spec fn round_trips(d: Direction, src: Seq<char>, body: Seq<char>) -> bool {
    match d {
        Direction::Import => significant(src) == significant(join_lines(eject_lines(lines_of(body)))),
        Direction::Eject => task_raws(src) == task_raws(join_lines(import_lines(lines_of(body)))),
    }
}

/// The first index where two line lists differ, or the shorter length.
pub open spec fn first_diff(a: Seq<Seq<char>>, b: Seq<Seq<char>>) -> nat
    decreases a.len(),
{
    if a.len() == 0 || b.len() == 0 || a[0] != b[0] {
        0
    } else {
        1 + first_diff(a.drop_first(), b.drop_first())
    }
}

/// Why a round trip failed.
pub open spec fn verify_detail(d: Direction, src: Seq<char>, body: Seq<char>) -> Seq<char> {
    match d {
        Direction::Import => {
            let before = significant(src);
            let after = significant(join_lines(eject_lines(lines_of(body))));
            decimal(before.len()) + " lines in, "@ + decimal(after.len())
                + " back; first difference at line "@ + decimal(first_diff(before, after) + 1)
        },
        Direction::Eject => {
            let before = task_raws(src);
            let after = task_raws(join_lines(import_lines(lines_of(body))));
            decimal(before.len()) + " tasks in, "@ + decimal(after.len()) + " back"@
        },
    }
}

pub open spec fn vecs_view(v: Seq<Vec<char>>) -> Seq<Seq<char>> {
    v.map_values(|x: Vec<char>| x@)
}

fn significant_lines(s: &str) -> (r: Vec<Vec<char>>)
    ensures
        vecs_view(r@) == significant(s@),
{
    let sv = chars_of(s);
    let ls = split_lines(sv.as_slice());
    let ghost lv = lines_of(s@);
    let mut r: Vec<Vec<char>> = Vec::new();
    let mut i: usize = 0;
    while i < ls.len()
        invariant
            i <= ls@.len(),
            ls@.len() == lv.len(),
            forall|j: int| 0 <= j < ls@.len() ==> #[trigger] ls@[j]@ == lv[j],
            vecs_view(r@) == nonblank_lines(lv.take(i as int)).map_values(|l: Seq<char>| trim_end(l)),
        decreases ls@.len() - i,
    {
        assert(lv.take(i + 1).drop_last() =~= lv.take(i as int));
        assert(lv.take(i + 1).last() == lv[i as int]);
        if !line_is_blank(ls[i].as_slice()) {
            let t = trim_end_chars(ls[i].as_slice());
            let ghost before = r@;
            r.push(t);
            assert(vecs_view(r@) =~= vecs_view(before).push(trim_end(lv[i as int])));
            assert(nonblank_lines(lv.take(i + 1)).map_values(|l: Seq<char>| trim_end(l)) =~= nonblank_lines(
                lv.take(i as int),
            ).map_values(|l: Seq<char>| trim_end(l)).push(trim_end(lv[i as int])));
        }
        i = i + 1;
    }
    assert(lv.take(ls@.len() as int) =~= lv);
    r
}

fn task_raw_list(s: &str) -> (r: Vec<Vec<char>>)
    ensures
        vecs_view(r@) == task_raws(s@),
{
    let d = parse_doc(s);
    let mut r: Vec<Vec<char>> = Vec::new();
    let mut i: usize = 0;
    proof {
        crate::doc::lemma_task_lines_len(d.tasks@);
    }
    while i < d.tasks.len()
        invariant
            i <= d.tasks@.len(),
            d.tasks@.len() == doc_task_lines(lines_of(s@)).len(),
            forall|j: int| 0 <= j < d.tasks@.len() ==> (#[trigger] d.tasks@[j]).raw@ == task_raw(
                doc_task_lines(lines_of(s@))[j],
            ),
            vecs_view(r@) == task_raws(s@).take(i as int),
        decreases d.tasks@.len() - i,
    {
        let v = chars_of(d.tasks[i].raw.as_str());
        let ghost before = r@;
        let ghost vv = v@;
        assert(task_raws(s@)[i as int] == vv);
        r.push(v);
        assert(r@ == before.push(v));
        assert(vecs_view(r@) =~= vecs_view(before).push(vv));
        assert(vecs_view(r@) =~= task_raws(s@).take(i + 1));
        i = i + 1;
    }
    assert(task_raws(s@).take(i as int) =~= task_raws(s@));
    r
}

/// Two line lists are equal; otherwise the first index where they differ
/// (or the shorter length).
fn compare_lines(a: &Vec<Vec<char>>, b: &Vec<Vec<char>>) -> (r: (bool, usize))
    ensures
        r.0 == (vecs_view(a@) == vecs_view(b@)),
        r.1 == first_diff(vecs_view(a@), vecs_view(b@)),
        r.1 <= a@.len(),
        !r.0 ==> r.1 < a@.len() || r.1 < b@.len(),
{
    let ghost av = vecs_view(a@);
    let ghost bv = vecs_view(b@);
    let mut i: usize = 0;
    assert(av.skip(0) =~= av);
    assert(bv.skip(0) =~= bv);
    while i < a.len() && i < b.len() && chars_eq(a[i].as_slice(), b[i].as_slice())
        invariant
            i <= a@.len(),
            i <= b@.len(),
            av == vecs_view(a@),
            bv == vecs_view(b@),
            forall|j: int| 0 <= j < i ==> av[j] == bv[j],
            first_diff(av, bv) == i + first_diff(av.skip(i as int), bv.skip(i as int)),
        decreases a@.len() - i,
    {
        assert(av.skip(i as int)[0] == av[i as int]);
        assert(bv.skip(i as int)[0] == bv[i as int]);
        assert(av.skip(i as int).drop_first() =~= av.skip(i + 1));
        assert(bv.skip(i as int).drop_first() =~= bv.skip(i + 1));
        i = i + 1;
    }
    if i < a.len() && i < b.len() {
        assert(av.skip(i as int)[0] == av[i as int]);
        assert(bv.skip(i as int)[0] == bv[i as int]);
        assert(av[i as int] != bv[i as int]);
    }
    let eq = a.len() == b.len() && i == a.len();
    if eq {
        assert(av =~= bv);
    } else if a.len() == b.len() {
        assert(av[i as int] != bv[i as int]);
    }
    (eq, i)
}

/// Proves a conversion lost nothing by running it back the other way.
pub fn verify(path: &str, source: &str, body: &str, direction: Direction) -> (r: Result<(), Error>)
    ensures
        r is Ok <==> round_trips(direction, source@, body@),
        r matches Err(e) ==> error_view(e) == (ErrorView::Verify {
            file: path@,
            detail: verify_detail(direction, source@, body@),
        }),
{
    match direction {
        Direction::Import => {
            let (back, _) = to_todotxt(body);
            let before = significant_lines(source);
            let after = significant_lines(back.as_str());
            let (same, first) = compare_lines(&before, &after);
            if !same {
                let mut detail = decimal_string(before.len());
                push_str(&mut detail, " lines in, ");
                let a = decimal_string(after.len());
                push_str(&mut detail, a.as_str());
                push_str(&mut detail, " back; first difference at line ");
                let f = decimal_string(first + 1);
                push_str(&mut detail, f.as_str());
                return Err(Error::Verify { file: string_of_str(path), detail });
            }
        },
        Direction::Eject => {
            let before = task_raw_list(source);
            let back = from_todotxt(body);
            let after = task_raw_list(back.as_str());
            let (same, _) = compare_lines(&before, &after);
            if !same {
                let mut detail = decimal_string(before.len());
                push_str(&mut detail, " tasks in, ");
                let a = decimal_string(after.len());
                push_str(&mut detail, a.as_str());
                push_str(&mut detail, " back");
                return Err(Error::Verify { file: string_of_str(path), detail });
            }
        },
    }
    Ok(())
}

fn string_of_str(s: &str) -> (r: String)
    ensures
        r@ == s@,
{
    let v = chars_of(s);
    string_of(v.as_slice())
}

// ----- planning -------------------------------------------------------------------
/// How many files a migration considers, and their stems in order.
pub const STEM_COUNT: usize = 3;

pub open spec fn stem_spec(i: int) -> Seq<char> {
    if i == 0 {
        seq!['t', 'o', 'd', 'o']
    } else if i == 1 {
        seq!['d', 'o', 'n', 'e']
    } else {
        seq!['i', 'n', 'b', 'o', 'x']
    }
}

/// The `i`-th stem: `todo`, `done`, `inbox`.
pub fn stem(i: usize) -> (s: String)
    requires
        i < STEM_COUNT,
    ensures
        s@ == stem_spec(i as int),
{
    if i == 0 {
        let s = string_of(&['t', 'o', 'd', 'o']);
        assert(s@ =~= stem_spec(0));
        s
    } else if i == 1 {
        let s = string_of(&['d', 'o', 'n', 'e']);
        assert(s@ =~= stem_spec(1));
        s
    } else {
        let s = string_of(&['i', 'n', 'b', 'o', 'x']);
        assert(s@ =~= stem_spec(2));
        s
    }
}

/// Where a stem's file is read from, written to, and backed up.
pub struct StemPaths {
    pub from: String,
    pub to: String,
    pub backup: String,
}

pub open spec fn from_path(dir: Seq<char>, d: Direction, i: int) -> Seq<char> {
    path_join(dir, stem_spec(i) + seq!['.'] + source_ext_spec(d))
}

pub open spec fn to_path(dir: Seq<char>, d: Direction, i: int) -> Seq<char> {
    path_join(dir, stem_spec(i) + seq!['.'] + target_ext_spec(d))
}

pub open spec fn backup_path(dir: Seq<char>, d: Direction, i: int) -> Seq<char> {
    path_join(dir, stem_spec(i) + seq!['.'] + source_ext_spec(d) + seq!['.', 'b', 'a', 'k'])
}

/// `stem.src`, `stem.dst` and `stem.src.bak` in `dir`.
pub fn stem_paths(dir: &str, direction: Direction, i: usize) -> (p: StemPaths)
    requires
        i < STEM_COUNT,
    ensures
        p.from@ == from_path(dir@, direction, i as int),
        p.to@ == to_path(dir@, direction, i as int),
        p.backup@ == backup_path(dir@, direction, i as int),
{
    let s = stem(i);
    let src = direction.source_ext();
    let dst = direction.target_ext();
    let mut from_name = s.clone();
    push_char(&mut from_name, '.');
    push_str(&mut from_name, src.as_str());
    let mut to_name = s.clone();
    push_char(&mut to_name, '.');
    push_str(&mut to_name, dst.as_str());
    let mut bak_name = from_name.clone();
    let bak = string_of(&['.', 'b', 'a', 'k']);
    push_str(&mut bak_name, bak.as_str());
    assert(bak_name@ =~= stem_spec(i as int) + seq!['.'] + source_ext_spec(direction) + seq![
        '.',
        'b',
        'a',
        'k',
    ]);
    assert(from_name@ =~= stem_spec(i as int) + seq!['.'] + source_ext_spec(direction));
    assert(to_name@ =~= stem_spec(i as int) + seq!['.'] + target_ext_spec(direction));
    StemPaths { from: join(dir, from_name.as_str()), to: join(dir, to_name.as_str()), backup: join(dir, bak_name.as_str()) }
}

/// What the caller found for one stem.
pub struct StemFiles {
    pub from_exists: bool,
    pub backup_exists: bool,
    /// The source file's contents, read when it exists.
    pub source: Result<String, IoFailure>,
}

/// A step by value.
pub struct StepView {
    pub from: Seq<char>,
    pub to: Seq<char>,
    pub backup: Seq<char>,
    pub tasks: nat,
    pub dropped: nat,
    pub renamed_only: bool,
    pub body: Seq<char>,
}

pub open spec fn step_view(s: Step) -> StepView {
    StepView {
        from: s.from@,
        to: s.to@,
        backup: s.backup@,
        tasks: s.tasks as nat,
        dropped: s.dropped as nat,
        renamed_only: s.renamed_only,
        body: s.body@,
    }
}

pub open spec fn steps_view(s: Seq<Step>) -> Seq<StepView> {
    s.map_values(|x: Step| step_view(x))
}

pub enum StemOutcome {
    Skip,
    Fail(ErrorView),
    Make(StepView),
}

/// What one stem contributes: nothing when its source is missing, a
/// refusal when a backup is in the way (unless forced), a read failure, a
/// failed round trip, or a step. The inbox is a plain spool: it is renamed
/// only, and counts its non-blank lines.
pub open spec fn stem_outcome(dir: Seq<char>, d: Direction, force: bool, i: int, f: StemFiles) -> StemOutcome {
    if !f.from_exists {
        StemOutcome::Skip
    } else if f.backup_exists && !force {
        StemOutcome::Fail(ErrorView::BackupExists(backup_path(dir, d, i)))
    } else {
        match f.source {
            Err(e) => StemOutcome::Fail(ErrorView::Io { path: from_path(dir, d, i), message: e.message@ }),
            Ok(src) => if i == 2 {
                StemOutcome::Make(
                    StepView {
                        from: from_path(dir, d, i),
                        to: to_path(dir, d, i),
                        backup: backup_path(dir, d, i),
                        tasks: nonblank_lines(lines_of(src@)).len(),
                        dropped: 0,
                        renamed_only: true,
                        body: src@,
                    },
                )
            } else {
                let (body, dropped) = converted(d, src@);
                if !round_trips(d, src@, body) {
                    StemOutcome::Fail(
                        ErrorView::Verify { file: from_path(dir, d, i), detail: verify_detail(d, src@, body) },
                    )
                } else {
                    StemOutcome::Make(
                        StepView {
                            from: from_path(dir, d, i),
                            to: to_path(dir, d, i),
                            backup: backup_path(dir, d, i),
                            tasks: match d {
                                Direction::Import => doc_task_lines(lines_of(body)).len(),
                                Direction::Eject => significant(body).len(),
                            },
                            dropped,
                            renamed_only: false,
                            body,
                        },
                    )
                }
            },
        }
    }
}

/// The steps for stems `i..`, after `acc`: the first failure wins; no steps
/// at all is nothing to do.
pub open spec fn steps_from(dir: Seq<char>, d: Direction, force: bool, files: Seq<StemFiles>, i: int, acc: Seq<StepView>) -> Result<Seq<StepView>, ErrorView>
    decreases 3 - i,
{
    if i >= 3 || i < 0 {
        if acc.len() == 0 {
            Err(ErrorView::NothingToDo)
        } else {
            Ok(acc)
        }
    } else {
        match stem_outcome(dir, d, force, i, files[i]) {
            StemOutcome::Skip => steps_from(dir, d, force, files, i + 1, acc),
            StemOutcome::Fail(e) => Err(e),
            StemOutcome::Make(s) => steps_from(dir, d, force, files, i + 1, acc.push(s)),
        }
    }
}

/// The whole plan: refused when both task files exist, nothing to do when
/// neither does or the directory is already in the target format, else the
/// steps of the stems.
pub open spec fn plan_spec(dir: Seq<char>, d: Direction, force: bool, st: State, files: Seq<StemFiles>) -> Result<Seq<StepView>, ErrorView> {
    match (st, d) {
        (State::Ambiguous, _) => Err(ErrorView::Ambiguous),
        (State::Fresh, _) => Err(ErrorView::NothingToDo),
        (State::Markdown, Direction::Import) => Err(ErrorView::NothingToDo),
        (State::TodoTxt, Direction::Eject) => Err(ErrorView::NothingToDo),
        _ => steps_from(dir, d, force, files, 0, Seq::empty()),
    }
}

fn count_nonblank(s: &str) -> (n: usize)
    ensures
        n == nonblank_lines(lines_of(s@)).len(),
{
    let sv = chars_of(s);
    let ls = split_lines(sv.as_slice());
    let ghost lv = lines_of(s@);
    let mut n: usize = 0;
    let mut i: usize = 0;
    while i < ls.len()
        invariant
            i <= ls@.len(),
            ls@.len() == lv.len(),
            forall|j: int| 0 <= j < ls@.len() ==> #[trigger] ls@[j]@ == lv[j],
            n == nonblank_lines(lv.take(i as int)).len(),
            n <= i,
        decreases ls@.len() - i,
    {
        assert(lv.take(i + 1).drop_last() =~= lv.take(i as int));
        assert(lv.take(i + 1).last() == lv[i as int]);
        if !line_is_blank(ls[i].as_slice()) {
            n = n + 1;
        }
        i = i + 1;
    }
    assert(lv.take(ls@.len() as int) =~= lv);
    n
}

/// Builds, but does not apply, a migration of `dir`, from the directory's
/// state and what was found for each stem (in `todo`, `done`, `inbox`
/// order). Every file is converted and verified here, so a plan is known
/// to be lossless, or known exactly how lossy when ejecting.
pub fn plan(dir: &str, direction: Direction, force: bool, st: State, files: Vec<StemFiles>) -> (r: Result<Plan, Error>)
    requires
        files@.len() == STEM_COUNT,
    ensures
        match plan_spec(dir@, direction, force, st, files@) {
            Ok(steps) => r matches Ok(p) && p.dir@ == dir@ && p.direction == direction
                && steps_view(p.steps@) == steps,
            Err(e) => r matches Err(err) && error_view(err) == e,
        },
{
    match (st, direction) {
        (State::Ambiguous, _) => {
            return Err(Error::Ambiguous);
        },
        (State::Fresh, _) => {
            return Err(Error::NothingToDo);
        },
        (State::Markdown, Direction::Import) | (State::TodoTxt, Direction::Eject) => {
            return Err(Error::NothingToDo);
        },
        _ => {},
    }
    let ghost fv = files@;
    let mut steps: Vec<Step> = Vec::new();
    assert(steps_view(steps@) =~= Seq::<StepView>::empty());
    let mut rest = files;
    let mut i: usize = 0;
    while i < STEM_COUNT
        invariant
            i <= STEM_COUNT,
            fv == files@,
            rest@.len() == STEM_COUNT - i,
            forall|j: int| 0 <= j < rest@.len() ==> #[trigger] rest@[j] == fv[j + i],
            fv.len() == STEM_COUNT,
            plan_spec(dir@, direction, force, st, fv) == steps_from(
                dir@,
                direction,
                force,
                fv,
                i as int,
                steps_view(steps@),
            ),
        decreases STEM_COUNT - i,
    {
        let f = rest.remove(0);
        assert(f == fv[i as int]);
        let ghost acc = steps_view(steps@);
        if f.from_exists {
            let paths = stem_paths(dir, direction, i);
            if f.backup_exists && !force {
                assert(stem_outcome(dir@, direction, force, i as int, fv[i as int])
                    == StemOutcome::Fail(ErrorView::BackupExists(paths.backup@)));
                return Err(Error::BackupExists(paths.backup));
            }
            let source = match f.source {
                Ok(s) => s,
                Err(e) => {
                    assert(stem_outcome(dir@, direction, force, i as int, fv[i as int])
                        == StemOutcome::Fail(ErrorView::Io { path: paths.from@, message: e.message@ }));
                    return Err(Error::Io { path: paths.from, source: e });
                },
            };
            if i == 2 {
                let tasks = count_nonblank(source.as_str());
                steps.push(
                    Step {
                        from: paths.from,
                        to: paths.to,
                        backup: paths.backup,
                        tasks,
                        dropped: 0,
                        renamed_only: true,
                        body: source,
                    },
                );
                assert(steps_view(steps@) =~= acc.push(
                    match stem_outcome(dir@, direction, force, i as int, fv[i as int]) {
                        StemOutcome::Make(s) => s,
                        _ => arbitrary(),
                    },
                ));
            } else {
                let (body, dropped) = match direction {
                    Direction::Import => (from_todotxt(source.as_str()), 0),
                    Direction::Eject => to_todotxt(source.as_str()),
                };
                assert(converted(direction, source@) == (body@, dropped as nat));
                match verify(paths.from.as_str(), source.as_str(), body.as_str(), direction) {
                    Ok(()) => {},
                    Err(e) => {
                        return Err(e);
                    },
                }
                let tasks = match direction {
                    Direction::Import => {
                        let d = parse_doc(body.as_str());
                        proof {
                            crate::doc::lemma_task_lines_len(d.tasks@);
                        }
                        d.tasks.len()
                    },
                    Direction::Eject => significant_lines(body.as_str()).len(),
                };
                steps.push(
                    Step {
                        from: paths.from,
                        to: paths.to,
                        backup: paths.backup,
                        tasks,
                        dropped,
                        renamed_only: false,
                        body,
                    },
                );
                assert(steps_view(steps@) =~= acc.push(
                    match stem_outcome(dir@, direction, force, i as int, fv[i as int]) {
                        StemOutcome::Make(s) => s,
                        _ => arbitrary(),
                    },
                ));
            }
        }
        i = i + 1;
        proof {
            assert forall|j: int| 0 <= j < rest@.len() implies #[trigger] rest@[j] == fv[j + i] by {
            }
        }
    }
    if steps.len() == 0 {
        assert(steps_view(steps@).len() == 0);
        return Err(Error::NothingToDo);
    }
    Ok(Plan { dir: string_of_str(dir), direction, steps })
}

// ----- spotting an unmigrated todo.txt ---------------------------------------------
pub open spec fn tag_token(t: Seq<char>) -> bool {
    t.len() > 1 && (t[0] == '+' || t[0] == '@')
}

/// The first `:` in a token.
pub open spec fn first_colon(t: Seq<char>) -> Option<int>
    decreases t.len(),
{
    if t.len() == 0 {
        None
    } else {
        match first_colon(t.drop_last()) {
            Some(i) => Some(i),
            None => if t.last() == ':' {
                Some(t.len() - 1)
            } else {
                None
            },
        }
    }
}

/// `key:value` with a non-empty ASCII-alphanumeric key and a non-empty value.
pub open spec fn kv_token(t: Seq<char>) -> bool {
    match first_colon(t) {
        Some(i) => i > 0 && i + 1 < t.len() && forall|j: int| 0 <= j < i ==> is_ascii_alnum(#[trigger] t[j]),
        None => false,
    }
}

pub open spec fn any_marker_token(ts: Seq<Seq<char>>) -> bool
    decreases ts.len(),
{
    ts.len() > 0 && (tag_token(ts.last()) || kv_token(ts.last()) || any_marker_token(ts.drop_last()))
}

/// A line that looks like a todo.txt task: a priority, a leading date, a
/// completion `x `, or a `+project`, `@context` or `key:value` token.
/// Headings and fences never count.
pub open spec fn todotxt_shaped(l: Seq<char>) -> bool {
    let t = trim(l);
    if t.len() == 0 || t[0] == '#' || has_prefix(t, seq!['`', '`', '`']) || has_prefix(t, seq!['~', '~', '~']) {
        false
    } else if starts_with_priority_spec(t) || starts_with_iso_date_spec(t) || has_prefix(t, seq!['x', ' ']) {
        true
    } else {
        any_marker_token(ws_tokens(t))
    }
}

fn first_colon_exec(t: &[char]) -> (r: Option<usize>)
    ensures
        match r {
            Some(i) => first_colon(t@) == Some(i as int) && i < t@.len(),
            None => first_colon(t@) is None,
        },
{
    let mut i: usize = 0;
    while i < t.len()
        invariant
            i <= t@.len(),
            first_colon(t@.take(i as int)) is None,
        decreases t@.len() - i,
    {
        assert(t@.take(i + 1).drop_last() =~= t@.take(i as int));
        if t[i] == ':' {
            proof {
                lemma_first_colon_prefix(t@, i as int);
            }
            return Some(i);
        }
        i = i + 1;
    }
    assert(t@.take(i as int) =~= t@);
    None
}

proof fn lemma_first_colon_prefix(t: Seq<char>, i: int)
    requires
        0 <= i < t.len(),
        first_colon(t.take(i)) is None,
        t[i] == ':',
    ensures
        first_colon(t) == Some(i),
    decreases t.len() - i,
{
    if i + 1 < t.len() {
        assert(first_colon(t.take(i + 1)) == Some(i)) by {
            assert(t.take(i + 1).drop_last() =~= t.take(i));
        }
        lemma_first_colon_extend(t, i + 1, i);
    } else {
        assert(t.take(i + 1) =~= t);
        assert(t.drop_last() =~= t.take(i));
    }
}

proof fn lemma_first_colon_extend(t: Seq<char>, k: int, i: int)
    requires
        0 < k <= t.len(),
        first_colon(t.take(k)) == Some(i),
    ensures
        first_colon(t) == Some(i),
    decreases t.len() - k,
{
    if k < t.len() {
        assert(t.take(k + 1).drop_last() =~= t.take(k));
        lemma_first_colon_extend(t, k + 1, i);
    } else {
        assert(t.take(k) =~= t);
    }
}

fn is_kv_token(t: &[char]) -> (r: bool)
    ensures
        r == kv_token(t@),
{
    match first_colon_exec(t) {
        Some(i) => {
            let n = t.len();
            if i == 0 || i >= n - 1 {
                return false;
            }
            let mut j: usize = 0;
            while j < i
                invariant
                    j <= i < t@.len(),
                    first_colon(t@) == Some(i as int),
                    forall|k: int| 0 <= k < j ==> is_ascii_alnum(#[trigger] t@[k]),
                decreases i - j,
            {
                let c = t[j];
                if !(('0' <= c && c <= '9') || ('a' <= c && c <= 'z') || ('A' <= c && c <= 'Z')) {
                    assert(!is_ascii_alnum(t@[j as int]));
                    return false;
                }
                j = j + 1;
            }
            true
        },
        None => false,
    }
}

/// Whether a line looks like a todo.txt task.
pub fn is_todotxt_shaped(line: &[char]) -> (r: bool)
    ensures
        r == todotxt_shaped(line@),
{
    let t = trim_chars(line);
    let ticks = ['`', '`', '`'];
    let tildes = ['~', '~', '~'];
    let xs = ['x', ' '];
    assert(t@.skip(0) =~= t@);
    assert(ticks@ =~= seq!['`', '`', '`']);
    assert(tildes@ =~= seq!['~', '~', '~']);
    assert(xs@ =~= seq!['x', ' ']);
    if t.len() == 0 || t[0] == '#' || has_prefix_at(t.as_slice(), 0, &ticks) || has_prefix_at(
        t.as_slice(),
        0,
        &tildes,
    ) {
        return false;
    }
    if starts_with_priority(t.as_slice()) || starts_with_iso_date(t.as_slice()) || has_prefix_at(
        t.as_slice(),
        0,
        &xs,
    ) {
        return true;
    }
    let toks = split_whitespace(t.as_slice());
    let ghost tv = ws_tokens(t@);
    assert(todotxt_shaped(line@) == any_marker_token(tv));
    let mut i: usize = 0;
    while i < toks.len()
        invariant
            i <= toks@.len(),
            todotxt_shaped(line@) == any_marker_token(tv),
            toks@.len() == tv.len(),
            forall|j: int| 0 <= j < toks@.len() ==> #[trigger] toks@[j]@ == tv[j],
            !any_marker_token(tv.take(i as int)),
        decreases toks@.len() - i,
    {
        assert(tv.take(i + 1).drop_last() =~= tv.take(i as int));
        assert(tv.take(i + 1).last() == tv[i as int]);
        let tok = toks[i].as_slice();
        if (tok.len() > 1 && (tok[0] == '+' || tok[0] == '@')) || is_kv_token(tok) {
            proof {
                lemma_any_marker_extend(tv, i + 1);
            }
            return true;
        }
        i = i + 1;
    }
    assert(tv.take(i as int) =~= tv);
    false
}

proof fn lemma_any_marker_extend(ts: Seq<Seq<char>>, k: int)
    requires
        0 < k <= ts.len(),
        any_marker_token(ts.take(k)),
    ensures
        any_marker_token(ts),
    decreases ts.len() - k,
{
    if k < ts.len() {
        assert(ts.take(k + 1).drop_last() =~= ts.take(k));
        lemma_any_marker_extend(ts, k + 1);
    } else {
        assert(ts.take(k) =~= ts);
    }
}

pub open spec fn count_shaped(x: Seq<(int, Seq<char>)>) -> nat
    decreases x.len(),
{
    if x.len() == 0 {
        0
    } else {
        count_shaped(x.drop_last()) + if todotxt_shaped(x.last().1) {
            1nat
        } else {
            0nat
        }
    }
}

/// How many lines of `body` look like todo.txt tasks, when the file holds
/// no checkbox tasks at all (a file with tasks is migrated by definition).
pub fn unmigrated_lines(body: &str) -> (n: usize)
    ensures
        n == if doc_task_lines(lines_of(body@)).len() > 0 {
            0
        } else {
            count_shaped(doc_text(lines_of(body@)))
        },
{
    let doc = parse_doc(body);
    proof {
        crate::doc::lemma_task_lines_len(doc.tasks@);
    }
    if doc.tasks.len() > 0 {
        return 0;
    }
    let mut n: usize = 0;
    let mut i: usize = 0;
    while i < doc.text.len()
        invariant
            i <= doc.text@.len(),
            n == count_shaped(doc.text@.take(i as int)),
            n <= i,
        decreases doc.text@.len() - i,
    {
        assert(doc.text@.take(i + 1).drop_last() =~= doc.text@.take(i as int));
        assert(doc.text@.take(i + 1).last() == doc.text@[i as int]);
        let l = doc.text.line_at(i);
        let lv = chars_of(l.as_str());
        if is_todotxt_shaped(lv.as_slice()) {
            n = n + 1;
        }
        i = i + 1;
    }
    assert(doc.text@.take(i as int) =~= doc.text@);
    n
}


// ----- laws --------------------------------------------------------------------------
proof fn lemma_nonblank_idempotent(ls: Seq<Seq<char>>)
    ensures
        nonblank_lines(nonblank_lines(ls)) == nonblank_lines(ls),
    decreases ls.len(),
{
    if ls.len() > 0 {
        lemma_nonblank_idempotent(ls.drop_last());
        if !is_blank_line(ls.last()) {
            let n = nonblank_lines(ls.drop_last()).push(ls.last());
            assert(n.drop_last() =~= nonblank_lines(ls.drop_last()));
        }
    }
}

proof fn lemma_nonblank_no_nl(ls: Seq<Seq<char>>)
    requires
        forall|j: int| 0 <= j < ls.len() ==> crate::convert::has_no_nl(#[trigger] ls[j]),
    ensures
        forall|j: int| 0 <= j < nonblank_lines(ls).len() ==> crate::convert::has_no_nl(
            #[trigger] nonblank_lines(ls)[j],
        ),
    decreases ls.len(),
{
    if ls.len() > 0 {
        let d = ls.drop_last();
        assert forall|j: int| 0 <= j < d.len() implies crate::convert::has_no_nl(#[trigger] d[j]) by {
            assert(d[j] == ls[j]);
        }
        lemma_nonblank_no_nl(d);
        assert(crate::convert::has_no_nl(ls[ls.len() - 1]));
        let n = nonblank_lines(ls);
        assert forall|j: int| 0 <= j < n.len() implies crate::convert::has_no_nl(#[trigger] n[j]) by {
            if !is_blank_line(ls.last()) && j == n.len() - 1 {
                assert(n[j] == ls.last());
            } else {
                assert(n[j] == nonblank_lines(d)[j]);
            }
        }
    }
}

/// Importing is exactly reversible: the verification of an imported file
/// never fails, whatever the todo.txt body.
pub proof fn law_import_always_verifies(src: Seq<char>)
    ensures
        round_trips(Direction::Import, src, converted(Direction::Import, src).0),
{
    let ls = lines_of(src);
    crate::convert::law_import_then_eject(src);
    crate::convert::lemma_lines_have_no_nl(src);
    lemma_nonblank_no_nl(ls);
    crate::convert::lemma_lines_of_join(nonblank_lines(ls));
    lemma_nonblank_idempotent(ls);
}


/// The stems from `i` on that have a source file, in order.
pub open spec fn present_stems(files: Seq<StemFiles>, i: int) -> Seq<int>
    decreases 3 - i,
{
    if i < 0 || i >= 3 {
        Seq::empty()
    } else if files[i].from_exists {
        seq![i] + present_stems(files, i + 1)
    } else {
        present_stems(files, i + 1)
    }
}

proof fn lemma_present_stems(files: Seq<StemFiles>, i: int)
    requires
        0 <= i <= 3,
        files.len() == 3,
    ensures
        forall|k: int| 0 <= k < present_stems(files, i).len() ==> i <= #[trigger] present_stems(files, i)[k] < 3
            && files[present_stems(files, i)[k]].from_exists,
    decreases 3 - i,
{
    if i < 3 {
        lemma_present_stems(files, i + 1);
        let r = present_stems(files, i + 1);
        if files[i].from_exists {
            assert forall|k: int| 0 <= k < present_stems(files, i).len() implies i <= #[trigger] present_stems(files, i)[k] < 3
                && files[present_stems(files, i)[k]].from_exists by {
                if k > 0 {
                    assert(present_stems(files, i)[k] == r[k - 1]);
                }
            }
        }
    }
}

/// A stem's file may be moved: no backup is in the way (or it is forced),
/// it was read, and, but for the inbox spool, its conversion round-trips.
pub open spec fn stem_ok(d: Direction, force: bool, i: int, f: StemFiles) -> bool {
    &&& force || !f.backup_exists
    &&& f.source is Ok
    &&& i < 2 ==> round_trips(d, f.source->Ok_0@, converted(d, f.source->Ok_0@).0)
}

/// A step moves stem `i`: from its source name, to its target name, with
/// its backup beside it; only the inbox is renamed without conversion.
pub open spec fn step_for(s: StepView, dir: Seq<char>, d: Direction, i: int) -> bool {
    &&& s.from == from_path(dir, d, i)
    &&& s.to == to_path(dir, d, i)
    &&& s.backup == backup_path(dir, d, i)
    &&& s.renamed_only == (i == 2)
}

proof fn lemma_stem_outcome(dir: Seq<char>, d: Direction, force: bool, i: int, f: StemFiles)
    requires
        0 <= i < 3,
    ensures
        (stem_outcome(dir, d, force, i, f) is Skip) == !f.from_exists,
        stem_outcome(dir, d, force, i, f) is Make ==> f.from_exists && stem_ok(d, force, i, f)
            && step_for(stem_outcome(dir, d, force, i, f)->Make_0, dir, d, i),
{
}

proof fn lemma_steps_from(dir: Seq<char>, d: Direction, force: bool, files: Seq<StemFiles>, i: int, acc: Seq<StepView>)
    requires
        0 <= i <= 3,
        files.len() == 3,
        steps_from(dir, d, force, files, i, acc) is Ok,
    ensures
        ({
            let steps = steps_from(dir, d, force, files, i, acc)->Ok_0;
            let p = present_stems(files, i);
            &&& steps.len() == acc.len() + p.len()
            &&& steps.take(acc.len() as int) == acc
            &&& forall|j: int| i <= j < 3 && files[j].from_exists ==> stem_ok(d, force, j, #[trigger] files[j])
            &&& forall|k: int| 0 <= k < p.len() ==> #[trigger] step_for(steps[acc.len() + k], dir, d, p[k])
            &&& forall|k: int| 0 <= k < p.len() ==> #[trigger] steps[acc.len() + k] == stem_outcome(dir, d, force, p[k], files[p[k]])->Make_0
        }),
    decreases 3 - i,
{
    let steps = steps_from(dir, d, force, files, i, acc)->Ok_0;
    if i >= 3 {
        assert(steps == acc);
        assert(acc.take(acc.len() as int) =~= acc);
    } else {
        let o = stem_outcome(dir, d, force, i, files[i]);
        lemma_stem_outcome(dir, d, force, i, files[i]);
        let p = present_stems(files, i);
        let q = present_stems(files, i + 1);
        if o is Skip {
            assert(steps_from(dir, d, force, files, i, acc) == steps_from(dir, d, force, files, i + 1, acc));
            lemma_steps_from(dir, d, force, files, i + 1, acc);
            assert(p == q);
            assert forall|j: int| i <= j < 3 && files[j].from_exists implies stem_ok(d, force, j, #[trigger] files[j]) by {
                assert(j != i);
            }
            assert forall|k: int| 0 <= k < p.len() implies #[trigger] steps[acc.len() + k] == stem_outcome(dir, d, force, p[k], files[p[k]])->Make_0 by {
                assert(q[k] == p[k]);
            }
        } else if o is Make {
            let s = o->Make_0;
            let acc2 = acc.push(s);
            assert(steps_from(dir, d, force, files, i, acc) == steps_from(dir, d, force, files, i + 1, acc2));
            lemma_steps_from(dir, d, force, files, i + 1, acc2);
            assert(p == seq![i] + q);
            assert(steps.take(acc2.len() as int) == acc2);
            assert(steps[acc.len() as int] == s) by {
                assert(steps.take(acc2.len() as int)[acc.len() as int] == steps[acc.len() as int]);
            }
            assert(steps.take(acc.len() as int) =~= acc) by {
                assert forall|k: int| 0 <= k < acc.len() implies steps.take(acc.len() as int)[k] == acc[k] by {
                    assert(steps.take(acc2.len() as int)[k] == steps[k]);
                    assert(acc2[k] == acc[k]);
                }
            }
            assert forall|k: int| 0 <= k < p.len() implies #[trigger] step_for(steps[acc.len() + k], dir, d, p[k])
                && steps[acc.len() + k] == stem_outcome(dir, d, force, p[k], files[p[k]])->Make_0 by {
                if k == 0 {
                    assert(p[0] == i);
                } else {
                    assert(p[k] == q[k - 1]);
                    assert(step_for(steps[acc2.len() + (k - 1)], dir, d, q[k - 1]));
                    assert(steps[acc2.len() + (k - 1)] == stem_outcome(dir, d, force, q[k - 1], files[q[k - 1]])->Make_0);
                }
            }
            assert forall|k: int| 0 <= k < p.len() implies #[trigger] steps[acc.len() + k] == stem_outcome(dir, d, force, p[k], files[p[k]])->Make_0 by {
                assert(step_for(steps[acc.len() + k], dir, d, p[k]));
            }
            assert forall|j: int| i <= j < 3 && files[j].from_exists implies stem_ok(d, force, j, #[trigger] files[j]) by {
                if j == i {
                    assert(stem_ok(d, force, i, files[i]));
                }
            }
        } else {
            assert(steps_from(dir, d, force, files, i, acc) is Err);
        }
    }
}

/// A migration plan that comes back moves exactly the stems that have a
/// source file, one step each and in stem order: each from its source name
/// to its target name with its backup beside it (so an import maps
/// `stem.txt` to `stem.md`, backed up as `stem.txt.bak`). No backup was in
/// the way unless forced, every file was read, and every converted file
/// passed its round trip.
pub proof fn law_plan_moves_each_present_file(dir: Seq<char>, d: Direction, force: bool, st: State, files: Seq<StemFiles>)
    requires
        files.len() == 3,
        plan_spec(dir, d, force, st, files) is Ok,
    ensures
        ({
            let steps = plan_spec(dir, d, force, st, files)->Ok_0;
            let p = present_stems(files, 0);
            &&& steps.len() == p.len()
            &&& forall|k: int| 0 <= k < p.len() ==> 0 <= #[trigger] p[k] < 3 && files[p[k]].from_exists
            &&& forall|k: int| 0 <= k < steps.len() ==> #[trigger] step_for(steps[k], dir, d, p[k])
            &&& forall|j: int| 0 <= j < 3 && files[j].from_exists ==> stem_ok(d, force, j, #[trigger] files[j])
            &&& d is Import ==> forall|k: int| 0 <= k < steps.len() ==> (#[trigger] steps[k]).tasks
                == nonblank_lines(lines_of(files[p[k]].source->Ok_0@)).len()
        }),
{
    let acc = Seq::<StepView>::empty();
    assert(plan_spec(dir, d, force, st, files) == steps_from(dir, d, force, files, 0, acc));
    lemma_steps_from(dir, d, force, files, 0, acc);
    lemma_present_stems(files, 0);
    let steps = plan_spec(dir, d, force, st, files)->Ok_0;
    let p = present_stems(files, 0);
    assert forall|k: int| 0 <= k < steps.len() implies #[trigger] step_for(steps[k], dir, d, p[k]) by {
        assert(step_for(steps[acc.len() + k], dir, d, p[k]));
    }
    if d is Import {
        assert forall|k: int| 0 <= k < steps.len() implies (#[trigger] steps[k]).tasks
            == nonblank_lines(lines_of(files[p[k]].source->Ok_0@)).len() by {
            assert(steps[acc.len() + k] == stem_outcome(dir, d, force, p[k], files[p[k]])->Make_0);
            lemma_stem_outcome(dir, d, force, p[k], files[p[k]]);
            law_import_counts_every_nonblank_line(files[p[k]].source->Ok_0@);
        }
    }
}

proof fn lemma_eject_len(ls: Seq<Seq<char>>)
    ensures
        eject_lines(ls).len() == doc_task_lines(ls).len(),
    decreases ls.len(),
{
    if ls.len() > 0 {
        lemma_eject_len(ls.drop_last());
    }
}

/// Importing makes one task of every non-blank todo.txt line.
pub proof fn law_import_counts_every_nonblank_line(src: Seq<char>)
    ensures
        doc_task_lines(lines_of(converted(Direction::Import, src).0)).len() == nonblank_lines(lines_of(src)).len(),
{
    crate::convert::law_import_then_eject(src);
    lemma_eject_len(lines_of(converted(Direction::Import, src).0));
}

} // verus!
