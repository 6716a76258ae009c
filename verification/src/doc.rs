//! The document model: a markdown file is its tasks plus every other line,
//! each non-task line anchored to the ordinal of the task it precedes.
//!
//! Anchor `n` means "emit before task `n`"; `n == tasks.len()` is the tail of
//! the document. Parsing never drops a line, and writing an untouched
//! document back gives the same bytes, a missing final line feed included.
use vstd::prelude::*;
use crate::chars::{chars_of, is_blank, lemma_split_on_len, lemma_split_on_step, push_char, push_chars, split_on, string_of};
use crate::todo::{is_bullet, is_check, Task, TaskView};

verus! {

/// The lines of a file: the pieces between line feeds, without the empty
/// piece after a final line feed.
pub open spec fn lines_of(s: Seq<char>) -> Seq<Seq<char>> {
    let p = split_on(s, '\n');
    if p.last().len() == 0 {
        p.drop_last()
    } else {
        p
    }
}

/// Every line followed by a line feed.
pub open spec fn join_lines(ls: Seq<Seq<char>>) -> Seq<char>
    decreases ls.len(),
{
    if ls.len() == 0 {
        Seq::empty()
    } else {
        join_lines(ls.drop_last()) + ls.last() + seq!['\n']
    }
}

/// The pieces glued back together with line feeds between them.
pub open spec fn join_sep(ps: Seq<Seq<char>>) -> Seq<char>
    decreases ps.len(),
{
    if ps.len() <= 1 {
        if ps.len() == 1 {
            ps[0]
        } else {
            Seq::empty()
        }
    } else {
        join_sep(ps.drop_last()) + seq!['\n'] + ps.last()
    }
}

pub proof fn lemma_split_join(s: Seq<char>)
    ensures
        join_sep(split_on(s, '\n')) == s,
    decreases s.len(),
{
    if s.len() > 0 {
        let s0 = s.drop_last();
        lemma_split_join(s0);
        lemma_split_on_len(s0, '\n');
        let p = split_on(s0, '\n');
        assert(s =~= s0.push(s.last()));
        if s.last() == '\n' {
            let q = p.push(Seq::<char>::empty());
            assert(q.drop_last() =~= p);
            assert(join_sep(q) =~= join_sep(p) + seq!['\n'] + Seq::<char>::empty());
        } else {
            let q = p.update(p.len() - 1, p.last().push(s.last()));
            if p.len() == 1 {
                assert(join_sep(q) =~= s);
            } else {
                assert(q.drop_last() =~= p.drop_last());
                assert(join_sep(q) =~= join_sep(p.drop_last()) + seq!['\n'] + p.last().push(s.last()));
                assert(join_sep(p) =~= join_sep(p.drop_last()) + seq!['\n'] + p.last());
            }
        }
    }
}

proof fn lemma_join_lines_sep(ps: Seq<Seq<char>>)
    requires
        ps.len() >= 1,
        ps.last().len() == 0,
    ensures
        join_lines(ps.drop_last()) == join_sep(ps),
    decreases ps.len(),
{
    if ps.len() == 1 {
        assert(join_sep(ps) =~= Seq::<char>::empty());
    } else {
        let q = ps.drop_last();
        if q.len() == 1 {
            assert(q =~= seq![q[0]]);
            lemma_join_single(q[0]);
            assert(ps.drop_last().drop_last() =~= Seq::<Seq<char>>::empty());
            assert(join_sep(ps) =~= join_sep(q) + seq!['\n'] + Seq::<char>::empty());
        } else {
            lemma_join_lines_nonempty(q);
            assert(join_sep(ps) =~= join_sep(q) + seq!['\n'] + Seq::<char>::empty());
        }
    }
}

proof fn lemma_join_single(a: Seq<char>)
    ensures
        join_lines(seq![a]) == a + seq!['\n'],
{
    assert(seq![a].drop_last() =~= Seq::<Seq<char>>::empty());
    assert(join_lines(seq![a]) =~= join_lines(Seq::<Seq<char>>::empty()) + a + seq!['\n']);
}

proof fn lemma_join_lines_nonempty(ps: Seq<Seq<char>>)
    requires
        ps.len() >= 1,
    ensures
        join_lines(ps) == join_sep(ps) + seq!['\n'],
    decreases ps.len(),
{
    if ps.len() == 1 {
        assert(ps =~= seq![ps[0]]);
        lemma_join_single(ps[0]);
    } else {
        lemma_join_lines_nonempty(ps.drop_last());
        assert(join_lines(ps) =~= join_sep(ps.drop_last()) + seq!['\n'] + ps.last() + seq!['\n']);
    }
}

pub proof fn lemma_join_lines_concat(a: Seq<Seq<char>>, b: Seq<Seq<char>>)
    ensures
        join_lines(a + b) == join_lines(a) + join_lines(b),
    decreases b.len(),
{
    if b.len() == 0 {
        assert(a + b =~= a);
        assert(join_lines(a) + join_lines(b) =~= join_lines(a));
    } else {
        lemma_join_lines_concat(a, b.drop_last());
        assert((a + b).drop_last() =~= a + b.drop_last());
        assert((a + b).last() == b.last());
        assert(join_lines(a + b) =~= join_lines(a) + join_lines(b.drop_last()) + b.last() + seq!['\n']);
    }
}

/// Writing back the lines of a file that is empty or ends in a line feed
/// gives the file itself.
pub proof fn lemma_lines_round_trip(s: Seq<char>)
    requires
        s.len() == 0 || s.last() == '\n',
    ensures
        join_lines(lines_of(s)) == s,
{
    lemma_split_join(s);
    lemma_split_on_len(s, '\n');
    let p = split_on(s, '\n');
    if s.len() > 0 {
        lemma_split_on_len(s.drop_last(), '\n');
        assert(p.last().len() == 0);
    }
    lemma_join_lines_sep(p);
}

/// Splits a file body into its lines.
pub fn split_lines(s: &[char]) -> (ls: Vec<Vec<char>>)
    ensures
        ls@.len() == lines_of(s@).len(),
        forall|j: int| 0 <= j < ls@.len() ==> #[trigger] ls@[j]@ == lines_of(s@)[j],
{
    let mut ls: Vec<Vec<char>> = Vec::new();
    let mut cur: Vec<char> = Vec::new();
    let mut i: usize = 0;
    proof {
        assert(s@.take(0) =~= Seq::<char>::empty());
    }
    while i < s.len()
        invariant
            i <= s@.len(),
            split_on(s@.take(i as int), '\n').len() >= 1,
            cur@ == split_on(s@.take(i as int), '\n').last(),
            ls@.len() == split_on(s@.take(i as int), '\n').len() - 1,
            forall|j: int|
                0 <= j < ls@.len() ==> #[trigger] ls@[j]@ == split_on(s@.take(i as int), '\n')[j],
        decreases s@.len() - i,
    {
        proof {
            lemma_split_on_step(s@, i as int, '\n');
        }
        if s[i] == '\n' {
            let w = cur;
            ls.push(w);
            cur = Vec::new();
        } else {
            cur.push(s[i]);
        }
        i = i + 1;
    }
    proof {
        assert(s@.take(i as int) =~= s@);
    }
    if cur.len() > 0 {
        ls.push(cur);
    }
    ls
}

// ----- classifying lines -------------------------------------------------
pub open spec fn indent_from(l: Seq<char>, i: int) -> int
    decreases l.len() - i,
{
    if 0 <= i < l.len() && is_blank(l[i]) {
        indent_from(l, i + 1)
    } else {
        i
    }
}

/// Length of the leading run of spaces and tabs.
pub open spec fn indent_len(l: Seq<char>) -> int {
    indent_from(l, 0)
}

/// The fence character when the line opens or closes a code fence
/// (three backticks or three tildes after the indent).
pub open spec fn fence_marker(l: Seq<char>) -> Option<char> {
    let k = indent_len(l);
    if l.len() - k >= 3 && ((l[k] == '`' && l[k + 1] == '`' && l[k + 2] == '`') || (l[k] == '~'
        && l[k + 1] == '~' && l[k + 2] == '~')) {
        Some(l[k])
    } else {
        None
    }
}

/// The body of a task line: what follows the checkbox.
pub open spec fn task_raw(l: Seq<char>) -> Seq<char> {
    l.skip(indent_len(l) + 6)
}

/// `indent bullet " [" check "] " body`.
pub open spec fn task_shape(l: Seq<char>) -> bool {
    let k = indent_len(l);
    &&& k + 6 <= l.len()
    &&& is_bullet(l[k])
    &&& l[k + 1] == ' '
    &&& l[k + 2] == '['
    &&& is_check(l[k + 3])
    &&& l[k + 4] == ']'
    &&& l[k + 5] == ' '
}

/// The open fence after a line, given the open fence before it.
pub open spec fn fence_step(f: Option<char>, l: Seq<char>) -> Option<char> {
    match f {
        None => fence_marker(l),
        Some(c) => if fence_marker(l) == Some(c) {
            None
        } else {
            Some(c)
        },
    }
}

/// The code fence still open after the lines `ls`.
pub open spec fn fence_after(ls: Seq<Seq<char>>) -> Option<char>
    decreases ls.len(),
{
    if ls.len() == 0 {
        None
    } else {
        fence_step(fence_after(ls.drop_last()), ls.last())
    }
}

/// A task is a task-shaped line outside any code fence.
pub open spec fn is_task_line(f: Option<char>, l: Seq<char>) -> bool {
    f is None && task_shape(l)
}

/// The task lines of a document, in order.
pub open spec fn doc_task_lines(ls: Seq<Seq<char>>) -> Seq<Seq<char>>
    decreases ls.len(),
{
    if ls.len() == 0 {
        Seq::empty()
    } else {
        let p = doc_task_lines(ls.drop_last());
        if is_task_line(fence_after(ls.drop_last()), ls.last()) {
            p.push(ls.last())
        } else {
            p
        }
    }
}

/// The other lines of a document, each with the number of tasks before it.
pub open spec fn doc_text(ls: Seq<Seq<char>>) -> Seq<(int, Seq<char>)>
    decreases ls.len(),
{
    if ls.len() == 0 {
        Seq::empty()
    } else {
        let p = doc_text(ls.drop_last());
        if is_task_line(fence_after(ls.drop_last()), ls.last()) {
            p
        } else {
            p.push((doc_task_lines(ls.drop_last()).len() as int, ls.last()))
        }
    }
}

// ----- text anchors and rendering -------------------------------------------
/// A non-task line and the ordinal of the task it precedes.
pub struct TextLine {
    pub anchor: usize,
    pub line: String,
}

/// Non-task lines of a document, in file order, and whether the file they
/// came from lacked a final line feed (so that it is written back without
/// one).
pub struct Text {
    pub(crate) lines: Vec<TextLine>,
    pub(crate) open_end: bool,
}

impl Text {
    /// The file the text came from had no final line feed.
    pub closed spec fn ends_open(&self) -> bool {
        self.open_end
    }
}

impl View for Text {
    type V = Seq<(int, Seq<char>)>;

    closed spec fn view(&self) -> Seq<(int, Seq<char>)> {
        self.lines@.map_values(|t: TextLine| (t.anchor as int, t.line@))
    }
}

/// Anchors never decrease along the document and never pass its tail.
pub open spec fn anchors_wf(x: Seq<(int, Seq<char>)>, n: int) -> bool {
    &&& forall|i: int| 0 <= i < x.len() ==> 0 <= #[trigger] x[i].0 <= n
    &&& forall|i: int, j: int| 0 <= i < j < x.len() ==> x[i].0 <= x[j].0
}

/// The lines of a document, emitting text before the task it is anchored to.
pub open spec fn render_from(t: Seq<Seq<char>>, x: Seq<(int, Seq<char>)>, k: int) -> Seq<Seq<char>>
    decreases x.len(), t.len() - k,
{
    if x.len() > 0 && x[0].0 <= k {
        seq![x[0].1] + render_from(t, x.drop_first(), k)
    } else if 0 <= k < t.len() {
        seq![t[k]] + render_from(t, x, k + 1)
    } else if x.len() > 0 {
        seq![x[0].1] + render_from(t, x.drop_first(), k)
    } else {
        Seq::empty()
    }
}

pub open spec fn render(t: Seq<Seq<char>>, x: Seq<(int, Seq<char>)>) -> Seq<Seq<char>> {
    render_from(t, x, 0)
}

/// The lines tasks are written as.
pub open spec fn task_lines(ts: Seq<Task>) -> Seq<Seq<char>> {
    ts.map_values(|t: Task| t.line())
}

/// A document's lines, each ended by a line feed.
pub open spec fn doc_body(ts: Seq<Task>, x: Seq<(int, Seq<char>)>) -> Seq<char> {
    join_lines(render(task_lines(ts), x))
}

/// `body` without its final line feed when the file it came from had none.
pub open spec fn finish(body: Seq<char>, open_end: bool) -> Seq<char> {
    if open_end && body.len() > 0 {
        body.drop_last()
    } else {
        body
    }
}

/// The bytes a document is written as: its lines, each ended by a line
/// feed, but for the last one when the file it came from had none there.
pub open spec fn doc_out(ts: Seq<Task>, t: Text) -> Seq<char> {
    finish(doc_body(ts, t@), t.ends_open())
}

proof fn lemma_render_push_text(t: Seq<Seq<char>>, x: Seq<(int, Seq<char>)>, l: Seq<char>, k: int)
    requires
        0 <= k <= t.len(),
        forall|i: int| 0 <= i < x.len() ==> #[trigger] x[i].0 <= t.len(),
    ensures
        render_from(t, x.push((t.len() as int, l)), k) == render_from(t, x, k).push(l),
    decreases x.len(), t.len() - k,
{
    let xp = x.push((t.len() as int, l));
    if x.len() > 0 && x[0].0 <= k {
        assert(xp.drop_first() =~= x.drop_first().push((t.len() as int, l)));
        assert forall|i: int| 0 <= i < x.drop_first().len() implies #[trigger] x.drop_first()[i].0
            <= t.len() by {
            assert(x.drop_first()[i] == x[i + 1]);
        }
        lemma_render_push_text(t, x.drop_first(), l, k);
        assert(render_from(t, xp, k) =~= seq![x[0].1] + render_from(t, x.drop_first(), k).push(l));
    } else if k < t.len() {
        lemma_render_push_text(t, x, l, k + 1);
        assert(render_from(t, xp, k) =~= seq![t[k]] + render_from(t, x, k + 1).push(l));
    } else {
        if x.len() > 0 {
            assert(x[0].0 <= t.len());
        }
        assert(x.len() == 0);
        assert(xp.drop_first() =~= Seq::<(int, Seq<char>)>::empty());
        assert(render_from(t, xp.drop_first(), k) =~= Seq::<Seq<char>>::empty());
        assert(render_from(t, xp, k) =~= seq![l]);
    }
}

proof fn lemma_render_push_task(t: Seq<Seq<char>>, x: Seq<(int, Seq<char>)>, l: Seq<char>, k: int)
    requires
        0 <= k <= t.len(),
        forall|i: int| 0 <= i < x.len() ==> #[trigger] x[i].0 <= t.len(),
    ensures
        render_from(t.push(l), x, k) == render_from(t, x, k).push(l),
    decreases x.len(), t.len() - k,
{
    let tp = t.push(l);
    if x.len() > 0 && x[0].0 <= k {
        assert forall|i: int| 0 <= i < x.drop_first().len() implies #[trigger] x.drop_first()[i].0
            <= t.len() by {
            assert(x.drop_first()[i] == x[i + 1]);
        }
        lemma_render_push_task(t, x.drop_first(), l, k);
        assert(render_from(tp, x, k) =~= seq![x[0].1] + render_from(t, x.drop_first(), k).push(l));
    } else if k < t.len() {
        lemma_render_push_task(t, x, l, k + 1);
        assert(tp[k] == t[k]);
        assert(render_from(tp, x, k) =~= seq![t[k]] + render_from(t, x, k + 1).push(l));
    } else {
        if x.len() > 0 {
            assert(x[0].0 <= t.len());
        }
        assert(render_from(tp, x, k + 1) =~= Seq::<Seq<char>>::empty());
        assert(render_from(tp, x, k) =~= seq![l]);
    }
}

/// The parsed tasks and text of a document render back to its lines.
pub proof fn lemma_doc_render(ls: Seq<Seq<char>>)
    ensures
        render(doc_task_lines(ls), doc_text(ls)) == ls,
        anchors_wf(doc_text(ls), doc_task_lines(ls).len() as int),
    decreases ls.len(),
{
    if ls.len() > 0 {
        let q = ls.drop_last();
        lemma_doc_render(q);
        assert(ls =~= q.push(ls.last()));
        let t = doc_task_lines(q);
        let x = doc_text(q);
        if is_task_line(fence_after(q), ls.last()) {
            lemma_render_push_task(t, x, ls.last(), 0);
        } else {
            lemma_render_push_text(t, x, ls.last(), 0);
            let xp = x.push((t.len() as int, ls.last()));
            assert forall|i: int, j: int| 0 <= i < j < xp.len() implies xp[i].0 <= xp[j].0 by {
                if j == x.len() {
                    assert(xp[i] == x[i]);
                } else {
                    assert(xp[i] == x[i] && xp[j] == x[j]);
                }
            }
            assert forall|i: int| 0 <= i < xp.len() implies 0 <= #[trigger] xp[i].0 <= t.len() by {
                if i < x.len() {
                    assert(xp[i] == x[i]);
                }
            }
        }
    }
}

impl Text {
    /// No text lines.
    pub fn new() -> (t: Text)
        ensures
            t@ == Seq::<(int, Seq<char>)>::empty(),
            !t.ends_open(),
    {
        let t = Text { lines: Vec::new(), open_end: false };
        assert(t@ =~= Seq::<(int, Seq<char>)>::empty());
        t
    }

    pub fn len(&self) -> (n: usize)
        ensures
            n == self@.len(),
    {
        self.lines.len()
    }

    pub fn is_empty(&self) -> (b: bool)
        ensures
            b == (self@.len() == 0),
    {
        self.lines.len() == 0
    }

    /// The `i`-th text line.
    pub fn line_at(&self, i: usize) -> (l: &String)
        requires
            i < self@.len(),
        ensures
            l@ == self@[i as int].1,
    {
        &self.lines[i]
        .line
    }

    /// The anchor of the `i`-th text line.
    pub fn anchor_at(&self, i: usize) -> (a: usize)
        requires
            i < self@.len(),
        ensures
            a == self@[i as int].0,
    {
        self.lines[i].anchor
    }

    /// A task was inserted at `idx`: anchors at or past it move up.
    pub fn on_insert(&mut self, idx: usize)
        requires
            forall|i: int| 0 <= i < old(self)@.len() ==> #[trigger] old(self)@[i].0 < usize::MAX,
        ensures
            final(self)@ == shift_up(old(self)@, idx as int),
            final(self).ends_open() == old(self).ends_open(),
    {
        let ghost x = self@;
        let n = self.lines.len();
        let mut i: usize = 0;
        while i < n
            invariant
                n == self.lines@.len(),
                n == x.len(),
                i <= n,
                self.open_end == old(self).open_end,
                forall|j: int| 0 <= j < x.len() ==> #[trigger] x[j].0 < usize::MAX,
                forall|j: int| 0 <= j < i ==> #[trigger] self@[j] == shift_up(x, idx as int)[j],
                forall|j: int| i <= j < n ==> #[trigger] self@[j] == x[j],
            decreases n - i,
        {
            let a = self.lines[i].anchor;
            assert(self@[i as int].0 == a as int);
            if a >= idx {
                assert(self@[i as int] == x[i as int]);
                let ghost before = self@;
                self.lines[i].anchor = a + 1;
                assert forall|j: int| 0 <= j < n && j != i implies #[trigger] self@[j] == before[j] by {
                }
            }
            i = i + 1;
        }
        assert(self@ =~= shift_up(x, idx as int));
    }

    /// The task at `idx` was removed: anchors past it move down.
    pub fn on_remove(&mut self, idx: usize)
        ensures
            final(self)@ == shift_down(old(self)@, idx as int),
            final(self).ends_open() == old(self).ends_open(),
    {
        let ghost x = self@;
        let n = self.lines.len();
        let mut i: usize = 0;
        while i < n
            invariant
                n == self.lines@.len(),
                n == x.len(),
                i <= n,
                self.open_end == old(self).open_end,
                forall|j: int| 0 <= j < i ==> #[trigger] self@[j] == shift_down(x, idx as int)[j],
                forall|j: int| i <= j < n ==> #[trigger] self@[j] == x[j],
            decreases n - i,
        {
            let a = self.lines[i].anchor;
            if a > idx {
                assert(self@[i as int] == x[i as int]);
                let ghost before = self@;
                self.lines[i].anchor = a - 1;
                assert forall|j: int| 0 <= j < n && j != i implies #[trigger] self@[j] == before[j] by {
                }
            }
            i = i + 1;
        }
        assert(self@ =~= shift_down(x, idx as int));
    }

    /// A copy holding the same lines and anchors.
    pub fn duplicate(&self) -> (t: Text)
        ensures
            t@ == self@,
            t.ends_open() == self.ends_open(),
    {
        let mut lines: Vec<TextLine> = Vec::new();
        let mut i: usize = 0;
        while i < self.lines.len()
            invariant
                i <= self.lines@.len(),
                lines@.len() == i,
                forall|j: int| 0 <= j < i ==> (#[trigger] lines@[j]).anchor == self.lines@[j].anchor
                    && lines@[j].line@ == self.lines@[j].line@,
            decreases self.lines@.len() - i,
        {
            lines.push(TextLine { anchor: self.lines[i].anchor, line: self.lines[i].line.clone() });
            i = i + 1;
        }
        let t = Text { lines, open_end: self.open_end };
        assert(t@ =~= self@);
        t
    }
}

impl Default for Text {
    fn default() -> (t: Text)
        ensures
            t@ == Seq::<(int, Seq<char>)>::empty(),
            !t.ends_open(),
    {
        Text::new()
    }
}

/// The tasks by value.
pub open spec fn tasks_view(ts: Seq<Task>) -> Seq<TaskView> {
    ts.map_values(|t: Task| t@)
}

/// Tasks with the same values are written as the same lines.
pub proof fn lemma_task_lines_view(a: Seq<Task>, b: Seq<Task>)
    requires
        tasks_view(a) == tasks_view(b),
    ensures
        task_lines(a) == task_lines(b),
{
    assert(a.len() == tasks_view(a).len());
    assert(b.len() == tasks_view(b).len());
    assert forall|i: int| 0 <= i < a.len() implies #[trigger] task_lines(a)[i] == task_lines(b)[i] by {
        assert(tasks_view(a)[i] == tasks_view(b)[i]);
        assert(tasks_view(a)[i] == a[i]@);
        assert(tasks_view(b)[i] == b[i]@);
        assert(a[i].indent@ == a[i]@.indent);
        assert(b[i].indent@ == b[i]@.indent);
        assert(a[i].raw@ == a[i]@.raw);
        assert(b[i].raw@ == b[i]@.raw);
        assert(a[i].line() == b[i].line());
    }
    assert(task_lines(a) =~= task_lines(b));
}

/// A copy of a task list.
pub fn clone_tasks(v: &Vec<Task>) -> (r: Vec<Task>)
    ensures
        tasks_view(r@) == tasks_view(v@),
{
    let mut r: Vec<Task> = Vec::new();
    let mut i: usize = 0;
    while i < v.len()
        invariant
            i <= v@.len(),
            tasks_view(r@) == tasks_view(v@.take(i as int)),
        decreases v@.len() - i,
    {
        r.push(v[i].clone());
        assert(tasks_view(v@.take(i + 1)) =~= tasks_view(v@.take(i as int)).push(v@[i as int]@));
        assert(tasks_view(r@) =~= tasks_view(v@.take(i as int)).push(v@[i as int]@));
        i = i + 1;
    }
    assert(v@.take(v@.len() as int) =~= v@);
    r
}

// ----- executable parse and serialize ---------------------------------------
fn indent_of(l: &[char]) -> (k: usize)
    ensures
        k == indent_len(l@),
        k <= l@.len(),
{
    let mut k: usize = 0;
    while k < l.len() && (l[k] == ' ' || l[k] == '\t')
        invariant
            k <= l@.len(),
            indent_from(l@, k as int) == indent_len(l@),
        decreases l@.len() - k,
    {
        k = k + 1;
    }
    k
}

fn fence_of(l: &[char]) -> (r: Option<char>)
    ensures
        r == fence_marker(l@),
{
    let k = indent_of(l);
    if l.len() - k >= 3 && ((l[k] == '`' && l[k + 1] == '`' && l[k + 2] == '`') || (l[k] == '~'
        && l[k + 1] == '~' && l[k + 2] == '~')) {
        Some(l[k])
    } else {
        None
    }
}

/// The task on a task-shaped line.
pub fn parse_md_line(l: &[char]) -> (r: Option<Task>)
    ensures
        r is Some <==> task_shape(l@),
        r matches Some(t) ==> t.line() == l@ && t.parsed() && t.raw@ == task_raw(l@),
{
    let k = indent_of(l);
    if l.len() - k >= 6 && (l[k] == '-' || l[k] == '*' || l[k] == '+') && l[k + 1] == ' ' && l[k
        + 2] == '[' && (l[k + 3] == ' ' || l[k + 3] == 'x' || l[k + 3] == 'X') && l[k + 4] == ']'
        && l[k + 5] == ' ' {
        let indent = string_of(&l[0..k]);
        let raw = string_of(&l[k + 6..l.len()]);
        let t = Task::from_parts(indent, l[k], l[k + 3], raw);
        assert(t.line() =~= l@);
        assert(t.raw@ =~= task_raw(l@));
        Some(t)
    } else {
        None
    }
}

impl Task {
    /// Markdown for the task.
    pub fn render_line(&self) -> (s: String)
        ensures
            s@ == self.line(),
    {
        let mut s = self.indent.clone();
        push_char(&mut s, self.bullet);
        push_char(&mut s, ' ');
        push_char(&mut s, '[');
        push_char(&mut s, self.check);
        push_char(&mut s, ']');
        push_char(&mut s, ' ');
        let rv = chars_of(self.raw.as_str());
        push_chars(&mut s, rv.as_slice());
        assert(s@ =~= self.line());
        s
    }
}

/// A parsed document.
pub struct Doc {
    pub tasks: Vec<Task>,
    pub text: Text,
}

/// Parses a file body. No line is ever dropped: rendering the result gives
/// back every line of `s`.
pub fn parse_doc(s: &str) -> (d: Doc)
    ensures
        task_lines(d.tasks@) == doc_task_lines(lines_of(s@)),
        d.text@ == doc_text(lines_of(s@)),
        forall|j: int| 0 <= j < d.tasks@.len() ==> (#[trigger] d.tasks@[j]).parsed(),
        forall|j: int| 0 <= j < d.tasks@.len() ==> (#[trigger] d.tasks@[j]).raw@ == task_raw(
            doc_task_lines(lines_of(s@))[j],
        ),
        render(task_lines(d.tasks@), d.text@) == lines_of(s@),
        anchors_wf(d.text@, d.tasks@.len() as int),
        d.text.ends_open() == (s@.len() > 0 && s@.last() != '\n'),
{
    let sv = chars_of(s);
    let ls = split_lines(sv.as_slice());
    let ghost lv = lines_of(s@);
    let mut tasks: Vec<Task> = Vec::new();
    let mut text: Vec<TextLine> = Vec::new();
    let mut fence: Option<char> = None;
    let mut i: usize = 0;
    while i < ls.len()
        invariant
            i <= ls@.len(),
            ls@.len() == lv.len(),
            forall|j: int| 0 <= j < ls@.len() ==> #[trigger] ls@[j]@ == lv[j],
            fence == fence_after(lv.take(i as int)),
            task_lines(tasks@) == doc_task_lines(lv.take(i as int)),
            text@.map_values(|t: TextLine| (t.anchor as int, t.line@)) == doc_text(lv.take(i as int)),
            forall|j: int| 0 <= j < tasks@.len() ==> (#[trigger] tasks@[j]).parsed(),
            forall|j: int| 0 <= j < tasks@.len() ==> (#[trigger] tasks@[j]).raw@ == task_raw(
                doc_task_lines(lv.take(i as int))[j],
            ),
        decreases ls@.len() - i,
    {
        let l = &ls[i];
        let ghost pre = lv.take(i as int);
        assert(lv.take(i + 1).drop_last() =~= pre);
        assert(lv.take(i + 1).last() == lv[i as int]);
        let is_task = fence.is_none();
        let parsed = if is_task {
            parse_md_line(l.as_slice())
        } else {
            None
        };
        match parsed {
            Some(t) => {
                let ghost old_tasks = tasks@;
                tasks.push(t);
                assert(task_lines(tasks@) =~= task_lines(old_tasks).push(l@));
            },
            None => {
                let ghost old_text = text@;
                proof {
                    lemma_task_lines_len(tasks@);
                }
                let line = string_of(l.as_slice());
                text.push(TextLine { anchor: tasks.len(), line });
                assert(text@.map_values(|t: TextLine| (t.anchor as int, t.line@)) =~= old_text.map_values(
                    |t: TextLine| (t.anchor as int, t.line@),
                ).push((doc_task_lines(pre).len() as int, lv[i as int])));
            },
        }
        let f = fence_of(l.as_slice());
        fence = match fence {
            None => f,
            Some(c) => if f == Some(c) {
                None
            } else {
                Some(c)
            },
        };
        i = i + 1;
    }
    proof {
        assert(lv.take(ls@.len() as int) =~= lv);
        lemma_doc_render(lv);
    }
    let open_end = sv.len() > 0 && sv[sv.len() - 1] != '\n';
    let d = Doc { tasks, text: Text { lines: text, open_end } };
    d
}

pub proof fn lemma_task_lines_len(ts: Seq<Task>)
    ensures
        task_lines(ts).len() == ts.len(),
{
}

/// Writes a document back: text lines before the task they are anchored
/// to, every line ended by a line feed but the last one of a file that had
/// none.
pub fn serialize_doc(tasks: &[Task], text: &Text) -> (s: String)
    ensures
        s@ == doc_out(tasks@, *text),
{
    let out = write_lines(tasks, text);
    if text.open_end {
        let v = chars_of(out.as_str());
        if v.len() > 0 {
            let all = v.as_slice();
            let head = &all[0..v.len() - 1];
            assert(head@ =~= out@.drop_last());
            return string_of(head);
        }
    }
    out
}

/// Every line of a document, each ended by a line feed.
fn write_lines(tasks: &[Task], text: &Text) -> (s: String)
    ensures
        s@ == doc_body(tasks@, text@),
{
    let ghost tl = task_lines(tasks@);
    let ghost x = text@;
    let mut out = String::new();
    let mut i: usize = 0;
    let mut p: usize = 0;
    let n = tasks.len();
    let m = text.lines.len();
    proof {
        assert(x.skip(0) =~= x);
        assert(out@ + join_lines(render_from(tl, x.skip(0), 0)) =~= join_lines(render_from(tl, x, 0)));
    }
    while p < m || i < n
        invariant
            n == tasks@.len(),
            m == text.lines@.len(),
            x == text@,
            tl == task_lines(tasks@),
            i <= n,
            p <= m,
            out@ + join_lines(render_from(tl, x.skip(p as int), i as int)) == join_lines(
                render_from(tl, x, 0),
            ),
        decreases m - p + n - i,
    {
        let ghost rest = render_from(tl, x.skip(p as int), i as int);
        if p < m && text.lines[p].anchor <= i {
            let ghost head = x.skip(p as int)[0].1;
            assert(x.skip(p as int).drop_first() =~= x.skip(p + 1));
            proof {
                lemma_join_lines_concat(seq![head], render_from(tl, x.skip(p + 1), i as int));
                lemma_join_single(head);
            }
            let lv = chars_of(text.lines[p].line.as_str());
            push_chars(&mut out, lv.as_slice());
            push_char(&mut out, '\n');
            p = p + 1;
        } else if i < n {
            let ghost head = tl[i as int];
            proof {
                lemma_join_lines_concat(seq![head], render_from(tl, x.skip(p as int), i + 1));
                lemma_join_single(head);
            }
            let line = tasks[i].render_line();
            let lv = chars_of(line.as_str());
            push_chars(&mut out, lv.as_slice());
            push_char(&mut out, '\n');
            i = i + 1;
        } else {
            let ghost head = x.skip(p as int)[0].1;
            assert(x.skip(p as int).drop_first() =~= x.skip(p + 1));
            proof {
                lemma_join_lines_concat(seq![head], render_from(tl, x.skip(p + 1), i as int));
                lemma_join_single(head);
            }
            let lv = chars_of(text.lines[p].line.as_str());
            push_chars(&mut out, lv.as_slice());
            push_char(&mut out, '\n');
            p = p + 1;
        }
    }
    proof {
        assert(x.skip(m as int) =~= Seq::<(int, Seq<char>)>::empty());
        assert(render_from(tl, x.skip(m as int), n as int) =~= Seq::<Seq<char>>::empty());
        assert(out@ + Seq::<char>::empty() =~= out@);
    }
    out
}

/// Parsing then writing back a file gives the same bytes, whether or not
/// it ends in a line feed.
pub proof fn law_round_trip(s: Seq<char>, d: Doc)
    requires
        task_lines(d.tasks@) == doc_task_lines(lines_of(s)),
        d.text@ == doc_text(lines_of(s)),
        d.text.ends_open() == (s.len() > 0 && s.last() != '\n'),
    ensures
        doc_out(d.tasks@, d.text) == s,
{
    lemma_doc_render(lines_of(s));
    if s.len() == 0 || s.last() == '\n' {
        lemma_lines_round_trip(s);
    } else {
        lemma_lines_open_end(s);
    }
}

/// A file without a final line feed has the lines of the same file with
/// one, and writing them back adds that line feed.
pub proof fn lemma_lines_open_end(s: Seq<char>)
    requires
        s.len() > 0,
        s.last() != '\n',
    ensures
        join_lines(lines_of(s)) == s.push('\n'),
        lines_of(s.push('\n')) == lines_of(s),
{
    let t = s.push('\n');
    assert(t.drop_last() =~= s);
    lemma_split_on_len(s, '\n');
    assert(split_on(t, '\n') == split_on(s, '\n').push(Seq::<char>::empty()));
    assert(split_on(t, '\n').drop_last() =~= split_on(s, '\n'));
    assert(s.drop_last().push(s.last()) =~= s);
    lemma_split_on_len(s.drop_last(), '\n');
    assert(split_on(s, '\n').last().len() > 0);
    assert(lines_of(t) == lines_of(s));
    lemma_lines_round_trip(t);
}


// ----- anchors under insertion and removal ----------------------------------
/// Anchors past a removed task move down by one.
pub open spec fn shift_down(x: Seq<(int, Seq<char>)>, idx: int) -> Seq<(int, Seq<char>)> {
    x.map_values(
        |e: (int, Seq<char>)|
            if e.0 > idx {
                (e.0 - 1, e.1)
            } else {
                e
            },
    )
}

/// Anchors at or past an insertion point move up by one.
pub open spec fn shift_up(x: Seq<(int, Seq<char>)>, idx: int) -> Seq<(int, Seq<char>)> {
    x.map_values(
        |e: (int, Seq<char>)|
            if e.0 >= idx {
                (e.0 + 1, e.1)
            } else {
                e
            },
    )
}

/// How many text lines are anchored at or before task `a`.
pub open spec fn count_le(x: Seq<(int, Seq<char>)>, a: int) -> int
    decreases x.len(),
{
    if x.len() == 0 {
        0
    } else {
        (if x[0].0 <= a {
            1int
        } else {
            0int
        }) + count_le(x.drop_first(), a)
    }
}

/// Where task `idx` stands among the lines of the document.
pub open spec fn task_pos(x: Seq<(int, Seq<char>)>, idx: int) -> int {
    idx + count_le(x, idx)
}

/// Where a task inserted at `idx` lands among the lines of the document.
pub open spec fn insert_pos(x: Seq<(int, Seq<char>)>, idx: int) -> int {
    idx + count_le(x, idx - 1)
}

pub open spec fn sorted_anchors(x: Seq<(int, Seq<char>)>) -> bool {
    forall|i: int, j: int| 0 <= i < j < x.len() ==> x[i].0 <= x[j].0
}

proof fn lemma_sorted_tail(x: Seq<(int, Seq<char>)>, b: int)
    requires
        x.len() > 0,
        sorted_anchors(x),
        forall|i: int| 0 <= i < x.len() ==> #[trigger] x[i].0 <= b,
    ensures
        sorted_anchors(x.drop_first()),
        forall|i: int| 0 <= i < x.drop_first().len() ==> #[trigger] x.drop_first()[i].0 <= b,
        forall|i: int| 0 <= i < x.drop_first().len() ==> x[0].0 <= #[trigger] x.drop_first()[i].0,
{
    assert forall|i: int, j: int| 0 <= i < j < x.drop_first().len() implies x.drop_first()[i].0
        <= x.drop_first()[j].0 by {
        assert(x.drop_first()[i] == x[i + 1] && x.drop_first()[j] == x[j + 1]);
    }
    assert forall|i: int| 0 <= i < x.drop_first().len() implies #[trigger] x.drop_first()[i].0 <= b
        && x[0].0 <= x.drop_first()[i].0 by {
        assert(x.drop_first()[i] == x[i + 1]);
    }
}

proof fn lemma_count_le_none(x: Seq<(int, Seq<char>)>, a: int)
    requires
        forall|i: int| 0 <= i < x.len() ==> #[trigger] x[i].0 > a,
    ensures
        count_le(x, a) == 0,
    decreases x.len(),
{
    if x.len() > 0 {
        assert forall|i: int| 0 <= i < x.drop_first().len() implies #[trigger] x.drop_first()[i].0
            > a by {
            assert(x.drop_first()[i] == x[i + 1]);
        }
        lemma_count_le_none(x.drop_first(), a);
    }
}

proof fn lemma_render_len(t: Seq<Seq<char>>, x: Seq<(int, Seq<char>)>, k: int)
    requires
        0 <= k <= t.len(),
    ensures
        render_from(t, x, k).len() == x.len() + t.len() - k,
    decreases x.len(), t.len() - k,
{
    if x.len() > 0 && x[0].0 <= k {
        lemma_render_len(t, x.drop_first(), k);
    } else if k < t.len() {
        lemma_render_len(t, x, k + 1);
    } else if x.len() > 0 {
        lemma_render_len(t, x.drop_first(), k);
    }
}

proof fn lemma_shift_down_all(t: Seq<Seq<char>>, x: Seq<(int, Seq<char>)>, idx: int, k: int)
    requires
        0 <= idx < t.len(),
        idx + 1 <= k <= t.len(),
        forall|i: int| 0 <= i < x.len() ==> #[trigger] x[i].0 > idx,
    ensures
        render_from(t.remove(idx), shift_down(x, idx), k - 1) == render_from(t, x, k),
    decreases x.len(), t.len() - k,
{
    let tr = t.remove(idx);
    let xs = shift_down(x, idx);
    if x.len() > 0 {
        assert(xs.drop_first() =~= shift_down(x.drop_first(), idx));
        assert forall|i: int| 0 <= i < x.drop_first().len() implies #[trigger] x.drop_first()[i].0
            > idx by {
            assert(x.drop_first()[i] == x[i + 1]);
        }
    }
    if x.len() > 0 && x[0].0 <= k {
        lemma_shift_down_all(t, x.drop_first(), idx, k);
        assert(render_from(tr, xs, k - 1) =~= seq![x[0].1] + render_from(tr, xs.drop_first(), k - 1));
    } else if k < t.len() {
        lemma_shift_down_all(t, x, idx, k + 1);
        assert(tr[k - 1] == t[k]);
        assert(render_from(tr, xs, k - 1) =~= seq![t[k]] + render_from(tr, xs, k));
    } else if x.len() > 0 {
        lemma_shift_down_all(t, x.drop_first(), idx, k);
        assert(render_from(tr, xs, k - 1) =~= seq![x[0].1] + render_from(tr, xs.drop_first(), k - 1));
    } else {
        assert(render_from(tr, xs, k - 1) =~= Seq::<Seq<char>>::empty());
    }
}

proof fn lemma_remove_from(t: Seq<Seq<char>>, x: Seq<(int, Seq<char>)>, idx: int, k: int)
    requires
        0 <= k <= idx < t.len(),
        sorted_anchors(x),
        forall|i: int| 0 <= i < x.len() ==> #[trigger] x[i].0 <= t.len(),
    ensures
        0 <= (idx - k) + count_le(x, idx) < render_from(t, x, k).len(),
        render_from(t, x, k)[(idx - k) + count_le(x, idx)] == t[idx],
        render_from(t.remove(idx), shift_down(x, idx), k) == render_from(t, x, k).remove(
            (idx - k) + count_le(x, idx),
        ),
    decreases x.len(), t.len() - k,
{
    let tr = t.remove(idx);
    let xs = shift_down(x, idx);
    let pos = (idx - k) + count_le(x, idx);
    lemma_render_len(t, x, k);
    if x.len() > 0 {
        lemma_sorted_tail(x, t.len() as int);
        assert(xs.drop_first() =~= shift_down(x.drop_first(), idx));
    }
    if x.len() > 0 && x[0].0 <= k {
        lemma_remove_from(t, x.drop_first(), idx, k);
        let r = render_from(t, x.drop_first(), k);
        assert(render_from(t, x, k) == seq![x[0].1] + r);
        assert(xs[0] == x[0]);
        assert(render_from(tr, xs, k) == seq![x[0].1] + render_from(tr, xs.drop_first(), k));
        assert((seq![x[0].1] + r).remove(pos) =~= seq![x[0].1] + r.remove(pos - 1));
    } else if k < idx {
        lemma_remove_from(t, x, idx, k + 1);
        let r = render_from(t, x, k + 1);
        assert(render_from(t, x, k) == seq![t[k]] + r);
        if x.len() > 0 {
            assert(xs[0].0 > k);
        }
        assert(tr[k] == t[k]);
        assert(render_from(tr, xs, k) == seq![t[k]] + render_from(tr, xs, k + 1));
        assert((seq![t[k]] + r).remove(pos) =~= seq![t[k]] + r.remove(pos - 1));
    } else {
        assert forall|i: int| 0 <= i < x.len() implies #[trigger] x[i].0 > idx by {
            if i > 0 {
                assert(x[0].0 <= x[i].0);
            }
        }
        lemma_count_le_none(x, idx);
        lemma_shift_down_all(t, x, idx, idx + 1);
        assert(render_from(t, x, k) == seq![t[k]] + render_from(t, x, k + 1));
        assert((seq![t[k]] + render_from(t, x, k + 1)).remove(0) =~= render_from(t, x, k + 1));
    }
}

proof fn lemma_shift_up_all(t: Seq<Seq<char>>, x: Seq<(int, Seq<char>)>, p: int, l: Seq<char>, k: int)
    requires
        0 <= p <= k <= t.len(),
        forall|i: int| 0 <= i < x.len() ==> #[trigger] x[i].0 >= p,
    ensures
        render_from(t.insert(p, l), shift_up(x, p), k + 1) == render_from(t, x, k),
    decreases x.len(), t.len() - k,
{
    let ti = t.insert(p, l);
    let xs = shift_up(x, p);
    if x.len() > 0 {
        assert(xs.drop_first() =~= shift_up(x.drop_first(), p));
        assert forall|i: int| 0 <= i < x.drop_first().len() implies #[trigger] x.drop_first()[i].0
            >= p by {
            assert(x.drop_first()[i] == x[i + 1]);
        }
    }
    if x.len() > 0 && x[0].0 <= k {
        lemma_shift_up_all(t, x.drop_first(), p, l, k);
        assert(render_from(ti, xs, k + 1) =~= seq![x[0].1] + render_from(ti, xs.drop_first(), k + 1));
    } else if k < t.len() {
        lemma_shift_up_all(t, x, p, l, k + 1);
        assert(ti[k + 1] == t[k]);
        assert(render_from(ti, xs, k + 1) =~= seq![t[k]] + render_from(ti, xs, k + 2));
    } else if x.len() > 0 {
        lemma_shift_up_all(t, x.drop_first(), p, l, k);
        assert(render_from(ti, xs, k + 1) =~= seq![x[0].1] + render_from(ti, xs.drop_first(), k + 1));
    } else {
        assert(render_from(ti, xs, k + 1) =~= Seq::<Seq<char>>::empty());
    }
}

proof fn lemma_insert_from(t: Seq<Seq<char>>, x: Seq<(int, Seq<char>)>, p: int, l: Seq<char>, k: int)
    requires
        0 <= k <= p <= t.len(),
        sorted_anchors(x),
        forall|i: int| 0 <= i < x.len() ==> #[trigger] x[i].0 <= t.len(),
    ensures
        0 <= (p - k) + count_le(x, p - 1) <= render_from(t, x, k).len(),
        render_from(t.insert(p, l), shift_up(x, p), k) == render_from(t, x, k).insert(
            (p - k) + count_le(x, p - 1),
            l,
        ),
    decreases x.len(), t.len() - k,
{
    let ti = t.insert(p, l);
    let xs = shift_up(x, p);
    let pos = (p - k) + count_le(x, p - 1);
    lemma_render_len(t, x, k);
    if x.len() > 0 {
        lemma_sorted_tail(x, t.len() as int);
        assert(xs.drop_first() =~= shift_up(x.drop_first(), p));
    }
    if x.len() > 0 && x[0].0 <= k && x[0].0 < p {
        lemma_insert_from(t, x.drop_first(), p, l, k);
        let r = render_from(t, x.drop_first(), k);
        assert(render_from(t, x, k) == seq![x[0].1] + r);
        assert(xs[0] == x[0]);
        assert(render_from(ti, xs, k) == seq![x[0].1] + render_from(ti, xs.drop_first(), k));
        assert((seq![x[0].1] + r).insert(pos, l) =~= seq![x[0].1] + r.insert(pos - 1, l));
    } else if k < p {
        if x.len() > 0 {
            assert(x[0].0 > k);
            assert(xs[0].0 > k);
        }
        lemma_insert_from(t, x, p, l, k + 1);
        let r = render_from(t, x, k + 1);
        assert(render_from(t, x, k) == seq![t[k]] + r);
        assert(ti[k] == t[k]);
        assert(render_from(ti, xs, k) == seq![t[k]] + render_from(ti, xs, k + 1));
        assert((seq![t[k]] + r).insert(pos, l) =~= seq![t[k]] + r.insert(pos - 1, l));
    } else {
        assert forall|i: int| 0 <= i < x.len() implies #[trigger] x[i].0 >= p by {
            if i > 0 {
                assert(x[0].0 <= x[i].0);
            }
        }
        lemma_count_le_none(x, p - 1);
        lemma_shift_up_all(t, x, p, l, p);
        if x.len() > 0 {
            assert(xs[0].0 > k);
        }
        assert(ti[k] == l);
        assert(render_from(ti, xs, k) == seq![l] + render_from(ti, xs, k + 1));
        assert(render_from(t, x, k).insert(0, l) =~= seq![l] + render_from(t, x, k));
    }
}

/// Removing task `idx` and shifting anchors past it down removes exactly
/// that task's line: every other line, text included, keeps its order, so
/// a heading stays above the tasks of its section.
pub proof fn law_remove_keeps_other_lines(t: Seq<Seq<char>>, x: Seq<(int, Seq<char>)>, idx: int)
    requires
        anchors_wf(x, t.len() as int),
        0 <= idx < t.len(),
    ensures
        0 <= task_pos(x, idx) < render(t, x).len(),
        render(t, x)[task_pos(x, idx)] == t[idx],
        render(t.remove(idx), shift_down(x, idx)) == render(t, x).remove(task_pos(x, idx)),
        anchors_wf(shift_down(x, idx), t.len() - 1),
{
    lemma_remove_from(t, x, idx, 0);
}

/// Inserting a task at `p` and shifting anchors at or past it up puts the
/// new line right after task `p - 1` and the text anchored before `p`:
/// text that preceded the old task `p` still precedes it.
pub proof fn law_insert_keeps_other_lines(t: Seq<Seq<char>>, x: Seq<(int, Seq<char>)>, p: int, l: Seq<char>)
    requires
        anchors_wf(x, t.len() as int),
        0 <= p <= t.len(),
    ensures
        0 <= insert_pos(x, p) <= render(t, x).len(),
        render(t.insert(p, l), shift_up(x, p)) == render(t, x).insert(insert_pos(x, p), l),
        anchors_wf(shift_up(x, p), (t.len() + 1) as int),
{
    lemma_insert_from(t, x, p, l, 0);
}

/// Appending a task without touching anchors puts it after every other
/// line, trailing prose included.
pub proof fn law_push_lands_last(t: Seq<Seq<char>>, x: Seq<(int, Seq<char>)>, l: Seq<char>)
    requires
        anchors_wf(x, t.len() as int),
    ensures
        render(t.push(l), x) == render(t, x).push(l),
        anchors_wf(x, (t.len() + 1) as int),
{
    lemma_render_push_task(t, x, l, 0);
}

} // verus!
