//! One task line: the markdown checkbox wrapper around a todo.txt body, and
//! the metadata the body carries.
//!
//! ```text
//! task     := indent bullet " " checkbox " " body
//! bullet   := "-" | "*" | "+"
//! checkbox := "[ ]" | "[x]" | "[X]"
//! ```
//!
//! `raw` holds only the body: the wrapper is re-emitted when the line is
//! written back, so the line comes out byte for byte as it went in.
use vstd::prelude::*;
use crate::chars::{
    chars_of, has_prefix, has_prefix_at, is_ascii_digit, is_ascii_letter, lemma_split_on_len, nonempty,
    split_on, split_words, string_of, words,
};

verus! {

/// A task and the metadata parsed out of its body.
pub struct Task {
    /// Leading whitespace of the line, verbatim.
    pub indent: String,
    /// `-`, `*` or `+`, as written.
    pub bullet: char,
    /// The character between the checkbox brackets: ` `, `x` or `X`.
    pub check: char,
    /// The todo.txt body after the checkbox.
    pub raw: String,
    pub done: bool,
    pub done_date: Option<String>,
    pub priority: Option<char>,
    pub created_date: Option<String>,
    pub projects: Vec<String>,
    pub contexts: Vec<String>,
    pub due: Option<String>,
    pub rec: Option<String>,
    pub threshold: Option<String>,
}

pub open spec fn opt_view(o: Option<String>) -> Option<Seq<char>> {
    match o {
        Some(s) => Some(s@),
        None => None,
    }
}

pub open spec fn strings_view(v: Seq<String>) -> Seq<Seq<char>> {
    v.map_values(|s: String| s@)
}

pub open spec fn is_bullet(c: char) -> bool {
    c == '-' || c == '*' || c == '+'
}

pub open spec fn is_check(c: char) -> bool {
    c == ' ' || c == 'x' || c == 'X'
}

/// `YYYY-MM-DD`, digits and dashes only.
pub open spec fn is_date(w: Seq<char>) -> bool {
    &&& w.len() == 10
    &&& is_ascii_digit(w[0]) && is_ascii_digit(w[1]) && is_ascii_digit(w[2]) && is_ascii_digit(w[3])
    &&& w[4] == '-'
    &&& is_ascii_digit(w[5]) && is_ascii_digit(w[6])
    &&& w[7] == '-'
    &&& is_ascii_digit(w[8]) && is_ascii_digit(w[9])
}

/// `(A)` through `(Z)`.
pub open spec fn is_priority_word(w: Seq<char>) -> bool {
    w.len() == 3 && w[0] == '(' && 'A' <= w[1] && w[1] <= 'Z' && w[2] == ')'
}

/// On a completed task the first date is the completion date.
pub open spec fn done_date_of(done: bool, ws: Seq<Seq<char>>) -> Option<Seq<char>> {
    if done && ws.len() > 0 && is_date(ws[0]) {
        Some(ws[0])
    } else {
        None
    }
}

/// An open task may lead with a priority.
pub open spec fn priority_of(done: bool, ws: Seq<Seq<char>>) -> Option<char> {
    if !done && ws.len() > 0 && is_priority_word(ws[0]) {
        Some(ws[0][1])
    } else {
        None
    }
}

pub open spec fn lead_len(done: bool, ws: Seq<Seq<char>>) -> int {
    if done_date_of(done, ws) is Some || priority_of(done, ws) is Some {
        1
    } else {
        0
    }
}

/// The creation date follows the completion date or priority, if any.
pub open spec fn created_of(done: bool, ws: Seq<Seq<char>>) -> Option<Seq<char>> {
    let a = lead_len(done, ws);
    if ws.len() > a && is_date(ws[a]) {
        Some(ws[a])
    } else {
        None
    }
}

/// How many leading words are priority and dates rather than body.
pub open spec fn header_len(done: bool, ws: Seq<Seq<char>>) -> int {
    lead_len(done, ws) + if created_of(done, ws) is Some {
        1int
    } else {
        0int
    }
}

/// The words after the priority and dates.
pub open spec fn body_words(done: bool, ws: Seq<Seq<char>>) -> Seq<Seq<char>> {
    ws.skip(header_len(done, ws))
}

pub open spec fn is_project(w: Seq<char>) -> bool {
    w.len() > 1 && w[0] == '+'
}

/// `@context`, or `#tag` when a letter follows the `#`.
pub open spec fn is_context(w: Seq<char>) -> bool {
    w.len() > 1 && (w[0] == '@' || (w[0] == '#' && is_ascii_letter(w[1])))
}

pub open spec fn projects_of(ws: Seq<Seq<char>>) -> Seq<Seq<char>>
    decreases ws.len(),
{
    if ws.len() == 0 {
        Seq::empty()
    } else if is_project(ws.last()) {
        projects_of(ws.drop_last()).push(ws.last().drop_first())
    } else {
        projects_of(ws.drop_last())
    }
}

pub open spec fn contexts_of(ws: Seq<Seq<char>>) -> Seq<Seq<char>>
    decreases ws.len(),
{
    if ws.len() == 0 {
        Seq::empty()
    } else if is_context(ws.last()) {
        contexts_of(ws.drop_last()).push(ws.last().drop_first())
    } else {
        contexts_of(ws.drop_last())
    }
}

/// The value of the last `key:value` word with a non-empty value.
pub open spec fn key_value(ws: Seq<Seq<char>>, key: Seq<char>) -> Option<Seq<char>>
    decreases ws.len(),
{
    if ws.len() == 0 {
        None
    } else if ws.last().len() > key.len() && has_prefix(ws.last(), key) {
        Some(ws.last().skip(key.len() as int))
    } else {
        key_value(ws.drop_last(), key)
    }
}

pub open spec fn due_key() -> Seq<char> {
    seq!['d', 'u', 'e', ':']
}

pub open spec fn rec_key() -> Seq<char> {
    seq!['r', 'e', 'c', ':']
}

pub open spec fn threshold_key() -> Seq<char> {
    seq!['t', ':']
}

impl Task {
    /// Every derived field is what the body says.
    pub open spec fn parsed(&self) -> bool {
        let ws = words(self.raw@);
        let done = self.check != ' ';
        &&& is_check(self.check)
        &&& self.done == done
        &&& opt_view(self.done_date) == done_date_of(done, ws)
        &&& self.priority == priority_of(done, ws)
        &&& opt_view(self.created_date) == created_of(done, ws)
        &&& strings_view(self.projects@) == projects_of(body_words(done, ws))
        &&& strings_view(self.contexts@) == contexts_of(body_words(done, ws))
        &&& opt_view(self.due) == key_value(body_words(done, ws), due_key())
        &&& opt_view(self.rec) == key_value(body_words(done, ws), rec_key())
        &&& opt_view(self.threshold) == key_value(body_words(done, ws), threshold_key())
    }

    /// Markdown for the task.
    pub open spec fn line(&self) -> Seq<char> {
        self.indent@ + seq![self.bullet, ' ', '[', self.check, ']', ' '] + self.raw@
    }

    /// Searchable text: the body words, space separated.
    pub open spec fn body_text(&self) -> Seq<char> {
        join_words(body_words(self.done, words(self.raw@)))
    }
}

pub open spec fn join_words(ws: Seq<Seq<char>>) -> Seq<char>
    decreases ws.len(),
{
    if ws.len() == 0 {
        Seq::empty()
    } else if ws.len() == 1 {
        ws[0]
    } else {
        join_words(ws.drop_last()) + seq![' '] + ws.last()
    }
}

fn is_digit(c: char) -> (r: bool)
    ensures
        r == is_ascii_digit(c),
{
    '0' <= c && c <= '9'
}

/// `w` is an ISO date.
pub fn word_is_date(w: &[char]) -> (r: bool)
    ensures
        r == is_date(w@),
{
    w.len() == 10 && is_digit(w[0]) && is_digit(w[1]) && is_digit(w[2]) && is_digit(w[3]) && w[4]
        == '-' && is_digit(w[5]) && is_digit(w[6]) && w[7] == '-' && is_digit(w[8]) && is_digit(
        w[9],
    )
}

fn word_is_priority(w: &[char]) -> (r: bool)
    ensures
        r == is_priority_word(w@),
{
    w.len() == 3 && w[0] == '(' && 'A' <= w[1] && w[1] <= 'Z' && w[2] == ')'
}

fn word_is_project(w: &[char]) -> (r: bool)
    ensures
        r == is_project(w@),
{
    w.len() > 1 && w[0] == '+'
}

fn word_is_context(w: &[char]) -> (r: bool)
    ensures
        r == is_context(w@),
{
    w.len() > 1 && (w[0] == '@' || (w[0] == '#' && (('a' <= w[1] && w[1] <= 'z') || ('A' <= w[1]
        && w[1] <= 'Z'))))
}

/// The value of `key` among `ws[from..]`, last occurrence winning.
fn find_value(ws: &Vec<Vec<char>>, from: usize, key: &[char], Ghost(wsv): Ghost<Seq<Seq<char>>>) -> (r:
    Option<String>)
    requires
        from <= ws@.len(),
        wsv.len() == ws@.len(),
        forall|j: int| 0 <= j < ws@.len() ==> #[trigger] ws@[j]@ == wsv[j],
    ensures
        opt_view(r) == key_value(wsv.skip(from as int), key@),
{
    let mut found: Option<String> = None;
    let mut i = from;
    while i < ws.len()
        invariant
            from <= i <= ws@.len(),
            wsv.len() == ws@.len(),
            forall|j: int| 0 <= j < ws@.len() ==> #[trigger] ws@[j]@ == wsv[j],
            opt_view(found) == key_value(wsv.skip(from as int).take(i - from), key@),
        decreases ws@.len() - i,
    {
        let w = &ws[i];
        assert(wsv.skip(from as int).take(i + 1 - from).drop_last() =~= wsv.skip(from as int).take(
            i - from,
        ));
        assert(wsv.skip(from as int).take(i + 1 - from).last() == wsv[i as int]);
        assert(w@.skip(0) =~= w@);
        if w.len() > key.len() && has_prefix_at(w.as_slice(), 0, key) {
            let v = string_of(&w.as_slice()[key.len()..w.len()]);
            assert(w@.subrange(key@.len() as int, w@.len() as int) =~= w@.skip(key@.len() as int));
            found = Some(v);
        }
        i = i + 1;
    }
    assert(wsv.skip(from as int).take(ws@.len() - from) =~= wsv.skip(from as int));
    found
}

impl Task {
    /// Builds a task from its wrapper parts and body, parsing the body.
    pub fn from_parts(indent: String, bullet: char, check: char, raw: String) -> (t: Task)
        requires
            is_check(check),
        ensures
            t.parsed(),
            t.indent@ == indent@,
            t.bullet == bullet,
            t.check == check,
            t.raw@ == raw@,
    {
        let done = check != ' ';
        let rv = chars_of(raw.as_str());
        let ws = split_words(rv.as_slice());
        let ghost wsv = words(raw@);
        let n = ws.len();
        let mut lead: usize = 0;
        let mut done_date: Option<String> = None;
        let mut priority: Option<char> = None;
        if done && n > 0 && word_is_date(ws[0].as_slice()) {
            done_date = Some(string_of(ws[0].as_slice()));
            lead = 1;
        } else if !done && n > 0 && word_is_priority(ws[0].as_slice()) {
            priority = Some(ws[0][1]);
            lead = 1;
        }
        assert(lead == lead_len(done, wsv));
        let mut created: Option<String> = None;
        let mut h = lead;
        if n > lead && word_is_date(ws[lead].as_slice()) {
            created = Some(string_of(ws[lead].as_slice()));
            h = lead + 1;
        }
        assert(h == header_len(done, wsv));
        let mut projects: Vec<String> = Vec::new();
        let mut contexts: Vec<String> = Vec::new();
        let mut i = h;
        while i < n
            invariant
                h <= i <= n,
                n == ws@.len(),
                wsv.len() == ws@.len(),
                forall|j: int| 0 <= j < ws@.len() ==> #[trigger] ws@[j]@ == wsv[j],
                strings_view(projects@) == projects_of(wsv.skip(h as int).take(i - h)),
                strings_view(contexts@) == contexts_of(wsv.skip(h as int).take(i - h)),
            decreases n - i,
        {
            let w = &ws[i];
            assert(wsv.skip(h as int).take(i + 1 - h).drop_last() =~= wsv.skip(h as int).take(i - h));
            assert(wsv.skip(h as int).take(i + 1 - h).last() == wsv[i as int]);
            if word_is_project(w.as_slice()) {
                let p = string_of(&w.as_slice()[1..w.len()]);
                assert(w@.subrange(1, w@.len() as int) =~= w@.drop_first());
                projects.push(p);
                assert(strings_view(projects@) =~= projects_of(wsv.skip(h as int).take(i - h)).push(
                    w@.drop_first(),
                ));
            }
            if word_is_context(w.as_slice()) {
                let c = string_of(&w.as_slice()[1..w.len()]);
                assert(w@.subrange(1, w@.len() as int) =~= w@.drop_first());
                contexts.push(c);
                assert(strings_view(contexts@) =~= contexts_of(wsv.skip(h as int).take(i - h)).push(
                    w@.drop_first(),
                ));
            }
            i = i + 1;
        }
        assert(wsv.skip(h as int).take(n - h) =~= wsv.skip(h as int));
        let due_k = ['d', 'u', 'e', ':'];
        let rec_k = ['r', 'e', 'c', ':'];
        let t_k = ['t', ':'];
        assert(due_k@ =~= due_key());
        assert(rec_k@ =~= rec_key());
        assert(t_k@ =~= threshold_key());
        let due = find_value(&ws, h, &due_k, Ghost(wsv));
        let rec = find_value(&ws, h, &rec_k, Ghost(wsv));
        let threshold = find_value(&ws, h, &t_k, Ghost(wsv));
        Task {
            indent,
            bullet,
            check,
            raw,
            done,
            done_date,
            priority,
            created_date: created,
            projects,
            contexts,
            due,
            rec,
            threshold,
        }
    }
}


/// A task as values: every field by its view.
pub struct TaskView {
    pub indent: Seq<char>,
    pub bullet: char,
    pub check: char,
    pub raw: Seq<char>,
    pub done: bool,
    pub done_date: Option<Seq<char>>,
    pub priority: Option<char>,
    pub created_date: Option<Seq<char>>,
    pub projects: Seq<Seq<char>>,
    pub contexts: Seq<Seq<char>>,
    pub due: Option<Seq<char>>,
    pub rec: Option<Seq<char>>,
    pub threshold: Option<Seq<char>>,
}

impl View for Task {
    type V = TaskView;

    open spec fn view(&self) -> TaskView {
        TaskView {
            indent: self.indent@,
            bullet: self.bullet,
            check: self.check,
            raw: self.raw@,
            done: self.done,
            done_date: opt_view(self.done_date),
            priority: self.priority,
            created_date: opt_view(self.created_date),
            projects: strings_view(self.projects@),
            contexts: strings_view(self.contexts@),
            due: opt_view(self.due),
            rec: opt_view(self.rec),
            threshold: opt_view(self.threshold),
        }
    }
}

pub fn clone_opt_string(o: &Option<String>) -> (r: Option<String>)
    ensures
        opt_view(r) == opt_view(*o),
{
    match o {
        Some(s) => Some(s.clone()),
        None => None,
    }
}

pub fn clone_strings(v: &Vec<String>) -> (r: Vec<String>)
    ensures
        strings_view(r@) == strings_view(v@),
{
    let mut r: Vec<String> = Vec::new();
    let mut i: usize = 0;
    while i < v.len()
        invariant
            i <= v@.len(),
            strings_view(r@) == strings_view(v@.take(i as int)),
        decreases v@.len() - i,
    {
        r.push(v[i].clone());
        assert(strings_view(v@.take(i + 1)) =~= strings_view(v@.take(i as int)).push(v@[i as int]@));
        assert(strings_view(r@) =~= strings_view(v@.take(i as int)).push(v@[i as int]@));
        i = i + 1;
    }
    assert(v@.take(v@.len() as int) =~= v@);
    r
}

impl Clone for Task {
    fn clone(&self) -> (r: Self)
        ensures
            r@ == self@,
    {
        Task {
            indent: self.indent.clone(),
            bullet: self.bullet,
            check: self.check,
            raw: self.raw.clone(),
            done: self.done,
            done_date: clone_opt_string(&self.done_date),
            priority: self.priority,
            created_date: clone_opt_string(&self.created_date),
            projects: clone_strings(&self.projects),
            contexts: clone_strings(&self.contexts),
            due: clone_opt_string(&self.due),
            rec: clone_opt_string(&self.rec),
            threshold: clone_opt_string(&self.threshold),
        }
    }
}


/// Tasks with the same values parse the same.
pub proof fn lemma_parsed_view(a: Task, b: Task)
    requires
        a@ == b@,
        a.parsed(),
    ensures
        b.parsed(),
        a.line() == b.line(),
{
    assert(a.indent@ == b.indent@ && a.raw@ == b.raw@);
    assert(strings_view(a.projects@) == strings_view(b.projects@));
}

/// The body with a leading completion date taken off.
pub open spec fn unmark_raw(r: Seq<char>) -> Seq<char> {
    if r.len() >= 11 && is_date(r.take(10)) && r[10] == ' ' {
        r.skip(11)
    } else if r.len() == 10 && is_date(r) {
        Seq::empty()
    } else {
        r
    }
}

impl Task {
    /// Reopens a completed task: the box is unchecked and the completion
    /// date (the first date of a completed body) is dropped. An open task
    /// is left as it is.
    pub fn unmark_done(&mut self)
        requires
            old(self).parsed(),
        ensures
            final(self).parsed(),
            final(self).indent@ == old(self).indent@,
            final(self).bullet == old(self).bullet,
            final(self).check == ' ',
            final(self).raw@ == if old(self).check == ' ' {
                old(self).raw@
            } else {
                unmark_raw(old(self).raw@)
            },
    {
        if self.check == ' ' {
            return;
        }
        let rv = chars_of(self.raw.as_str());
        let n = rv.len();
        let new_raw = if n >= 11 && word_is_date(&rv.as_slice()[0..10]) && rv[10] == ' ' {
            assert(rv@.subrange(0, 10) =~= rv@.take(10));
            assert(rv@.subrange(11, n as int) =~= rv@.skip(11));
            string_of(&rv.as_slice()[11..n])
        } else if n == 10 && word_is_date(rv.as_slice()) {
            assert(n >= 11 ==> rv@.subrange(0, 10) =~= rv@.take(10));
            String::new()
        } else {
            assert(n >= 11 ==> rv@.subrange(0, 10) =~= rv@.take(10));
            self.raw.clone()
        };
        let t = Task::from_parts(self.indent.clone(), self.bullet, ' ', new_raw);
        *self = t;
    }
}

// ----- laws --------------------------------------------------------------------------
/// Reopening drops a leading completion date: a body that starts with an
/// ISO date and a space keeps exactly what follows them.
pub proof fn law_reopen_drops_leading_date(d: Seq<char>, rest: Seq<char>)
    requires
        is_date(d),
    ensures
        unmark_raw(d + seq![' '] + rest) == rest,
{
    let r = d + seq![' '] + rest;
    assert(r.take(10) =~= d);
    assert(r[10] == ' ');
    assert(r.skip(11) =~= rest);
}

proof fn lemma_split_on_single(d: Seq<char>, sep: char)
    requires
        forall|i: int| 0 <= i < d.len() ==> d[i] != sep,
    ensures
        split_on(d, sep) == seq![d],
    decreases d.len(),
{
    if d.len() > 0 {
        assert forall|i: int| 0 <= i < d.drop_last().len() implies d.drop_last()[i] != sep by {
            assert(d.drop_last()[i] == d[i]);
        }
        lemma_split_on_single(d.drop_last(), sep);
        assert(d.drop_last().push(d.last()) =~= d);
        assert(d.last() != sep);
        assert(seq![d.drop_last()].update(0, d.drop_last().push(d.last())) =~= seq![d]);
    } else {
        assert(d =~= Seq::<char>::empty());
    }
}

proof fn lemma_split_on_sep_concat(a: Seq<char>, b: Seq<char>, sep: char)
    ensures
        split_on(a.push(sep) + b, sep) == split_on(a, sep) + split_on(b, sep),
    decreases b.len(),
{
    lemma_split_on_len(a, sep);
    if b.len() == 0 {
        let s = a.push(sep) + b;
        assert(s =~= a.push(sep));
        assert(s.drop_last() =~= a);
        assert(split_on(a, sep).push(Seq::<char>::empty()) =~= split_on(a, sep) + seq![Seq::<char>::empty()]);
    } else {
        let b0 = b.drop_last();
        let c = b.last();
        lemma_split_on_sep_concat(a, b0, sep);
        lemma_split_on_len(b0, sep);
        let s = a.push(sep) + b;
        assert(s.drop_last() =~= a.push(sep) + b0);
        assert(s.last() == c);
        let p = split_on(a, sep);
        let q = split_on(b0, sep);
        if c == sep {
            assert((p + q).push(Seq::<char>::empty()) =~= p + q.push(Seq::<char>::empty()));
        } else {
            let pq = p + q;
            assert(pq.last() == q.last());
            assert(pq.update(pq.len() - 1, pq.last().push(c)) =~= p + q.update(q.len() - 1, q.last().push(c)));
        }
    }
}

proof fn lemma_nonempty_concat(p: Seq<Seq<char>>, q: Seq<Seq<char>>)
    ensures
        nonempty(p + q) == nonempty(p) + nonempty(q),
    decreases q.len(),
{
    if q.len() == 0 {
        assert(p + q =~= p);
        assert(nonempty(p) + nonempty(q) =~= nonempty(p));
    } else {
        lemma_nonempty_concat(p, q.drop_last());
        assert((p + q).drop_last() =~= p + q.drop_last());
        assert((p + q).last() == q.last());
        if q.last().len() > 0 {
            assert((nonempty(p) + nonempty(q.drop_last())).push(q.last()) =~= nonempty(p) + nonempty(
                q.drop_last(),
            ).push(q.last()));
        }
    }
}

/// The words of a body that starts with a date and a space: the date, then
/// the words of the rest.
proof fn lemma_words_after_date(d: Seq<char>, rest: Seq<char>)
    requires
        is_date(d),
    ensures
        words(d + seq![' '] + rest) == seq![d] + words(rest),
{
    assert(d + seq![' '] + rest =~= d.push(' ') + rest);
    assert forall|i: int| 0 <= i < d.len() implies d[i] != ' ' by {
        assert(0 <= i < 10);
        if i != 4 && i != 7 {
            assert(is_ascii_digit(d[i]));
        }
    }
    lemma_split_on_single(d, ' ');
    lemma_split_on_sep_concat(d, rest, ' ');
    lemma_nonempty_concat(seq![d], split_on(rest, ' '));
    assert(seq![d].drop_last() =~= Seq::<Seq<char>>::empty());
    assert(nonempty(Seq::<Seq<char>>::empty()) =~= Seq::<Seq<char>>::empty());
    assert(nonempty(seq![d]) =~= seq![d]);
}

/// Reopening a completed task whose body starts with its completion date
/// and a space: the reopened task has no completion date, its body is the
/// rest, and it keeps the creation date the completed task had (when that
/// rest does not lead with a priority, which a completed task's body does
/// not carry).
pub proof fn law_reopen_keeps_creation_date(t: Task, u: Task, d: Seq<char>, rest: Seq<char>)
    requires
        t.parsed(),
        u.parsed(),
        t.check != ' ',
        u.check == ' ',
        is_date(d),
        t.raw@ == d + seq![' '] + rest,
        u.raw@ == unmark_raw(t.raw@),
        !(words(rest).len() > 0 && is_priority_word(words(rest)[0])),
    ensures
        opt_view(t.done_date) == Some(d),
        u.raw@ == rest,
        !u.done,
        u.done_date is None,
        opt_view(u.created_date) == opt_view(t.created_date),
{
    law_reopen_drops_leading_date(d, rest);
    lemma_words_after_date(d, rest);
    let ws = words(t.raw@);
    let wr = words(rest);
    assert(ws[0] == d);
    assert(ws.len() == wr.len() + 1);
    if wr.len() > 0 {
        assert(ws[1] == wr[0]);
    }
}

} // verus!
