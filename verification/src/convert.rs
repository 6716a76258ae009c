//! Converting between todo.txt and the markdown checklist, both ways.
//!
//! Import wraps every non-blank todo.txt line in a checkbox, moving the
//! leading `x ` of a completed task into `[x]`. Eject unwraps every task and
//! drops what todo.txt cannot hold (headings, prose), counting it.
use vstd::prelude::*;
use crate::chars::{
    chars_of, has_prefix, has_prefix_at, is_blank, is_blank_line, lemma_split_on_len, line_is_blank,
    push_char, push_chars, split_on,
};
use crate::doc::{
    fence_after, fence_marker, fence_step, indent_len, is_task_line, join_lines, lines_of,
    split_lines, task_shape,
};
use crate::todo::{is_date, is_check};

verus! {

pub open spec fn done_wrapper() -> Seq<char> {
    seq!['-', ' ', '[', 'x', ']', ' ']
}

pub open spec fn open_wrapper() -> Seq<char> {
    seq!['-', ' ', '[', ' ', ']', ' ']
}

pub open spec fn x_prefix() -> Seq<char> {
    seq!['x', ' ']
}

/// One todo.txt line as a markdown line: blank lines pass through, a
/// completed task (`x ...`) becomes `- [x] ...`, anything else `- [ ] ...`.
pub open spec fn import_line(l: Seq<char>) -> Seq<char> {
    if is_blank_line(l) {
        l
    } else if has_prefix(l, x_prefix()) {
        done_wrapper() + l.skip(2)
    } else {
        open_wrapper() + l
    }
}

pub open spec fn import_lines(ls: Seq<Seq<char>>) -> Seq<Seq<char>> {
    ls.map_values(|l: Seq<char>| import_line(l))
}

/// The todo.txt line for a task line: the body, with `x ` in front when
/// the box is checked.
pub open spec fn export_line(l: Seq<char>) -> Seq<char> {
    let k = indent_len(l);
    if l[k + 3] == ' ' {
        l.skip(k + 6)
    } else {
        x_prefix() + l.skip(k + 6)
    }
}

/// The todo.txt lines of a markdown document: one per task, in order.
pub open spec fn eject_lines(ls: Seq<Seq<char>>) -> Seq<Seq<char>>
    decreases ls.len(),
{
    if ls.len() == 0 {
        Seq::empty()
    } else {
        let p = eject_lines(ls.drop_last());
        if is_task_line(fence_after(ls.drop_last()), ls.last()) {
            p.push(export_line(ls.last()))
        } else {
            p
        }
    }
}

/// Non-blank, non-task lines: what todo.txt has no place for.
pub open spec fn eject_dropped(ls: Seq<Seq<char>>) -> nat
    decreases ls.len(),
{
    if ls.len() == 0 {
        0
    } else {
        let p = eject_dropped(ls.drop_last());
        if !is_task_line(fence_after(ls.drop_last()), ls.last()) && !is_blank_line(ls.last()) {
            p + 1
        } else {
            p
        }
    }
}

/// The non-blank lines, in order.
pub open spec fn nonblank_lines(ls: Seq<Seq<char>>) -> Seq<Seq<char>>
    decreases ls.len(),
{
    if ls.len() == 0 {
        Seq::empty()
    } else if is_blank_line(ls.last()) {
        nonblank_lines(ls.drop_last())
    } else {
        nonblank_lines(ls.drop_last()).push(ls.last())
    }
}

/// Wraps each line of a todo.txt body in a markdown checkbox.
pub fn from_todotxt(s: &str) -> (r: String)
    ensures
        r@ == join_lines(import_lines(lines_of(s@))),
{
    let sv = chars_of(s);
    let ls = split_lines(sv.as_slice());
    let ghost lv = lines_of(s@);
    let mut out = String::new();
    let mut i: usize = 0;
    let xp = ['x', ' '];
    assert(xp@ =~= x_prefix());
    while i < ls.len()
        invariant
            i <= ls@.len(),
            ls@.len() == lv.len(),
            forall|j: int| 0 <= j < ls@.len() ==> #[trigger] ls@[j]@ == lv[j],
            xp@ == x_prefix(),
            out@ == join_lines(import_lines(lv.take(i as int))),
        decreases ls@.len() - i,
    {
        let l = ls[i].as_slice();
        let ghost before = out@;
        assert(import_lines(lv.take(i + 1)) =~= import_lines(lv.take(i as int)).push(
            import_line(lv[i as int]),
        ));
        assert(import_lines(lv.take(i + 1)).drop_last() =~= import_lines(lv.take(i as int)));
        assert(l@.skip(0) =~= l@);
        if line_is_blank(l) {
            push_chars(&mut out, l);
        } else if has_prefix_at(l, 0, &xp) {
            push_char(&mut out, '-');
            push_char(&mut out, ' ');
            push_char(&mut out, '[');
            push_char(&mut out, 'x');
            push_char(&mut out, ']');
            push_char(&mut out, ' ');
            push_chars(&mut out, &l[2..l.len()]);
            assert(out@ =~= before + import_line(l@));
        } else {
            push_char(&mut out, '-');
            push_char(&mut out, ' ');
            push_char(&mut out, '[');
            push_char(&mut out, ' ');
            push_char(&mut out, ']');
            push_char(&mut out, ' ');
            push_chars(&mut out, l);
            assert(out@ =~= before + import_line(l@));
        }
        push_char(&mut out, '\n');
        i = i + 1;
    }
    assert(lv.take(ls@.len() as int) =~= lv);
    out
}

fn indent_of(l: &[char]) -> (k: usize)
    ensures
        k == indent_len(l@),
        k <= l@.len(),
{
    let mut k: usize = 0;
    while k < l.len() && (l[k] == ' ' || l[k] == '\t')
        invariant
            k <= l@.len(),
            crate::doc::indent_from(l@, k as int) == indent_len(l@),
        decreases l@.len() - k,
    {
        k = k + 1;
    }
    k
}

fn fence_of(l: &[char]) -> (r: Option<char>)
    ensures
        r == fence_marker(l@),
{
    let k = indent_of(l);
    if l.len() - k >= 3 && ((l[k] == '`' && l[k + 1] == '`' && l[k + 2] == '`') || (l[k] == '~'
        && l[k + 1] == '~' && l[k + 2] == '~')) {
        Some(l[k])
    } else {
        None
    }
}

fn is_task_shaped(l: &[char]) -> (r: bool)
    ensures
        r == task_shape(l@),
{
    let k = indent_of(l);
    l.len() - k >= 6 && (l[k] == '-' || l[k] == '*' || l[k] == '+') && l[k + 1] == ' ' && l[k + 2]
        == '[' && (l[k + 3] == ' ' || l[k + 3] == 'x' || l[k + 3] == 'X') && l[k + 4] == ']' && l[k
        + 5] == ' '
}

/// Unwraps every task of a markdown body into a todo.txt line; returns the
/// body and how many non-blank non-task lines were dropped.
pub fn to_todotxt(s: &str) -> (r: (String, usize))
    ensures
        r.0@ == join_lines(eject_lines(lines_of(s@))),
        r.1 == eject_dropped(lines_of(s@)),
{
    let sv = chars_of(s);
    let ls = split_lines(sv.as_slice());
    let ghost lv = lines_of(s@);
    let mut out = String::new();
    let mut dropped: usize = 0;
    let mut fence: Option<char> = None;
    let mut i: usize = 0;
    while i < ls.len()
        invariant
            i <= ls@.len(),
            ls@.len() == lv.len(),
            forall|j: int| 0 <= j < ls@.len() ==> #[trigger] ls@[j]@ == lv[j],
            fence == fence_after(lv.take(i as int)),
            out@ == join_lines(eject_lines(lv.take(i as int))),
            dropped == eject_dropped(lv.take(i as int)),
            dropped <= i,
        decreases ls@.len() - i,
    {
        let l = ls[i].as_slice();
        let ghost pre = lv.take(i as int);
        assert(lv.take(i + 1).drop_last() =~= pre);
        assert(lv.take(i + 1).last() == lv[i as int]);
        let ghost before = out@;
        if fence.is_none() && is_task_shaped(l) {
            let k = indent_of(l);
            assert(task_shape(l@));
            assert(l@.len() == l.len());
            assert(k + 6 <= l@.len());
            assert(eject_lines(lv.take(i + 1)) == eject_lines(pre).push(export_line(l@)));
            if l[k + 3] != ' ' {
                push_char(&mut out, 'x');
                push_char(&mut out, ' ');
            }
            push_chars(&mut out, &l[k + 6..l.len()]);
            push_char(&mut out, '\n');
            assert(l@.subrange(k + 6, l@.len() as int) =~= l@.skip(k + 6));
            assert(out@ =~= before + export_line(l@) + seq!['\n']);
            assert(eject_lines(pre).push(export_line(l@)).drop_last() =~= eject_lines(pre));
            assert(join_lines(eject_lines(pre).push(export_line(l@))) =~= join_lines(eject_lines(pre))
                + export_line(l@) + seq!['\n']);
        } else {
            assert(eject_lines(lv.take(i + 1)) == eject_lines(pre));
            if !line_is_blank(l) {
                dropped = dropped + 1;
            }
        }
        let f = fence_of(l);
        fence = match fence {
            None => f,
            Some(c) => if f == Some(c) {
                None
            } else {
                Some(c)
            },
        };
        i = i + 1;
    }
    assert(lv.take(ls@.len() as int) =~= lv);
    (out, dropped)
}

/// `(A)`-style priority at the start of a line.
pub open spec fn starts_with_priority_spec(t: Seq<char>) -> bool {
    t.len() >= 3 && t[0] == '(' && 'A' <= t[1] && t[1] <= 'Z' && t[2] == ')' && (t.len() == 3 || t[3]
        == ' ')
}

/// An ISO date at the start of a line.
pub open spec fn starts_with_iso_date_spec(t: Seq<char>) -> bool {
    t.len() >= 10 && is_date(t.take(10)) && (t.len() == 10 || t[10] == ' ')
}

pub fn starts_with_priority(t: &[char]) -> (r: bool)
    ensures
        r == starts_with_priority_spec(t@),
{
    t.len() >= 3 && t[0] == '(' && 'A' <= t[1] && t[1] <= 'Z' && t[2] == ')' && (t.len() == 3 || t[3]
        == ' ')
}

pub fn starts_with_iso_date(t: &[char]) -> (r: bool)
    ensures
        r == starts_with_iso_date_spec(t@),
{
    if t.len() < 10 {
        return false;
    }
    let head = &t[0..10];
    assert(head@ =~= t@.take(10));
    crate::todo::word_is_date(head) && (t.len() == 10 || t[10] == ' ')
}

// ----- the import round trip --------------------------------------------------
pub open spec fn has_no_nl(l: Seq<char>) -> bool {
    forall|i: int| 0 <= i < l.len() ==> l[i] != '\n'
}

proof fn lemma_split_on_no_sep(s: Seq<char>)
    ensures
        forall|j: int| 0 <= j < split_on(s, '\n').len() ==> has_no_nl(#[trigger] split_on(s, '\n')[j]),
    decreases s.len(),
{
    lemma_split_on_len(s, '\n');
    if s.len() > 0 {
        lemma_split_on_no_sep(s.drop_last());
        lemma_split_on_len(s.drop_last(), '\n');
        let p = split_on(s.drop_last(), '\n');
        if s.last() != '\n' {
            let q = p.update(p.len() - 1, p.last().push(s.last()));
            assert forall|j: int| 0 <= j < q.len() implies has_no_nl(#[trigger] q[j]) by {
                if j == q.len() - 1 {
                    assert(has_no_nl(p[j]));
                    assert(q[j] =~= p[j].push(s.last()));
                }
            }
        } else {
            let q = p.push(Seq::<char>::empty());
            assert forall|j: int| 0 <= j < q.len() implies has_no_nl(#[trigger] q[j]) by {
                if j < p.len() {
                    assert(q[j] == p[j]);
                }
            }
        }
    }
}

/// No line of a file holds a line feed.
pub proof fn lemma_lines_have_no_nl(s: Seq<char>)
    ensures
        forall|j: int| 0 <= j < lines_of(s).len() ==> has_no_nl(#[trigger] lines_of(s)[j]),
{
    lemma_split_on_no_sep(s);
    lemma_split_on_len(s, '\n');
    let p = split_on(s, '\n');
    assert forall|j: int| 0 <= j < lines_of(s).len() implies has_no_nl(#[trigger] lines_of(s)[j]) by {
        assert(lines_of(s)[j] == p[j]);
    }
}

proof fn lemma_split_on_append(s: Seq<char>, m: Seq<char>)
    requires
        has_no_nl(m),
    ensures
        split_on(s + m, '\n') == split_on(s, '\n').update(
            split_on(s, '\n').len() - 1,
            split_on(s, '\n').last() + m,
        ),
    decreases m.len(),
{
    lemma_split_on_len(s, '\n');
    let p = split_on(s, '\n');
    if m.len() == 0 {
        assert(s + m =~= s);
        assert(p.update(p.len() - 1, p.last() + m) =~= p);
    } else {
        let m0 = m.drop_last();
        assert(has_no_nl(m0));
        lemma_split_on_append(s, m0);
        assert((s + m).drop_last() =~= s + m0);
        assert((s + m).last() == m.last());
        lemma_split_on_len(s + m0, '\n');
        let q = split_on(s + m0, '\n');
        assert(q.len() == p.len());
        assert(q.last() =~= p.last() + m0);
        assert(m =~= m0.push(m.last()));
        assert(q.last().push(m.last()) =~= p.last() + m);
        assert(q.update(q.len() - 1, q.last().push(m.last())) =~= p.update(
            p.len() - 1,
            p.last() + m,
        ));
    }
}

proof fn lemma_split_join_lines(ms: Seq<Seq<char>>)
    requires
        forall|j: int| 0 <= j < ms.len() ==> has_no_nl(#[trigger] ms[j]),
    ensures
        split_on(join_lines(ms), '\n') == ms.push(Seq::<char>::empty()),
    decreases ms.len(),
{
    if ms.len() == 0 {
        assert(split_on(Seq::<char>::empty(), '\n') =~= seq![Seq::<char>::empty()]);
        assert(ms.push(Seq::<char>::empty()) =~= seq![Seq::<char>::empty()]);
    } else {
        let m0 = ms.drop_last();
        assert forall|j: int| 0 <= j < m0.len() implies has_no_nl(#[trigger] m0[j]) by {
            assert(m0[j] == ms[j]);
        }
        lemma_split_join_lines(m0);
        let a = join_lines(m0);
        assert(has_no_nl(ms.last()));
        lemma_split_on_append(a, ms.last());
        let b = a + ms.last();
        assert(join_lines(ms) == b + seq!['\n']);
        assert((b + seq!['\n']).drop_last() =~= b);
        lemma_split_on_len(b, '\n');
        let pb = split_on(b, '\n');
        assert(pb =~= m0.push(ms.last()));
        assert(pb.push(Seq::<char>::empty()) =~= ms.push(Seq::<char>::empty()));
    }
}

/// Writing lines out and reading them back gives the same lines.
pub proof fn lemma_lines_of_join(ms: Seq<Seq<char>>)
    requires
        forall|j: int| 0 <= j < ms.len() ==> has_no_nl(#[trigger] ms[j]),
    ensures
        lines_of(join_lines(ms)) == ms,
{
    lemma_split_join_lines(ms);
    assert(ms.push(Seq::<char>::empty()).drop_last() =~= ms);
}

proof fn lemma_import_no_fence(ls: Seq<Seq<char>>)
    ensures
        fence_after(import_lines(ls)) is None,
        eject_lines(import_lines(ls)) == nonblank_lines(ls),
    decreases ls.len(),
{
    if ls.len() > 0 {
        let q = ls.drop_last();
        lemma_import_no_fence(q);
        let l = ls.last();
        let il = import_line(l);
        assert(import_lines(ls).drop_last() =~= import_lines(q));
        assert(import_lines(ls).last() == il);
        if is_blank_line(l) {
            let k = indent_len(il);
            lemma_indent_bound(il, 0);
            if k < il.len() {
                assert(crate::chars::is_space(il[k]));
            }
            assert(!task_shape(il));
            assert(fence_marker(il) is None);
        } else {
            lemma_indent_first_not_blank(il);
            if has_prefix(l, x_prefix()) {
                assert(il.skip(6) =~= l.skip(2));
                assert(x_prefix() + l.skip(2) =~= l);
            } else {
                assert(il.skip(6) =~= l);
            }
        }
    }
}

proof fn lemma_indent_bound(l: Seq<char>, i: int)
    requires
        0 <= i <= l.len(),
    ensures
        i <= crate::doc::indent_from(l, i) <= l.len(),
        crate::doc::indent_from(l, i) < l.len() ==> !is_blank(l[crate::doc::indent_from(l, i)]),
    decreases l.len() - i,
{
    if i < l.len() && is_blank(l[i]) {
        lemma_indent_bound(l, i + 1);
    }
}

proof fn lemma_indent_first_not_blank(l: Seq<char>)
    requires
        l.len() > 0,
        l[0] == '-',
    ensures
        indent_len(l) == 0,
{
}

/// Importing a todo.txt body and ejecting it again gives back every
/// non-blank line, byte for byte and in order.
pub proof fn law_import_then_eject(s: Seq<char>)
    ensures
        eject_lines(lines_of(join_lines(import_lines(lines_of(s))))) == nonblank_lines(lines_of(s)),
{
    let ls = lines_of(s);
    lemma_lines_have_no_nl(s);
    assert forall|j: int| 0 <= j < import_lines(ls).len() implies has_no_nl(
        #[trigger] import_lines(ls)[j],
    ) by {
        let l = ls[j];
        assert(has_no_nl(l));
        assert(import_lines(ls)[j] == import_line(l));
        if !is_blank_line(l) {
            if has_prefix(l, x_prefix()) {
                assert forall|i: int| 0 <= i < import_line(l).len() implies import_line(l)[i]
                    != '\n' by {
                    if i >= 6 {
                        assert(import_line(l)[i] == l[i - 4]);
                    }
                }
            } else {
                assert forall|i: int| 0 <= i < import_line(l).len() implies import_line(l)[i]
                    != '\n' by {
                    if i >= 6 {
                        assert(import_line(l)[i] == l[i - 6]);
                    }
                }
            }
        }
    }
    lemma_lines_of_join(import_lines(ls));
    lemma_import_no_fence(ls);
}

} // verus!
