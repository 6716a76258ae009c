//! Conversions between `String`s and character vectors, and small
//! character-level helpers shared by the parsers.
use vstd::prelude::*;

verus! {

/// Appends one character to a `String` (`String::push`).
#[verifier::external_body]
pub(crate) fn push_char(s: &mut String, c: char)
    ensures
        final(s)@ == old(s)@.push(c),
{
    s.push(c)
}

/// The characters of `s`, in order.
pub fn chars_of(s: &str) -> (v: Vec<char>)
    ensures
        v@ == s@,
{
    let mut v: Vec<char> = Vec::new();
    for c in it: s.chars()
        invariant
            v@ == it.seq().take(it.index() as int),
            it.seq() == s@,
    {
        v.push(c);
    }
    v
}

/// A `String` holding exactly the characters of `v`.
pub fn string_of(v: &[char]) -> (s: String)
    ensures
        s@ == v@,
{
    let mut s = String::new();
    let mut i: usize = 0;
    while i < v.len()
        invariant
            i <= v@.len(),
            s@ == v@.take(i as int),
        decreases v@.len() - i,
    {
        push_char(&mut s, v[i]);
        assert(v@.take(i + 1) =~= v@.take(i as int).push(v@[i as int]));
        i = i + 1;
    }
    assert(v@.take(v@.len() as int) =~= v@);
    s
}

/// Appends the characters of `v` to `s`.
pub fn push_chars(s: &mut String, v: &[char])
    ensures
        final(s)@ == old(s)@ + v@,
{
    let mut i: usize = 0;
    while i < v.len()
        invariant
            i <= v@.len(),
            s@ == old(s)@ + v@.take(i as int),
        decreases v@.len() - i,
    {
        push_char(s, v[i]);
        assert(v@.take(i + 1) =~= v@.take(i as int).push(v@[i as int]));
        assert(old(s)@ + v@.take(i + 1) =~= (old(s)@ + v@.take(i as int)).push(v@[i as int]));
        i = i + 1;
    }
    assert(v@.take(v@.len() as int) =~= v@);
}

/// Appends the characters of `t` to `s`.
pub fn push_str(s: &mut String, t: &str)
    ensures
        final(s)@ == old(s)@ + t@,
{
    let v = chars_of(t);
    push_chars(s, v.as_slice());
}

/// `a` and `b` hold the same characters.
pub fn chars_eq(a: &[char], b: &[char]) -> (r: bool)
    ensures
        r == (a@ == b@),
{
    if a.len() != b.len() {
        return false;
    }
    let mut i: usize = 0;
    while i < a.len()
        invariant
            a@.len() == b@.len(),
            i <= a@.len(),
            forall|j: int| 0 <= j < i ==> a@[j] == b@[j],
        decreases a@.len() - i,
    {
        if a[i] != b[i] {
            return false;
        }
        i = i + 1;
    }
    assert(a@ =~= b@);
    true
}

/// `p` is a prefix of `s`.
pub open spec fn has_prefix(s: Seq<char>, p: Seq<char>) -> bool {
    p.len() <= s.len() && s.take(p.len() as int) == p
}

/// `s[at..]` starts with `p`.
pub fn has_prefix_at(s: &[char], at: usize, p: &[char]) -> (r: bool)
    requires
        at <= s@.len(),
    ensures
        r == has_prefix(s@.skip(at as int), p@),
{
    if s.len() - at < p.len() {
        return false;
    }
    let mut i: usize = 0;
    while i < p.len()
        invariant
            at + p@.len() <= s@.len(),
            s@.len() == s.len(),
            i <= p@.len(),
            forall|j: int| 0 <= j < i ==> s@[at + j] == p@[j],
        decreases p@.len() - i,
    {
        if s[at + i] != p[i] {
            assert(s@.skip(at as int).take(p@.len() as int)[i as int] == s@[at + i]);
            return false;
        }
        i = i + 1;
    }
    assert(s@.skip(at as int).take(p@.len() as int) =~= p@);
    true
}

/// ASCII lower-casing of one character; every other character is kept.
pub open spec fn lower(c: char) -> char {
    if 'A' <= c && c <= 'Z' {
        ((c as u8) + 32) as char
    } else {
        c
    }
}

pub fn lower_char(c: char) -> (r: char)
    ensures
        r == lower(c),
{
    if 'A' <= c && c <= 'Z' {
        let u: u8 = c as u8 + 32;
        u as char
    } else {
        c
    }
}

pub open spec fn is_ascii_digit(c: char) -> bool {
    '0' <= c && c <= '9'
}

pub open spec fn is_ascii_letter(c: char) -> bool {
    ('a' <= c && c <= 'z') || ('A' <= c && c <= 'Z')
}

pub open spec fn is_ascii_alnum(c: char) -> bool {
    is_ascii_digit(c) || is_ascii_letter(c)
}

/// Spaces and tabs: what counts as indentation.
pub open spec fn is_blank(c: char) -> bool {
    c == ' ' || c == '\t'
}

/// Whitespace in the sense of `char::is_whitespace` (the Unicode
/// `White_Space` property).
pub open spec fn is_space(c: char) -> bool {
    ||| '\u{9}' <= c <= '\u{d}'
    ||| c == ' '
    ||| c == '\u{85}'
    ||| c == '\u{a0}'
    ||| c == '\u{1680}'
    ||| '\u{2000}' <= c <= '\u{200a}'
    ||| c == '\u{2028}'
    ||| c == '\u{2029}'
    ||| c == '\u{202f}'
    ||| c == '\u{205f}'
    ||| c == '\u{3000}'
}

pub fn char_is_space(c: char) -> (r: bool)
    ensures
        r == is_space(c),
{
    ('\u{9}' <= c && c <= '\u{d}') || c == ' ' || c == '\u{85}' || c == '\u{a0}' || c == '\u{1680}'
        || ('\u{2000}' <= c && c <= '\u{200a}') || c == '\u{2028}' || c == '\u{2029}' || c
        == '\u{202f}' || c == '\u{205f}' || c == '\u{3000}'
}

/// Every character is whitespace (the empty line included).
pub open spec fn is_blank_line(l: Seq<char>) -> bool {
    forall|i: int| 0 <= i < l.len() ==> is_space(#[trigger] l[i])
}

pub fn line_is_blank(l: &[char]) -> (r: bool)
    ensures
        r == is_blank_line(l@),
{
    let mut i: usize = 0;
    while i < l.len()
        invariant
            i <= l@.len(),
            forall|j: int| 0 <= j < i ==> is_space(#[trigger] l@[j]),
        decreases l@.len() - i,
    {
        if !char_is_space(l[i]) {
            return false;
        }
        i = i + 1;
    }
    true
}

/// `l` without its trailing whitespace.
pub open spec fn trim_end(l: Seq<char>) -> Seq<char>
    decreases l.len(),
{
    if l.len() > 0 && is_space(l.last()) {
        trim_end(l.drop_last())
    } else {
        l
    }
}

pub fn trim_end_chars(l: &[char]) -> (r: Vec<char>)
    ensures
        r@ == trim_end(l@),
{
    let mut n = l.len();
    assert(l@.take(n as int) =~= l@);
    while n > 0 && char_is_space(l[n - 1])
        invariant
            n <= l@.len(),
            trim_end(l@.take(n as int)) == trim_end(l@),
        decreases n,
    {
        assert(l@.take(n as int).drop_last() =~= l@.take(n - 1));
        n = n - 1;
    }
    let mut r: Vec<char> = Vec::new();
    let mut i: usize = 0;
    while i < n
        invariant
            i <= n <= l@.len(),
            r@ == l@.take(i as int),
        decreases n - i,
    {
        r.push(l[i]);
        assert(l@.take(i + 1) =~= l@.take(i as int).push(l@[i as int]));
        i = i + 1;
    }
    assert(n > 0 ==> l@.take(n as int).last() == l@[n - 1]);
    r
}

/// Pieces of `s` between occurrences of `sep`; there is always at least one.
pub open spec fn split_on(s: Seq<char>, sep: char) -> Seq<Seq<char>>
    decreases s.len(),
{
    if s.len() == 0 {
        seq![Seq::<char>::empty()]
    } else {
        let p = split_on(s.drop_last(), sep);
        if s.last() == sep {
            p.push(Seq::<char>::empty())
        } else {
            p.update(p.len() - 1, p.last().push(s.last()))
        }
    }
}

pub proof fn lemma_split_on_len(s: Seq<char>, sep: char)
    ensures
        split_on(s, sep).len() >= 1,
    decreases s.len(),
{
    if s.len() > 0 {
        lemma_split_on_len(s.drop_last(), sep);
    }
}

/// One step of `split_on`: what a prefix one character longer splits into.
pub proof fn lemma_split_on_step(s: Seq<char>, i: int, sep: char)
    requires
        0 <= i < s.len(),
    ensures
        split_on(s.take(i), sep).len() >= 1,
        split_on(s.take(i + 1), sep) == (if s[i] == sep {
            split_on(s.take(i), sep).push(Seq::<char>::empty())
        } else {
            let p = split_on(s.take(i), sep);
            p.update(p.len() - 1, p.last().push(s[i]))
        }),
{
    lemma_split_on_len(s.take(i), sep);
    assert(s.take(i + 1).drop_last() =~= s.take(i));
}

/// Only the non-empty pieces, in order.
pub open spec fn nonempty(ps: Seq<Seq<char>>) -> Seq<Seq<char>>
    decreases ps.len(),
{
    if ps.len() == 0 {
        Seq::empty()
    } else {
        let r = nonempty(ps.drop_last());
        if ps.last().len() > 0 {
            r.push(ps.last())
        } else {
            r
        }
    }
}

/// Space-separated words, empty ones dropped.
pub open spec fn words(s: Seq<char>) -> Seq<Seq<char>> {
    nonempty(split_on(s, ' '))
}

/// Splits `s` into its space-separated words.
pub fn split_words(s: &[char]) -> (ws: Vec<Vec<char>>)
    ensures
        ws@.len() == words(s@).len(),
        forall|j: int| 0 <= j < ws@.len() ==> #[trigger] ws@[j]@ == words(s@)[j],
{
    let mut ws: Vec<Vec<char>> = Vec::new();
    let mut cur: Vec<char> = Vec::new();
    let mut i: usize = 0;
    proof {
        assert(s@.take(0) =~= Seq::<char>::empty());
    }
    while i < s.len()
        invariant
            i <= s@.len(),
            split_on(s@.take(i as int), ' ').len() >= 1,
            cur@ == split_on(s@.take(i as int), ' ').last(),
            ws@.len() == nonempty(split_on(s@.take(i as int), ' ').drop_last()).len(),
            forall|j: int|
                0 <= j < ws@.len() ==> #[trigger] ws@[j]@ == nonempty(
                    split_on(s@.take(i as int), ' ').drop_last(),
                )[j],
        decreases s@.len() - i,
    {
        proof {
            lemma_split_on_step(s@, i as int, ' ');
        }
        let ghost p = split_on(s@.take(i as int), ' ');
        if s[i] == ' ' {
            let ghost q = p.push(Seq::<char>::empty());
            assert(q.drop_last() =~= p);
            assert(p =~= p.drop_last().push(p.last()));
            if cur.len() > 0 {
                let w = cur;
                ws.push(w);
                cur = Vec::new();
            } else {
                cur = Vec::new();
            }
            assert(cur@ =~= q.last());
        } else {
            let ghost q = p.update(p.len() - 1, p.last().push(s@[i as int]));
            assert(q.drop_last() =~= p.drop_last());
            cur.push(s[i]);
        }
        i = i + 1;
    }
    proof {
        let p = split_on(s@.take(i as int), ' ');
        assert(s@.take(i as int) =~= s@);
        assert(p =~= p.drop_last().push(p.last()));
    }
    if cur.len() > 0 {
        ws.push(cur);
    }
    ws
}

/// Decimal digits of `n`.
pub open spec fn decimal(n: nat) -> Seq<char>
    decreases n,
{
    if n < 10 {
        seq![digit_char(n)]
    } else {
        decimal(n / 10).push(digit_char(n % 10))
    }
}

pub open spec fn digit_char(d: nat) -> char {
    ((d + 48) as u8) as char
}

/// The decimal representation of `n`.
pub fn decimal_string(n: usize) -> (s: String)
    ensures
        s@ == decimal(n as nat),
    decreases n,
{
    if n < 10 {
        let mut s = String::new();
        let c: char = (n as u8 + 48) as char;
        push_char(&mut s, c);
        assert(s@ =~= seq![digit_char(n as nat)]);
        s
    } else {
        let mut s = decimal_string(n / 10);
        let d: u8 = (n % 10) as u8;
        push_char(&mut s, (d + 48) as char);
        s
    }
}


/// `l` without its leading whitespace.
pub open spec fn trim_start(l: Seq<char>) -> Seq<char>
    decreases l.len(),
{
    if l.len() > 0 && is_space(l[0]) {
        trim_start(l.drop_first())
    } else {
        l
    }
}

/// `l` without whitespace at either end.
pub open spec fn trim(l: Seq<char>) -> Seq<char> {
    trim_start(trim_end(l))
}

pub fn trim_chars(l: &[char]) -> (r: Vec<char>)
    ensures
        r@ == trim(l@),
{
    let e = trim_end_chars(l);
    let mut k: usize = 0;
    assert(e@.skip(0) =~= e@);
    while k < e.len() && char_is_space(e[k])
        invariant
            k <= e@.len(),
            trim_start(e@.skip(k as int)) == trim_start(e@),
        decreases e@.len() - k,
    {
        assert(e@.skip(k as int).drop_first() =~= e@.skip(k + 1));
        k = k + 1;
    }
    let mut r: Vec<char> = Vec::new();
    let mut i = k;
    while i < e.len()
        invariant
            k <= i <= e@.len(),
            r@ == e@.subrange(k as int, i as int),
        decreases e@.len() - i,
    {
        r.push(e[i]);
        assert(e@.subrange(k as int, i + 1) =~= e@.subrange(k as int, i as int).push(e@[i as int]));
        i = i + 1;
    }
    assert(e@.subrange(k as int, e@.len() as int) =~= e@.skip(k as int));
    assert(k < e@.len() ==> e@.skip(k as int)[0] == e@[k as int]);
    r
}

/// Pieces of `s` between whitespace characters.
pub open spec fn split_ws(s: Seq<char>) -> Seq<Seq<char>>
    decreases s.len(),
{
    if s.len() == 0 {
        seq![Seq::<char>::empty()]
    } else {
        let p = split_ws(s.drop_last());
        if is_space(s.last()) {
            p.push(Seq::<char>::empty())
        } else {
            p.update(p.len() - 1, p.last().push(s.last()))
        }
    }
}

proof fn lemma_split_ws_len(s: Seq<char>)
    ensures
        split_ws(s).len() >= 1,
    decreases s.len(),
{
    if s.len() > 0 {
        lemma_split_ws_len(s.drop_last());
    }
}

/// Whitespace-separated tokens (`str::split_whitespace`).
pub open spec fn ws_tokens(s: Seq<char>) -> Seq<Seq<char>> {
    nonempty(split_ws(s))
}

pub fn split_whitespace(s: &[char]) -> (ws: Vec<Vec<char>>)
    ensures
        ws@.len() == ws_tokens(s@).len(),
        forall|j: int| 0 <= j < ws@.len() ==> #[trigger] ws@[j]@ == ws_tokens(s@)[j],
{
    let mut ws: Vec<Vec<char>> = Vec::new();
    let mut cur: Vec<char> = Vec::new();
    let mut i: usize = 0;
    proof {
        assert(s@.take(0) =~= Seq::<char>::empty());
    }
    while i < s.len()
        invariant
            i <= s@.len(),
            split_ws(s@.take(i as int)).len() >= 1,
            cur@ == split_ws(s@.take(i as int)).last(),
            ws@.len() == nonempty(split_ws(s@.take(i as int)).drop_last()).len(),
            forall|j: int|
                0 <= j < ws@.len() ==> #[trigger] ws@[j]@ == nonempty(
                    split_ws(s@.take(i as int)).drop_last(),
                )[j],
        decreases s@.len() - i,
    {
        proof {
            lemma_split_ws_len(s@.take(i as int));
            assert(s@.take(i + 1).drop_last() =~= s@.take(i as int));
        }
        let ghost p = split_ws(s@.take(i as int));
        if char_is_space(s[i]) {
            let ghost q = p.push(Seq::<char>::empty());
            assert(q.drop_last() =~= p);
            assert(p =~= p.drop_last().push(p.last()));
            if cur.len() > 0 {
                let w = cur;
                ws.push(w);
                cur = Vec::new();
            } else {
                cur = Vec::new();
            }
            assert(cur@ =~= q.last());
        } else {
            let ghost q = p.update(p.len() - 1, p.last().push(s@[i as int]));
            assert(q.drop_last() =~= p.drop_last());
            cur.push(s[i]);
        }
        i = i + 1;
    }
    proof {
        let p = split_ws(s@.take(i as int));
        assert(s@.take(i as int) =~= s@);
        assert(p =~= p.drop_last().push(p.last()));
    }
    if cur.len() > 0 {
        ws.push(cur);
    }
    ws
}


/// The first position at or after `i` where `p` occurs in `s`.
pub open spec fn find_from(s: Seq<char>, p: Seq<char>, i: int) -> Option<int>
    decreases s.len() + 1 - i,
{
    if i < 0 || i + p.len() > s.len() {
        None
    } else if has_prefix(s.skip(i), p) {
        Some(i)
    } else {
        find_from(s, p, i + 1)
    }
}

/// `p` occurs somewhere in `s`.
pub open spec fn contains_seq(s: Seq<char>, p: Seq<char>) -> bool {
    find_from(s, p, 0) is Some
}

/// The first position where `p` occurs in `s`.
pub fn find_chars(s: &[char], p: &[char]) -> (r: Option<usize>)
    ensures
        match r {
            Some(k) => find_from(s@, p@, 0) == Some(k as int) && k + p@.len() <= s@.len(),
            None => find_from(s@, p@, 0) is None,
        },
{
    let n = s.len();
    let m = p.len();
    if m > n {
        return None;
    }
    if m == 0 {
        assert(s@.skip(0).take(0) =~= p@);
        return Some(0);
    }
    let mut i: usize = 0;
    while i <= n - m
        invariant
            n == s@.len(),
            m == p@.len(),
            0 < m <= n,
            i <= n - m + 1,
            find_from(s@, p@, 0) == find_from(s@, p@, i as int),
        decreases n - m + 1 - i,
    {
        if has_prefix_at(s, i, p) {
            return Some(i);
        }
        i = i + 1;
    }
    None
}

/// Whether `p` occurs in `s`.
pub fn contains_chars(s: &[char], p: &[char]) -> (r: bool)
    ensures
        r == contains_seq(s@, p@),
{
    find_chars(s, p).is_some()
}

} // verus!
