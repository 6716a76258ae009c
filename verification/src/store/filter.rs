//! What the list view shows and in which order: the list predicate (done,
//! future threshold, project, context, search), due-date buckets, and a
//! stable sort of task indices.
use vstd::prelude::*;
use crate::chars::{chars_of, lower, lower_char, split_words, words};
use crate::todo::{body_words, header_len, is_date, join_words, opt_view, strings_view, Task, TaskView};

verus! {

// ----- dates ------------------------------------------------------------------
pub open spec fn digit(c: char) -> int {
    c as int - 48
}

pub open spec fn date_year(w: Seq<char>) -> int {
    digit(w[0]) * 1000 + digit(w[1]) * 100 + digit(w[2]) * 10 + digit(w[3])
}

pub open spec fn date_month(w: Seq<char>) -> int {
    digit(w[5]) * 10 + digit(w[6])
}

pub open spec fn date_day(w: Seq<char>) -> int {
    digit(w[8]) * 10 + digit(w[9])
}

/// Leap years of the Gregorian calendar.
pub open spec fn is_leap(y: int) -> bool {
    (y % 4 == 0 && y % 100 != 0) || y % 400 == 0
}

/// The number of days in a month.
pub open spec fn month_days(y: int, m: int) -> int {
    if m == 2 {
        if is_leap(y) {
            29
        } else {
            28
        }
    } else if m == 4 || m == 6 || m == 9 || m == 11 {
        30
    } else {
        31
    }
}

/// A calendar date written `YYYY-MM-DD`, year at least 1.
pub open spec fn valid_date(w: Seq<char>) -> bool {
    &&& is_date(w)
    &&& date_year(w) >= 1
    &&& 1 <= date_month(w) <= 12
    &&& 1 <= date_day(w) <= month_days(date_year(w), date_month(w))
}

/// Days since 0000-03-01 of the proleptic Gregorian calendar.
pub open spec fn day_number(y: int, m: int, d: int) -> int {
    let yy = if m <= 2 {
        y - 1
    } else {
        y
    };
    let era = yy / 400;
    let yoe = yy - era * 400;
    let mp = if m > 2 {
        m - 3
    } else {
        m + 9
    };
    let doy = (153 * mp + 2) / 5 + d - 1;
    let doe = yoe * 365 + yoe / 4 - yoe / 100 + doy;
    era * 146097 + doe
}

pub open spec fn date_days(w: Seq<char>) -> int {
    day_number(date_year(w), date_month(w), date_day(w))
}

/// Day of the week, Monday = 0 .. Sunday = 6.
pub open spec fn weekday_of(days: int) -> int {
    (days + 2) % 7
}

fn digit_of(c: char) -> (r: u64)
    requires
        '0' <= c <= '9',
    ensures
        r == digit(c),
{
    (c as u8 - 48) as u64
}

/// The day number of a valid date, `None` for anything else.
pub fn parse_date(w: &[char]) -> (r: Option<u64>)
    ensures
        r is Some <==> valid_date(w@),
        r matches Some(n) ==> n == date_days(w@),
{
    if !crate::todo::word_is_date(w) {
        return None;
    }
    let y = digit_of(w[0]) * 1000 + digit_of(w[1]) * 100 + digit_of(w[2]) * 10 + digit_of(w[3]);
    let m = digit_of(w[5]) * 10 + digit_of(w[6]);
    let d = digit_of(w[8]) * 10 + digit_of(w[9]);
    if y < 1 || m < 1 || m > 12 || d < 1 {
        return None;
    }
    let leap = (y % 4 == 0 && y % 100 != 0) || y % 400 == 0;
    let last: u64 = if m == 2 {
        if leap {
            29
        } else {
            28
        }
    } else if m == 4 || m == 6 || m == 9 || m == 11 {
        30
    } else {
        31
    };
    if d > last {
        return None;
    }
    let yy = if m <= 2 {
        y - 1
    } else {
        y
    };
    let era = yy / 400;
    let yoe = yy - era * 400;
    let mp = if m > 2 {
        m - 3
    } else {
        m + 9
    };
    let doy = (153 * mp + 2) / 5 + d - 1;
    let doe = yoe * 365 + yoe / 4 - yoe / 100 + doy;
    Some(era * 146097 + doe)
}

/// The day number of 1970-01-01.
pub open spec fn epoch_days() -> int {
    719468
}

fn digit_char_of(d: u64) -> (c: char)
    requires
        d < 10,
    ensures
        '0' <= c <= '9',
        digit(c) == d,
{
    let b: u8 = d as u8 + 48;
    b as char
}

/// The day after `(y, m, d)`.
pub open spec fn next_day(y: int, m: int, d: int) -> (int, int, int) {
    if d < month_days(y, m) {
        (y, m, d + 1)
    } else if m < 12 {
        (y, m + 1, 1)
    } else {
        (y + 1, 1, 1)
    }
}

/// A year's day numbers: the number of its first of March.
pub open spec fn march_first(yy: int) -> int {
    let era = yy / 400;
    let yoe = yy - era * 400;
    era * 146097 + yoe * 365 + yoe / 4 - yoe / 100
}

proof fn lemma_march_first_step(y: int)
    requires
        y >= 1,
    ensures
        march_first(y) - march_first(y - 1) == if is_leap(y) {
            366int
        } else {
            365int
        },
{
    let a = y - 1;
    let e = a / 400;
    let r = a % 400;
    assert(a == e * 400 + r && 0 <= r < 400) by (nonlinear_arith)
        requires
            a >= 0,
            e == a / 400,
            r == a % 400,
    ;
    if r == 399 {
        assert(y / 400 == e + 1 && y - (e + 1) * 400 == 0) by (nonlinear_arith)
            requires
                y == e * 400 + 400,
        ;
        assert(y % 400 == 0) by (nonlinear_arith)
            requires
                y == (e + 1) * 400,
        ;
        assert(march_first(a) == e * 146097 + 145731);
        assert(march_first(y) == (e + 1) * 146097);
    } else {
        assert(y / 400 == e && y - e * 400 == r + 1) by (nonlinear_arith)
            requires
                y == e * 400 + r + 1,
                0 <= r < 399,
        ;
        assert(a - e * 400 == r);
        assert(y % 4 == (r + 1) % 4 && y % 100 == (r + 1) % 100 && y % 400 == r + 1) by (nonlinear_arith)
            requires
                y == e * 400 + r + 1,
                0 <= r < 399,
        ;
    }
}

proof fn lemma_next_day(y: int, m: int, d: int)
    requires
        y >= 1,
        1 <= m <= 12,
        1 <= d <= month_days(y, m),
    ensures
        next_day(y, m, d).0 >= 1,
        1 <= next_day(y, m, d).1 <= 12,
        1 <= next_day(y, m, d).2 <= month_days(next_day(y, m, d).0, next_day(y, m, d).1),
        day_number(next_day(y, m, d).0, next_day(y, m, d).1, next_day(y, m, d).2) == day_number(y, m, d)
            + 1,
{
    if d < month_days(y, m) {
    } else if m == 2 {
        lemma_march_first_step(y);
        assert(day_number(y, 2, d) == march_first(y - 1) + 337 + d - 1);
        assert(day_number(y, 3, 1) == march_first(y));
    } else if m < 12 {
        assert(day_number(y, m, d) == march_first(if m <= 2 { y - 1 } else { y }) + (153 * (if m > 2 { m - 3 } else { m + 9 }) + 2) / 5 + d - 1);
        if m == 1 {
        } else if m == 3 {
        } else if m == 4 {
        } else if m == 5 {
        } else if m == 6 {
        } else if m == 7 {
        } else if m == 8 {
        } else if m == 9 {
        } else if m == 10 {
        } else {
        }
    } else {
        assert(day_number(y, 12, 31) == march_first(y) + 305);
        assert(day_number(y + 1, 1, 1) == march_first(y) + 306);
    }
}

fn month_len(y: u64, m: u64) -> (n: u64)
    requires
        1 <= m <= 12,
    ensures
        n == month_days(y as int, m as int),
{
    if m == 2 {
        if (y % 4 == 0 && y % 100 != 0) || y % 400 == 0 {
            29
        } else {
            28
        }
    } else if m == 4 || m == 6 || m == 9 || m == 11 {
        30
    } else {
        31
    }
}

/// The last day `date_of` can write: 9999-12-31.
pub open spec fn last_day() -> int {
    2932896
}

/// The date `days` days after 1970-01-01, written `YYYY-MM-DD`; `None`
/// past 9999-12-31, where four digits no longer hold the year.
pub fn date_of(days: u64) -> (r: Option<String>)
    ensures
        r is Some <==> days <= last_day(),
        r matches Some(s) ==> valid_date(s@) && date_days(s@) == days + epoch_days(),
{
    if days > 2932896 {
        return None;
    }
    let mut y: u64 = 1970;
    let mut m: u64 = 1;
    let mut d: u64 = 1;
    let mut k: u64 = 0;
    assert(day_number(1970, 1, 1) == 719468);
    assert(day_number(9999, 12, 31) == 719468 + 2932896);
    while k < days
        invariant
            days <= 2932896,
            k <= days,
            1970 <= y <= 9999,
            1 <= m <= 12,
            1 <= d <= month_days(y as int, m as int),
            day_number(y as int, m as int, d as int) == 719468 + k,
            day_number(9999, 12, 31) == 719468 + 2932896,
        decreases days - k,
    {
        proof {
            lemma_next_day(y as int, m as int, d as int);
        }
        let last = month_len(y, m);
        if d < last {
            d = d + 1;
        } else if m < 12 {
            m = m + 1;
            d = 1;
        } else {
            y = y + 1;
            m = 1;
            d = 1;
        }
        k = k + 1;
    }
    let w = [
        digit_char_of(y / 1000),
        digit_char_of((y / 100) % 10),
        digit_char_of((y / 10) % 10),
        digit_char_of(y % 10),
        '-',
        digit_char_of(m / 10),
        digit_char_of(m % 10),
        '-',
        digit_char_of(d / 10),
        digit_char_of(d % 10),
    ];
    assert((y / 1000) * 1000 + ((y / 100) % 10) * 100 + ((y / 10) % 10) * 10 + y % 10 == y) by (nonlinear_arith)
        requires
            y <= 9999,
    ;
    assert((m / 10) * 10 + m % 10 == m) by (nonlinear_arith);
    assert((d / 10) * 10 + d % 10 == d) by (nonlinear_arith);
    assert(date_year(w@) == y);
    assert(date_month(w@) == m);
    assert(date_day(w@) == d);
    Some(crate::chars::string_of(&w))
}

/// The first day of the week, in the user's preference.
#[derive(Clone, Copy, Debug, PartialEq, Eq, Structural)]
pub enum Weekday {
    Monday,
    Tuesday,
    Wednesday,
    Thursday,
    Friday,
    Saturday,
    Sunday,
}

pub open spec fn weekday_index(w: Weekday) -> int {
    match w {
        Weekday::Monday => 0,
        Weekday::Tuesday => 1,
        Weekday::Wednesday => 2,
        Weekday::Thursday => 3,
        Weekday::Friday => 4,
        Weekday::Saturday => 5,
        Weekday::Sunday => 6,
    }
}

fn weekday_num(w: Weekday) -> (r: u64)
    ensures
        r == weekday_index(w),
{
    match w {
        Weekday::Monday => 0,
        Weekday::Tuesday => 1,
        Weekday::Wednesday => 2,
        Weekday::Thursday => 3,
        Weekday::Friday => 4,
        Weekday::Saturday => 5,
        Weekday::Sunday => 6,
    }
}

/// Where a due date falls relative to today.
#[derive(Clone, Copy, Debug, PartialEq, Eq, Structural)]
pub enum ListDueBucket {
    Overdue,
    Today,
    ThisWeek,
    NextWeek,
    Later,
    NoDue,
}

/// The bucket for a due date: before today, today, the rest of this week,
/// next week, or later; a missing or malformed date (or today) is `NoDue`.
pub open spec fn due_bucket_spec(due: Option<Seq<char>>, today: Seq<char>, week_start: Weekday) -> ListDueBucket {
    match due {
        None => ListDueBucket::NoDue,
        Some(d) => if !valid_date(d) || !valid_date(today) {
            ListDueBucket::NoDue
        } else {
            let dd = date_days(d);
            let td = date_days(today);
            let ws = td - (weekday_of(td) - weekday_index(week_start) + 7) % 7;
            if dd < td {
                ListDueBucket::Overdue
            } else if dd == td {
                ListDueBucket::Today
            } else if dd <= ws + 6 {
                ListDueBucket::ThisWeek
            } else if dd <= ws + 13 {
                ListDueBucket::NextWeek
            } else {
                ListDueBucket::Later
            }
        },
    }
}

fn opt_chars(o: &Option<String>) -> (r: Option<Vec<char>>)
    ensures
        match r {
            Some(v) => opt_view(*o) == Some(v@),
            None => opt_view(*o) is None,
        },
{
    match o {
        Some(s) => Some(chars_of(s.as_str())),
        None => None,
    }
}

/// The due bucket of a task.
pub fn due_bucket(task: &Task, today: &str, week_start: Weekday) -> (b: ListDueBucket)
    ensures
        b == due_bucket_spec(opt_view(task.due), today@, week_start),
{
    let due = match opt_chars(&task.due) {
        Some(d) => d,
        None => return ListDueBucket::NoDue,
    };
    let tv = chars_of(today);
    let dd = match parse_date(due.as_slice()) {
        Some(n) => n,
        None => return ListDueBucket::NoDue,
    };
    let td = match parse_date(tv.as_slice()) {
        Some(n) => n,
        None => return ListDueBucket::NoDue,
    };
    let off = ((td + 2) % 7 + 7 - weekday_num(week_start)) % 7;
    assert(off == (weekday_of(td as int) - weekday_index(week_start) + 7) % 7);
    let ws = td - off;
    if dd < td {
        ListDueBucket::Overdue
    } else if dd == td {
        ListDueBucket::Today
    } else if dd <= ws + 6 {
        ListDueBucket::ThisWeek
    } else if dd <= ws + 13 {
        ListDueBucket::NextWeek
    } else {
        ListDueBucket::Later
    }
}

// ----- thresholds -------------------------------------------------------------
/// Digits only, at least one and at most nine of them.
pub open spec fn is_count(w: Seq<char>) -> bool {
    1 <= w.len() <= 9 && forall|i: int| 0 <= i < w.len() ==> '0' <= #[trigger] w[i] <= '9'
}

pub open spec fn count_value(w: Seq<char>) -> int
    decreases w.len(),
{
    if w.len() == 0 {
        0
    } else {
        count_value(w.drop_last()) * 10 + digit(w.last())
    }
}

/// `-Nd` or `-Nw`: the number of days before the due date.
pub open spec fn relative_offset(t: Seq<char>) -> Option<int> {
    if t.len() >= 3 && t[0] == '-' && (t.last() == 'd' || t.last() == 'w') && is_count(
        t.subrange(1, t.len() - 1),
    ) {
        let n = count_value(t.subrange(1, t.len() - 1));
        Some(
            if t.last() == 'w' {
                n * 7
            } else {
                n
            },
        )
    } else {
        None
    }
}

/// The threshold lies after today: an absolute `t:YYYY-MM-DD`, or `t:-Nd`
/// / `t:-Nw` counted back from the due date. Anything else never hides.
pub open spec fn is_future_spec(threshold: Option<Seq<char>>, due: Option<Seq<char>>, today: Seq<char>) -> bool {
    match threshold {
        None => false,
        Some(t) => valid_date(today) && if valid_date(t) {
            date_days(t) > date_days(today)
        } else {
            match (relative_offset(t), due) {
                (Some(n), Some(d)) => valid_date(d) && date_days(d) - n > date_days(today),
                _ => false,
            }
        },
    }
}

pub open spec fn pow10(n: nat) -> int
    decreases n,
{
    if n == 0 {
        1
    } else {
        pow10((n - 1) as nat) * 10
    }
}

fn parse_offset(t: &[char]) -> (r: Option<u64>)
    ensures
        match r {
            Some(n) => relative_offset(t@) == Some(n as int),
            None => relative_offset(t@) is None,
        },
{
    let len = t.len();
    if len < 3 || t[0] != '-' || (t[len - 1] != 'd' && t[len - 1] != 'w') || len - 2 > 9 {
        assert(len >= 3 && t@[0] == '-' && (t@.last() == 'd' || t@.last() == 'w') ==> t@.subrange(
            1,
            len - 1,
        ).len() == len - 2);
        return None;
    }
    let ghost mid = t@.subrange(1, len - 1);
    let mut n: u64 = 0;
    let mut i: usize = 1;
    while i < len - 1
        invariant
            3 <= len == t@.len(),
            len - 2 <= 9,
            mid == t@.subrange(1, len - 1),
            1 <= i <= len - 1,
            forall|j: int| 1 <= j < i ==> '0' <= #[trigger] t@[j] <= '9',
            n == count_value(mid.take(i - 1)),
            n < pow10((i - 1) as nat),
        decreases len - i,
    {
        if t[i] < '0' || t[i] > '9' {
            assert(mid[i - 1] == t@[i as int]);
            return None;
        }
        assert(mid.take(i as int).drop_last() =~= mid.take(i - 1));
        assert(mid.take(i as int).last() == t@[i as int]);
        assert(pow10(i as nat) == pow10((i - 1) as nat) * 10);
        assert(pow10((i - 1) as nat) <= 100000000) by {
            lemma_pow10_mono((i - 1) as nat, 8);
        }
        n = n * 10 + (t[i] as u8 - 48) as u64;
        i = i + 1;
    }
    assert(mid.take(len - 2) =~= mid);
    assert forall|j: int| 0 <= j < mid.len() implies '0' <= #[trigger] mid[j] <= '9' by {
        assert(mid[j] == t@[j + 1]);
    }
    proof {
        lemma_pow10_mono((len - 2) as nat, 9);
    }
    if t[len - 1] == 'w' {
        Some(n * 7)
    } else {
        Some(n)
    }
}

proof fn lemma_pow10_pos(a: nat)
    ensures
        pow10(a) >= 1,
    decreases a,
{
    if a > 0 {
        lemma_pow10_pos((a - 1) as nat);
    }
}

proof fn lemma_pow10_mono(a: nat, b: nat)
    requires
        a <= b,
    ensures
        pow10(a) <= pow10(b),
        pow10(8) == 100000000,
        pow10(9) == 1000000000,
    decreases b,
{
    reveal_with_fuel(pow10, 10);
    if a < b {
        lemma_pow10_mono(a, (b - 1) as nat);
        lemma_pow10_pos((b - 1) as nat);
    }
}

/// The task's threshold lies in the future.
pub fn is_future(task: &Task, today: &str) -> (r: bool)
    ensures
        r == is_future_spec(opt_view(task.threshold), opt_view(task.due), today@),
{
    let t = match opt_chars(&task.threshold) {
        Some(t) => t,
        None => return false,
    };
    let tv = chars_of(today);
    let td = match parse_date(tv.as_slice()) {
        Some(n) => n,
        None => return false,
    };
    match parse_date(t.as_slice()) {
        Some(n) => n > td,
        None => {
            let off = match parse_offset(t.as_slice()) {
                Some(o) => o,
                None => return false,
            };
            let dv = match opt_chars(&task.due) {
                Some(d) => d,
                None => return false,
            };
            match parse_date(dv.as_slice()) {
                Some(dd) => dd >= off && dd - off > td,
                None => false,
            }
        },
    }
}

// ----- search -----------------------------------------------------------------
/// `n` can be read off `h` left to right, skipping characters.
pub open spec fn is_subsequence(n: Seq<char>, h: Seq<char>) -> bool
    decreases h.len(),
{
    if n.len() == 0 {
        true
    } else if h.len() == 0 {
        false
    } else if n[0] == h[0] {
        is_subsequence(n.drop_first(), h.drop_first())
    } else {
        is_subsequence(n, h.drop_first())
    }
}

pub open spec fn lower_seq(s: Seq<char>) -> Seq<char> {
    s.map_values(|c: char| lower(c))
}

/// Case-insensitive subsequence match.
pub fn subsequence_match(n: &[char], h: &[char]) -> (r: bool)
    ensures
        r == is_subsequence(lower_seq(n@), lower_seq(h@)),
{
    let ghost ln = lower_seq(n@);
    let ghost lh = lower_seq(h@);
    let mut i: usize = 0;
    let mut j: usize = 0;
    assert(ln.skip(0) =~= ln);
    assert(lh.skip(0) =~= lh);
    while i < n.len() && j < h.len()
        invariant
            i <= n@.len(),
            j <= h@.len(),
            ln == lower_seq(n@),
            lh == lower_seq(h@),
            is_subsequence(ln.skip(i as int), lh.skip(j as int)) == is_subsequence(ln, lh),
        decreases h@.len() - j,
    {
        assert(ln.skip(i as int)[0] == lower(n@[i as int]));
        assert(lh.skip(j as int)[0] == lower(h@[j as int]));
        assert(ln.skip(i as int).drop_first() =~= ln.skip(i + 1));
        assert(lh.skip(j as int).drop_first() =~= lh.skip(j + 1));
        if lower_char(n[i]) == lower_char(h[j]) {
            i = i + 1;
        }
        j = j + 1;
    }
    if i < n.len() {
        assert(lh.skip(j as int).len() == 0);
        false
    } else {
        assert(ln.skip(i as int).len() == 0);
        true
    }
}

/// The text a search runs against: the body words, space separated (no
/// priority, no dates).
pub open spec fn search_text(t: TaskView) -> Seq<char> {
    join_words(body_words(t.done, words(t.raw)))
}

pub fn body_text(task: &Task) -> (r: Vec<char>)
    ensures
        r@ == search_text(task@),
{
    let rv = chars_of(task.raw.as_str());
    let ws = split_words(rv.as_slice());
    let ghost wsv = words(task.raw@);
    let n = ws.len();
    let mut h: usize = 0;
    let done = task.done;
    let mut lead: usize = 0;
    if n > 0 && ((done && crate::todo::word_is_date(ws[0].as_slice())) || (!done && word_is_priority_like(
        ws[0].as_slice(),
    ))) {
        lead = 1;
    }
    assert(lead == crate::todo::lead_len(done, wsv));
    h = lead;
    if n > lead && crate::todo::word_is_date(ws[lead].as_slice()) {
        h = lead + 1;
    }
    assert(h == header_len(done, wsv));
    let ghost bw = wsv.skip(h as int);
    let mut out: Vec<char> = Vec::new();
    let mut i = h;
    proof {
        assert(bw.take(0) =~= Seq::<Seq<char>>::empty());
    }
    while i < n
        invariant
            h <= i <= n,
            n == ws@.len(),
            wsv.len() == n,
            bw == wsv.skip(h as int),
            forall|j: int| 0 <= j < ws@.len() ==> #[trigger] ws@[j]@ == wsv[j],
            out@ == join_words(bw.take(i - h)),
        decreases n - i,
    {
        assert(bw.take(i + 1 - h).drop_last() =~= bw.take(i - h));
        assert(bw.take(i + 1 - h).last() == wsv[i as int]);
        if i > h {
            out.push(' ');
        }
        let w = ws[i].as_slice();
        let mut k: usize = 0;
        let ghost before = out@;
        while k < w.len()
            invariant
                k <= w@.len(),
                out@ == before + w@.take(k as int),
            decreases w@.len() - k,
        {
            out.push(w[k]);
            assert(w@.take(k + 1) =~= w@.take(k as int).push(w@[k as int]));
            k = k + 1;
        }
        assert(w@.take(w@.len() as int) =~= w@);
        if i > h {
            assert(join_words(bw.take(i + 1 - h)) =~= join_words(bw.take(i - h)) + seq![' ']
                + wsv[i as int]);
        } else {
            assert(bw.take(i + 1 - h) =~= seq![wsv[i as int]]);
        }
        i = i + 1;
    }
    assert(bw.take(n - h) =~= bw);
    out
}

fn word_is_priority_like(w: &[char]) -> (r: bool)
    ensures
        r == crate::todo::is_priority_word(w@),
{
    w.len() == 3 && w[0] == '(' && 'A' <= w[1] && w[1] <= 'Z' && w[2] == ')'
}

// ----- the list predicate -------------------------------------------------------
/// The active filter: a project, a context, and a search needle.
pub struct Filter {
    pub project: Option<String>,
    pub context: Option<String>,
    pub search: String,
}

impl Filter {
    pub fn new() -> (f: Filter)
        ensures
            f.project is None,
            f.context is None,
            f.search@.len() == 0,
    {
        Filter { project: None, context: None, search: String::new() }
    }
}

/// Whether a task shows in the list view.
pub open spec fn list_predicate_spec(
    t: TaskView,
    show_done: bool,
    show_future: bool,
    today: Seq<char>,
    project: Option<Seq<char>>,
    context: Option<Seq<char>>,
    needle: Option<Seq<char>>,
) -> bool {
    &&& show_done || !t.done
    &&& show_future || !is_future_spec(t.threshold, t.due, today)
    &&& match project {
        Some(p) => t.projects.contains(p),
        None => true,
    }
    &&& match context {
        Some(c) => t.contexts.contains(c),
        None => true,
    }
    &&& match needle {
        Some(n) => is_subsequence(lower_seq(n), lower_seq(search_text(t))),
        None => true,
    }
}

fn contains_string(v: &Vec<String>, s: &String) -> (r: bool)
    ensures
        r == strings_view(v@).contains(s@),
{
    let mut i: usize = 0;
    while i < v.len()
        invariant
            i <= v@.len(),
            forall|j: int| 0 <= j < i ==> v@[j]@ != s@,
        decreases v@.len() - i,
    {
        if v[i] == *s {
            assert(strings_view(v@)[i as int] == s@);
            return true;
        }
        i = i + 1;
    }
    assert forall|j: int| 0 <= j < strings_view(v@).len() implies strings_view(v@)[j] != s@ by {
        assert(strings_view(v@)[j] == v@[j]@);
    }
    false
}

/// Whether a task shows in the list view.
pub fn list_predicate(
    task: &Task,
    show_done: bool,
    show_future: bool,
    today: &str,
    filter: &Filter,
    needle: Option<&str>,
) -> (r: bool)
    ensures
        r == list_predicate_spec(
            task@,
            show_done,
            show_future,
            today@,
            opt_view(filter.project),
            opt_view(filter.context),
            match needle {
                Some(n) => Some(n@),
                None => None,
            },
        ),
{
    if !show_done && task.done {
        return false;
    }
    if !show_future && is_future(task, today) {
        return false;
    }
    match &filter.project {
        Some(p) => {
            if !contains_string(&task.projects, p) {
                return false;
            }
        },
        None => {},
    }
    match &filter.context {
        Some(c) => {
            if !contains_string(&task.contexts, c) {
                return false;
            }
        },
        None => {},
    }
    match needle {
        Some(n) => {
            let nv = chars_of(n);
            let hv = body_text(task);
            subsequence_match(nv.as_slice(), hv.as_slice())
        },
        None => true,
    }
}


// ----- stable sort of task indices ----------------------------------------------
/// A sort key: a rank, then text compared character by character.
pub struct SortKey {
    pub rank: u8,
    pub text: Vec<char>,
}

pub open spec fn key_view(k: SortKey) -> (int, Seq<char>) {
    (k.rank as int, k.text@)
}

/// Lexicographic order on character sequences.
pub open spec fn seq_less(a: Seq<char>, b: Seq<char>) -> bool
    decreases a.len(),
{
    if a.len() == 0 {
        b.len() > 0
    } else if b.len() == 0 {
        false
    } else if a[0] != b[0] {
        a[0] < b[0]
    } else {
        seq_less(a.drop_first(), b.drop_first())
    }
}

pub open spec fn key_less(a: (int, Seq<char>), b: (int, Seq<char>)) -> bool {
    a.0 < b.0 || (a.0 == b.0 && seq_less(a.1, b.1))
}

/// `ia` comes before `ib`: by key (ascending, or descending when `desc`),
/// equal keys keeping index order.
pub open spec fn precedes(a: (int, Seq<char>), ia: int, b: (int, Seq<char>), ib: int, desc: bool) -> bool {
    if desc {
        key_less(b, a) || (a == b && ia < ib)
    } else {
        key_less(a, b) || (a == b && ia < ib)
    }
}

pub proof fn lemma_seq_less_total(a: Seq<char>, b: Seq<char>)
    ensures
        a == b || seq_less(a, b) || seq_less(b, a),
        !(seq_less(a, b) && seq_less(b, a)),
        !seq_less(a, a),
    decreases a.len(),
{
    if a.len() > 0 && b.len() > 0 && a[0] == b[0] {
        lemma_seq_less_total(a.drop_first(), b.drop_first());
        if a.drop_first() == b.drop_first() {
            assert(a =~= seq![a[0]] + a.drop_first());
            assert(b =~= seq![b[0]] + b.drop_first());
        }
    } else if a.len() > 0 && b.len() > 0 {
        assert(a[0] < b[0] || b[0] < a[0]);
    }
    if a.len() > 0 {
        lemma_seq_less_total(a.drop_first(), a.drop_first());
    }
    if a.len() == 0 && b.len() == 0 {
        assert(a =~= b);
    }
}

proof fn lemma_seq_less_trans(a: Seq<char>, b: Seq<char>, c: Seq<char>)
    requires
        seq_less(a, b),
        seq_less(b, c),
    ensures
        seq_less(a, c),
    decreases a.len(),
{
    if a.len() > 0 && b.len() > 0 && c.len() > 0 && a[0] == b[0] && b[0] == c[0] {
        lemma_seq_less_trans(a.drop_first(), b.drop_first(), c.drop_first());
    }
}

proof fn lemma_precedes_order(a: (int, Seq<char>), ia: int, b: (int, Seq<char>), ib: int, c: (int, Seq<char>), ic: int, desc: bool)
    ensures
        ia != ib ==> (precedes(a, ia, b, ib, desc) || precedes(b, ib, a, ia, desc)),
        !(precedes(a, ia, b, ib, desc) && precedes(b, ib, a, ia, desc)),
        precedes(a, ia, b, ib, desc) && precedes(b, ib, c, ic, desc) ==> precedes(a, ia, c, ic, desc),
{
    lemma_seq_less_total(a.1, b.1);
    lemma_seq_less_total(b.1, c.1);
    lemma_seq_less_total(a.1, c.1);
    if seq_less(a.1, b.1) && seq_less(b.1, c.1) {
        lemma_seq_less_trans(a.1, b.1, c.1);
    }
    if seq_less(c.1, b.1) && seq_less(b.1, a.1) {
        lemma_seq_less_trans(c.1, b.1, a.1);
    }
    if a.0 == b.0 && a.1 == b.1 {
        assert(a == b);
    }
}

fn seq_less_exec(a: &[char], b: &[char]) -> (r: bool)
    ensures
        r == seq_less(a@, b@),
{
    let mut i: usize = 0;
    assert(a@.skip(0) =~= a@);
    assert(b@.skip(0) =~= b@);
    while i < a.len() && i < b.len() && a[i] == b[i]
        invariant
            i <= a@.len(),
            i <= b@.len(),
            seq_less(a@.skip(i as int), b@.skip(i as int)) == seq_less(a@, b@),
        decreases a@.len() - i,
    {
        assert(a@.skip(i as int).drop_first() =~= a@.skip(i + 1));
        assert(b@.skip(i as int).drop_first() =~= b@.skip(i + 1));
        i = i + 1;
    }
    if i == a.len() {
        i < b.len()
    } else if i == b.len() {
        false
    } else {
        assert(a@.skip(i as int)[0] == a@[i as int]);
        assert(b@.skip(i as int)[0] == b@[i as int]);
        a[i] < b[i]
    }
}

fn precedes_exec(a: &SortKey, ia: usize, b: &SortKey, ib: usize, desc: bool) -> (r: bool)
    ensures
        r == precedes(key_view(*a), ia as int, key_view(*b), ib as int, desc),
{
    let eq = a.rank == b.rank && crate::chars::chars_eq(a.text.as_slice(), b.text.as_slice());
    assert(eq == (key_view(*a) == key_view(*b)));
    if desc {
        (b.rank < a.rank || (b.rank == a.rank && seq_less_exec(b.text.as_slice(), a.text.as_slice())))
            || (eq && ia < ib)
    } else {
        (a.rank < b.rank || (a.rank == b.rank && seq_less_exec(a.text.as_slice(), b.text.as_slice())))
            || (eq && ia < ib)
    }
}

pub open spec fn keys_view(keys: Seq<SortKey>) -> Seq<(int, Seq<char>)> {
    keys.map_values(|k: SortKey| key_view(k))
}

/// `s` is in `precedes` order under `keys`.
pub open spec fn sorted_by(s: Seq<usize>, keys: Seq<(int, Seq<char>)>, desc: bool) -> bool {
    forall|i: int, j: int|
        0 <= i < j < s.len() ==> precedes(keys[s[i] as int], s[i] as int, keys[s[j] as int], s[j] as int, desc)
}

pub open spec fn strictly_increasing(s: Seq<usize>) -> bool {
    forall|i: int, j: int| 0 <= i < j < s.len() ==> s[i] < s[j]
}

/// Stable sort of `idxs` by `keys` (ascending, or descending when `desc`):
/// the same indices, each pair in `precedes` order.
pub fn sort_indices(idxs: &Vec<usize>, keys: &Vec<SortKey>, desc: bool) -> (r: Vec<usize>)
    requires
        strictly_increasing(idxs@),
        forall|i: int| 0 <= i < idxs@.len() ==> #[trigger] idxs@[i] < keys@.len(),
    ensures
        r@.len() == idxs@.len(),
        forall|x: usize| r@.contains(x) <==> idxs@.contains(x),
        sorted_by(r@, keys_view(keys@), desc),
{
    let ghost kv = keys_view(keys@);
    let mut out: Vec<usize> = Vec::new();
    let mut i: usize = 0;
    while i < idxs.len()
        invariant
            i <= idxs@.len(),
            kv == keys_view(keys@),
            kv.len() == keys@.len(),
            strictly_increasing(idxs@),
            forall|j: int| 0 <= j < idxs@.len() ==> #[trigger] idxs@[j] < keys@.len(),
            out@.len() == i,
            forall|x: usize| out@.contains(x) <==> idxs@.take(i as int).contains(x),
            forall|j: int| 0 <= j < out@.len() ==> #[trigger] out@[j] < keys@.len(),
            sorted_by(out@, kv, desc),
        decreases idxs@.len() - i,
    {
        let e = idxs[i];
        assert forall|j: int| 0 <= j < out@.len() implies #[trigger] out@[j] < e by {
            assert(out@.contains(out@[j]));
            let k = choose|k: int| 0 <= k < i && idxs@.take(i as int)[k] == out@[j];
            assert(idxs@[k] == out@[j]);
        }
        let mut p: usize = 0;
        while p < out.len() && !precedes_exec(&keys[e], e, &keys[out[p]], out[p], desc)
            invariant
                p <= out@.len(),
                e < keys@.len(),
                kv == keys_view(keys@),
                forall|j: int| 0 <= j < out@.len() ==> #[trigger] out@[j] < keys@.len(),
                forall|j: int| 0 <= j < p ==> !precedes(kv[e as int], e as int, kv[out@[j] as int], #[trigger] out@[j] as int, desc),
            decreases out@.len() - p,
        {
            p = p + 1;
        }
        let ghost before = out@;
        proof {
            assert forall|j: int| 0 <= j < before.len() implies #[trigger] before[j] < e by {}
        }
        out.insert(p, e);
        proof {
            assert(out@ =~= before.insert(p as int, e));
            assert forall|a: int, b: int| 0 <= a < b < out@.len() implies precedes(
                kv[out@[a] as int],
                out@[a] as int,
                kv[out@[b] as int],
                out@[b] as int,
                desc,
            ) by {
                if a < p && b < p {
                    assert(out@[a] == before[a] && out@[b] == before[b]);
                } else if a < p && b == p {
                    lemma_precedes_order(kv[before[a] as int], before[a] as int, kv[e as int], e as int, kv[e as int], e as int, desc);
                    assert(out@[a] == before[a]);
                } else if a < p && b > p {
                    assert(out@[a] == before[a] && out@[b] == before[b - 1]);
                } else if a == p {
                    assert(out@[b] == before[b - 1]);
                    lemma_precedes_order(kv[e as int], e as int, kv[before[p as int] as int], before[p as int] as int, kv[before[b - 1] as int], before[b - 1] as int, desc);
                    if b - 1 > p {
                        assert(precedes(kv[before[p as int] as int], before[p as int] as int, kv[before[b - 1] as int], before[b - 1] as int, desc));
                    }
                } else {
                    assert(out@[a] == before[a - 1] && out@[b] == before[b - 1]);
                }
            }
            assert forall|x: usize| out@.contains(x) <==> idxs@.take(i + 1).contains(x) by {
                assert(idxs@.take(i + 1) =~= idxs@.take(i as int).push(e));
                if out@.contains(x) {
                    let k = choose|k: int| 0 <= k < out@.len() && out@[k] == x;
                    if k < p {
                        assert(before[k] == x);
                        assert(before.contains(x));
                        assert(idxs@.take(i as int).contains(x));
                        let m = choose|m: int| 0 <= m < i && idxs@.take(i as int)[m] == x;
                        assert(idxs@.take(i + 1)[m] == x);
                    } else if k > p {
                        assert(before[k - 1] == x);
                        assert(before.contains(x));
                        assert(idxs@.take(i as int).contains(x));
                        let m = choose|m: int| 0 <= m < i && idxs@.take(i as int)[m] == x;
                        assert(idxs@.take(i + 1)[m] == x);
                    } else {
                        assert(idxs@.take(i + 1)[i as int] == x);
                    }
                    assert(idxs@.take(i + 1).contains(x));
                }
                if idxs@.take(i + 1).contains(x) {
                    if x == e {
                        assert(out@[p as int] == e);
                    } else {
                        let m = choose|m: int| 0 <= m < idxs@.take(i + 1).len() && #[trigger] idxs@.take(i + 1)[m] == x;
                        assert(m < i);
                        assert(idxs@.take(i as int)[m] == x);
                        assert(idxs@.take(i as int).contains(x));
                        assert(before.contains(x));
                        let k = choose|k: int| 0 <= k < before.len() && before[k] == x;
                        if k < p {
                            assert(out@[k] == x);
                        } else {
                            assert(out@[k + 1] == x);
                        }
                    }
                    assert(out@.contains(x));
                }
            }
            assert forall|j: int| 0 <= j < out@.len() implies #[trigger] out@[j] < keys@.len() by {
                if j < p {
                    assert(out@[j] == before[j]);
                } else if j > p {
                    assert(out@[j] == before[j - 1]);
                }
            }
        }
        i = i + 1;
    }
    assert(idxs@.take(idxs@.len() as int) =~= idxs@);
    out
}

} // verus!
