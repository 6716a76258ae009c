//! Which rows the main pane shows, in which order, with which group
//! headers; and the cursor over them.
use vstd::prelude::*;
use crate::app::{clamped, App, ArchiveMode, Sort, ViewMode};
use crate::chars::{chars_of, string_of};
use crate::store::filter::{
    due_bucket, due_bucket_spec, key_view, keys_view, list_predicate, list_predicate_spec, precedes,
    seq_less, sort_indices, sorted_by, strictly_increasing, ListDueBucket, SortKey, Weekday,
};
use crate::todo::{opt_view, Task, TaskView};

verus! {

/// One entry per visible row. Renderers detect group transitions by
/// comparing successive entries; under file order every row is `None`.
#[derive(Debug, Clone, PartialEq, Eq)]
pub enum GroupKey {
    NoGroup,
    ArchiveDate(String),
    /// `Some('A'..='Z')` for a graded priority, `None` for unprioritized.
    ListPriority(Option<char>),
    ListDue(ListDueBucket),
}

/// A group key by value.
pub enum GroupKeyView {
    NoGroup,
    ArchiveDate(Seq<char>),
    ListPriority(Option<char>),
    ListDue(ListDueBucket),
}

pub open spec fn group_view(g: GroupKey) -> GroupKeyView {
    match g {
        GroupKey::NoGroup => GroupKeyView::NoGroup,
        GroupKey::ArchiveDate(d) => GroupKeyView::ArchiveDate(d@),
        GroupKey::ListPriority(p) => GroupKeyView::ListPriority(p),
        GroupKey::ListDue(b) => GroupKeyView::ListDue(b),
    }
}

pub open spec fn unknown_date() -> Seq<char> {
    seq!['u', 'n', 'k', 'n', 'o', 'w', 'n']
}

/// The search needle: none when the search box is empty.
pub open spec fn needle_of(search: Seq<char>) -> Option<Seq<char>> {
    if search.len() == 0 {
        None
    } else {
        Some(search)
    }
}

/// The sort key of a task under a list order: unprioritized and undated
/// tasks rank after the rest.
pub open spec fn list_key(t: TaskView, sort: Sort) -> (int, Seq<char>) {
    match sort {
        Sort::File => (0, Seq::empty()),
        Sort::Priority => match t.priority {
            Some(c) => (0, seq![c]),
            None => (1, Seq::empty()),
        },
        Sort::Due => match t.due {
            Some(d) => (0, d),
            None => (1, Seq::empty()),
        },
    }
}

pub open spec fn list_keys(ts: Seq<Task>, sort: Sort) -> Seq<(int, Seq<char>)> {
    ts.map_values(|t: Task| list_key(t@, sort))
}

/// The archive view orders by completion date, newest first (no date
/// counting as the oldest).
pub open spec fn done_key(t: TaskView) -> (int, Seq<char>) {
    match t.done_date {
        Some(d) => (0, d),
        None => (0, Seq::empty()),
    }
}

pub open spec fn done_keys(ts: Seq<Task>) -> Seq<(int, Seq<char>)> {
    ts.map_values(|t: Task| done_key(t@))
}

pub open spec fn list_group(t: TaskView, sort: Sort, today: Seq<char>, week_start: Weekday) -> GroupKeyView {
    match sort {
        Sort::File => GroupKeyView::NoGroup,
        Sort::Priority => GroupKeyView::ListPriority(t.priority),
        Sort::Due => GroupKeyView::ListDue(due_bucket_spec(t.due, today, week_start)),
    }
}

pub open spec fn archive_group(t: TaskView) -> GroupKeyView {
    match t.done_date {
        Some(d) => GroupKeyView::ArchiveDate(d),
        None => GroupKeyView::ArchiveDate(unknown_date()),
    }
}

impl App {
    /// Task `i` of the live list passes the list filters.
    pub open spec fn list_visible(&self, i: int) -> bool {
        list_predicate_spec(
            self.store.tasks@[i]@,
            self.prefs.show_done,
            self.prefs.show_future,
            self.store.today@,
            opt_view(self.filter.project),
            opt_view(self.filter.context),
            needle_of(self.filter.search@),
        )
    }

    /// The list view's rows: exactly the tasks passing the filters, in the
    /// chosen order (file order among equal keys), each with its group.
    pub open spec fn list_rows_current(&self) -> bool {
        let ts = self.store.tasks@;
        let vc = self.visible_cache@;
        &&& forall|x: usize| vc.contains(x) <==> (x < ts.len() && self.list_visible(x as int))
        &&& sorted_by(vc, list_keys(ts, self.prefs.sort), false)
        &&& self.visible_groups@.len() == vc.len()
        &&& forall|k: int|
            0 <= k < vc.len() ==> group_view(#[trigger] self.visible_groups@[k]) == list_group(
                ts[vc[k] as int]@,
                self.prefs.sort,
                self.store.today@,
                self.week_start,
            )
    }

    /// The tasks the archive view shows: the live list under `in_place`
    /// archiving, the archive otherwise.
    pub open spec fn archive_source(&self) -> Seq<Task> {
        if self.prefs.archive_mode == ArchiveMode::InPlace {
            self.store.tasks@
        } else {
            self.store.archive.tasks@
        }
    }

    /// The archive view's rows: every archived task (only the completed
    /// ones under `in_place`), newest completion first, grouped by date.
    pub open spec fn archive_rows_current(&self) -> bool {
        let src = self.archive_source();
        let live = self.prefs.archive_mode == ArchiveMode::InPlace;
        let vc = self.visible_cache@;
        &&& forall|x: usize| vc.contains(x) <==> (x < src.len() && (!live || src[x as int].done))
        &&& sorted_by(vc, done_keys(src), true)
        &&& self.visible_groups@.len() == vc.len()
        &&& forall|k: int|
            0 <= k < vc.len() ==> group_view(#[trigger] self.visible_groups@[k]) == archive_group(
                src[vc[k] as int]@,
            )
    }

    /// The cached rows are those of the current view.
    pub open spec fn rows_current(&self) -> bool {
        match self.view {
            ViewMode::List => self.list_rows_current(),
            ViewMode::Archive => self.archive_rows_current(),
        }
    }

    /// Indices into the active view's tasks after filter and sort, in
    /// display order.
    pub fn visible_indices(&self) -> (r: &[usize])
        ensures
            r@ == self.visible_cache@,
    {
        self.visible_cache.as_slice()
    }

    /// Group key per row, parallel to `visible_indices()`.
    pub fn visible_groups(&self) -> (r: &[GroupKey])
        ensures
            r@ == self.visible_groups@,
    {
        self.visible_groups.as_slice()
    }

    /// Recomputes the rows of the current view.
    pub fn recompute_visible(&mut self)
        ensures
            final(self).rows_current(),
            final(self).store == old(self).store,
            final(self).prefs == old(self).prefs,
            final(self).filter == old(self).filter,
            final(self).view == old(self).view,
            final(self).cursor == old(self).cursor,
            final(self).list_cursor == old(self).list_cursor,
            final(self).week_start == old(self).week_start,
            final(self).config_path == old(self).config_path,
    {
        match self.view {
            ViewMode::List => self.rebuild_list_cache(),
            ViewMode::Archive => self.rebuild_archive_cache(),
        }
    }

    fn rebuild_list_cache(&mut self)
        ensures
            final(self).list_rows_current(),
            final(self).store == old(self).store,
            final(self).prefs == old(self).prefs,
            final(self).filter == old(self).filter,
            final(self).view == old(self).view,
            final(self).cursor == old(self).cursor,
            final(self).list_cursor == old(self).list_cursor,
            final(self).week_start == old(self).week_start,
            final(self).config_path == old(self).config_path,
    {
        let needle: Option<&str> = if self.filter.search.as_str().is_empty() {
            None
        } else {
            Some(self.filter.search.as_str())
        };
        let tasks = self.store.tasks();
        let today = self.store.today();
        let n = tasks.len();
        let mut idxs: Vec<usize> = Vec::new();
        let mut keys: Vec<SortKey> = Vec::new();
        let mut i: usize = 0;
        while i < n
            invariant
                i <= n,
                n == tasks@.len(),
                tasks@ == self.store.tasks@,
                today@ == self.store.today@,
                match needle {
                    Some(nd) => nd@ == self.filter.search@ && self.filter.search@.len() > 0,
                    None => self.filter.search@.len() == 0,
                },
                strictly_increasing(idxs@),
                forall|j: int| 0 <= j < idxs@.len() ==> #[trigger] idxs@[j] < i,
                forall|x: usize| idxs@.contains(x) <==> (x < i && self.list_visible(x as int)),
                keys@.len() == i,
                forall|j: int| 0 <= j < i ==> key_view(#[trigger] keys@[j]) == list_key(tasks@[j]@, self.prefs.sort),
            decreases n - i,
        {
            let t = &tasks[i];
            let keep = list_predicate(
                t,
                self.prefs.show_done,
                self.prefs.show_future,
                today,
                &self.filter,
                needle,
            );
            proof {
                assert(match needle {
                    Some(nd) => Some(nd@),
                    None => None,
                } == needle_of(self.filter.search@));
            }
            let ghost before = idxs@;
            if keep {
                idxs.push(i);
                proof {
                    assert forall|x: usize| idxs@.contains(x) <==> (x < i + 1 && self.list_visible(x as int)) by {
                        if idxs@.contains(x) && x != i {
                            let k = choose|k: int| 0 <= k < idxs@.len() && idxs@[k] == x;
                            assert(before[k] == x);
                            assert(before.contains(x));
                        }
                        if x < i && self.list_visible(x as int) {
                            assert(before.contains(x));
                            let k = choose|k: int| 0 <= k < before.len() && before[k] == x;
                            assert(idxs@[k] == x);
                        }
                        if x == i {
                            assert(idxs@[before.len() as int] == i);
                        }
                    }
                }
            } else {
                proof {
                    assert forall|x: usize| idxs@.contains(x) <==> (x < i + 1 && self.list_visible(x as int)) by {
                        if idxs@.contains(x) {
                            let k = choose|k: int| 0 <= k < idxs@.len() && idxs@[k] == x;
                            assert(x < i);
                        }
                    }
                }
            }
            let key = list_sort_key(t, self.prefs.sort);
            keys.push(key);
            i = i + 1;
        }
        proof {
            assert(keys_view(keys@) =~= list_keys(tasks@, self.prefs.sort));
        }
        let sorted = sort_indices(&idxs, &keys, false);
        proof {
            assert forall|j: int| 0 <= j < sorted@.len() implies #[trigger] sorted@[j] < tasks@.len() by {
                assert(sorted@.contains(sorted@[j]));
                assert(idxs@.contains(sorted@[j]));
            }
        }
        let mut groups: Vec<GroupKey> = Vec::new();
        let mut k: usize = 0;
        while k < sorted.len()
            invariant
                k <= sorted@.len(),
                tasks@ == self.store.tasks@,
                today@ == self.store.today@,
                forall|j: int| 0 <= j < sorted@.len() ==> #[trigger] sorted@[j] < tasks@.len(),
                groups@.len() == k,
                forall|j: int|
                    0 <= j < k ==> group_view(#[trigger] groups@[j]) == list_group(
                        tasks@[sorted@[j] as int]@,
                        self.prefs.sort,
                        self.store.today@,
                        self.week_start,
                    ),
            decreases sorted@.len() - k,
        {
            let t = &tasks[sorted[k]];
            let g = match self.prefs.sort {
                Sort::File => GroupKey::NoGroup,
                Sort::Priority => GroupKey::ListPriority(t.priority),
                Sort::Due => GroupKey::ListDue(due_bucket(t, today, self.week_start)),
            };
            groups.push(g);
            k = k + 1;
        }
        self.visible_groups = groups;
        self.visible_cache = sorted;
    }

    fn rebuild_archive_cache(&mut self)
        ensures
            final(self).archive_rows_current(),
            final(self).store == old(self).store,
            final(self).prefs == old(self).prefs,
            final(self).filter == old(self).filter,
            final(self).view == old(self).view,
            final(self).cursor == old(self).cursor,
            final(self).list_cursor == old(self).list_cursor,
            final(self).week_start == old(self).week_start,
            final(self).config_path == old(self).config_path,
    {
        let live = self.archive_source_is_live();
        let src: &[Task] = if live {
            self.store.tasks()
        } else {
            self.store.archive().tasks()
        };
        let n = src.len();
        let mut idxs: Vec<usize> = Vec::new();
        let mut keys: Vec<SortKey> = Vec::new();
        let mut i: usize = 0;
        while i < n
            invariant
                i <= n,
                n == src@.len(),
                src@ == self.archive_source(),
                live == (self.prefs.archive_mode == ArchiveMode::InPlace),
                strictly_increasing(idxs@),
                forall|j: int| 0 <= j < idxs@.len() ==> #[trigger] idxs@[j] < i,
                forall|x: usize| idxs@.contains(x) <==> (x < i && (!live || src@[x as int].done)),
                keys@.len() == i,
                forall|j: int| 0 <= j < i ==> key_view(#[trigger] keys@[j]) == done_key(src@[j]@),
            decreases n - i,
        {
            let keep = !live || src[i].done;
            let ghost before = idxs@;
            if keep {
                idxs.push(i);
                proof {
                    assert forall|x: usize| idxs@.contains(x) <==> (x < i + 1 && (!live || src@[x as int].done)) by {
                        if idxs@.contains(x) && x != i {
                            let k = choose|k: int| 0 <= k < idxs@.len() && idxs@[k] == x;
                            assert(before[k] == x);
                            assert(before.contains(x));
                        }
                        if x < i && (!live || src@[x as int].done) {
                            assert(before.contains(x));
                            let k = choose|k: int| 0 <= k < before.len() && before[k] == x;
                            assert(idxs@[k] == x);
                        }
                        if x == i {
                            assert(idxs@[before.len() as int] == i);
                        }
                    }
                }
            } else {
                proof {
                    assert forall|x: usize| idxs@.contains(x) <==> (x < i + 1 && (!live || src@[x as int].done)) by {
                        if idxs@.contains(x) {
                            let k = choose|k: int| 0 <= k < idxs@.len() && idxs@[k] == x;
                            assert(x < i);
                        }
                    }
                }
            }
            let key = done_sort_key(&src[i]);
            keys.push(key);
            i = i + 1;
        }
        proof {
            assert(keys_view(keys@) =~= done_keys(src@));
        }
        let sorted = sort_indices(&idxs, &keys, true);
        proof {
            assert forall|j: int| 0 <= j < sorted@.len() implies #[trigger] sorted@[j] < src@.len() by {
                assert(sorted@.contains(sorted@[j]));
                assert(idxs@.contains(sorted@[j]));
            }
        }
        let mut groups: Vec<GroupKey> = Vec::new();
        let mut k: usize = 0;
        while k < sorted.len()
            invariant
                k <= sorted@.len(),
                src@ == self.archive_source(),
                forall|j: int| 0 <= j < sorted@.len() ==> #[trigger] sorted@[j] < src@.len(),
                groups@.len() == k,
                forall|j: int|
                    0 <= j < k ==> group_view(#[trigger] groups@[j]) == archive_group(src@[sorted@[j] as int]@),
            decreases sorted@.len() - k,
        {
            let t = &src[sorted[k]];
            let date = match &t.done_date {
                Some(d) => d.clone(),
                None => {
                    let u = ['u', 'n', 'k', 'n', 'o', 'w', 'n'];
                    let s = string_of(&u);
                    assert(s@ =~= unknown_date());
                    s
                },
            };
            groups.push(GroupKey::ArchiveDate(date));
            k = k + 1;
        }
        self.visible_cache = sorted;
        self.visible_groups = groups;
    }

    /// The archive view shows completed tasks of the live file rather than
    /// of `done.md`.
    pub fn archive_source_is_live(&self) -> (b: bool)
        ensures
            b == (self.prefs.archive_mode == ArchiveMode::InPlace),
    {
        self.prefs.archive_mode == ArchiveMode::InPlace
    }

    /// The task index under the cursor.
    pub fn cur_abs(&self) -> (r: Option<usize>)
        ensures
            self.cursor < self.visible_cache@.len() ==> r == Some(self.visible_cache@[self.cursor as int]),
            self.cursor >= self.visible_cache@.len() ==> r is None,
    {
        if self.cursor < self.visible_cache.len() {
            Some(self.visible_cache[self.cursor])
        } else {
            None
        }
    }

    /// Keeps the cursor on a row: the last one when past the end, 0 when
    /// there are none.
    pub fn clamp_cursor(&mut self)
        ensures
            final(self).cursor == clamped(old(self).cursor, old(self).visible_cache@.len()),
            final(self).store == old(self).store,
            final(self).prefs == old(self).prefs,
            final(self).filter == old(self).filter,
            final(self).view == old(self).view,
            final(self).visible_cache == old(self).visible_cache,
            final(self).visible_groups == old(self).visible_groups,
            final(self).list_cursor == old(self).list_cursor,
            final(self).week_start == old(self).week_start,
            final(self).config_path == old(self).config_path,
    {
        let len = self.visible_cache.len();
        if len == 0 {
            self.cursor = 0;
        } else if self.cursor >= len {
            self.cursor = len - 1;
        }
    }

    /// Moves the cursor onto the row of task `abs`; clamps when that task is
    /// not visible.
    pub fn follow_cursor(&mut self, abs: usize)
        ensures
            final(self).visible_cache == old(self).visible_cache,
            final(self).store == old(self).store,
            old(self).visible_cache@.contains(abs) ==> final(self).cursor < final(self).visible_cache@.len()
                && final(self).visible_cache@[final(self).cursor as int] == abs,
            !old(self).visible_cache@.contains(abs) ==> final(self).cursor == clamped(
                old(self).cursor,
                old(self).visible_cache@.len(),
            ),
    {
        let mut p: usize = 0;
        while p < self.visible_cache.len()
            invariant
                p <= self.visible_cache@.len(),
                forall|j: int| 0 <= j < p ==> self.visible_cache@[j] != abs,
                self.visible_cache == old(self).visible_cache,
                self.store == old(self).store,
                self.cursor == old(self).cursor,
            decreases self.visible_cache@.len() - p,
        {
            if self.visible_cache[p] == abs {
                self.cursor = p;
                return;
            }
            p = p + 1;
        }
        self.clamp_cursor();
    }
}

fn list_sort_key(t: &Task, sort: Sort) -> (k: SortKey)
    ensures
        key_view(k) == list_key(t@, sort),
{
    match sort {
        Sort::File => {
            let k = SortKey { rank: 0, text: Vec::new() };
            assert(k.text@ =~= Seq::<char>::empty());
            k
        },
        Sort::Priority => match t.priority {
            Some(c) => {
                let mut v: Vec<char> = Vec::new();
                v.push(c);
                assert(v@ =~= seq![c]);
                SortKey { rank: 0, text: v }
            },
            None => {
                let k = SortKey { rank: 1, text: Vec::new() };
                assert(k.text@ =~= Seq::<char>::empty());
                k
            },
        },
        Sort::Due => match &t.due {
            Some(d) => SortKey { rank: 0, text: chars_of(d.as_str()) },
            None => {
                let k = SortKey { rank: 1, text: Vec::new() };
                assert(k.text@ =~= Seq::<char>::empty());
                k
            },
        },
    }
}

fn done_sort_key(t: &Task) -> (k: SortKey)
    ensures
        key_view(k) == done_key(t@),
{
    match &t.done_date {
        Some(d) => SortKey { rank: 0, text: chars_of(d.as_str()) },
        None => {
            let k = SortKey { rank: 0, text: Vec::new() };
            assert(k.text@ =~= Seq::<char>::empty());
            k
        },
    }
}

// ----- laws --------------------------------------------------------------------------
/// Under the due-date order, earlier due dates come first (ISO dates order
/// by their text) and undated tasks come after every dated one.
pub proof fn law_due_rows_ascending(app: App, k: int, l: int)
    requires
        app.list_rows_current(),
        app.prefs.sort == Sort::Due,
        0 <= k < l < app.visible_cache@.len(),
    ensures
        ({
            let a = app.store.tasks@[app.visible_cache@[k] as int]@.due;
            let b = app.store.tasks@[app.visible_cache@[l] as int]@.due;
            &&& b is Some ==> a is Some
            &&& (a is Some && b is Some) ==> !seq_less(b->0, a->0)
        }),
{
    let ts = app.store.tasks@;
    let vc = app.visible_cache@;
    let (i, j) = (vc[k], vc[l]);
    assert(vc.contains(i));
    assert(vc.contains(j));
    let keys = list_keys(ts, app.prefs.sort);
    assert(precedes(keys[i as int], i as int, keys[j as int], j as int, false));
    assert(keys[i as int] == list_key(ts[i as int]@, Sort::Due));
    assert(keys[j as int] == list_key(ts[j as int]@, Sort::Due));
    let a = ts[i as int]@.due;
    let b = ts[j as int]@.due;
    if a is Some && b is Some {
        crate::store::filter::lemma_seq_less_total(a->0, b->0);
    }
}

/// Under the priority order, `(A)` comes before `(B)` and so on, and
/// unprioritized tasks come after every prioritized one.
pub proof fn law_priority_rows_ascending(app: App, k: int, l: int)
    requires
        app.list_rows_current(),
        app.prefs.sort == Sort::Priority,
        0 <= k < l < app.visible_cache@.len(),
    ensures
        ({
            let a = app.store.tasks@[app.visible_cache@[k] as int]@.priority;
            let b = app.store.tasks@[app.visible_cache@[l] as int]@.priority;
            &&& b is Some ==> a is Some
            &&& (a is Some && b is Some) ==> a->0 <= b->0
        }),
{
    let ts = app.store.tasks@;
    let vc = app.visible_cache@;
    let (i, j) = (vc[k], vc[l]);
    assert(vc.contains(i));
    assert(vc.contains(j));
    let keys = list_keys(ts, app.prefs.sort);
    assert(precedes(keys[i as int], i as int, keys[j as int], j as int, false));
    assert(keys[i as int] == list_key(ts[i as int]@, Sort::Priority));
    assert(keys[j as int] == list_key(ts[j as int]@, Sort::Priority));
    let a = ts[i as int]@.priority;
    let b = ts[j as int]@.priority;
    if a is Some && b is Some {
        let (x, y) = (a->0, b->0);
        if seq![x] != seq![y] {
            assert(seq![x][0] == x && seq![y][0] == y);
        } else {
            assert(seq![x][0] == seq![y][0]);
        }
    }
}

/// The archive view shows the newest completion first: along the rows the
/// completion dates (a missing one counting as the earliest) never
/// increase.
pub proof fn law_archive_rows_newest_first(app: App, k: int, l: int)
    requires
        app.archive_rows_current(),
        0 <= k < l < app.visible_cache@.len(),
    ensures
        ({
            let src = app.archive_source();
            let a = src[app.visible_cache@[k] as int]@.done_date;
            let b = src[app.visible_cache@[l] as int]@.done_date;
            let da = if a is Some { a->0 } else { Seq::<char>::empty() };
            let db = if b is Some { b->0 } else { Seq::<char>::empty() };
            !seq_less(da, db)
        }),
{
    let src = app.archive_source();
    let vc = app.visible_cache@;
    let (i, j) = (vc[k], vc[l]);
    assert(vc.contains(i));
    assert(vc.contains(j));
    let keys = done_keys(src);
    assert(precedes(keys[i as int], i as int, keys[j as int], j as int, true));
    assert(keys[i as int] == done_key(src[i as int]@));
    assert(keys[j as int] == done_key(src[j as int]@));
    let a = src[i as int]@.done_date;
    let b = src[j as int]@.done_date;
    let da = if a is Some { a->0 } else { Seq::<char>::empty() };
    let db = if b is Some { b->0 } else { Seq::<char>::empty() };
    crate::store::filter::lemma_seq_less_total(da, db);
}

} // verus!
