//! The TUI's view state over the store: what is visible, in which order,
//! and where the cursor is.
use vstd::prelude::*;
use crate::store::filter::{Filter, Weekday};
use crate::store::{Archive, Store};
use crate::todo::Task;

pub mod visibility;

pub use visibility::GroupKey;

verus! {

/// Where completed tasks go when archived.
#[derive(Clone, Copy, Debug, PartialEq, Eq, Structural)]
pub enum ArchiveMode {
    /// Moved to the sibling `done.md`.
    File,
    /// Left where they are; the archive view shows them from the live file.
    InPlace,
}

/// The list view's order.
#[derive(Clone, Copy, Debug, PartialEq, Eq, Structural)]
pub enum Sort {
    File,
    Priority,
    Due,
}

/// Which task source the main pane shows.
#[derive(Clone, Copy, Debug, PartialEq, Eq, Structural)]
pub enum ViewMode {
    List,
    Archive,
}


/// View preferences.
pub struct Prefs {
    pub show_done: bool,
    pub show_future: bool,
    pub sort: Sort,
    pub archive_mode: ArchiveMode,
}

impl Prefs {
    /// Completed tasks shown, future ones hidden, file order, `done.md`
    /// archiving.
    pub fn new() -> (p: Prefs)
        ensures
            p.show_done,
            !p.show_future,
            p.sort == Sort::File,
            p.archive_mode == ArchiveMode::File,
    {
        Prefs { show_done: true, show_future: false, sort: Sort::File, archive_mode: ArchiveMode::File }
    }
}

/// The TUI's state over a store: view, filter, preferences, the cursor,
/// and the cached visible rows.
pub struct App {
    pub store: Store,
    pub filter: Filter,
    pub prefs: Prefs,
    pub view: ViewMode,
    pub cursor: usize,
    /// The list cursor saved while another view is shown.
    pub list_cursor: usize,
    pub visible_cache: Vec<usize>,
    pub visible_groups: Vec<GroupKey>,
    pub week_start: Weekday,
    pub config_path: Option<String>,
}

impl App {
    /// The list view over `store`, with default preferences and the rows
    /// computed.
    pub fn new(store: Store) -> (app: App)
        ensures
            app.store == store,
            app.view == ViewMode::List,
            app.cursor == 0,
            app.prefs.show_done && !app.prefs.show_future,
            app.prefs.sort == Sort::File && app.prefs.archive_mode == ArchiveMode::File,
            app.filter.project is None && app.filter.context is None && app.filter.search@.len() == 0,
            app.week_start == Weekday::Monday,
            app.config_path is None,
            app.rows_current(),
    {
        let mut app = App {
            store,
            filter: Filter::new(),
            prefs: Prefs::new(),
            view: ViewMode::List,
            cursor: 0,
            list_cursor: 0,
            visible_cache: Vec::new(),
            visible_groups: Vec::new(),
            week_start: Weekday::Monday,
            config_path: None,
        };
        app.recompute_visible();
        app
    }

    pub fn tasks(&self) -> (r: &[Task])
        ensures
            r@ == self.store.tasks@,
    {
        self.store.tasks()
    }

    pub fn archive(&self) -> (r: &Archive)
        ensures
            r == self.store.archive,
    {
        self.store.archive()
    }

    pub fn today(&self) -> (r: &str)
        ensures
            r@ == self.store.today@,
    {
        self.store.today()
    }

    /// Switches views. The list cursor is kept while away from the list.
    pub fn set_view(&mut self, view: ViewMode)
        ensures
            final(self).view == view,
            final(self).store == old(self).store,
            final(self).prefs == old(self).prefs,
            final(self).rows_current(),
            old(self).view == view ==> final(self).cursor == old(self).cursor
                && final(self).list_cursor == old(self).list_cursor,
            old(self).view != view && old(self).view == ViewMode::List ==> final(self).list_cursor
                == old(self).cursor,
            old(self).view != view && view == ViewMode::List ==> final(self).cursor == clamped(
                old(self).list_cursor,
                final(self).visible_cache@.len(),
            ),
            old(self).view != view && view == ViewMode::Archive ==> final(self).cursor == 0,
    {
        if self.view == view {
            self.recompute_visible();
            return;
        }
        if self.view == ViewMode::List {
            self.list_cursor = self.cursor;
        }
        self.view = view;
        self.cursor = if view == ViewMode::List {
            self.list_cursor
        } else {
            0
        };
        self.recompute_visible();
        self.clamp_cursor();
    }

    /// Updates "today"; the rows are recomputed when it changed. `true`
    /// iff it changed.
    pub fn refresh_today(&mut self, today: String) -> (changed: bool)
        ensures
            changed == (old(self).store.today@ != today@),
            final(self).store.today@ == today@,
            final(self).store.tasks == old(self).store.tasks,
            final(self).store.archive == old(self).store.archive,
            changed ==> final(self).rows_current(),
            !changed ==> final(self).visible_cache == old(self).visible_cache,
    {
        let changed = self.store.set_today(today);
        if changed {
            self.recompute_visible();
        }
        changed
    }
}

/// The cursor moved into `0..len` (0 when there are no rows).
pub open spec fn clamped(cursor: usize, len: nat) -> usize {
    if len == 0 {
        0
    } else if cursor >= len {
        (len - 1) as usize
    } else {
        cursor
    }
}

} // verus!
