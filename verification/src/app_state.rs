//! The application's screen state and how each event changes it: keys,
//! ticks, fresh data and errors.

use vstd::prelude::*;

use crate::config::{cycled_next, cycled_prev, ColumnVisibility, SortColumn, SortConfig};
use crate::model::{VagrantEnvironment, ViewMode};
use crate::sorting::{stable_sort, stable_sorted};
use crate::tracker::sat_sub;
use crate::vagrant::ConnectionState;

verus! {

/// A key, as far as the application tells keys apart.
#[derive(Debug, Clone, Copy, PartialEq, Eq, Structural)]
pub enum Key {
    Char(char),
    Up,
    Down,
    Tab,
    Other,
}

/// A key press: the key and whether Control was held.
#[derive(Debug, Clone, Copy, PartialEq, Eq, Structural)]
pub struct KeyPress {
    pub key: Key,
    pub ctrl: bool,
}

/// Events flowing through the application's main channel.
pub enum AppEvent {
    /// A keyboard event from the terminal.
    Key(KeyPress),
    /// Terminal resize.
    Resize(u16, u16),
    /// Render tick.
    Tick,
    /// Fresh Vagrant data arrived.
    VagrantUpdate(Vec<VagrantEnvironment>),
    /// Vagrant data source error; `index_available` tells IndexOnly (virsh
    /// failed but the index is readable) from Disconnected (index not found).
    VagrantError { message: String, index_available: bool },
}

/// Nanoseconds in a second.
pub const NANOS_PER_SEC: u64 = 1_000_000_000;

/// Application state.
pub struct App {
    pub environments: Vec<VagrantEnvironment>,
    /// The selected table row.
    pub selection: Option<usize>,
    pub view: ViewMode,
    pub columns: ColumnVisibility,
    pub sort: SortConfig,
    pub connection: ConnectionState,
    pub show_help: bool,
    pub hide_footer: bool,
    pub error_msg: Option<String>,
    pub should_quit: bool,
    /// Monotonic clock reading (nanoseconds) of the last data update.
    pub last_update: u64,
    /// The poll age (seconds) shown by the last drawing.
    pub last_rendered_poll_secs: u64,
    /// Whether the screen needs drawing.
    pub dirty: bool,
}

/// The selected row: the selection, or 0 when there is none.
pub open spec fn selected_of(sel: Option<usize>) -> usize {
    match sel {
        Some(i) => i,
        None => 0,
    }
}

/// The selection after moving down among `n` rows.
pub open spec fn next_selection(sel: Option<usize>, n: nat) -> Option<usize> {
    if n == 0 {
        sel
    } else if selected_of(sel) + 1 <= n - 1 {
        Some((selected_of(sel) + 1) as usize)
    } else {
        Some((n - 1) as usize)
    }
}

/// The selection after moving up.
pub open spec fn prev_selection(sel: Option<usize>) -> Option<usize> {
    if selected_of(sel) == 0 {
        Some(0)
    } else {
        Some((selected_of(sel) - 1) as usize)
    }
}

/// The selection after jumping to the last of `n` rows.
pub open spec fn last_selection(sel: Option<usize>, n: nat) -> Option<usize> {
    if n == 0 {
        sel
    } else {
        Some((n - 1) as usize)
    }
}

/// The selection kept within `n` rows.
pub open spec fn clamped_selection(sel: Option<usize>, n: nat) -> Option<usize> {
    if n == 0 {
        Some(0)
    } else if selected_of(sel) >= n {
        Some((n - 1) as usize)
    } else {
        sel
    }
}

/// The other view.
pub open spec fn toggled_view(v: ViewMode) -> ViewMode {
    match v {
        ViewMode::Table => ViewMode::Chart,
        ViewMode::Chart => ViewMode::Table,
    }
}

/// Whole seconds from `last` to `now` (both monotonic nanoseconds), zero
/// when the clock reads earlier.
pub open spec fn poll_age_secs(last: u64, now: u64) -> u64 {
    (sat_sub(now, last) / NANOS_PER_SEC) as u64
}

impl App {
    /// The selection is a row of the table (row 0 when the table is empty).
    pub open spec fn selection_in_range(&self) -> bool {
        &&& self.selection is Some
        &&& self.environments@.len() == 0 ==> self.selection == Some(0usize)
        &&& self.environments@.len() > 0 ==> selected_of(self.selection) < self.environments@.len()
    }

    /// A fresh application at monotonic time `now`: table view, first row
    /// selected, default columns and sort, disconnected, to be drawn.
    pub fn new(hide_footer: bool, now: u64) -> (r: Self)
        ensures
            r.environments@.len() == 0,
            r.selection == Some(0usize),
            r.view == ViewMode::Table,
            r.columns == ColumnVisibility::spec_default(),
            r.sort == (SortConfig { column: SortColumn::Name, ascending: true }),
            r.connection == ConnectionState::Disconnected,
            !r.show_help,
            r.hide_footer == hide_footer,
            r.error_msg is None,
            !r.should_quit,
            r.last_update == now,
            r.last_rendered_poll_secs == 0,
            r.dirty,
    {
        App {
            environments: Vec::new(),
            selection: Some(0),
            view: ViewMode::Table,
            columns: ColumnVisibility::default(),
            sort: SortConfig::default(),
            connection: ConnectionState::Disconnected,
            show_help: false,
            hide_footer,
            error_msg: None,
            should_quit: false,
            last_update: now,
            last_rendered_poll_secs: 0,
            dirty: true,
        }
    }

    /// Seconds since the last data update, at monotonic time `now`.
    pub fn last_poll_secs(&self, now: u64) -> (r: u64)
        ensures
            r == poll_age_secs(self.last_update, now),
    {
        now.saturating_sub(self.last_update) / NANOS_PER_SEC
    }

    /// The selected row (0 when nothing is selected).
    pub fn selected(&self) -> (r: usize)
        ensures
            r == selected_of(self.selection),
    {
        match self.selection {
            Some(i) => i,
            None => 0,
        }
    }

    /// Whether the screen must be drawn; clears the flag.
    pub fn take_dirty(&mut self) -> (r: bool)
        ensures
            r == old(self).dirty,
            *final(self) == (App { dirty: false, ..*old(self) }),
    {
        let r = self.dirty;
        self.dirty = false;
        r
    }

    fn select_next(&mut self)
        ensures
            final(self).selection == next_selection(old(self).selection, old(self).environments@.len()),
            final(self).environments == old(self).environments,
            *final(self) == (App { selection: final(self).selection, ..*old(self) }),
    {
        let n = self.environments.len();
        if n > 0 {
            let i = self.selected();
            let next = if i < n - 1 {
                i + 1
            } else {
                n - 1
            };
            self.selection = Some(next);
        }
    }

    fn select_prev(&mut self)
        ensures
            *final(self) == (App { selection: prev_selection(old(self).selection), ..*old(self) }),
    {
        let i = self.selected();
        self.selection = Some(i.saturating_sub(1));
    }

    fn select_last(&mut self)
        ensures
            *final(self) == (App {
                selection: last_selection(old(self).selection, old(self).environments@.len()),
                ..*old(self)
            }),
    {
        let n = self.environments.len();
        if n > 0 {
            self.selection = Some(n - 1);
        }
    }

    fn clamp_selection(&mut self)
        ensures
            *final(self) == (App {
                selection: clamped_selection(old(self).selection, old(self).environments@.len()),
                ..*old(self)
            }),
    {
        let n = self.environments.len();
        if n == 0 {
            self.selection = Some(0);
        } else if self.selected() >= n {
            self.selection = Some(n - 1);
        }
    }

    /// Sorts the environments by the current sort column and direction
    /// (a stable sort: environments with equal keys keep their order).
    pub fn apply_sort(&mut self)
        ensures
            stable_sorted(final(self).environments@, old(self).environments@, old(self).sort),
            *final(self) == (App { environments: final(self).environments, ..*old(self) }),
    {
        let mut envs = Vec::new();
        std::mem::swap(&mut envs, &mut self.environments);
        self.environments = stable_sort(envs, self.sort);
    }
}


/// Whether `b` is `a` after the key press `k` (before marking the screen
/// for drawing): Ctrl+C and `q` quit, `j`/Down and `k`/Up move the
/// selection, `g`/`G` jump to the first/last row, Tab switches the view,
/// `s`/`S` cycle the sort column forward/backward and `r` reverses the
/// direction (each then sorting), `?` toggles the help, `1`-`7` toggle
/// columns; any other key changes nothing.
pub open spec fn key_effect(a: App, b: App, k: KeyPress) -> bool {
    if k.ctrl && k.key == Key::Char('c') {
        b == App { should_quit: true, ..a }
    } else if k.key == Key::Char('q') {
        b == App { should_quit: true, ..a }
    } else if k.key == Key::Char('j') || k.key == Key::Down {
        b == App { selection: next_selection(a.selection, a.environments@.len()), ..a }
    } else if k.key == Key::Char('k') || k.key == Key::Up {
        b == App { selection: prev_selection(a.selection), ..a }
    } else if k.key == Key::Char('g') {
        b == App { selection: Some(0usize), ..a }
    } else if k.key == Key::Char('G') {
        b == App { selection: last_selection(a.selection, a.environments@.len()), ..a }
    } else if k.key == Key::Tab {
        b == App { view: toggled_view(a.view), ..a }
    } else if k.key == Key::Char('s') || k.key == Key::Char('S') || k.key == Key::Char('r') {
        let sort = if k.key == Key::Char('s') {
            SortConfig { column: cycled_next(a.sort.column), ..a.sort }
        } else if k.key == Key::Char('S') {
            SortConfig { column: cycled_prev(a.sort.column), ..a.sort }
        } else {
            SortConfig { ascending: !a.sort.ascending, ..a.sort }
        };
        &&& b == App { environments: b.environments, sort, ..a }
        &&& stable_sorted(b.environments@, a.environments@, sort)
    } else if k.key == Key::Char('?') {
        b == App { show_help: !a.show_help, ..a }
    } else {
        match k.key {
            Key::Char(c) => if '1' <= c && c <= '7' {
                b == App { columns: a.columns.toggled((c as int - '0' as int) as u8), ..a }
            } else {
                b == a
            },
            _ => b == a,
        }
    }
}

/// Whether `b` is `a` after `event` at monotonic time `now`.
pub open spec fn event_effect(a: App, b: App, event: AppEvent, now: u64) -> bool {
    match event {
        AppEvent::Key(k) => b.dirty && key_effect(a, App { dirty: a.dirty, ..b }, k),
        AppEvent::Resize(_, _) => b == App { dirty: true, ..a },
        AppEvent::Tick => {
            let cur = poll_age_secs(a.last_update, now);
            if cur != a.last_rendered_poll_secs {
                b == App { last_rendered_poll_secs: cur, dirty: true, ..a }
            } else {
                b == a
            }
        },
        AppEvent::VagrantUpdate(envs) => {
            &&& stable_sorted(b.environments@, envs@, a.sort)
            &&& b == App {
                environments: b.environments,
                selection: clamped_selection(a.selection, envs@.len()),
                connection: ConnectionState::Connected,
                error_msg: None,
                last_update: now,
                last_rendered_poll_secs: 0,
                dirty: true,
                ..a
            }
        },
        AppEvent::VagrantError { message, index_available } => b == App {
            error_msg: Some(message),
            connection: if index_available {
                ConnectionState::IndexOnly
            } else {
                ConnectionState::Disconnected
            },
            dirty: true,
            ..a
        },
    }
}

impl App {
    /// Applies a key press.
    pub fn handle_key(&mut self, key: KeyPress)
        ensures
            key_effect(*old(self), *final(self), key),
    {
        if key.ctrl && key.key == Key::Char('c') {
            self.should_quit = true;
            return;
        }
        match key.key {
            Key::Char('q') => self.should_quit = true,
            Key::Char('j') | Key::Down => self.select_next(),
            Key::Char('k') | Key::Up => self.select_prev(),
            Key::Char('g') => self.selection = Some(0),
            Key::Char('G') => self.select_last(),
            Key::Tab => {
                self.view = match self.view {
                    ViewMode::Table => ViewMode::Chart,
                    ViewMode::Chart => ViewMode::Table,
                };
            },
            Key::Char('s') => {
                self.sort.column = self.sort.column.next();
                self.apply_sort();
            },
            Key::Char('S') => {
                self.sort.column = self.sort.column.prev();
                self.apply_sort();
            },
            Key::Char('r') => {
                self.sort.ascending = !self.sort.ascending;
                self.apply_sort();
            },
            Key::Char('?') => self.show_help = !self.show_help,
            Key::Char(c) => {
                if '1' <= c && c <= '7' {
                    let num = (c as u32 - '0' as u32) as u8;
                    self.columns.toggle(num);
                }
            },
            _ => {},
        }
    }

    /// Applies one event at monotonic time `now`.
    pub fn handle_event(&mut self, event: AppEvent, now: u64)
        ensures
            event_effect(*old(self), *final(self), event, now),
    {
        match event {
            AppEvent::Key(k) => {
                self.handle_key(k);
                self.dirty = true;
            },
            AppEvent::Resize(_, _) => {
                self.dirty = true;
            },
            AppEvent::Tick => {
                let cur = self.last_poll_secs(now);
                if cur != self.last_rendered_poll_secs {
                    self.last_rendered_poll_secs = cur;
                    self.dirty = true;
                }
            },
            AppEvent::VagrantUpdate(environments) => {
                self.environments = environments;
                self.apply_sort();
                self.connection = ConnectionState::Connected;
                self.error_msg = None;
                self.last_update = now;
                self.last_rendered_poll_secs = 0;
                self.clamp_selection();
                self.dirty = true;
            },
            AppEvent::VagrantError { message, index_available } => {
                self.error_msg = Some(message);
                self.connection = if index_available {
                    ConnectionState::IndexOnly
                } else {
                    ConnectionState::Disconnected
                };
                self.dirty = true;
            },
        }
    }
}

/// Every event keeps the selection on a row of the table (row 0 when the
/// table is empty), and a new application starts so.
pub proof fn events_keep_selection_in_range(a: App, b: App, event: AppEvent, now: u64)
    requires
        a.selection_in_range(),
        event_effect(a, b, event, now),
    ensures
        b.selection_in_range(),
{
}

/// Tab twice shows the view it started from; `?` twice the same help state.
pub proof fn toggles_undo_themselves(a: App, b: App, c: App)
    requires
        key_effect(a, b, KeyPress { key: Key::Tab, ctrl: false }),
        key_effect(b, c, KeyPress { key: Key::Tab, ctrl: false }),
    ensures
        c.view == a.view,
        c == a,
{
}

/// Ctrl+C and `q` quit, whatever the state.
pub proof fn quit_keys_quit(a: App, b: App, k: KeyPress)
    requires
        (k.ctrl && k.key == Key::Char('c')) || k.key == Key::Char('q'),
        key_effect(a, b, k),
    ensures
        b.should_quit,
{
}

/// A data refresh keeps the selected row where the new table still has
/// it; a selection past the end of a non-empty table moves to its last
/// row, and an empty table selects row 0. The table shows the new
/// environments, as many as arrived.
pub proof fn refresh_keeps_selection(a: App, b: App, envs: Vec<VagrantEnvironment>, now: u64)
    requires
        event_effect(a, b, AppEvent::VagrantUpdate(envs), now),
    ensures
        b.environments@.len() == envs@.len(),
        envs@.len() > 0 && selected_of(a.selection) < envs@.len() ==> b.selection == a.selection,
        envs@.len() > 0 && selected_of(a.selection) >= envs@.len() ==> b.selection == Some((envs@.len() - 1) as usize),
        envs@.len() == 0 ==> b.selection == Some(0usize),
{
}

/// Moving through the rows: `j`/Down goes one row down, stopping at the
/// last row; `k`/Up one row up, stopping at row 0; `g` jumps to row 0 and
/// `G` to the last row. On an empty table `j`, Down and `G` change
/// nothing. None of these keys changes the table.
pub proof fn keys_move_selection(a: App, b: App, k: KeyPress)
    requires
        key_effect(a, b, k),
    ensures
        ({
            let n = a.environments@.len();
            let s = selected_of(a.selection);
            &&& (k.key == Key::Char('j') || k.key == Key::Down) ==> b.environments == a.environments
                && (n == 0 ==> b.selection == a.selection)
                && (n > 0 && s + 1 < n ==> b.selection == Some((s + 1) as usize))
                && (n > 0 && s + 1 >= n ==> b.selection == Some((n - 1) as usize))
            &&& (k.key == Key::Char('k') || k.key == Key::Up) ==> b.environments == a.environments
                && (s > 0 ==> b.selection == Some((s - 1) as usize))
                && (s == 0 ==> b.selection == Some(0usize))
            &&& k.key == Key::Char('g') ==> b.environments == a.environments && b.selection == Some(0usize)
            &&& k.key == Key::Char('G') ==> b.environments == a.environments
                && (n == 0 ==> b.selection == a.selection)
                && (n > 0 ==> b.selection == Some((n - 1) as usize))
        }),
{
}

/// The other keys: Tab switches between the table and the chart, `?`
/// shows or hides the help, `r` reverses the sort direction, `s` and `S`
/// move the sort column forward and backward, each of these sorting the
/// table again by the new order; `1` to `7` flip one column. None of them
/// moves the selection.
pub proof fn keys_change_view_and_sort(a: App, b: App, k: KeyPress)
    requires
        key_effect(a, b, k),
        !(k.ctrl && k.key == Key::Char('c')),
    ensures
        k.key == Key::Tab ==> b.view != a.view && b.environments == a.environments && b.selection == a.selection,
        k.key == Key::Char('?') ==> b.show_help == !a.show_help && b.environments == a.environments,
        k.key == Key::Char('r') ==> b.sort.column == a.sort.column && b.sort.ascending == !a.sort.ascending
            && stable_sorted(b.environments@, a.environments@, b.sort) && b.selection == a.selection,
        k.key == Key::Char('s') ==> b.sort.column == cycled_next(a.sort.column) && b.sort.ascending == a.sort.ascending
            && stable_sorted(b.environments@, a.environments@, b.sort) && b.selection == a.selection,
        k.key == Key::Char('S') ==> b.sort.column == cycled_prev(a.sort.column) && b.sort.ascending == a.sort.ascending
            && stable_sorted(b.environments@, a.environments@, b.sort) && b.selection == a.selection,
        forall|d: char| '1' <= d <= '7' && k.key == Key::Char(d) ==> b.columns == a.columns.toggled(
            (d as int - '0' as int) as u8,
        ) && b.environments == a.environments,
{
}

} // verus!
