use vstd::prelude::*;

use crate::filter::FilterCriteria;
use crate::expand::toggle_step;
use crate::keys::{kill_step, quiet, refresh_only, Key, KeyOutcome, ProcessAction, ProcessRequest, MAX_INTERVAL_MS, MIN_INTERVAL_MS};
use crate::model::SortColumn;
use crate::handlers::{confirm_kill_step, cpu_threshold_step, error_overlay_step, memory_threshold_step, select_filter_step,
    status_filter_step, update_interval_step, user_filter_step};
use crate::selection::{bottom_step, next_step, page_down_step, page_up_step, prev_step, top_step};
use crate::state::{App, InputMode, Page, Preferences};
use crate::text::{decimal, decimal_chars};

verus! {

/// The key is one of the two given characters.
pub open spec fn is_one_of(key: Key, a: char, b: char) -> bool {
    key == Key::Char(a) || key == Key::Char(b)
}

/// Keys that leave the program (Esc only outside the help page).
pub open spec fn is_quit_key(o: App, key: Key, ctrl: bool) -> bool {
    (ctrl && is_one_of(key, 'c', 'C')) || is_one_of(key, 'q', 'Q') || (key == Key::Esc && o.page != Page::Help)
}

/// The column a sort key picks.
pub open spec fn sort_key_column(key: Key) -> Option<SortColumn> {
    if key == Key::Char('p') {
        Some(SortColumn::Pid)
    } else if key == Key::Char('n') {
        Some(SortColumn::Name)
    } else if key == Key::Char('c') {
        Some(SortColumn::Cpu)
    } else if key == Key::Char('m') {
        Some(SortColumn::Memory)
    } else {
        None
    }
}

fn sort_key_column_exec(key: Key) -> (r: Option<SortColumn>)
    ensures
        r == sort_key_column(key),
{
    if key == Key::Char('p') {
        Some(SortColumn::Pid)
    } else if key == Key::Char('n') {
        Some(SortColumn::Name)
    } else if key == Key::Char('c') {
        Some(SortColumn::Cpu)
    } else if key == Key::Char('m') {
        Some(SortColumn::Memory)
    } else {
        None
    }
}

/// What a key of the process list does (outside overlays and search), in the order
/// in which keys are told apart.
pub open spec fn normal_key_step(o: App, n: App, key: Key, ctrl: bool, r: KeyOutcome) -> bool {
    if key == Key::Up {
        prev_step(o, n) && r == quiet()
    } else if key == Key::Down {
        next_step(o, n) && r == quiet()
    } else if is_quit_key(o, key, ctrl) {
        n == o && r == (KeyOutcome { quit: true, save_preferences: true, ..quiet() })
    } else if key == Key::Esc {
        n == (App { page: Page::Processes, ..o }) && r == quiet()
    } else if key == Key::F(1) || key == Key::Char('1') {
        n == (App { page: Page::Processes, ..o }) && r == quiet()
    } else if key == Key::F(2) || key == Key::Char('2') {
        n == (App { page: Page::SystemStats, ..o }) && r == quiet()
    } else if key == Key::F(3) || key == Key::Char('3') || is_one_of(key, 'h', 'H') || key == Key::Char('?') {
        n == (App { page: Page::Help, ..o }) && r == quiet()
    } else if (ctrl && is_one_of(key, 'f', 'F')) || key == Key::Char('/') {
        n == (App { search_mode: true, ..o }) && r == quiet()
    } else if is_one_of(key, 'k', 'K') || key == Key::Delete {
        kill_step(o, n, r)
    } else if ctrl && is_one_of(key, 'r', 'R') {
        n == o && r == refresh_only()
    } else if is_one_of(key, 's', 'S') {
        n == o && r == match o.selected_node() {
            Some(p) => KeyOutcome { action: Some(ProcessRequest { action: ProcessAction::Stop, pid: p.info.pid }), ..refresh_only() },
            None => quiet(),
        }
    } else if is_one_of(key, 'r', 'R') {
        n == o && r == match o.selected_node() {
            Some(p) => KeyOutcome { action: Some(ProcessRequest { action: ProcessAction::Continue, pid: p.info.pid }), ..refresh_only() },
            None => quiet(),
        }
    } else if is_one_of(key, 'i', 'I') {
        n == (App { input_mode: InputMode::UpdateInterval, input_buffer: n.input_buffer, ..o })
            && n.input_buffer@ == decimal(o.update_interval_ms as nat) && r == quiet()
    } else if is_one_of(key, 'l', 'L') {
        n == (App { filter: n.filter, cached_flat_processes: None, ..o }) && n.filter.is_empty() && r == refresh_only()
    } else if is_one_of(key, 'w', 'W') {
        n == (App { input_mode: InputMode::SelectFilter, input_buffer: n.input_buffer, ..o })
            && n.input_buffer@.len() == 0 && r == quiet()
    } else if key == Key::Enter || key == Key::Char(' ') {
        toggle_step(o, n) && r == quiet()
    } else if is_one_of(key, 't', 'T') {
        top_step(o, n) && r == quiet()
    } else if is_one_of(key, 'b', 'B') {
        bottom_step(o, n) && r == quiet()
    } else if sort_key_column(key) is Some {
        let c = sort_key_column(key)->0;
        let rev = !o.reverse_sort;
        &&& n == (App {
            sort_column: c,
            reverse_sort: rev,
            preferences: Preferences { sort_column: c, reverse_sort: rev, ..o.preferences },
            cached_flat_processes: None,
            ..o
        })
        &&& r == refresh_only()
    } else if is_one_of(key, '+', '=') {
        let v: u64 = if o.update_interval_ms >= MIN_INTERVAL_MS + 100 { (o.update_interval_ms - 100) as u64 } else { MIN_INTERVAL_MS };
        n == (App { update_interval_ms: v, preferences: Preferences { update_interval_ms: v, ..o.preferences }, ..o }) && r == quiet()
    } else if is_one_of(key, '-', '_') {
        let v: u64 = if o.update_interval_ms + 100 <= MAX_INTERVAL_MS { (o.update_interval_ms + 100) as u64 } else { MAX_INTERVAL_MS };
        n == (App { update_interval_ms: v, preferences: Preferences { update_interval_ms: v, ..o.preferences }, ..o }) && r == quiet()
    } else if key == Key::PageDown {
        page_down_step(o, n) && r == quiet()
    } else if key == Key::PageUp {
        page_up_step(o, n) && r == quiet()
    } else if is_one_of(key, 'z', 'Z') {
        n == (App { refresh: !o.refresh, ..o }) && r == quiet()
    } else {
        n == o && r == quiet()
    }
}

/// What a key does while typing a search.
pub open spec fn search_key_step(o: App, n: App, key: Key, r: KeyOutcome) -> bool {
    &&& (key == Key::Esc ==> {
        &&& !n.search_mode
        &&& n.filter.search_query@.len() == 0
        &&& n.filter == FilterCriteria { search_query: n.filter.search_query, ..o.filter }
        &&& n.cached_flat_processes is None
        &&& r == refresh_only()
    })
    &&& (key == Key::Enter ==> {
        &&& !n.search_mode
        &&& n.filter == o.filter
        &&& (o.view_rows().len() > 0 ==> n.selected == Some(0usize))
        &&& (o.view_rows().len() == 0 ==> n.selected is None)
        &&& r == quiet()
    })
    &&& ((key matches Key::Char(c)) ==> {
        &&& n.filter.search_query@ == o.filter.search_query@.push(key->Char_0)
        &&& n.filter == FilterCriteria { search_query: n.filter.search_query, ..o.filter }
        &&& n.cached_flat_processes is None
        &&& r == KeyOutcome { select_first: true, ..refresh_only() }
    })
    &&& (key == Key::Backspace ==> {
        &&& n.filter.search_query@ == if o.filter.search_query@.len() > 0 {
            o.filter.search_query@.drop_last()
        } else {
            o.filter.search_query@
        }
        &&& n.filter == FilterCriteria { search_query: n.filter.search_query, ..o.filter }
        &&& n.cached_flat_processes is None
        &&& r == KeyOutcome { select_first: true, ..refresh_only() }
    })
    &&& (key == Key::Up ==> prev_step(o, n) && r == quiet())
    &&& (key == Key::Down ==> next_step(o, n) && r == quiet())
    &&& (!(key == Key::Esc || key == Key::Enter || key is Char || key == Key::Backspace || key == Key::Up || key == Key::Down)
        ==> n == o && r == quiet())
}

impl App {
    /// Keys while typing a search: characters and Backspace edit the query (the view
    /// is rebuilt and the first row selected), Esc drops the query, Enter keeps it and
    /// selects the first row, Up and Down move the selection.
    pub fn handle_search_key(&mut self, key: Key) -> (r: KeyOutcome)
        requires
            old(self).wf(),
        ensures
            final(self).wf(),
            search_key_step(*old(self), *final(self), key, r),
    {
        let none = KeyOutcome { quit: false, save_preferences: false, action: None, refresh: false, select_first: false };
        match key {
            Key::Esc => {
                self.search_mode = false;
                self.filter.search_query.clear();
                self.cached_flat_processes = None;
                KeyOutcome { quit: false, save_preferences: false, action: None, refresh: true, select_first: false }
            },
            Key::Enter => {
                self.search_mode = false;
                self.select_first_matching();
                none
            },
            Key::Char(c) => {
                self.filter.search_query.push(c);
                self.cached_flat_processes = None;
                KeyOutcome { quit: false, save_preferences: false, action: None, refresh: true, select_first: true }
            },
            Key::Backspace => {
                self.filter.search_query.pop();
                self.cached_flat_processes = None;
                KeyOutcome { quit: false, save_preferences: false, action: None, refresh: true, select_first: true }
            },
            Key::Down => {
                self.select_next();
                none
            },
            Key::Up => {
                self.select_prev();
                none
            },
            _ => none,
        }
    }

    /// Keys of the process list outside any overlay and outside search.
    #[verifier::rlimit(100)]
    pub fn handle_normal_key(&mut self, key: Key, ctrl: bool) -> (r: KeyOutcome)
        requires
            old(self).wf(),
        ensures
            final(self).wf(),
            normal_key_step(*old(self), *final(self), key, ctrl, r),
    {
        let none = KeyOutcome { quit: false, save_preferences: false, action: None, refresh: false, select_first: false };
        let refresh = KeyOutcome { quit: false, save_preferences: false, action: None, refresh: true, select_first: false };
        let quit = KeyOutcome { quit: true, save_preferences: true, action: None, refresh: false, select_first: false };
        if key == Key::Up {
            self.select_prev();
            return none;
        }
        if key == Key::Down {
            self.select_next();
            return none;
        }
        if ctrl && (key == Key::Char('c') || key == Key::Char('C')) {
            return quit;
        }
        if key == Key::Char('q') || key == Key::Char('Q') {
            return quit;
        }
        if key == Key::Esc {
            if self.page != Page::Help {
                return quit;
            }
            self.page = Page::Processes;
            return none;
        }
        if key == Key::F(1) || key == Key::Char('1') {
            self.page = Page::Processes;
            return none;
        }
        if key == Key::F(2) || key == Key::Char('2') {
            self.page = Page::SystemStats;
            return none;
        }
        if key == Key::F(3) || key == Key::Char('3') || key == Key::Char('h') || key == Key::Char('H') || key == Key::Char('?') {
            self.page = Page::Help;
            return none;
        }
        if (ctrl && (key == Key::Char('f') || key == Key::Char('F'))) || key == Key::Char('/') {
            self.search_mode = true;
            return none;
        }
        if key == Key::Char('k') || key == Key::Char('K') || key == Key::Delete {
            return self.initiate_kill();
        }
        if ctrl && (key == Key::Char('r') || key == Key::Char('R')) {
            return refresh;
        }
        if key == Key::Char('s') || key == Key::Char('S') {
            return self.suspend_process();
        }
        if key == Key::Char('r') || key == Key::Char('R') {
            return self.resume_process();
        }
        if key == Key::Char('i') || key == Key::Char('I') {
            self.input_mode = InputMode::UpdateInterval;
            self.input_buffer = decimal_chars(self.update_interval_ms);
            return none;
        }
        if key == Key::Char('l') || key == Key::Char('L') {
            self.filter = FilterCriteria::none();
            self.cached_flat_processes = None;
            return refresh;
        }
        if key == Key::Char('w') || key == Key::Char('W') {
            self.input_mode = InputMode::SelectFilter;
            self.input_buffer.clear();
            return none;
        }
        if key == Key::Enter || key == Key::Char(' ') {
            self.toggle_expand();
            return none;
        }
        if key == Key::Char('t') || key == Key::Char('T') {
            self.go_to_top();
            return none;
        }
        if key == Key::Char('b') || key == Key::Char('B') {
            self.go_to_bottom();
            return none;
        }
        match sort_key_column_exec(key) {
            Some(col) => {
                self.sort_column = col;
                self.reverse_sort = !self.reverse_sort;
                self.preferences.sort_column = self.sort_column;
                self.preferences.reverse_sort = self.reverse_sort;
                self.cached_flat_processes = None;
                return refresh;
            },
            None => {},
        }
        if key == Key::Char('+') || key == Key::Char('=') {
            let v = if self.update_interval_ms >= MIN_INTERVAL_MS + 100 { self.update_interval_ms - 100 } else { MIN_INTERVAL_MS };
            self.update_interval_ms = v;
            self.preferences.update_interval_ms = v;
            return none;
        }
        if key == Key::Char('-') || key == Key::Char('_') {
            let v = if self.update_interval_ms <= MAX_INTERVAL_MS - 100 { self.update_interval_ms + 100 } else { MAX_INTERVAL_MS };
            self.update_interval_ms = v;
            self.preferences.update_interval_ms = v;
            return none;
        }
        if key == Key::PageDown {
            self.page_down();
            return none;
        }
        if key == Key::PageUp {
            self.page_up();
            return none;
        }
        if key == Key::Char('z') || key == Key::Char('Z') {
            self.refresh = !self.refresh;
            return none;
        }
        none
    }

    /// One key press: handled by the open overlay if any, else by the search line while
    /// searching, else by the process list. Returns the outside work it asks for.
    pub fn handle_key_event(&mut self, key: Key, ctrl: bool) -> (r: KeyOutcome)
        requires
            old(self).wf(),
        ensures
            final(self).wf(),
            ({
                let (o, n) = (*old(self), *final(self));
                match o.input_mode {
                    InputMode::SelectFilter => select_filter_step(o, n, key, r),
                    InputMode::UpdateInterval => update_interval_step(o, n, key, r),
                    InputMode::ConfirmKill => confirm_kill_step(o, n, key, r),
                    InputMode::UserFilter => user_filter_step(o, n, key, r),
                    InputMode::StatusFilter => status_filter_step(o, n, key, r),
                    InputMode::CpuThreshold => cpu_threshold_step(o, n, key, r),
                    InputMode::MemoryThreshold => memory_threshold_step(o, n, key, r),
                    InputMode::Error => error_overlay_step(o, n, key, r),
                    InputMode::Normal => if o.search_mode {
                        search_key_step(o, n, key, r)
                    } else {
                        normal_key_step(o, n, key, ctrl, r)
                    },
                }
            }),
    {
        match self.input_mode {
            InputMode::SelectFilter => self.handle_select_filter_input(key),
            InputMode::UpdateInterval => self.handle_update_interval_input(key),
            InputMode::ConfirmKill => self.handle_confirm_kill(key),
            InputMode::UserFilter => self.handle_user_filter_input(key),
            InputMode::StatusFilter => self.handle_status_filter_input(key),
            InputMode::CpuThreshold => self.handle_cpu_threshold_input(key),
            InputMode::MemoryThreshold => self.handle_memory_threshold_input(key),
            InputMode::Error => self.handle_error_overlay_input(key),
            InputMode::Normal => {
                if self.search_mode {
                    self.handle_search_key(key)
                } else {
                    self.handle_normal_key(key, ctrl)
                }
            },
        }
    }
}

} // verus!
