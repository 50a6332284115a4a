use vstd::prelude::*;

use crate::filter::FilterCriteria;
use crate::input::{cpu_threshold_of, parse_cpu_threshold};
use crate::keys::{clamp_interval, edited, quiet, refresh_only, Key, KeyOutcome, MAX_INTERVAL_MS, MIB, MIN_INTERVAL_MS, ProcessAction, ProcessRequest};
use crate::state::{App, InputMode, Preferences};
use crate::text::{all_digits, digits_value, is_digit, parse_u64};

verus! {

/// The text of an optional line.
pub open spec fn text_view(t: Option<Vec<char>>) -> Option<Seq<char>> {
    match t {
        Some(v) => Some(v@),
        None => None,
    }
}

/// The setting a committed line gives: none for an empty line.
pub open spec fn line_value(buf: Seq<char>) -> Option<Seq<char>> {
    if buf.len() == 0 { None } else { Some(buf) }
}

/// What a key other than Enter does in an input overlay: Esc closes it and empties the
/// line; editing keys edit the line; nothing else changes.
pub open spec fn line_edit_step(o: App, n: App, key: Key, accepted: bool) -> bool {
    match key {
        Key::Esc => n == (App { input_mode: InputMode::Normal, input_buffer: n.input_buffer, ..o }) && n.input_buffer@.len() == 0,
        _ => n == (App { input_buffer: n.input_buffer, ..o }) && n.input_buffer@ == edited(o.input_buffer@, key, accepted),
    }
}

/// Closing an overlay after Enter with the criteria set to `f`: normal mode, an empty
/// line, the view cache cleared, nothing else changed.
pub open spec fn committed(o: App, n: App, f: FilterCriteria) -> bool {
    n == (App { input_mode: InputMode::Normal, input_buffer: n.input_buffer, cached_flat_processes: None, filter: f, ..o })
        && n.input_buffer@.len() == 0
}

pub open spec fn digit_key(key: Key) -> bool {
    key matches Key::Char(c) && is_digit(c)
}

/// Whether a typed character goes into the line.
fn accepts_digit(key: Key) -> (r: bool)
    ensures
        r == digit_key(key),
{
    match key {
        Key::Char(c) => '0' <= c && c <= '9',
        _ => false,
    }
}

/// What a key does in the user-filter overlay.
pub open spec fn user_filter_step(o: App, n: App, key: Key, r: KeyOutcome) -> bool {
    &&& (key == Key::Enter ==> {
        &&& committed(o, n, FilterCriteria { user_filter: n.filter.user_filter, ..o.filter })
        &&& text_view(n.filter.user_filter) == line_value(o.input_buffer@)
        &&& r == refresh_only()
    })
    &&& (key != Key::Enter ==> line_edit_step(o, n, key, true) && r == quiet())
}

/// What a key does in the status-filter overlay.
pub open spec fn status_filter_step(o: App, n: App, key: Key, r: KeyOutcome) -> bool {
    &&& (key == Key::Enter ==> {
        &&& committed(o, n, FilterCriteria { status_filter: n.filter.status_filter, ..o.filter })
        &&& text_view(n.filter.status_filter) == line_value(o.input_buffer@)
        &&& r == refresh_only()
    })
    &&& (key != Key::Enter ==> line_edit_step(o, n, key, true) && r == quiet())
}

/// What a key does in the cpu-threshold overlay.
pub open spec fn cpu_threshold_step(o: App, n: App, key: Key, r: KeyOutcome) -> bool {
    &&& (key == Key::Enter ==> {
        &&& committed(o, n, FilterCriteria { cpu_threshold: n.filter.cpu_threshold, ..o.filter })
        &&& n.filter.cpu_threshold == if o.input_buffer@.len() == 0 {
            None
        } else {
            match cpu_threshold_of(o.input_buffer@) {
                Some(t) => Some(t as u32),
                None => o.filter.cpu_threshold,
            }
        }
        &&& r == refresh_only()
    })
    &&& (key != Key::Enter ==> line_edit_step(o, n, key,
        digit_key(key) || key == Key::Char('.')) && r == quiet())
}

/// What a key does in the memory-threshold overlay.
pub open spec fn memory_threshold_step(o: App, n: App, key: Key, r: KeyOutcome) -> bool {
    &&& (key == Key::Enter ==> {
        let buf = o.input_buffer@;
        &&& committed(o, n, FilterCriteria { memory_threshold: n.filter.memory_threshold, ..o.filter })
        &&& n.filter.memory_threshold == if buf.len() == 0 {
            None
        } else if all_digits(buf) && digits_value(buf) * MIB <= u64::MAX {
            Some((digits_value(buf) * MIB) as u64)
        } else {
            o.filter.memory_threshold
        }
        &&& r == refresh_only()
    })
    &&& (key != Key::Enter ==> line_edit_step(o, n, key, digit_key(key)) && r == quiet())
}

/// What a key does in the refresh-interval overlay.
pub open spec fn update_interval_step(o: App, n: App, key: Key, r: KeyOutcome) -> bool {
    &&& (key == Key::Enter ==> {
        let buf = o.input_buffer@;
        let ok = buf.len() > 0 && all_digits(buf) && digits_value(buf) <= u64::MAX;
        let v = if ok { clamp_interval(digits_value(buf)) } else { o.update_interval_ms };
        let pv = if ok { clamp_interval(digits_value(buf)) } else { o.preferences.update_interval_ms };
        &&& n == (App {
            input_mode: InputMode::Normal,
            input_buffer: n.input_buffer,
            update_interval_ms: v,
            preferences: Preferences { update_interval_ms: pv, ..o.preferences },
            ..o
        })
        &&& n.input_buffer@.len() == 0
        &&& r == KeyOutcome { save_preferences: ok, ..refresh_only() }
    })
    &&& (key != Key::Enter ==> line_edit_step(o, n, key, digit_key(key)) && r == refresh_only())
}

/// What a key does in the overlay that picks a filter.
pub open spec fn select_filter_step(o: App, n: App, key: Key, r: KeyOutcome) -> bool {
    &&& (key == Key::Enter ==> {
        let buf = o.input_buffer@;
        let choice: int = if buf.len() > 0 && all_digits(buf) && digits_value(buf) <= 5 { digits_value(buf) as int } else { -1 };
        &&& n.input_buffer@.len() == 0
        &&& n.input_mode == if choice == 0 {
            InputMode::Normal
        } else if choice == 1 {
            InputMode::UserFilter
        } else if choice == 2 {
            InputMode::StatusFilter
        } else if choice == 3 {
            InputMode::CpuThreshold
        } else if choice == 4 {
            InputMode::MemoryThreshold
        } else {
            o.input_mode
        }
        &&& choice == 0 ==> n == (App { input_mode: n.input_mode, input_buffer: n.input_buffer, filter: n.filter, cached_flat_processes: None, ..o })
            && n.filter.is_empty()
        &&& choice != 0 ==> n == (App { input_mode: n.input_mode, input_buffer: n.input_buffer, ..o })
        &&& r == refresh_only()
    })
    &&& (key != Key::Enter ==> line_edit_step(o, n, key, digit_key(key)) && r == refresh_only())
}

/// What a key does in the confirmation overlay.
pub open spec fn confirm_kill_step(o: App, n: App, key: Key, r: KeyOutcome) -> bool {
    &&& ((key == Key::Char('y') || key == Key::Char('Y')) ==> {
        &&& n == (App { input_mode: InputMode::Normal, pending_kill_pid: None, ..o })
        &&& r == match o.pending_kill_pid {
            Some(pid) => KeyOutcome { action: Some(ProcessRequest { action: ProcessAction::Terminate, pid }), ..refresh_only() },
            None => quiet(),
        }
    })
    &&& ((key == Key::Char('n') || key == Key::Char('N') || key == Key::Esc) ==> {
        &&& n == (App { input_mode: InputMode::Normal, pending_kill_pid: None, ..o })
        &&& r == quiet()
    })
    &&& (!(key == Key::Char('y') || key == Key::Char('Y') || key == Key::Char('n') || key == Key::Char('N') || key == Key::Esc)
        ==> n == o && r == quiet())
    &&& (n.processes == o.processes)
    &&& (n.filter == o.filter)
}

/// What a key does in the error overlay.
pub open spec fn error_overlay_step(o: App, n: App, key: Key, r: KeyOutcome) -> bool {
    &&& (r == quiet())
    &&& ((key == Key::Enter || key == Key::Esc) ==> n == (App { input_mode: InputMode::Normal, errors: n.errors, ..o })
        && n.errors@.len() == 0)
    &&& (!(key == Key::Enter || key == Key::Esc) ==> n == o)
    &&& (n.processes == o.processes)
    &&& (n.filter == o.filter)
}

impl App {
    fn edit_line(&mut self, key: Key, accepted: bool)
        requires
            old(self).wf(),
            key != Key::Enter,
        ensures
            final(self).wf(),
            line_edit_step(*old(self), *final(self), key, accepted),
            final(self).cached_flat_processes == old(self).cached_flat_processes,
    {
        match key {
            Key::Esc => {
                self.input_mode = InputMode::Normal;
                self.input_buffer.clear();
            },
            Key::Char(c) => {
                if accepted {
                    self.input_buffer.push(c);
                }
            },
            Key::Backspace => {
                self.input_buffer.pop();
            },
            _ => {},
        }
    }

    /// Editing the user filter; Enter sets it (an empty line removes it).
    pub fn handle_user_filter_input(&mut self, key: Key) -> (r: KeyOutcome)
        requires
            old(self).wf(),
        ensures
            final(self).wf(),
            user_filter_step(*old(self), *final(self), key, r),
    {
        if key == Key::Enter {
            if self.input_buffer.len() == 0 {
                self.filter.user_filter = None;
            } else {
                self.filter.user_filter = Some(self.input_buffer.clone());
            }
            self.input_mode = InputMode::Normal;
            self.input_buffer.clear();
            self.cached_flat_processes = None;
            KeyOutcome { quit: false, save_preferences: false, action: None, refresh: true, select_first: false }
        } else {
            self.edit_line(key, true);
            KeyOutcome { quit: false, save_preferences: false, action: None, refresh: false, select_first: false }
        }
    }

    /// Editing the status filter; Enter sets it (an empty line removes it).
    pub fn handle_status_filter_input(&mut self, key: Key) -> (r: KeyOutcome)
        requires
            old(self).wf(),
        ensures
            final(self).wf(),
            status_filter_step(*old(self), *final(self), key, r),
    {
        if key == Key::Enter {
            if self.input_buffer.len() == 0 {
                self.filter.status_filter = None;
            } else {
                self.filter.status_filter = Some(self.input_buffer.clone());
            }
            self.input_mode = InputMode::Normal;
            self.input_buffer.clear();
            self.cached_flat_processes = None;
            KeyOutcome { quit: false, save_preferences: false, action: None, refresh: true, select_first: false }
        } else {
            self.edit_line(key, true);
            KeyOutcome { quit: false, save_preferences: false, action: None, refresh: false, select_first: false }
        }
    }

    /// Editing the cpu threshold (digits and `.`); Enter sets it from the line, an
    /// empty line removes it, and a line that is not a number leaves it as it was.
    pub fn handle_cpu_threshold_input(&mut self, key: Key) -> (r: KeyOutcome)
        requires
            old(self).wf(),
        ensures
            final(self).wf(),
            cpu_threshold_step(*old(self), *final(self), key, r),
    {
        if key == Key::Enter {
            if self.input_buffer.len() == 0 {
                self.filter.cpu_threshold = None;
            } else {
                match parse_cpu_threshold(&self.input_buffer) {
                    Some(t) => {
                        self.filter.cpu_threshold = Some(t);
                    },
                    None => {},
                }
            }
            self.input_mode = InputMode::Normal;
            self.input_buffer.clear();
            self.cached_flat_processes = None;
            KeyOutcome { quit: false, save_preferences: false, action: None, refresh: true, select_first: false }
        } else {
            let accepted = accepts_digit(key) || key == Key::Char('.');
            self.edit_line(key, accepted);
            KeyOutcome { quit: false, save_preferences: false, action: None, refresh: false, select_first: false }
        }
    }

    /// Editing the memory threshold, typed in mebibytes (digits only); Enter sets it in
    /// bytes, an empty line removes it, and a line whose value does not fit leaves it.
    pub fn handle_memory_threshold_input(&mut self, key: Key) -> (r: KeyOutcome)
        requires
            old(self).wf(),
        ensures
            final(self).wf(),
            memory_threshold_step(*old(self), *final(self), key, r),
    {
        if key == Key::Enter {
            if self.input_buffer.len() == 0 {
                self.filter.memory_threshold = None;
            } else {
                match parse_u64(&self.input_buffer) {
                    Some(mb) => {
                        if mb <= u64::MAX / MIB {
                            proof {
                                assert(mb * MIB <= u64::MAX) by (nonlinear_arith)
                                    requires mb <= u64::MAX / MIB, MIB == 1048576u64;
                            }
                            self.filter.memory_threshold = Some(mb * MIB);
                        } else {
                            proof {
                                assert(mb * MIB > u64::MAX) by (nonlinear_arith)
                                    requires mb > u64::MAX / MIB, MIB == 1048576u64;
                            }
                        }
                    },
                    None => {},
                }
            }
            self.input_mode = InputMode::Normal;
            self.input_buffer.clear();
            self.cached_flat_processes = None;
            KeyOutcome { quit: false, save_preferences: false, action: None, refresh: true, select_first: false }
        } else {
            let accepted = accepts_digit(key);
            self.edit_line(key, accepted);
            KeyOutcome { quit: false, save_preferences: false, action: None, refresh: false, select_first: false }
        }
    }

    /// Editing the refresh interval in milliseconds (digits only); Enter sets it,
    /// clamped to 100..6000, and asks to save the preferences; a line that is not a
    /// number leaves it. Every key asks for a refresh.
    pub fn handle_update_interval_input(&mut self, key: Key) -> (r: KeyOutcome)
        requires
            old(self).wf(),
        ensures
            final(self).wf(),
            update_interval_step(*old(self), *final(self), key, r),
    {
        if key == Key::Enter {
            let mut save = false;
            match parse_u64(&self.input_buffer) {
                Some(ms) => {
                    let ms = if ms < MIN_INTERVAL_MS { MIN_INTERVAL_MS } else if ms > MAX_INTERVAL_MS { MAX_INTERVAL_MS } else { ms };
                    self.update_interval_ms = ms;
                    self.preferences.update_interval_ms = ms;
                    save = true;
                },
                None => {},
            }
            self.input_mode = InputMode::Normal;
            self.input_buffer.clear();
            KeyOutcome { quit: false, save_preferences: save, action: None, refresh: true, select_first: false }
        } else {
            let accepted = accepts_digit(key);
            self.edit_line(key, accepted);
            KeyOutcome { quit: false, save_preferences: false, action: None, refresh: true, select_first: false }
        }
    }

    /// Choosing which filter to edit, by number: 0 clears every filter, 1 to 4 open the
    /// user, status, cpu and memory overlays; Enter empties the line. Every key asks
    /// for a refresh.
    pub fn handle_select_filter_input(&mut self, key: Key) -> (r: KeyOutcome)
        requires
            old(self).wf(),
        ensures
            final(self).wf(),
            select_filter_step(*old(self), *final(self), key, r),
    {
        if key == Key::Enter {
            match parse_u64(&self.input_buffer) {
                Some(number) => {
                    if number == 0 {
                        self.filter = FilterCriteria::none();
                        self.cached_flat_processes = None;
                        self.input_mode = InputMode::Normal;
                    } else if number == 1 {
                        self.input_mode = InputMode::UserFilter;
                    } else if number == 2 {
                        self.input_mode = InputMode::StatusFilter;
                    } else if number == 3 {
                        self.input_mode = InputMode::CpuThreshold;
                    } else if number == 4 {
                        self.input_mode = InputMode::MemoryThreshold;
                    }
                },
                None => {},
            }
            self.input_buffer.clear();
        } else {
            let accepted = accepts_digit(key);
            self.edit_line(key, accepted);
        }
        KeyOutcome { quit: false, save_preferences: false, action: None, refresh: true, select_first: false }
    }

    /// Answering the confirmation for a critical process: y terminates it, n or Esc
    /// cancels; both leave the overlay.
    pub fn handle_confirm_kill(&mut self, key: Key) -> (r: KeyOutcome)
        requires
            old(self).wf(),
        ensures
            final(self).wf(),
            confirm_kill_step(*old(self), *final(self), key, r),
    {
        if key == Key::Char('y') || key == Key::Char('Y') {
            let r = match self.pending_kill_pid {
                Some(pid) => KeyOutcome { quit: false, save_preferences: false, action: Some(ProcessRequest { action: ProcessAction::Terminate, pid }), refresh: true, select_first: false },
                None => KeyOutcome { quit: false, save_preferences: false, action: None, refresh: false, select_first: false },
            };
            self.input_mode = InputMode::Normal;
            self.pending_kill_pid = None;
            r
        } else if key == Key::Char('n') || key == Key::Char('N') || key == Key::Esc {
            self.input_mode = InputMode::Normal;
            self.pending_kill_pid = None;
            KeyOutcome { quit: false, save_preferences: false, action: None, refresh: false, select_first: false }
        } else {
            KeyOutcome { quit: false, save_preferences: false, action: None, refresh: false, select_first: false }
        }
    }

    /// Dismissing the error list: Enter or Esc empties it and leaves the overlay.
    pub fn handle_error_overlay_input(&mut self, key: Key) -> (r: KeyOutcome)
        requires
            old(self).wf(),
        ensures
            final(self).wf(),
            error_overlay_step(*old(self), *final(self), key, r),
    {
        if key == Key::Enter || key == Key::Esc {
            self.input_mode = InputMode::Normal;
            self.errors.clear();
        }
        KeyOutcome { quit: false, save_preferences: false, action: None, refresh: false, select_first: false }
    }
}

} // verus!
