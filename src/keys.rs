use vstd::prelude::*;

use crate::model::ProcessInfo;
use crate::state::{App, InputMode};
use crate::text::{chars_of, contains, is_substring, lower_of, lowercase};

verus! {

/// A key press, as far as the monitor tells keys apart.
#[derive(PartialEq, Eq, Structural, Clone, Copy, Debug)]
pub enum Key {
    Char(char),
    Enter,
    Esc,
    Backspace,
    Up,
    Down,
    PageUp,
    PageDown,
    Delete,
    F(u8),
    Other,
}

/// A process-control request.
#[derive(PartialEq, Eq, Structural, Clone, Copy, Debug)]
pub enum ProcessAction {
    Terminate,
    Stop,
    Continue,
}

/// A process-control request for one pid.
#[derive(PartialEq, Eq, Structural, Clone, Copy, Debug)]
pub struct ProcessRequest {
    pub action: ProcessAction,
    pub pid: u32,
}

/// The outside work a key asks for, in this order: perform `action`; when `refresh`,
/// rebuild from a fresh snapshot (`force_refresh`) and then, when `select_first`, call
/// `select_first_matching`; when `save_preferences`, write the preferences; when
/// `quit`, leave.
#[derive(PartialEq, Eq, Structural, Clone, Copy, Debug)]
pub struct KeyOutcome {
    pub quit: bool,
    pub save_preferences: bool,
    pub action: Option<ProcessRequest>,
    pub refresh: bool,
    pub select_first: bool,
}

pub open spec fn quiet() -> KeyOutcome {
    KeyOutcome { quit: false, save_preferences: false, action: None, refresh: false, select_first: false }
}

pub open spec fn refresh_only() -> KeyOutcome {
    KeyOutcome { quit: false, save_preferences: false, action: None, refresh: true, select_first: false }
}

fn nothing() -> (r: KeyOutcome)
    ensures
        r == quiet(),
{
    KeyOutcome { quit: false, save_preferences: false, action: None, refresh: false, select_first: false }
}

fn refresh_after() -> (r: KeyOutcome)
    ensures
        r == refresh_only(),
{
    KeyOutcome { quit: false, save_preferences: false, action: None, refresh: true, select_first: false }
}

/// The input line after an editing key: an accepted character is appended, Backspace
/// drops the last character; other keys leave it.
pub open spec fn edited(buf: Seq<char>, key: Key, accepted: bool) -> Seq<char> {
    match key {
        Key::Char(c) => if accepted { buf.push(c) } else { buf },
        Key::Backspace => if buf.len() > 0 { buf.drop_last() } else { buf },
        _ => buf,
    }
}

/// Shortest and longest refresh intervals, in milliseconds.
pub const MIN_INTERVAL_MS: u64 = 100;
pub const MAX_INTERVAL_MS: u64 = 6000;

pub open spec fn clamp_interval(ms: nat) -> u64 {
    if ms < MIN_INTERVAL_MS { MIN_INTERVAL_MS } else if ms > MAX_INTERVAL_MS { MAX_INTERVAL_MS } else { ms as u64 }
}

/// Bytes in a mebibyte.
pub const MIB: u64 = 1048576;

/// The spelling of the process names that ask for confirmation before termination.
pub open spec fn critical_words() -> Seq<Seq<char>> {
    seq![seq!['s', 'y', 's', 't', 'e', 'm', 'd'], seq!['i', 'n', 'i', 't'], seq!['k', 'e', 'r', 'n', 'e', 'l']]
}

/// A process whose termination needs confirmation: a pid below 10, or a name that
/// holds one of `critical_words`, ignoring case.
pub open spec fn is_critical_spec(info: ProcessInfo) -> bool {
    info.pid < 10 || exists|i: int| 0 <= i < 3 && is_substring(#[trigger] critical_words()[i], lower_of(info.name@))
}

/// The confirmation test on an already lowercased name.
pub fn is_critical_lowered(pid: u32, name_lower: &Vec<char>) -> (r: bool)
    ensures
        r == (pid < 10 || exists|i: int| 0 <= i < 3 && is_substring(#[trigger] critical_words()[i], name_lower@)),
{
    if pid < 10 {
        return true;
    }
    let w0 = vec!['s', 'y', 's', 't', 'e', 'm', 'd'];
    let w1 = vec!['i', 'n', 'i', 't'];
    let w2 = vec!['k', 'e', 'r', 'n', 'e', 'l'];
    assert(w0@ =~= critical_words()[0]);
    assert(w1@ =~= critical_words()[1]);
    assert(w2@ =~= critical_words()[2]);
    let r = contains(name_lower, &w0) || contains(name_lower, &w1) || contains(name_lower, &w2);
    assert(r == exists|i: int| 0 <= i < 3 && is_substring(#[trigger] critical_words()[i], name_lower@)) by {
        if !r {
            assert forall|i: int| 0 <= i < 3 implies !is_substring(#[trigger] critical_words()[i], name_lower@) by {
                if i == 1 {
                } else if i == 2 {
                }
            }
        }
    }
    r
}

/// Whether terminating the process needs confirmation.
pub fn is_critical(info: &ProcessInfo) -> (r: bool)
    ensures
        r == is_critical_spec(*info),
{
    let name = lowercase(&chars_of(info.name.as_str()));
    is_critical_lowered(info.pid, &name)
}

/// What asking to terminate the selected process does (see `initiate_kill`).
pub open spec fn kill_step(o: App, n: App, r: KeyOutcome) -> bool {
    match o.selected_node() {
        Some(t) => if is_critical_spec(t.info) {
            &&& r == quiet()
            &&& n == (App { pending_kill_pid: Some(t.info.pid), input_mode: InputMode::ConfirmKill, ..o })
        } else {
            r == KeyOutcome { action: Some(ProcessRequest { action: ProcessAction::Terminate, pid: t.info.pid }), ..refresh_only() }
                && n == o
        },
        None => r == quiet() && n == o,
    }
}

impl App {
    /// The pid shown at the selected row, if any.
    pub fn selected_pid(&self) -> (r: Option<u32>)
        ensures
            r == (match self.selected_node() {
                Some(n) => Some(n.info.pid),
                None => None::<u32>,
            }),
    {
        match self.selected {
            Some(s) => match self.get_process_at_flat_index(s) {
                Some(n) => Some(n.info.pid),
                None => None,
            },
            None => None,
        }
    }

    /// What `get_process_at_flat_index` finds at a row.
    pub open spec fn get_node_spec(&self, idx: usize) -> Option<crate::model::ProcessNode> {
        match self.cached_flat_processes {
            Some(c) => if idx < c@.len() { crate::model::node_at(self.processes@, c@[idx as int].path@) } else { None },
            None => None,
        }
    }

    /// Asks to terminate the selected process, without confirmation.
    pub fn kill_selected(&self) -> (r: KeyOutcome)
        ensures
            r == (match self.selected_node() {
                Some(n) => KeyOutcome { action: Some(ProcessRequest { action: ProcessAction::Terminate, pid: n.info.pid }), ..refresh_only() },
                None => quiet(),
            }),
    {
        match self.selected {
            Some(s) => match self.get_process_at_flat_index(s) {
                Some(n) => KeyOutcome { quit: false, save_preferences: false, action: Some(ProcessRequest { action: ProcessAction::Terminate, pid: n.info.pid }), refresh: true, select_first: false },
                None => nothing(),
            },
            None => nothing(),
        }
    }

    /// Asks to terminate the selected process: a critical one waits for confirmation.
    pub fn initiate_kill(&mut self) -> (r: KeyOutcome)
        requires
            old(self).wf(),
        ensures
            final(self).wf(),
            kill_step(*old(self), *final(self), r),
    {
        let target = match self.selected {
            Some(s) => match self.get_process_at_flat_index(s) {
                Some(n) => Some((n.info.pid, is_critical(&n.info))),
                None => None,
            },
            None => None,
        };
        match target {
            Some((pid, critical)) => {
                if critical {
                    self.pending_kill_pid = Some(pid);
                    self.input_mode = InputMode::ConfirmKill;
                    nothing()
                } else {
                    KeyOutcome { quit: false, save_preferences: false, action: Some(ProcessRequest { action: ProcessAction::Terminate, pid }), refresh: true, select_first: false }
                }
            },
            None => nothing(),
        }
    }

    /// Asks to stop (`Stop`) or continue (`Continue`) the selected process.
    pub fn signal_selected(&self, action: ProcessAction) -> (r: KeyOutcome)
        ensures
            r == (match self.selected_node() {
                Some(n) => KeyOutcome { action: Some(ProcessRequest { action, pid: n.info.pid }), ..refresh_only() },
                None => quiet(),
            }),
    {
        match self.selected_pid() {
            Some(pid) => KeyOutcome { quit: false, save_preferences: false, action: Some(ProcessRequest { action, pid }), refresh: true, select_first: false },
            None => nothing(),
        }
    }

    /// Asks to stop the selected process.
    pub fn suspend_process(&self) -> (r: KeyOutcome)
        ensures
            r == (match self.selected_node() {
                Some(n) => KeyOutcome { action: Some(ProcessRequest { action: ProcessAction::Stop, pid: n.info.pid }), ..refresh_only() },
                None => quiet(),
            }),
    {
        self.signal_selected(ProcessAction::Stop)
    }

    /// Asks to continue the selected process.
    pub fn resume_process(&self) -> (r: KeyOutcome)
        ensures
            r == (match self.selected_node() {
                Some(n) => KeyOutcome { action: Some(ProcessRequest { action: ProcessAction::Continue, pid: n.info.pid }), ..refresh_only() },
                None => quiet(),
            }),
    {
        self.signal_selected(ProcessAction::Continue)
    }

    /// Records a failed process-control request in the error list and shows it.
    pub fn report_failure(&mut self, message: String)
        requires
            old(self).wf(),
        ensures
            final(self).wf(),
            final(self).errors@ == old(self).errors@.push(message),
            *final(self) == (App { errors: final(self).errors, input_mode: InputMode::Error, ..*old(self) }),
    {
        self.errors.push(message);
        self.input_mode = InputMode::Error;
    }

    /// What follows once the outside request of `outcome` was tried: when it was
    /// granted, the rest of `outcome` stands; when it was denied, the failure is recorded
    /// in the error list and nothing is rebuilt, so the forest and the selection stay.
    pub fn request_done(&mut self, outcome: KeyOutcome, granted: bool, message: String) -> (r: KeyOutcome)
        requires
            old(self).wf(),
        ensures
            final(self).wf(),
            granted ==> *final(self) == *old(self) && r == outcome,
            !granted ==> final(self).errors@ == old(self).errors@.push(message)
                && *final(self) == (App { errors: final(self).errors, input_mode: InputMode::Error, ..*old(self) })
                && r == (KeyOutcome { action: None, refresh: false, select_first: false, ..outcome }),
    {
        if granted {
            outcome
        } else {
            self.report_failure(message);
            KeyOutcome { quit: outcome.quit, save_preferences: outcome.save_preferences, action: None, refresh: false, select_first: false }
        }
    }

    /// The node at the selected row, if any.
    pub open spec fn selected_node(&self) -> Option<crate::model::ProcessNode> {
        match self.selected {
            Some(s) => self.get_node_spec(s),
            None => None,
        }
    }
}

} // verus!
