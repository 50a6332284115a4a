use std::collections::HashMap;

use vstd::prelude::*;

use crate::filter::FilterCriteria;
use crate::model::{rows_view, FlatRow, ProcessNode, SortColumn};
use crate::view::{flat_view, flatten_forest};

verus! {

broadcast use vstd::std_specs::hash::group_hash_axioms;

/// The screen being shown.
#[derive(PartialEq, Eq, Structural, Clone, Copy, Debug)]
pub enum Page {
    Processes,
    SystemStats,
    Help,
}

/// What typed keys currently edit.
#[derive(PartialEq, Eq, Structural, Clone, Copy, Debug)]
pub enum InputMode {
    Normal,
    SelectFilter,
    UpdateInterval,
    ConfirmKill,
    UserFilter,
    StatusFilter,
    CpuThreshold,
    MemoryThreshold,
    Error,
}

/// The settings kept between runs.
#[derive(PartialEq, Eq, Structural, Clone, Copy, Debug)]
pub struct Preferences {
    pub update_interval_ms: u64,
    pub sort_column: SortColumn,
    pub reverse_sort: bool,
}

impl Default for Preferences {
    fn default() -> (r: Preferences)
        ensures
            r.update_interval_ms == 1000,
            r.sort_column == SortColumn::Cpu,
            r.reverse_sort,
    {
        Preferences { update_interval_ms: 1000, sort_column: SortColumn::Cpu, reverse_sort: true }
    }
}

/// A rectangle of terminal cells.
#[derive(PartialEq, Eq, Structural, Clone, Copy, Debug)]
pub struct Area {
    pub x: u16,
    pub y: u16,
    pub width: u16,
    pub height: u16,
}

impl Area {
    /// Right and bottom edges stop at the largest coordinate.
    pub open spec fn holds(&self, x: u16, y: u16) -> bool {
        let right = if self.x + self.width > u16::MAX { u16::MAX as int } else { self.x + self.width };
        let bottom = if self.y + self.height > u16::MAX { u16::MAX as int } else { self.y + self.height };
        self.x <= x && (x as int) < right && self.y <= y && (y as int) < bottom
    }

    /// Whether the cell lies inside the rectangle.
    pub fn contains(&self, x: u16, y: u16) -> (r: bool)
        ensures
            r == self.holds(x, y),
    {
        let right = self.x.saturating_add(self.width);
        let bottom = self.y.saturating_add(self.height);
        self.x <= x && x < right && self.y <= y && y < bottom
    }
}

/// The whole state of the monitor: the forest, the view cache, the selection, the
/// filters and the input state.
pub struct App {
    pub page: Page,
    pub sort_column: SortColumn,
    pub reverse_sort: bool,
    /// The selected row of the flattened view.
    pub selected: Option<usize>,
    pub processes: Vec<ProcessNode>,
    /// Bootstrap pids: not shown, their children shown as roots.
    pub bootstrap_pids: Vec<u32>,
    /// Remembered expand flags, by pid.
    pub expanded_pids: HashMap<u32, bool>,
    pub search_mode: bool,
    pub filter: FilterCriteria,
    /// The first row shown.
    pub viewport_offset: usize,
    pub table_area: Area,
    pub header_area: Area,
    pub cached_flat_processes: Option<Vec<FlatRow>>,
    pub input_mode: InputMode,
    pub input_buffer: Vec<char>,
    pub pending_kill_pid: Option<u32>,
    pub preferences: Preferences,
    pub update_interval_ms: u64,
    /// Per core, the latest usage samples in hundredths of a percent.
    pub cpu_history: Vec<Vec<u32>>,
    /// The latest used-memory samples, in bytes.
    pub memory_history: Vec<u64>,
    /// The latest (received, transmitted) byte totals.
    pub network_history: Vec<(u64, u64)>,
    pub errors: Vec<String>,
    /// Whether a header click re-sorts at once.
    pub refresh: bool,
    /// Time in milliseconds and cell of the last click.
    pub last_click: Option<(u64, u16, u16)>,
}

impl App {
    /// The cached rows, when present, are the flattened view of the current forest
    /// under the current criteria.
    pub open spec fn wf(&self) -> bool {
        self.cached_flat_processes matches Some(c) ==> rows_view(c@) == self.view_rows()
    }

    /// The flattened view of the current forest under the current criteria.
    pub open spec fn view_rows(&self) -> Seq<(nat, Seq<usize>)> {
        flat_view(self.filter, self.processes@)
    }

    /// Rows that fit in the table: its height less borders and header.
    pub open spec fn visible_rows_spec(&self) -> nat {
        if self.table_area.height >= 4 { (self.table_area.height - 4) as nat } else { 0 }
    }

    pub fn visible_rows(&self) -> (r: usize)
        ensures
            r == self.visible_rows_spec(),
    {
        self.table_area.height.saturating_sub(4) as usize
    }

    /// Everything but the view cache is the same in both states.
    pub open spec fn same_but_cache(&self, o: &App) -> bool {
        &&& self.page == o.page
        &&& self.sort_column == o.sort_column
        &&& self.reverse_sort == o.reverse_sort
        &&& self.selected == o.selected
        &&& self.processes == o.processes
        &&& self.bootstrap_pids == o.bootstrap_pids
        &&& self.expanded_pids == o.expanded_pids
        &&& self.search_mode == o.search_mode
        &&& self.filter == o.filter
        &&& self.viewport_offset == o.viewport_offset
        &&& self.table_area == o.table_area
        &&& self.header_area == o.header_area
        &&& self.input_mode == o.input_mode
        &&& self.input_buffer == o.input_buffer
        &&& self.pending_kill_pid == o.pending_kill_pid
        &&& self.preferences == o.preferences
        &&& self.update_interval_ms == o.update_interval_ms
        &&& self.cpu_history == o.cpu_history
        &&& self.memory_history == o.memory_history
        &&& self.network_history == o.network_history
        &&& self.errors == o.errors
        &&& self.refresh == o.refresh
        &&& self.last_click == o.last_click
    }

    /// All but the forest, the expand flags, the selection and the view cache are the
    /// same in both states.
    pub open spec fn keeps_settings(&self, o: &App) -> bool {
        &&& self.page == o.page
        &&& self.sort_column == o.sort_column
        &&& self.reverse_sort == o.reverse_sort
        &&& self.bootstrap_pids == o.bootstrap_pids
        &&& self.search_mode == o.search_mode
        &&& self.filter == o.filter
        &&& self.viewport_offset == o.viewport_offset
        &&& self.table_area == o.table_area
        &&& self.header_area == o.header_area
        &&& self.input_mode == o.input_mode
        &&& self.input_buffer == o.input_buffer
        &&& self.pending_kill_pid == o.pending_kill_pid
        &&& self.preferences == o.preferences
        &&& self.update_interval_ms == o.update_interval_ms
        &&& self.cpu_history == o.cpu_history
        &&& self.memory_history == o.memory_history
        &&& self.network_history == o.network_history
        &&& self.errors == o.errors
        &&& self.refresh == o.refresh
        &&& self.last_click == o.last_click
    }

    /// Fills the view cache when it is empty and returns the number of rows.
    pub fn flat_len(&mut self) -> (r: usize)
        requires
            old(self).wf(),
        ensures
            final(self).wf(),
            final(self).same_but_cache(old(self)),
            final(self).cached_flat_processes is Some,
            old(self).cached_flat_processes is Some ==> final(self).cached_flat_processes == old(self).cached_flat_processes,
            r == old(self).view_rows().len(),
    {
        if self.cached_flat_processes.is_none() {
            let rows = flatten_forest(&self.filter, &self.processes);
            self.cached_flat_processes = Some(rows);
        }
        match &self.cached_flat_processes {
            Some(c) => {
                assert(rows_view(c@).len() == c@.len());
                c.len()
            },
            None => 0,
        }
    }

    /// The flattened view, computed when the cache is empty and taken from the cache
    /// otherwise.
    pub fn flatten_processes(&mut self) -> (r: &Vec<FlatRow>)
        requires
            old(self).wf(),
        ensures
            final(self).wf(),
            final(self).same_but_cache(old(self)),
            rows_view(r@) == old(self).view_rows(),
            final(self).cached_flat_processes == Some(*r),
            old(self).cached_flat_processes matches Some(c) ==> *r == c,
    {
        self.flat_len();
        self.cached_flat_processes.as_ref().unwrap()
    }
}

/// Reading the flattened view twice with nothing changed in between gives the same
/// rows: the rows depend only on what the two states share.
pub proof fn lemma_flatten_idempotent(a: App, b: App)
    requires
        a.wf(),
        b.wf(),
        b.same_but_cache(&a),
    ensures
        a.view_rows() == b.view_rows(),
        a.cached_flat_processes is Some && b.cached_flat_processes is Some
            ==> rows_view(a.cached_flat_processes->0@) == rows_view(b.cached_flat_processes->0@),
{
}

} // verus!
