use vstd::prelude::*;

use crate::keys::{quiet, refresh_only, KeyOutcome};
use crate::model::SortColumn;
use crate::expand::toggle_step;
use crate::model::{rows_view, FlatRow};
use crate::selection::{next_step, prev_step};
use crate::state::{App, Page};
use crate::text::{decimal, decimal_chars};

verus! {

/// A mouse event, as far as the monitor tells them apart.
#[derive(PartialEq, Eq, Structural, Clone, Copy, Debug)]
pub enum MouseKind {
    Down,
    ScrollDown,
    ScrollUp,
    Other,
}

/// Two clicks this close in time (milliseconds) and space (cells) make a double click.
pub const DOUBLE_CLICK_MS: u64 = 500;
pub const DOUBLE_CLICK_CELLS: u16 = 2;

/// Widths of the fixed columns of the process table.
pub const PID_WIDTH: u16 = 10;
pub const CPU_WIDTH: u16 = 12;
pub const MEM_WIDTH: u16 = 15;
pub const MIN_NAME_WIDTH: u16 = 10;

pub open spec fn abs_diff(a: u16, b: u16) -> int {
    if a >= b { a - b } else { b - a }
}

/// A click at `(x, y)` at time `now` follows the last click closely enough.
pub open spec fn is_double_click(last: Option<(u64, u16, u16)>, now: u64, x: u16, y: u16) -> bool {
    match last {
        Some((t, lx, ly)) => (if now >= t { now - t } else { 0 }) < DOUBLE_CLICK_MS
            && abs_diff(lx, x) <= DOUBLE_CLICK_CELLS && abs_diff(ly, y) <= DOUBLE_CLICK_CELLS,
        None => false,
    }
}

/// Width of the line-number column: the digits of the row count, at least 3.
pub open spec fn line_number_width(rows: nat) -> nat {
    if decimal(rows).len() > 3 { decimal(rows).len() } else { 3 }
}

/// Width of the name column in a table of the given inner width.
pub open spec fn name_width(available: nat, line_w: nat) -> nat {
    let fixed = line_w + 1 + PID_WIDTH + CPU_WIDTH + MEM_WIDTH;
    if available > fixed {
        if available - fixed > MIN_NAME_WIDTH { (available - fixed) as nat } else { MIN_NAME_WIDTH as nat }
    } else {
        MIN_NAME_WIDTH as nat
    }
}

/// The column under a header cell, `rel` cells from the table's inner left edge.
pub open spec fn header_column(rel: nat, line_w: nat, name_w: nat) -> Option<SortColumn> {
    let e0 = line_w + 1;
    let e1 = e0 + PID_WIDTH;
    let e2 = e1 + name_w;
    let e3 = e2 + CPU_WIDTH;
    let e4 = e3 + MEM_WIDTH;
    if rel < e0 {
        None
    } else if rel < e1 {
        Some(SortColumn::Pid)
    } else if rel < e2 {
        Some(SortColumn::Name)
    } else if rel < e3 {
        Some(SortColumn::Cpu)
    } else if rel < e4 {
        Some(SortColumn::Memory)
    } else {
        None
    }
}

/// The column under a header cell.
pub fn column_at(rel: u64, line_w: u64, name_w: u64) -> (r: Option<SortColumn>)
    ensures
        r == header_column(rel as nat, line_w as nat, name_w as nat),
{
    let e0 = line_w as u128 + 1;
    let e1 = e0 + PID_WIDTH as u128;
    let e2 = e1 + name_w as u128;
    let e3 = e2 + CPU_WIDTH as u128;
    let e4 = e3 + MEM_WIDTH as u128;
    let rel = rel as u128;
    if rel < e0 {
        None
    } else if rel < e1 {
        Some(SortColumn::Pid)
    } else if rel < e2 {
        Some(SortColumn::Name)
    } else if rel < e3 {
        Some(SortColumn::Cpu)
    } else if rel < e4 {
        Some(SortColumn::Memory)
    } else {
        None
    }
}

/// What a click at `(x, y)` at time `now` does. On the header row of the process
/// list a double click on a column sorts by it (and asks for a refresh when `refresh`
/// is on); in the table a click on a listed row selects it, and a double click also
/// toggles its expand flag; anything else only records the click.
pub open spec fn click_step(o: App, n: App, x: u16, y: u16, now: u64, r: KeyOutcome) -> bool {
    let header_row = o.page == Page::Processes && o.header_area.holds(x, y) && y == o.header_area.y + 1;
    let in_table = o.page == Page::Processes && o.table_area.holds(x, y) && y > o.table_area.y + 3;
    let index = o.viewport_offset + (y - o.table_area.y - 2);
    let double = is_double_click(o.last_click, now, x, y);
    let rel: nat = if x >= o.header_area.x + 1 { (x - o.header_area.x - 1) as nat } else { 0 };
    let avail: nat = if o.table_area.width >= 4 { (o.table_area.width - 4) as nat } else { 0 };
    let line_w = line_number_width(o.view_rows().len());
    let col = header_column(rel, line_w, name_width(avail, line_w));
    &&& n.last_click == Some((now, x, y))
    &&& n.filter == o.filter
    &&& n.page == o.page
    &&& n.input_mode == o.input_mode
    &&& (header_row ==> {
        &&& n.selected == o.selected
        &&& n.processes == o.processes
        &&& n.expanded_pids == o.expanded_pids
        &&& if col is Some && double {
            &&& (n.sort_column, n.reverse_sort) == o.sort_after_click(col->0)
            &&& r == if o.refresh { refresh_only() } else { quiet() }
        } else {
            n.sort_column == o.sort_column && n.reverse_sort == o.reverse_sort && r == quiet()
        }
    })
    &&& (!header_row ==> r == quiet() && n.sort_column == o.sort_column && n.reverse_sort == o.reverse_sort)
    &&& (!header_row && in_table && index < o.view_rows().len() ==> {
        &&& n.selected == Some(index as usize)
        &&& !double ==> n.processes == o.processes && n.expanded_pids == o.expanded_pids
        &&& double ==> exists|c: Vec<FlatRow>| rows_view(c@) == o.view_rows() && toggle_step(
            App { selected: Some(index as usize), last_click: Some((now, x, y)), cached_flat_processes: Some(c), ..o }, n)
    })
    &&& (!header_row && !(in_table && index < o.view_rows().len()) ==> {
        &&& n.selected == o.selected
        &&& n.processes == o.processes
        &&& n.expanded_pids == o.expanded_pids
    })
}

impl App {
    /// The sort order a double click on a header column sets: the same column flips
    /// direction; a new column starts descending for cpu and memory, ascending else.
    pub open spec fn sort_after_click(&self, col: SortColumn) -> (SortColumn, bool) {
        if self.sort_column == col {
            (col, !self.reverse_sort)
        } else {
            (col, col == SortColumn::Cpu || col == SortColumn::Memory)
        }
    }

    /// A click at `(x, y)` at time `now_ms`. On the header row of the process list a
    /// double click on a column sorts by it (and asks for a refresh when `refresh` is
    /// on); in the table a click selects the row under it and a double click also
    /// toggles its expand flag.
    pub fn handle_mouse_click(&mut self, x: u16, y: u16, now_ms: u64) -> (r: KeyOutcome)
        requires
            old(self).wf(),
        ensures
            final(self).wf(),
            click_step(*old(self), *final(self), x, y, now_ms, r),
    {
        let is_double = match self.last_click {
            Some((t, lx, ly)) => {
                let elapsed = if now_ms >= t { now_ms - t } else { 0 };
                elapsed < DOUBLE_CLICK_MS
                    && (if lx >= x { lx - x } else { x - lx }) <= DOUBLE_CLICK_CELLS
                    && (if ly >= y { ly - y } else { y - ly }) <= DOUBLE_CLICK_CELLS
            },
            None => false,
        };
        self.last_click = Some((now_ms, x, y));
        let none = KeyOutcome { quit: false, save_preferences: false, action: None, refresh: false, select_first: false };
        if self.page == Page::Processes && self.header_area.contains(x, y) && (y as u32) == self.header_area.y as u32 + 1 {
            let rel: u64 = if x as u32 >= self.header_area.x as u32 + 1 { (x - self.header_area.x - 1) as u64 } else { 0 };
            let avail: u64 = self.table_area.width.saturating_sub(4) as u64;
            let rows = self.flat_len();
            let digits = decimal_chars(rows as u64).len() as u64;
            let line_w: u64 = if digits > 3 { digits } else { 3 };
            let fixed: u128 = line_w as u128 + 1 + PID_WIDTH as u128 + CPU_WIDTH as u128 + MEM_WIDTH as u128;
            let name_w: u64 = if avail as u128 > fixed {
                let spare = (avail as u128 - fixed) as u64;
                if spare > MIN_NAME_WIDTH as u64 { spare } else { MIN_NAME_WIDTH as u64 }
            } else {
                MIN_NAME_WIDTH as u64
            };
            match column_at(rel, line_w, name_w) {
                Some(col) => {
                    if is_double {
                        if self.sort_column == col {
                            self.reverse_sort = !self.reverse_sort;
                        } else {
                            self.sort_column = col;
                            self.reverse_sort = col == SortColumn::Cpu || col == SortColumn::Memory;
                        }
                        self.cached_flat_processes = None;
                        if self.refresh {
                            return KeyOutcome { quit: false, save_preferences: false, action: None, refresh: true, select_first: false };
                        }
                    }
                },
                None => {},
            }
            return none;
        }
        if self.page == Page::Processes && self.table_area.contains(x, y) && (y as u32) > self.table_area.y as u32 + 3 {
            let clicked_row = (y - self.table_area.y - 2) as usize;
            let rows = self.flat_len();
            if clicked_row < rows && self.viewport_offset < rows - clicked_row {
                let actual_index = self.viewport_offset + clicked_row;
                self.selected = Some(actual_index);
                if is_double {
                    let ghost mid = *self;
                    assert(mid.cached_flat_processes is Some);
                    self.toggle_expand();
                    assert(toggle_step(mid, *self));
                }
            }
        }
        none
    }

    /// A mouse event: a press is a click, the wheel moves the selection.
    pub fn handle_mouse(&mut self, kind: MouseKind, x: u16, y: u16, now_ms: u64) -> (r: KeyOutcome)
        requires
            old(self).wf(),
        ensures
            final(self).wf(),
            kind == MouseKind::Other ==> *final(self) == *old(self) && r == quiet(),
            kind == MouseKind::ScrollDown ==> next_step(*old(self), *final(self)) && r == quiet(),
            kind == MouseKind::ScrollUp ==> prev_step(*old(self), *final(self)) && r == quiet(),
            kind == MouseKind::Down ==> click_step(*old(self), *final(self), x, y, now_ms, r),
    {
        match kind {
            MouseKind::Down => self.handle_mouse_click(x, y, now_ms),
            MouseKind::ScrollDown => {
                self.select_next();
                KeyOutcome { quit: false, save_preferences: false, action: None, refresh: false, select_first: false }
            },
            MouseKind::ScrollUp => {
                self.select_prev();
                KeyOutcome { quit: false, save_preferences: false, action: None, refresh: false, select_first: false }
            },
            MouseKind::Other => KeyOutcome { quit: false, save_preferences: false, action: None, refresh: false, select_first: false },
        }
    }
}

} // verus!
