use vstd::prelude::*;

use crate::state::App;

verus! {

/// The first shown row after making row `index` visible in a window of `rows` rows
/// that started at `offset` (a window of no rows is taken as one row).
pub open spec fn scroll_offset(offset: nat, index: nat, rows: nat) -> nat {
    if index < offset {
        index
    } else if index >= offset + rows {
        if rows == 0 { index } else { (index - rows + 1) as nat }
    } else {
        offset
    }
}

/// A row index kept inside a list of `len` rows (`len` > 0).
pub open spec fn clamp_index(i: int, len: nat) -> nat {
    if i < 0 { 0 } else if i >= len { (len - 1) as nat } else { i as nat }
}

/// Row `index` lies in the window, when the window has room for a row.
pub proof fn lemma_scroll_shows_index(offset: nat, index: nat, rows: nat)
    requires
        rows > 0,
    ensures
        scroll_offset(offset, index, rows) <= index < scroll_offset(offset, index, rows) + rows,
{
}

/// What moving the selection one row down does.
pub open spec fn next_step(o: App, n: App) -> bool {
    &&& (n.same_but_selection(&o))
    &&& (o.view_rows().len() == 0 ==> n.selected is None
        && n.viewport_offset == o.viewport_offset)
    &&& (o.view_rows().len() > 0 ==> n.moved_to(&o, match o.selected {
        None => 0,
        Some(i) => clamp_index(i + 1, o.view_rows().len()),
    }))
}

/// What moving the selection one row up does.
pub open spec fn prev_step(o: App, n: App) -> bool {
    &&& (n.same_but_selection(&o))
    &&& (o.view_rows().len() == 0 ==> n.selected is None
        && n.viewport_offset == o.viewport_offset)
    &&& (o.view_rows().len() > 0 ==> n.moved_to(&o, match o.selected {
        None => 0,
        Some(i) => clamp_index(i - 1, o.view_rows().len()),
    }))
}

/// What going to the first row does.
pub open spec fn top_step(o: App, n: App) -> bool {
    &&& (n.same_but_selection(&o))
    &&& (n.viewport_offset == 0)
    &&& (n.selected == if o.view_rows().len() == 0 { None } else { Some(0usize) })
}

/// What going to the last row does.
pub open spec fn bottom_step(o: App, n: App) -> bool {
    &&& (n.same_but_selection(&o))
    &&& (o.view_rows().len() == 0 ==> n.selected is None
        && n.viewport_offset == o.viewport_offset)
    &&& (o.view_rows().len() > 0 ==> {
        let last = (o.view_rows().len() - 1) as nat;
        let rows = o.visible_rows_spec();
        &&& n.selected == Some(last as usize)
        &&& n.viewport_offset == if last + 1 >= rows && rows > 0 { (last + 1 - rows) as nat } else { 0 }
    })
}

/// What moving a page down does.
pub open spec fn page_down_step(o: App, n: App) -> bool {
    &&& (n.same_but_selection(&o))
    &&& (o.view_rows().len() == 0 ==> n.selected is None
        && n.viewport_offset == o.viewport_offset)
    &&& (o.view_rows().len() > 0 ==> n.moved_to(&o, clamp_index(
        (match o.selected { None => 0, Some(i) => i as int }) + o.visible_rows_spec(),
        o.view_rows().len(),
    )))
}

/// What moving a page up does.
pub open spec fn page_up_step(o: App, n: App) -> bool {
    &&& (n.same_but_selection(&o))
    &&& (o.view_rows().len() == 0 ==> n.selected is None
        && n.viewport_offset == o.viewport_offset)
    &&& (o.view_rows().len() > 0 ==> n.moved_to(&o, clamp_index(
        (match o.selected { None => 0, Some(i) => i as int }) - o.visible_rows_spec(),
        o.view_rows().len(),
    )))
}

/// What selecting the first row after a change of criteria does.
pub open spec fn first_matching_step(o: App, n: App) -> bool {
    &&& (n.same_but_selection(&o))
    &&& (o.view_rows().len() == 0 ==> n.selected is None
        && n.viewport_offset == o.viewport_offset)
    &&& (o.view_rows().len() > 0 ==> n.selected == Some(0usize)
        && n.viewport_offset == 0)
}

impl App {
    /// All but the selection, the viewport and the view cache are the same.
    pub open spec fn same_but_selection(&self, o: &App) -> bool {
        &&& self.page == o.page
        &&& self.sort_column == o.sort_column
        &&& self.reverse_sort == o.reverse_sort
        &&& self.processes == o.processes
        &&& self.bootstrap_pids == o.bootstrap_pids
        &&& self.expanded_pids == o.expanded_pids
        &&& self.search_mode == o.search_mode
        &&& self.filter == o.filter
        &&& self.table_area == o.table_area
        &&& self.header_area == o.header_area
        &&& self.input_mode == o.input_mode
        &&& self.input_buffer == o.input_buffer
        &&& self.pending_kill_pid == o.pending_kill_pid
        &&& self.preferences == o.preferences
        &&& self.update_interval_ms == o.update_interval_ms
        &&& self.cpu_history == o.cpu_history
        &&& self.memory_history == o.memory_history
        &&& self.network_history == o.network_history
        &&& self.errors == o.errors
        &&& self.refresh == o.refresh
        &&& self.last_click == o.last_click
    }

    /// The selection moved to `index` and the window scrolled to show it.
    pub open spec fn moved_to(&self, o: &App, index: nat) -> bool {
        &&& self.selected == Some(index as usize)
        &&& self.viewport_offset == scroll_offset(o.viewport_offset as nat, index, o.visible_rows_spec())
    }

    /// Scrolls the window just enough to show row `index`.
    pub fn ensure_visible(&mut self, index: usize)
        ensures
            final(self).viewport_offset == scroll_offset(old(self).viewport_offset as nat, index as nat, old(self).visible_rows_spec()),
            final(self).selected == old(self).selected,
            final(self).cached_flat_processes == old(self).cached_flat_processes,
            final(self).same_but_selection(old(self)),
            old(self).visible_rows_spec() > 0 ==> final(self).viewport_offset <= index
                < final(self).viewport_offset + old(self).visible_rows_spec(),
    {
        let visible_rows = self.visible_rows();
        if index < self.viewport_offset {
            self.viewport_offset = index;
        } else if index - self.viewport_offset >= visible_rows {
            if visible_rows == 0 {
                self.viewport_offset = index;
            } else {
                self.viewport_offset = index - (visible_rows - 1);
            }
        }
    }

    /// Moves the selection one row down, staying on the last row.
    pub fn select_next(&mut self)
        requires
            old(self).wf(),
        ensures
            final(self).wf(),
            next_step(*old(self), *final(self)),
    {
        let flat_len = self.flat_len();
        if flat_len > 0 {
            let i = match self.selected {
                None => 0,
                Some(i) => if i >= flat_len - 1 { flat_len - 1 } else { i + 1 },
            };
            self.selected = Some(i);
            self.ensure_visible(i);
        } else {
            self.selected = None;
        }
    }

    /// Moves the selection one row up, staying on the first row.
    pub fn select_prev(&mut self)
        requires
            old(self).wf(),
        ensures
            final(self).wf(),
            prev_step(*old(self), *final(self)),
    {
        let flat_len = self.flat_len();
        if flat_len > 0 {
            let i = match self.selected {
                None => 0,
                Some(i) => {
                    let up = i.saturating_sub(1);
                    if up >= flat_len - 1 { flat_len - 1 } else { up }
                },
            };
            self.selected = Some(i);
            self.ensure_visible(i);
        } else {
            self.selected = None;
        }
    }

    /// Selects the first row and shows the top of the list.
    pub fn go_to_top(&mut self)
        requires
            old(self).wf(),
        ensures
            final(self).wf(),
            top_step(*old(self), *final(self)),
    {
        let flat_len = self.flat_len();
        self.selected = if flat_len > 0 { Some(0) } else { None };
        self.viewport_offset = 0;
    }

    /// Selects the last row and scrolls so that it is the bottom row of the window.
    pub fn go_to_bottom(&mut self)
        requires
            old(self).wf(),
        ensures
            final(self).wf(),
            bottom_step(*old(self), *final(self)),
    {
        let flat_len = self.flat_len();
        if flat_len > 0 {
            let last_idx = flat_len - 1;
            self.selected = Some(last_idx);
            let visible_rows = self.visible_rows();
            self.viewport_offset = if visible_rows == 0 { 0 } else { last_idx.saturating_sub(visible_rows - 1) };
        } else {
            self.selected = None;
        }
    }

    /// Moves the selection down by the number of rows the window shows.
    pub fn page_down(&mut self)
        requires
            old(self).wf(),
        ensures
            final(self).wf(),
            page_down_step(*old(self), *final(self)),
    {
        let flat_len = self.flat_len();
        if flat_len > 0 {
            let visible_rows = self.visible_rows();
            let current = match self.selected { None => 0, Some(i) => i };
            let target = current.saturating_add(visible_rows);
            let new_idx = if target >= flat_len - 1 { flat_len - 1 } else { target };
            self.selected = Some(new_idx);
            self.ensure_visible(new_idx);
        } else {
            self.selected = None;
        }
    }

    /// Moves the selection up by the number of rows the window shows.
    pub fn page_up(&mut self)
        requires
            old(self).wf(),
        ensures
            final(self).wf(),
            page_up_step(*old(self), *final(self)),
    {
        let flat_len = self.flat_len();
        if flat_len > 0 {
            let visible_rows = self.visible_rows();
            let current = match self.selected { None => 0, Some(i) => i };
            let up = current.saturating_sub(visible_rows);
            let new_idx = if up >= flat_len - 1 { flat_len - 1 } else { up };
            self.selected = Some(new_idx);
            self.ensure_visible(new_idx);
        } else {
            self.selected = None;
        }
    }

    /// After the criteria changed: selects the first row (none when no row is left)
    /// and shows the top of the list.
    pub fn select_first_matching(&mut self)
        requires
            old(self).wf(),
        ensures
            final(self).wf(),
            first_matching_step(*old(self), *final(self)),
            final(self).cached_flat_processes is Some,
    {
        let flat_len = self.flat_len();
        if flat_len > 0 {
            self.selected = Some(0);
            self.viewport_offset = 0;
        } else {
            self.selected = None;
        }
    }
}

} // verus!
