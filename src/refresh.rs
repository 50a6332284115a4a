use std::collections::HashMap;

use vstd::prelude::*;

use crate::filter::FilterCriteria;
use crate::model::{ProcessInfo, ProcessNode, SortColumn};
use crate::sorting::{reordered, sort_nodes, sorted_tree};
use crate::state::{App, Area, InputMode, Page, Preferences};
use crate::selection::scroll_offset;
use crate::tree::{build_forest, in_forest, is_hidden, node_ok, parentless, present, root_due};

verus! {

broadcast use vstd::std_specs::hash::group_hash_axioms;

/// How many samples each rolling history keeps.
pub const HISTORY_LEN: usize = 60;

/// One reading of the machine: per-core cpu usage (hundredths of a percent), used
/// memory in bytes, (received, transmitted) network byte totals, and the processes.
pub struct Sample {
    pub cpu_usage: Vec<u32>,
    pub used_memory: u64,
    pub network: (u64, u64),
    pub processes: Vec<ProcessInfo>,
}

/// The last `HISTORY_LEN` items of `s` (all of them when there are fewer).
pub open spec fn keep_last<T>(s: Seq<T>) -> Seq<T> {
    if s.len() > HISTORY_LEN { s.subrange(s.len() - HISTORY_LEN, s.len() as int) } else { s }
}

/// `n` is `o` rebuilt from the snapshot `records`:
/// - the forest is sorted at every level; its nodes hold records of the snapshot that
///   are not bootstrap processes, with their remembered flags and parent links;
/// - every record that is not a bootstrap process occurs in it, and those without a
///   shown parent (see `parentless`) are roots, and every root is due (`root_due`):
///   without a shown parent, or on a chain of parent links that loops;
/// - only the expand flags of pids still present are kept;
/// - the view cache holds the new rows, the selected row number is kept (clamped) and
///   the window scrolls to show it.
pub open spec fn rebuilt_from(o: App, n: App, records: Seq<ProcessInfo>) -> bool {
    &&& sorted_tree(n.sort_column, n.reverse_sort, n.processes@)
    &&& forall|i: int| 0 <= i < n.processes@.len() ==> node_ok(records, n.bootstrap_pids@, n.expanded_pids@, #[trigger] n.processes@[i])
    &&& forall|k: int| 0 <= k < records.len() && !is_hidden(n.bootstrap_pids@, records[k].pid)
        ==> in_forest(n.processes@, #[trigger] records[k])
    &&& forall|k: int| 0 <= k < records.len() && !is_hidden(n.bootstrap_pids@, records[k].pid)
        && parentless(records, n.bootstrap_pids@, records[k]) ==> exists|i: int| 0 <= i < n.processes@.len()
        && (#[trigger] n.processes@[i]).info == #[trigger] records[k]
    &&& forall|i: int| 0 <= i < n.processes@.len() ==> root_due(records, n.bootstrap_pids@, (#[trigger] n.processes@[i]).info)
    &&& forall|k: u32| #[trigger] n.expanded_pids@.contains_key(k) <==> o.expanded_pids@.contains_key(k) && present(records, k)
    &&& forall|k: u32| #[trigger] n.expanded_pids@.contains_key(k) ==> n.expanded_pids@[k] == o.expanded_pids@[k]
    &&& n.cached_flat_processes is Some
    &&& n.selected == rebuilt_selection(o.selected, n.view_rows().len())
    &&& n.viewport_offset == match n.selected {
        Some(s) => scroll_offset(o.viewport_offset as nat, s as nat, o.visible_rows_spec()),
        None => o.viewport_offset as nat,
    }
}

/// The selection after a rebuild: the same row number, clamped to the new list of
/// `len` rows; the first row when nothing was selected; none when the list is empty.
pub open spec fn rebuilt_selection(prior: Option<usize>, len: nat) -> Option<usize> {
    if len == 0 {
        None
    } else {
        Some(match prior {
            None => 0usize,
            Some(i) => if i < len { i } else { (len - 1) as usize },
        })
    }
}

/// Whatever was selected before and however long the new list is, the selection after
/// a rebuild is a row of the new list, or none exactly when the list is empty.
pub proof fn lemma_rebuilt_selection_in_bounds(prior: Option<usize>, len: nat)
    requires
        len <= usize::MAX,
    ensures
        rebuilt_selection(prior, len) is None <==> len == 0,
        rebuilt_selection(prior, len) matches Some(i) ==> i < len,
{
}

/// Appends a sample to a rolling history, dropping the oldest beyond `HISTORY_LEN`.
pub fn push_capped<T>(buf: &mut Vec<T>, x: T)
    ensures
        final(buf)@ == keep_last(old(buf)@.push(x)),
{
    buf.push(x);
    while buf.len() > HISTORY_LEN
        invariant
            keep_last(buf@) == keep_last(old(buf)@.push(x)),
        decreases buf@.len(),
    {
        let ghost before = buf@;
        buf.remove(0);
        assert(keep_last(buf@) =~= keep_last(before));
    }
}

/// The remembered flags of the pids that some record still has.
pub fn prune_expanded(expanded: &HashMap<u32, bool>, records: &Vec<ProcessInfo>) -> (r: HashMap<u32, bool>)
    ensures
        forall|k: u32| #[trigger] r@.contains_key(k) <==> expanded@.contains_key(k) && present(records@, k),
        forall|k: u32| #[trigger] r@.contains_key(k) ==> r@[k] == expanded@[k],
{
    let mut r: HashMap<u32, bool> = HashMap::new();
    let mut j: usize = 0;
    while j < records.len()
        invariant
            j <= records@.len(),
            forall|k: u32| #[trigger] r@.contains_key(k) <==> expanded@.contains_key(k) && present(records@.subrange(0, j as int), k),
            forall|k: u32| #[trigger] r@.contains_key(k) ==> r@[k] == expanded@[k],
        decreases records@.len() - j,
    {
        let pid = records[j].pid;
        match expanded.get(&pid) {
            Some(v) => {
                r.insert(pid, *v);
            },
            None => {},
        }
        proof {
            assert forall|k: u32| present(records@.subrange(0, j + 1), k) <==> present(records@.subrange(0, j as int), k) || k == pid by {
                if present(records@.subrange(0, j + 1), k) {
                    let i = choose|i: int| 0 <= i < j + 1 && (#[trigger] records@.subrange(0, j + 1)[i]).pid == k;
                    if i < j {
                        assert(records@.subrange(0, j as int)[i] == records@.subrange(0, j + 1)[i]);
                    }
                }
                if present(records@.subrange(0, j as int), k) {
                    let i = choose|i: int| 0 <= i < j && (#[trigger] records@.subrange(0, j as int)[i]).pid == k;
                    assert(records@.subrange(0, j + 1)[i] == records@.subrange(0, j as int)[i]);
                }
                if k == pid {
                    assert(records@.subrange(0, j + 1)[j as int].pid == pid);
                }
            }
        }
        j = j + 1;
    }
    assert(records@.subrange(0, records@.len() as int) =~= records@);
    r
}

impl App {
    /// A fresh state with the given preferences and no processes yet.
    pub fn new(preferences: Preferences) -> (r: App)
        ensures
            r.wf(),
            r.processes@.len() == 0,
            r.bootstrap_pids@ == seq![1u32, 2u32],
            r.selected is None,
            r.sort_column == preferences.sort_column,
            r.reverse_sort == preferences.reverse_sort,
            r.update_interval_ms == preferences.update_interval_ms,
            r.preferences == preferences,
            !r.filter.is_active(),
            r.page == Page::Processes,
            r.input_mode == InputMode::Normal,
            r.viewport_offset == 0,
            r.cached_flat_processes is None,
            r.expanded_pids@ == Map::<u32, bool>::empty(),
            !r.search_mode,
            r.refresh,
            r.input_buffer@.len() == 0,
            r.pending_kill_pid is None,
            r.errors@.len() == 0,
            r.last_click is None,
            r.memory_history@.len() == 0,
            r.network_history@ == Seq::new(HISTORY_LEN as nat, |i: int| (0u64, 0u64)),
            r.cpu_history@.len() == HISTORY_LEN,
            forall|i: int| 0 <= i < HISTORY_LEN ==> (#[trigger] r.cpu_history@[i])@.len() == 0,
            r.table_area == (Area { x: 0, y: 0, width: 0, height: 0 }),
            r.header_area == (Area { x: 0, y: 0, width: 0, height: 0 }),
    {
        let mut cpu_history: Vec<Vec<u32>> = Vec::new();
        let mut network_history: Vec<(u64, u64)> = Vec::new();
        let mut i: usize = 0;
        while i < HISTORY_LEN
            invariant
                i <= HISTORY_LEN,
                network_history@ == Seq::new(i as nat, |k: int| (0u64, 0u64)),
                cpu_history@.len() == i,
                forall|k: int| 0 <= k < i ==> (#[trigger] cpu_history@[k])@.len() == 0,
            decreases HISTORY_LEN - i,
        {
            cpu_history.push(Vec::new());
            network_history.push((0, 0));
            i = i + 1;
            assert(network_history@ =~= Seq::new(i as nat, |k: int| (0u64, 0u64)));
        }
        App {
            page: Page::Processes,
            sort_column: preferences.sort_column,
            reverse_sort: preferences.reverse_sort,
            selected: None,
            processes: Vec::new(),
            bootstrap_pids: vec![1, 2],
            expanded_pids: HashMap::new(),
            search_mode: false,
            filter: FilterCriteria::none(),
            viewport_offset: 0,
            table_area: Area { x: 0, y: 0, width: 0, height: 0 },
            header_area: Area { x: 0, y: 0, width: 0, height: 0 },
            cached_flat_processes: None,
            input_mode: InputMode::Normal,
            input_buffer: Vec::new(),
            pending_kill_pid: None,
            preferences,
            update_interval_ms: preferences.update_interval_ms,
            cpu_history,
            memory_history: Vec::new(),
            network_history,
            errors: Vec::new(),
            refresh: true,
            last_click: None,
        }
    }

    /// Replaces the forest with one built from a snapshot, forgets the expand flags of
    /// pids that are gone, clears the view cache, keeps the selected row number,
    /// clamped to the new list (none when the list is empty), and scrolls to show it.
    pub fn build_process_tree(&mut self, records: &Vec<ProcessInfo>)
        requires
            old(self).wf(),
        ensures
            final(self).wf(),
            rebuilt_from(*old(self), *final(self), records@),
            final(self).keeps_settings(&(App { viewport_offset: final(self).viewport_offset, ..*old(self) })),
    {
        let selected_line = self.selected;
        self.expanded_pids = prune_expanded(&self.expanded_pids, records);
        self.processes = build_forest(records, &self.bootstrap_pids, &self.expanded_pids, self.sort_column, self.reverse_sort);
        self.cached_flat_processes = None;
        let flat_len = self.flat_len();
        if flat_len > 0 {
            let s = match selected_line {
                None => 0,
                Some(i) => if i < flat_len { i } else { flat_len - 1 },
            };
            self.selected = Some(s);
            self.ensure_visible(s);
        } else {
            self.selected = None;
        }
    }

    /// A rebuild out of turn, from a snapshot taken just now.
    pub fn force_refresh(&mut self, records: &Vec<ProcessInfo>)
        requires
            old(self).wf(),
        ensures
            final(self).wf(),
            rebuilt_from(*old(self), *final(self), records@),
            final(self).keeps_settings(&(App { viewport_offset: final(self).viewport_offset, ..*old(self) })),
    {
        self.build_process_tree(records);
    }

    /// The periodic refresh: records the sample in the rolling histories, then rebuilds.
    pub fn refresh(&mut self, sample: &Sample)
        requires
            old(self).wf(),
        ensures
            final(self).wf(),
            final(self).memory_history@ == keep_last(old(self).memory_history@.push(sample.used_memory)),
            final(self).network_history@ == keep_last(old(self).network_history@.push(sample.network)),
            final(self).cpu_history@.len() == if old(self).cpu_history@.len() >= sample.cpu_usage@.len() {
                old(self).cpu_history@.len()
            } else {
                sample.cpu_usage@.len()
            },
            forall|i: int| 0 <= i < sample.cpu_usage@.len() ==> (#[trigger] final(self).cpu_history@[i])@ == keep_last(
                (if i < old(self).cpu_history@.len() { old(self).cpu_history@[i]@ } else { Seq::empty() }).push(sample.cpu_usage@[i])),
            rebuilt_from(*old(self), *final(self), sample.processes@),
            final(self).keeps_settings(&(App {
                viewport_offset: final(self).viewport_offset,
                cpu_history: final(self).cpu_history,
                memory_history: final(self).memory_history,
                network_history: final(self).network_history,
                ..*old(self)
            })),
    {
        let mut i: usize = 0;
        while i < sample.cpu_usage.len()
            invariant
                self.wf(),
                i <= sample.cpu_usage@.len(),
                *self == (App { cpu_history: self.cpu_history, ..*old(self) }),
                self.memory_history == old(self).memory_history,
                self.network_history == old(self).network_history,
                self.cpu_history@.len() == if old(self).cpu_history@.len() >= i { old(self).cpu_history@.len() } else { i as nat },
                forall|k: int| 0 <= k < i ==> (#[trigger] self.cpu_history@[k])@ == keep_last(
                    (if k < old(self).cpu_history@.len() { old(self).cpu_history@[k]@ } else { Seq::empty() }).push(sample.cpu_usage@[k])),
                forall|k: int| i <= k < self.cpu_history@.len() ==> #[trigger] self.cpu_history@[k] == old(self).cpu_history@[k],
            decreases sample.cpu_usage@.len() - i,
        {
            if i >= self.cpu_history.len() {
                self.cpu_history.push(Vec::new());
            }
            push_capped(&mut self.cpu_history[i], sample.cpu_usage[i]);
            i = i + 1;
        }
        push_capped(&mut self.memory_history, sample.used_memory);
        push_capped(&mut self.network_history, sample.network);
        self.build_process_tree(&sample.processes);
    }

    /// Removes every criterion and rebuilds from a snapshot taken just now.
    pub fn clear_filters(&mut self, records: &Vec<ProcessInfo>)
        requires
            old(self).wf(),
        ensures
            final(self).wf(),
            final(self).filter.is_empty(),
            rebuilt_from(*old(self), *final(self), records@),
            final(self).keeps_settings(&(App { viewport_offset: final(self).viewport_offset, filter: final(self).filter, ..*old(self) })),
    {
        self.filter = FilterCriteria::none();
        self.cached_flat_processes = None;
        self.force_refresh(records);
    }

    /// Sorts every list of siblings in `nodes` by the current column and direction.
    pub fn sort_processes(&self, nodes: &mut Vec<ProcessNode>)
        ensures
            sorted_tree(self.sort_column, self.reverse_sort, final(nodes)@),
            reordered(old(nodes)@, final(nodes)@),
    {
        sort_nodes(self.sort_column, self.reverse_sort, nodes);
    }

    /// Whether the node's process meets every criterion that is set.
    pub fn node_matches_filters(&self, node: &ProcessNode) -> (r: bool)
        ensures
            r == self.filter.accepts(node.info),
    {
        self.filter.accepts_info(&node.info)
    }

    /// Changes the sort order and rebuilds from a snapshot taken just now.
    pub fn set_sort(&mut self, col: SortColumn, reverse: bool, records: &Vec<ProcessInfo>)
        requires
            old(self).wf(),
        ensures
            final(self).wf(),
            final(self).sort_column == col,
            final(self).reverse_sort == reverse,
            final(self).preferences.sort_column == col,
            final(self).preferences.reverse_sort == reverse,
            rebuilt_from(*old(self), *final(self), records@),
            final(self).keeps_settings(&(App {
                viewport_offset: final(self).viewport_offset,
                sort_column: col,
                reverse_sort: reverse,
                preferences: Preferences { sort_column: col, reverse_sort: reverse, ..old(self).preferences },
                ..*old(self)
            })),
    {
        self.sort_column = col;
        self.reverse_sort = reverse;
        self.preferences.sort_column = col;
        self.preferences.reverse_sort = reverse;
        self.build_process_tree(records);
    }
}

} // verus!
