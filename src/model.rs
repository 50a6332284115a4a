use vstd::prelude::*;

verus! {

/// The column by which siblings are ordered.
#[derive(PartialEq, Eq, Structural, Clone, Copy, Debug)]
pub enum SortColumn {
    Pid,
    Name,
    Cpu,
    Memory,
}

/// One process of a snapshot. `cpu_usage` is in hundredths of a percent of the whole
/// machine (0 to 10000); `memory` is in bytes.
#[derive(Clone, Debug)]
pub struct ProcessInfo {
    pub pid: u32,
    pub parent: Option<u32>,
    pub name: String,
    pub cpu_usage: u32,
    pub memory: u64,
    pub user_id: Option<u32>,
    pub status: String,
}

impl ProcessInfo {
    /// A field-by-field copy.
    pub fn copied(&self) -> (r: ProcessInfo)
        ensures
            r == *self,
    {
        ProcessInfo {
            pid: self.pid,
            parent: self.parent,
            name: self.name.clone(),
            cpu_usage: self.cpu_usage,
            memory: self.memory,
            user_id: self.user_id,
            status: self.status.clone(),
        }
    }
}

/// A process together with the processes it started, in display order.
#[derive(Debug)]
pub struct ProcessNode {
    pub info: ProcessInfo,
    pub children: Vec<ProcessNode>,
    pub expanded: bool,
}

/// One visible line of the flattened view: its depth and the child indices that lead
/// to it from the list of roots (the first index picks the root).
#[derive(Clone, Debug)]
pub struct FlatRow {
    pub depth: usize,
    pub path: Vec<usize>,
}

impl View for FlatRow {
    type V = (nat, Seq<usize>);

    open spec fn view(&self) -> (nat, Seq<usize>) {
        (self.depth as nat, self.path@)
    }
}

/// The rows of a list of `FlatRow`s.
pub open spec fn rows_view(rows: Seq<FlatRow>) -> Seq<(nat, Seq<usize>)> {
    rows.map_values(|r: FlatRow| r@)
}

/// The node that `path` leads to below `n` (`path` empty: `n` itself).
pub open spec fn descendant(n: ProcessNode, path: Seq<usize>) -> Option<ProcessNode>
    decreases path.len(),
{
    if path.len() == 0 {
        Some(n)
    } else if path[0] < n.children@.len() {
        descendant(n.children@[path[0] as int], path.drop_first())
    } else {
        None
    }
}

/// The node that a row path leads to in a forest.
pub open spec fn node_at(roots: Seq<ProcessNode>, path: Seq<usize>) -> Option<ProcessNode> {
    if path.len() == 0 || path[0] >= roots.len() {
        None
    } else {
        descendant(roots[path[0] as int], path.drop_first())
    }
}

} // verus!
