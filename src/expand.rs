use vstd::prelude::*;

use crate::model::{descendant, node_at, ProcessNode};
use crate::state::App;

verus! {

broadcast use vstd::std_specs::hash::group_hash_axioms;

/// `b` is `a` with the expand flag of the node at `rel` (below `a`) flipped.
pub open spec fn toggled_at(a: ProcessNode, b: ProcessNode, rel: Seq<usize>) -> bool
    decreases rel.len(),
{
    if rel.len() == 0 {
        b.info == a.info && b.children == a.children && b.expanded == !a.expanded
    } else {
        &&& b.info == a.info
        &&& b.expanded == a.expanded
        &&& b.children@.len() == a.children@.len()
        &&& rel[0] < a.children@.len()
        &&& forall|j: int| 0 <= j < a.children@.len() && j != rel[0] ==> #[trigger] b.children@[j] == a.children@[j]
        &&& toggled_at(a.children@[rel[0] as int], b.children@[rel[0] as int], rel.drop_first())
    }
}

/// `b` is the forest `a` with the expand flag of the node at `path` flipped.
pub open spec fn toggled_in_forest(a: Seq<ProcessNode>, b: Seq<ProcessNode>, path: Seq<usize>) -> bool {
    &&& path.len() > 0
    &&& path[0] < a.len()
    &&& b.len() == a.len()
    &&& forall|j: int| 0 <= j < a.len() && j != path[0] ==> #[trigger] b[j] == a[j]
    &&& toggled_at(a[path[0] as int], b[path[0] as int], path.drop_first())
}

proof fn lemma_descendant_step(n: ProcessNode, path: Seq<usize>, k: int)
    requires
        0 <= k < path.len(),
    ensures
        descendant(n, path.subrange(k, path.len() as int)) == if path[k] < n.children@.len() {
            descendant(n.children@[path[k] as int], path.subrange(k + 1, path.len() as int))
        } else {
            None
        },
{
    assert(path.subrange(k, path.len() as int).drop_first() =~= path.subrange(k + 1, path.len() as int));
}

/// Flips the expand flag of the node at `path[pos..]` below `node`, returning its pid
/// and new flag.
fn toggle_in(node: &mut ProcessNode, path: &Vec<usize>, pos: usize) -> (r: (u32, bool))
    requires
        pos <= path@.len(),
        descendant(*old(node), path@.subrange(pos as int, path@.len() as int)) is Some,
    ensures
        toggled_at(*old(node), *final(node), path@.subrange(pos as int, path@.len() as int)),
        r.0 == descendant(*old(node), path@.subrange(pos as int, path@.len() as int))->0.info.pid,
        r.1 == !descendant(*old(node), path@.subrange(pos as int, path@.len() as int))->0.expanded,
    decreases path@.len() - pos,
{
    if pos == path.len() {
        assert(path@.subrange(pos as int, path@.len() as int) =~= Seq::<usize>::empty());
        node.expanded = !node.expanded;
        (node.info.pid, node.expanded)
    } else {
        proof {
            lemma_descendant_step(*node, path@, pos as int);
            assert(path@.subrange(pos as int, path@.len() as int).drop_first() =~= path@.subrange(pos + 1, path@.len() as int));
        }
        let i = path[pos];
        let r = toggle_in(&mut node.children[i], path, pos + 1);
        r
    }
}

/// What toggling the selected row does (see `toggle_expand`).
pub open spec fn toggle_step(o: App, n: App) -> bool {
    ({
        let target = match (o.selected, o.cached_flat_processes) {
            (Some(s), Some(c)) => if s < c@.len() { node_at(o.processes@, c@[s as int].path@) } else { None },
            _ => None,
        };
        if target is Some && target->0.children@.len() > 0 {
            let t = target->0;
            let path = o.cached_flat_processes->0@[o.selected->0 as int].path@;
            &&& toggled_in_forest(o.processes@, n.processes@, path)
            &&& n.expanded_pids@ == o.expanded_pids@.insert(t.info.pid, !t.expanded)
            &&& n.cached_flat_processes is None
            &&& n.selected == o.selected
            &&& n.keeps_settings(&o)
        } else {
            n == o
        }
    })
}

impl App {
    /// The node shown at a row of the cached view (`None` when nothing is cached, the
    /// row does not exist, or its path leads nowhere).
    pub fn get_process_at_flat_index(&self, flat_idx: usize) -> (r: Option<&ProcessNode>)
        ensures
            match self.cached_flat_processes {
                None => r is None,
                Some(c) => if flat_idx < c@.len() {
                    &&& (r is Some <==> node_at(self.processes@, c@[flat_idx as int].path@) is Some)
                    &&& (r is Some ==> node_at(self.processes@, c@[flat_idx as int].path@) == Some(*r->0))
                } else {
                    r is None
                },
            },
    {
        let cached = match &self.cached_flat_processes {
            Some(c) => c,
            None => return None,
        };
        if flat_idx >= cached.len() {
            return None;
        }
        let path = &cached[flat_idx].path;
        if path.len() == 0 || path[0] >= self.processes.len() {
            return None;
        }
        let mut current = &self.processes[path[0]];
        let mut k: usize = 1;
        proof {
            assert(path@.drop_first() =~= path@.subrange(1, path@.len() as int));
        }
        while k < path.len()
            invariant
                self.cached_flat_processes is Some,
                flat_idx < self.cached_flat_processes->0@.len(),
                *path == self.cached_flat_processes->0@[flat_idx as int].path,
                1 <= k <= path@.len(),
                path@.len() > 0,
                path@[0] < self.processes@.len(),
                node_at(self.processes@, path@) == descendant(*current, path@.subrange(k as int, path@.len() as int)),
            decreases path@.len() - k,
        {
            proof {
                lemma_descendant_step(*current, path@, k as int);
            }
            let child_idx = path[k];
            if child_idx >= current.children.len() {
                return None;
            }
            current = &current.children[child_idx];
            k = k + 1;
        }
        assert(path@.subrange(k as int, path@.len() as int) =~= Seq::<usize>::empty());
        Some(current)
    }

    /// Flips the expand flag of the selected row's node, when it has children: the new
    /// flag is remembered by pid and the view cache is cleared. Otherwise (no
    /// selection, no such row, or no children) nothing changes, the cache included.
    pub fn toggle_expand(&mut self)
        requires
            old(self).wf(),
        ensures
            final(self).wf(),
            toggle_step(*old(self), *final(self)),
    {
        let selected = match self.selected {
            Some(s) => s,
            None => return,
        };
        let has_children = match self.get_process_at_flat_index(selected) {
            Some(n) => n.children.len() > 0,
            None => false,
        };
        if !has_children {
            return;
        }
        let path = match &self.cached_flat_processes {
            Some(c) => c[selected].path.clone(),
            None => return,
        };
        let ghost cpath = self.cached_flat_processes->0@[selected as int].path@;
        assert(path@ =~= cpath);
        let first = path[0];
        proof {
            assert(path@.drop_first() =~= path@.subrange(1, path@.len() as int));
        }
        let (pid, flag) = toggle_in(&mut self.processes[first], &path, 1);
        self.expanded_pids.insert(pid, flag);
        self.cached_flat_processes = None;
    }
}

} // verus!
