use std::collections::HashMap;

use vstd::prelude::*;

use crate::model::{ProcessInfo, ProcessNode, SortColumn};
use crate::sorting::{reordered, sort_nodes, sorted_tree};

verus! {

broadcast use vstd::std_specs::hash::group_hash_axioms;

/// Bootstrap processes (on Linux init and the kernel-thread parent) are never shown
/// themselves; their children are shown as roots.
pub open spec fn is_hidden(hidden: Seq<u32>, pid: u32) -> bool {
    hidden.contains(pid)
}

/// Whether the pid is one of the bootstrap pids.
pub fn is_hidden_exec(hidden: &Vec<u32>, pid: u32) -> (r: bool)
    ensures
        r == is_hidden(hidden@, pid),
{
    let mut i: usize = 0;
    while i < hidden.len()
        invariant
            i <= hidden@.len(),
            forall|k: int| 0 <= k < i ==> hidden@[k] != pid,
        decreases hidden@.len() - i,
    {
        if hidden[i] == pid {
            return true;
        }
        i = i + 1;
    }
    false
}

/// Some record of the snapshot has this pid.
pub open spec fn present(records: Seq<ProcessInfo>, pid: u32) -> bool {
    exists|j: int| 0 <= j < records.len() && (#[trigger] records[j]).pid == pid
}

/// A record that is shown as a root: it has no parent in the snapshot, or its parent
/// is a bootstrap process.
pub open spec fn parentless(records: Seq<ProcessInfo>, hidden: Seq<u32>, info: ProcessInfo) -> bool {
    match info.parent {
        None => true,
        Some(p) => is_hidden(hidden, p) || !present(records, p),
    }
}

/// The remembered expand flag of a pid; unknown pids are collapsed.
pub open spec fn expanded_flag(m: Map<u32, bool>, pid: u32) -> bool {
    if m.contains_key(pid) { m[pid] } else { false }
}

/// Every node below `n` (and `n` itself) holds a record of the snapshot that is not a
/// bootstrap process, with its remembered expand flag, and every child names its
/// parent's pid as its parent.
pub open spec fn node_ok(records: Seq<ProcessInfo>, hidden: Seq<u32>, m: Map<u32, bool>, n: ProcessNode) -> bool
    decreases n,
{
    &&& records.contains(n.info)
    &&& !is_hidden(hidden, n.info.pid)
    &&& n.expanded == expanded_flag(m, n.info.pid)
    &&& forall|i: int| 0 <= i < n.children@.len() ==> {
        &&& (#[trigger] n.children@[i]).info.parent == Some(n.info.pid)
        &&& node_ok(records, hidden, m, n.children@[i])
    }
}

/// How many records are not placed yet.
pub open spec fn unplaced(s: Seq<bool>) -> nat
    decreases s.len(),
{
    if s.len() == 0 { 0 } else { unplaced(s.drop_last()) + if s.last() { 0nat } else { 1nat } }
}

/// Placing more records never adds unplaced ones, and placing a new one removes one.
proof fn lemma_unplaced_mono(a: Seq<bool>, b: Seq<bool>, w: int)
    requires
        a.len() == b.len(),
        forall|i: int| 0 <= i < a.len() && a[i] ==> b[i],
    ensures
        unplaced(b) <= unplaced(a),
        0 <= w < a.len() && !a[w] && b[w] ==> unplaced(b) < unplaced(a),
    decreases a.len(),
{
    if a.len() > 0 {
        lemma_unplaced_mono(a.drop_last(), b.drop_last(), w);
    }
}

/// Every record that is not a bootstrap process and names record `q`'s pid as its
/// parent is placed.
pub open spec fn closed_at(records: Seq<ProcessInfo>, hidden: Seq<u32>, placed: Seq<bool>, q: int) -> bool {
    forall|k: int| 0 <= k < records.len() && !is_hidden(hidden, records[k].pid)
        && records[k].parent == Some(records[q].pid) ==> #[trigger] placed[k]
}

/// Following parent links from record `k` (none of them a bootstrap process) reaches,
/// within `fuel` steps, a record without a shown parent.
pub open spec fn reaches_top(records: Seq<ProcessInfo>, hidden: Seq<u32>, k: int, fuel: nat) -> bool
    decreases fuel,
{
    &&& 0 <= k < records.len()
    &&& !is_hidden(hidden, records[k].pid)
    &&& (parentless(records, hidden, records[k]) || (fuel > 0 && exists|j: int| 0 <= j < records.len()
        && Some(#[trigger] records[j].pid) == records[k].parent && reaches_top(records, hidden, j, (fuel - 1) as nat)))
}

/// A process shown as a root must be: it has no shown parent, or it is a record whose
/// chain of parent links never reaches one without (the chain loops).
pub open spec fn root_due(records: Seq<ProcessInfo>, hidden: Seq<u32>, info: ProcessInfo) -> bool {
    parentless(records, hidden, info) || exists|j: int| 0 <= j < records.len() && records[j] == info
        && forall|fuel: nat| !#[trigger] reaches_top(records, hidden, j, fuel)
}

/// When every placed record has all its children-to-be placed, and every record without
/// a shown parent is placed, then every record whose parent chain reaches one is placed.
proof fn lemma_reach_placed(records: Seq<ProcessInfo>, hidden: Seq<u32>, placed: Seq<bool>, k: int, fuel: nat)
    requires
        placed.len() == records.len(),
        forall|q: int| 0 <= q < records.len() && placed[q] ==> #[trigger] closed_at(records, hidden, placed, q),
        forall|q: int| 0 <= q < records.len() && !is_hidden(hidden, records[q].pid)
            && parentless(records, hidden, records[q]) ==> #[trigger] placed[q],
        reaches_top(records, hidden, k, fuel),
    ensures
        placed[k],
    decreases fuel,
{
    if !parentless(records, hidden, records[k]) {
        let j = choose|j: int| 0 <= j < records.len() && Some(#[trigger] records[j].pid) == records[k].parent
            && reaches_top(records, hidden, j, (fuel - 1) as nat);
        lemma_reach_placed(records, hidden, placed, j, (fuel - 1) as nat);
        assert(closed_at(records, hidden, placed, j));
    }
}

/// Record `j` becomes a child of record `idx`: it is not placed yet, is not a bootstrap
/// process, and names `idx`'s pid as its parent.
pub open spec fn is_pick(records: Seq<ProcessInfo>, hidden: Seq<u32>, placed: Seq<bool>, idx: int, j: int) -> bool {
    &&& 0 <= j < records.len()
    &&& j != idx
    &&& !placed[j]
    &&& records[j].parent == Some(records[idx].pid)
    &&& !is_hidden(hidden, records[j].pid)
}

/// `s` lists, in snapshot order, exactly the records that become children of `idx`.
pub open spec fn picked_children(records: Seq<ProcessInfo>, hidden: Seq<u32>, placed: Seq<bool>, idx: int, s: Seq<usize>) -> bool {
    &&& forall|a: int, b: int| 0 <= a < b < s.len() ==> s[a] < s[b]
    &&& forall|t: int| 0 <= t < s.len() ==> is_pick(records, hidden, placed, idx, #[trigger] s[t] as int)
    &&& forall|j: int| is_pick(records, hidden, placed, idx, j) ==> s.contains(j as usize)
}

/// The process is held by `n` or by a node below it.
pub open spec fn in_tree(n: ProcessNode, info: ProcessInfo) -> bool
    decreases n,
{
    n.info == info || exists|i: int| 0 <= i < n.children@.len() && in_tree(#[trigger] n.children@[i], info)
}

/// The process is held by some node of the forest.
pub open spec fn in_forest(s: Seq<ProcessNode>, info: ProcessInfo) -> bool {
    exists|i: int| 0 <= i < s.len() && in_tree(#[trigger] s[i], info)
}

/// A record without a shown parent in the snapshot is never a child in a well-built
/// tree: if the tree holds it, it is the top node.
pub proof fn lemma_parentless_on_top(records: Seq<ProcessInfo>, hidden: Seq<u32>, m: Map<u32, bool>, n: ProcessNode, x: ProcessInfo)
    requires
        node_ok(records, hidden, m, n),
        in_tree(n, x),
        parentless(records, hidden, x),
    ensures
        n.info == x,
    decreases n,
{
    if n.info != x {
        let c = choose|i: int| 0 <= i < n.children@.len() && in_tree(#[trigger] n.children@[i], x);
        lemma_parentless_on_top(records, hidden, m, n.children@[c], x);
        let w = choose|w: int| 0 <= w < records.len() && records[w] == n.info;
        assert(records[w].pid == n.info.pid);
    }
}

/// Reordering siblings keeps every process in the tree.
pub proof fn lemma_reordered_in_tree(a: ProcessNode, b: ProcessNode, x: ProcessInfo)
    requires
        in_tree(a, x),
        a.info == b.info,
        reordered(a.children@, b.children@),
    ensures
        in_tree(b, x),
    decreases a,
{
    if a.info != x {
        let j = choose|j: int| 0 <= j < a.children@.len() && in_tree(#[trigger] a.children@[j], x);
        let i = choose|i: int| 0 <= i < b.children@.len() && #[trigger] a.children@[j].info == #[trigger] b.children@[i].info
            && a.children@[j].expanded == b.children@[i].expanded && reordered(a.children@[j].children@, b.children@[i].children@);
        lemma_reordered_in_tree(a.children@[j], b.children@[i], x);
    }
}

/// The expand flag to use for a pid.
fn lookup_expanded(m: &HashMap<u32, bool>, pid: u32) -> (r: bool)
    ensures
        r == expanded_flag(m@, pid),
{
    match m.get(&pid) {
        Some(v) => *v,
        None => false,
    }
}

/// Whether some record has the pid.
pub fn is_present(records: &Vec<ProcessInfo>, pid: u32) -> (r: bool)
    ensures
        r == present(records@, pid),
{
    let mut j: usize = 0;
    while j < records.len()
        invariant
            j <= records@.len(),
            forall|k: int| 0 <= k < j ==> (#[trigger] records@[k]).pid != pid,
        decreases records@.len() - j,
    {
        if records[j].pid == pid {
            return true;
        }
        j = j + 1;
    }
    false
}

/// Builds the node of `records[idx]`. Its children are, in snapshot order, the records
/// that name it as parent, are not bootstrap processes and are not placed yet (see
/// `picked_children`); they are marked in `placed` before any of them is built, so no
/// record is built twice and a record that would close a loop is left for the caller.
/// Every record built during the call ends with all its children-to-be placed
/// (`closed_at`).
pub fn build_node(
    records: &Vec<ProcessInfo>,
    hidden: &Vec<u32>,
    idx: usize,
    expanded_pids: &HashMap<u32, bool>,
    placed: &mut Vec<bool>,
) -> (r: ProcessNode)
    requires
        idx < records@.len(),
        old(placed)@.len() == records@.len(),
        !is_hidden(hidden@, records@[idx as int].pid),
    ensures
        r.info == records@[idx as int],
        node_ok(records@, hidden@, expanded_pids@, r),
        final(placed)@.len() == records@.len(),
        final(placed)@[idx as int],
        forall|k: int| 0 <= k < records@.len() && old(placed)@[k] ==> final(placed)@[k],
        forall|k: int| 0 <= k < records@.len() && !old(placed)@[k] && final(placed)@[k] ==> in_tree(r, #[trigger] records@[k]),
        exists|s: Seq<usize>| picked_children(records@, hidden@, old(placed)@, idx as int, s)
            && s.len() == r.children@.len()
            && forall|t: int| 0 <= t < s.len() ==> (#[trigger] r.children@[t]).info == records@[s[t] as int],
        forall|q: int| 0 <= q < records@.len() && (q == idx || (!old(placed)@[q] && final(placed)@[q]))
            ==> #[trigger] closed_at(records@, hidden@, final(placed)@, q),
    decreases unplaced(old(placed)@),
{
    let info = records[idx].copied();
    let pid = info.pid;
    placed.set(idx, true);
    let mut kids: Vec<usize> = Vec::new();
    {
        let mut j: usize = 0;
        while j < records.len()
            invariant
                idx < records@.len(),
                pid == records@[idx as int].pid,
                old(placed)@.len() == records@.len(),
                j <= records@.len(),
                placed@.len() == records@.len(),
                forall|q: int| 0 <= q < records@.len() ==> #[trigger] placed@[q] == (old(placed)@[q] || q == idx || kids@.contains(q as usize)),
                forall|a: int, b: int| 0 <= a < b < kids@.len() ==> kids@[a] < kids@[b],
                forall|t: int| 0 <= t < kids@.len() ==> kids@[t] < j && is_pick(records@, hidden@, old(placed)@, idx as int, #[trigger] kids@[t] as int),
                forall|q: int| 0 <= q < j && is_pick(records@, hidden@, old(placed)@, idx as int, q) ==> kids@.contains(q as usize),
            decreases records@.len() - j,
        {
            if j != idx && !placed[j] && records[j].parent == Some(pid) && !is_hidden_exec(hidden, records[j].pid) {
                let ghost before = kids@;
                placed.set(j, true);
                kids.push(j);
                proof {
                    assert forall|q: int| 0 <= q < records@.len() implies #[trigger] placed@[q] == (old(placed)@[q] || q == idx || kids@.contains(q as usize)) by {
                        if before.contains(q as usize) {
                            let w = choose|w: int| 0 <= w < before.len() && before[w] == q as usize;
                            assert(kids@[w] == q as usize);
                        }
                        if q == j {
                            assert(kids@[kids@.len() - 1] == j);
                        } else if kids@.contains(q as usize) {
                            let w = choose|w: int| 0 <= w < kids@.len() && kids@[w] == q as usize;
                            assert(w < before.len());
                            assert(before[w] == q as usize);
                        }
                    }
                    assert forall|q: int| 0 <= q < j + 1 && is_pick(records@, hidden@, old(placed)@, idx as int, q) implies kids@.contains(q as usize) by {
                        if q < j {
                            let w = choose|w: int| 0 <= w < before.len() && before[w] == q as usize;
                            assert(kids@[w] == q as usize);
                        } else {
                            assert(kids@[kids@.len() - 1] == j);
                        }
                    }
                }
            } else {
                proof {
                    assert forall|q: int| 0 <= q < j + 1 && is_pick(records@, hidden@, old(placed)@, idx as int, q) implies kids@.contains(q as usize) by {
                        if q == j {
                            assert(placed@[q] == (old(placed)@[q] || q == idx || kids@.contains(q as usize)));
                        }
                    }
                }
            }
            j = j + 1;
        }
    }
    let ghost placed_after_pick = placed@;
    proof {
        assert(closed_at(records@, hidden@, placed@, idx as int)) by {
            assert forall|k: int| 0 <= k < records@.len() && !is_hidden(hidden@, records@[k].pid)
                && records@[k].parent == Some(records@[idx as int].pid) implies #[trigger] placed@[k] by {
                if !old(placed)@[k] && k != idx {
                    assert(is_pick(records@, hidden@, old(placed)@, idx as int, k));
                    assert(kids@.contains(k as usize));
                }
            }
        }
    }
    let mut children: Vec<ProcessNode> = Vec::new();
    let mut i: usize = 0;
    while i < kids.len()
        invariant
            idx < records@.len(),
            pid == records@[idx as int].pid,
            info == records@[idx as int],
            old(placed)@.len() == records@.len(),
            placed@.len() == records@.len(),
            placed_after_pick.len() == records@.len(),
            i <= kids@.len(),
            children@.len() == i,
            placed@[idx as int],
            forall|t: int| 0 <= t < kids@.len() ==> is_pick(records@, hidden@, old(placed)@, idx as int, #[trigger] kids@[t] as int),
            forall|q: int| 0 <= q < records@.len() && placed_after_pick[q] ==> placed@[q],
            forall|q: int| 0 <= q < records@.len() && old(placed)@[q] ==> placed_after_pick[q],
            forall|q: int| 0 <= q < records@.len() ==> #[trigger] placed_after_pick[q] == (old(placed)@[q] || q == idx || kids@.contains(q as usize)),
            forall|t: int| 0 <= t < i ==> (#[trigger] children@[t]).info == records@[kids@[t] as int],
            forall|t: int| 0 <= t < children@.len() ==> {
                &&& (#[trigger] children@[t]).info.parent == Some(pid)
                &&& node_ok(records@, hidden@, expanded_pids@, children@[t])
            },
            forall|k: int| 0 <= k < records@.len() && !placed_after_pick[k] && placed@[k]
                ==> exists|t: int| 0 <= t < children@.len() && in_tree(#[trigger] children@[t], records@[k]),
            forall|q: int| 0 <= q < records@.len() && (q == idx || (exists|t: int| 0 <= t < i && kids@[t] as int == q)
                || (!placed_after_pick[q] && placed@[q])) ==> #[trigger] closed_at(records@, hidden@, placed@, q),
        decreases kids@.len() - i,
    {
        let ghost before_placed = placed@;
        let ghost before_children = children@;
        proof {
            assert(placed_after_pick[kids@[0] as int]);
            assert(!old(placed)@[kids@[0] as int]);
            lemma_unplaced_mono(old(placed)@, placed_after_pick, kids@[0] as int);
            lemma_unplaced_mono(placed_after_pick, placed@, -1);
        }
        let child = build_node(records, hidden, kids[i], expanded_pids, placed);
        children.push(child);
        proof {
            assert forall|k: int| 0 <= k < records@.len() && !placed_after_pick[k] && placed@[k]
                implies exists|t: int| 0 <= t < children@.len() && in_tree(#[trigger] children@[t], records@[k]) by {
                if before_placed[k] {
                    let t = choose|t: int| 0 <= t < before_children.len() && in_tree(#[trigger] before_children[t], records@[k]);
                    assert(children@[t] == before_children[t]);
                } else {
                    assert(children@[i as int] == child);
                }
            }
            assert forall|q: int| 0 <= q < records@.len() && (q == idx || (exists|t: int| 0 <= t < i + 1 && kids@[t] as int == q)
                || (!placed_after_pick[q] && placed@[q])) implies #[trigger] closed_at(records@, hidden@, placed@, q) by {
                if q == kids@[i as int] as int {
                } else if !before_placed[q] && placed@[q] {
                } else {
                    if q != idx && !(!placed_after_pick[q] && before_placed[q]) {
                        let t = choose|t: int| 0 <= t < i + 1 && kids@[t] as int == q;
                        assert(t < i);
                        assert(exists|t: int| 0 <= t < i && kids@[t] as int == q);
                    }
                    assert(closed_at(records@, hidden@, before_placed, q));
                    assert forall|k: int| 0 <= k < records@.len() && !is_hidden(hidden@, records@[k].pid)
                        && records@[k].parent == Some(records@[q].pid) implies #[trigger] placed@[k] by {
                        assert(before_placed[k]);
                    }
                }
            }
        }
        i = i + 1;
    }
    let expanded = lookup_expanded(expanded_pids, pid);
    let node = ProcessNode { info, children, expanded };
    proof {
        assert(node.children@ == children@);
        assert forall|k: int| 0 <= k < records@.len() && old(placed)@[k] implies placed@[k] by {
            assert(placed_after_pick[k]);
        }
        assert forall|k: int| 0 <= k < records@.len() && !old(placed)@[k] && placed@[k] implies in_tree(node, #[trigger] records@[k]) by {
            if k != idx {
                if placed_after_pick[k] {
                    assert(kids@.contains(k as usize));
                    let t = choose|t: int| 0 <= t < kids@.len() && kids@[t] == k as usize;
                    assert(children@[t].info == records@[k]);
                    assert(in_tree(children@[t], records@[k]));
                } else {
                    let t = choose|t: int| 0 <= t < children@.len() && in_tree(#[trigger] children@[t], records@[k]);
                }
            }
        }
        assert(picked_children(records@, hidden@, old(placed)@, idx as int, kids@));
        assert forall|q: int| 0 <= q < records@.len() && (q == idx || (!old(placed)@[q] && placed@[q]))
            implies #[trigger] closed_at(records@, hidden@, placed@, q) by {
            if q != idx && placed_after_pick[q] {
                assert(kids@.contains(q as usize));
                let t = choose|t: int| 0 <= t < kids@.len() && kids@[t] == q as usize;
                assert(kids@[t] as int == q);
            }
        }
    }
    node
}

/// The unsorted forest of a snapshot: first, in snapshot order, the roots (records
/// that are not hidden and have no parent in the snapshot or a hidden one), then, as
/// roots too, any record left over that is not hidden (records whose parent chain
/// loops back on itself).
fn place_roots(
    records: &Vec<ProcessInfo>,
    hidden: &Vec<u32>,
    expanded_pids: &HashMap<u32, bool>,
) -> (r: Vec<ProcessNode>)
    ensures
        forall|i: int| 0 <= i < r@.len() ==> node_ok(records@, hidden@, expanded_pids@, #[trigger] r@[i]),
        forall|i: int| 0 <= i < r@.len() ==> !is_hidden(hidden@, (#[trigger] r@[i]).info.pid),
        forall|k: int| 0 <= k < records@.len() && !is_hidden(hidden@, records@[k].pid) ==> in_forest(r@, #[trigger] records@[k]),
        forall|i: int| 0 <= i < r@.len() ==> root_due(records@, hidden@, (#[trigger] r@[i]).info),
{
    let n = records.len();
    let mut placed: Vec<bool> = Vec::new();
    let mut k: usize = 0;
    while k < n
        invariant
            n == records@.len(),
            k <= n,
            placed@.len() == k,
            forall|q: int| 0 <= q < k ==> !placed@[q],
        decreases n - k,
    {
        placed.push(false);
        k = k + 1;
    }
    let mut roots: Vec<ProcessNode> = Vec::new();
    let mut pass: usize = 0;
    while pass < 2
        invariant
            n == records@.len(),
            pass <= 2,
            placed@.len() == n,
            forall|q: int| 0 <= q < n && placed@[q] ==> in_forest(roots@, #[trigger] records@[q]),
            pass == 2 ==> forall|q: int| 0 <= q < n && !is_hidden(hidden@, records@[q].pid) ==> #[trigger] placed@[q],
            forall|q: int| 0 <= q < n && placed@[q] ==> #[trigger] closed_at(records@, hidden@, placed@, q),
            pass == 1 ==> forall|k: int, fuel: nat| 0 <= k < n && !placed@[k] ==> !#[trigger] reaches_top(records@, hidden@, k, fuel),
            forall|i: int| 0 <= i < roots@.len() ==> root_due(records@, hidden@, (#[trigger] roots@[i]).info),
            forall|i: int| 0 <= i < roots@.len() ==> node_ok(records@, hidden@, expanded_pids@, #[trigger] roots@[i]),
            forall|i: int| 0 <= i < roots@.len() ==> !is_hidden(hidden@, (#[trigger] roots@[i]).info.pid),
        decreases 2 - pass,
    {
        let mut j: usize = 0;
        while j < n
            invariant
                n == records@.len(),
                pass < 2,
                j <= n,
                placed@.len() == n,
                forall|q: int| 0 <= q < n && placed@[q] ==> in_forest(roots@, #[trigger] records@[q]),
                pass == 1 ==> forall|q: int| 0 <= q < j && !is_hidden(hidden@, records@[q].pid) ==> #[trigger] placed@[q],
                forall|q: int| 0 <= q < n && placed@[q] ==> #[trigger] closed_at(records@, hidden@, placed@, q),
                pass == 1 ==> forall|k: int, fuel: nat| 0 <= k < n && !placed@[k] ==> !#[trigger] reaches_top(records@, hidden@, k, fuel),
                pass == 0 ==> forall|q: int| 0 <= q < j && !is_hidden(hidden@, records@[q].pid)
                    && parentless(records@, hidden@, records@[q]) ==> #[trigger] placed@[q],
                forall|i: int| 0 <= i < roots@.len() ==> root_due(records@, hidden@, (#[trigger] roots@[i]).info),
                forall|i: int| 0 <= i < roots@.len() ==> node_ok(records@, hidden@, expanded_pids@, #[trigger] roots@[i]),
                forall|i: int| 0 <= i < roots@.len() ==> !is_hidden(hidden@, (#[trigger] roots@[i]).info.pid),
            decreases n - j,
        {
            let pid = records[j].pid;
            if !placed[j] && !is_hidden_exec(hidden, pid) {
                let take = if pass == 1 {
                    true
                } else {
                    match records[j].parent {
                        None => true,
                        Some(p) => is_hidden_exec(hidden, p) || !is_present(records, p),
                    }
                };
                if take {
                    let ghost before_placed = placed@;
                    let ghost before_roots = roots@;
                    let node = build_node(records, hidden, j, expanded_pids, &mut placed);
                    roots.push(node);
                    proof {
                        if pass == 1 {
                            assert forall|fuel: nat| !#[trigger] reaches_top(records@, hidden@, j as int, fuel) by {
                                assert(!before_placed[j as int]);
                            }
                            assert(root_due(records@, hidden@, node.info));
                        } else {
                            assert(parentless(records@, hidden@, records@[j as int]));
                        }
                        assert forall|i: int| 0 <= i < roots@.len() implies root_due(records@, hidden@, (#[trigger] roots@[i]).info) by {
                            if i < roots@.len() - 1 {
                                assert(roots@[i] == before_roots[i]);
                            }
                        }
                        assert forall|q: int| 0 <= q < n && placed@[q] implies #[trigger] closed_at(records@, hidden@, placed@, q) by {
                            if before_placed[q] {
                                assert(closed_at(records@, hidden@, before_placed, q));
                                assert forall|k: int| 0 <= k < records@.len() && !is_hidden(hidden@, records@[k].pid)
                                    && records@[k].parent == Some(records@[q].pid) implies #[trigger] placed@[k] by {
                                    assert(before_placed[k]);
                                }
                            }
                        }
                        assert forall|q: int| 0 <= q < n && placed@[q] implies in_forest(roots@, #[trigger] records@[q]) by {
                            if before_placed[q] {
                                let i = choose|i: int| 0 <= i < before_roots.len() && in_tree(#[trigger] before_roots[i], records@[q]);
                                assert(roots@[i] == before_roots[i]);
                            } else {
                                assert(roots@[roots@.len() - 1] == node);
                            }
                        }
                    }
                }
            }
            j = j + 1;
        }
        proof {
            if pass == 0 {
                assert forall|k: int, fuel: nat| 0 <= k < n && !placed@[k] implies !#[trigger] reaches_top(records@, hidden@, k, fuel) by {
                    if reaches_top(records@, hidden@, k, fuel) {
                        lemma_reach_placed(records@, hidden@, placed@, k, fuel);
                    }
                }
            }
        }
        pass = pass + 1;
    }
    proof {
        assert forall|k: int| 0 <= k < records@.len() && !is_hidden(hidden@, records@[k].pid) implies in_forest(roots@, #[trigger] records@[k]) by {
            assert(placed@[k]);
        }
    }
    roots
}

/// What a well-built forest promises survives reordering its siblings.
proof fn lemma_reordered_forest(records: Seq<ProcessInfo>, hidden: Seq<u32>, m: Map<u32, bool>, before: Seq<ProcessNode>, after: Seq<ProcessNode>)
    requires
        reordered(before, after),
        forall|i: int| 0 <= i < before.len() ==> node_ok(records, hidden, m, #[trigger] before[i]),
        forall|i: int| 0 <= i < before.len() ==> !is_hidden(hidden, (#[trigger] before[i]).info.pid),
        forall|k: int| 0 <= k < records.len() && !is_hidden(hidden, records[k].pid) ==> in_forest(before, #[trigger] records[k]),
        forall|i: int| 0 <= i < before.len() ==> root_due(records, hidden, (#[trigger] before[i]).info),
    ensures
        forall|i: int| 0 <= i < after.len() ==> root_due(records, hidden, (#[trigger] after[i]).info),
        forall|i: int| 0 <= i < after.len() ==> node_ok(records, hidden, m, #[trigger] after[i]),
        forall|i: int| 0 <= i < after.len() ==> !is_hidden(hidden, (#[trigger] after[i]).info.pid),
        forall|k: int| 0 <= k < records.len() && !is_hidden(hidden, records[k].pid) ==> in_forest(after, #[trigger] records[k]),
        forall|k: int| 0 <= k < records.len() && !is_hidden(hidden, records[k].pid) && parentless(records, hidden, records[k])
            ==> exists|i: int| 0 <= i < after.len() && (#[trigger] after[i]).info == #[trigger] records[k],
{
    assert forall|i: int| 0 <= i < after.len() implies node_ok(records, hidden, m, #[trigger] after[i])
        && !is_hidden(hidden, after[i].info.pid) by {
        let j = choose|j: int| 0 <= j < before.len() && #[trigger] before[j].info == #[trigger] after[i].info
            && before[j].expanded == after[i].expanded && reordered(before[j].children@, after[i].children@);
        lemma_reordered_node_ok(records, hidden, m, before[j], after[i]);
        assert(root_due(records, hidden, before[j].info));
    }
    assert forall|k: int| 0 <= k < records.len() && !is_hidden(hidden, records[k].pid) implies in_forest(after, #[trigger] records[k]) by {
        assert(in_forest(before, records[k]));
        let j = choose|j: int| 0 <= j < before.len() && in_tree(#[trigger] before[j], records[k]);
        let i = choose|i: int| 0 <= i < after.len() && #[trigger] before[j].info == #[trigger] after[i].info
            && before[j].expanded == after[i].expanded && reordered(before[j].children@, after[i].children@);
        lemma_reordered_in_tree(before[j], after[i], records[k]);
    }
    assert forall|k: int| 0 <= k < records.len() && !is_hidden(hidden, records[k].pid) && parentless(records, hidden, records[k])
        implies exists|i: int| 0 <= i < after.len() && (#[trigger] after[i]).info == #[trigger] records[k] by {
        assert(in_forest(after, records[k]));
        let i = choose|i: int| 0 <= i < after.len() && in_tree(#[trigger] after[i], records[k]);
        lemma_parentless_on_top(records, hidden, m, after[i], records[k]);
    }
}

/// Builds the forest of a snapshot (see `place_roots`) and sorts every list of
/// siblings.
pub fn build_forest(
    records: &Vec<ProcessInfo>,
    hidden: &Vec<u32>,
    expanded_pids: &HashMap<u32, bool>,
    col: SortColumn,
    reverse: bool,
) -> (r: Vec<ProcessNode>)
    ensures
        sorted_tree(col, reverse, r@),
        forall|i: int| 0 <= i < r@.len() ==> node_ok(records@, hidden@, expanded_pids@, #[trigger] r@[i]),
        forall|i: int| 0 <= i < r@.len() ==> !is_hidden(hidden@, (#[trigger] r@[i]).info.pid),
        forall|k: int| 0 <= k < records@.len() && !is_hidden(hidden@, records@[k].pid) ==> in_forest(r@, #[trigger] records@[k]),
        forall|k: int| 0 <= k < records@.len() && !is_hidden(hidden@, records@[k].pid) && parentless(records@, hidden@, records@[k])
            ==> exists|i: int| 0 <= i < r@.len() && (#[trigger] r@[i]).info == #[trigger] records@[k],
        forall|i: int| 0 <= i < r@.len() ==> root_due(records@, hidden@, (#[trigger] r@[i]).info),
{
    let mut roots = place_roots(records, hidden, expanded_pids);
    let ghost before = roots@;
    sort_nodes(col, reverse, &mut roots);
    proof {
        lemma_reordered_forest(records@, hidden@, expanded_pids@, before, roots@);
    }
    roots
}

/// Reordering siblings keeps every node's record, flag and parent link.
pub proof fn lemma_reordered_node_ok(records: Seq<ProcessInfo>, hidden: Seq<u32>, m: Map<u32, bool>, a: ProcessNode, b: ProcessNode)
    requires
        node_ok(records, hidden, m, a),
        a.info == b.info,
        a.expanded == b.expanded,
        reordered(a.children@, b.children@),
    ensures
        node_ok(records, hidden, m, b),
    decreases a,
{
    assert forall|i: int| 0 <= i < b.children@.len() implies {
        &&& (#[trigger] b.children@[i]).info.parent == Some(b.info.pid)
        &&& node_ok(records, hidden, m, b.children@[i])
    } by {
        let j = choose|j: int| 0 <= j < a.children@.len() && #[trigger] a.children@[j].info == b.children@[i].info
            && a.children@[j].expanded == b.children@[i].expanded && reordered(a.children@[j].children@, b.children@[i].children@);
        lemma_reordered_node_ok(records, hidden, m, a.children@[j], b.children@[i]);
    }
}

} // verus!
