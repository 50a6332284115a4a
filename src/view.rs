use vstd::prelude::*;

use crate::filter::{children_match, subtree_matches, FilterCriteria};
use crate::model::{descendant, node_at, rows_view, FlatRow, ProcessNode};

verus! {

/// The rows that `n` and its shown descendants contribute, in pre-order: nothing when
/// neither `n` nor a descendant meets the criteria; else `n`'s own row, followed by
/// the rows of its children when `n` is expanded.
pub open spec fn flat_node(f: FilterCriteria, n: ProcessNode, depth: nat, path: Seq<usize>) -> Seq<(nat, Seq<usize>)>
    decreases n, n.children@.len() + 1,
{
    if !subtree_matches(f, n) {
        seq![]
    } else if n.expanded {
        seq![(depth, path)] + flat_children(f, n, n.children@.len(), depth + 1, path)
    } else {
        seq![(depth, path)]
    }
}

/// The rows of the first `k` children of `n`, each below `path`.
pub open spec fn flat_children(f: FilterCriteria, n: ProcessNode, k: nat, depth: nat, path: Seq<usize>) -> Seq<(nat, Seq<usize>)>
    decreases n, k,
{
    if k == 0 || k > n.children@.len() {
        seq![]
    } else {
        flat_children(f, n, (k - 1) as nat, depth, path)
            + flat_node(f, n.children@[k - 1], depth, path.push((k - 1) as usize))
    }
}

/// The rows of the first `k` roots of a forest.
pub open spec fn flat_forest(f: FilterCriteria, roots: Seq<ProcessNode>, k: nat) -> Seq<(nat, Seq<usize>)>
    decreases k,
{
    if k == 0 || k > roots.len() {
        seq![]
    } else {
        flat_forest(f, roots, (k - 1) as nat) + flat_node(f, roots[k - 1], 0, seq![(k - 1) as usize])
    }
}

/// The whole flattened view of a forest under the given criteria.
pub open spec fn flat_view(f: FilterCriteria, roots: Seq<ProcessNode>) -> Seq<(nat, Seq<usize>)> {
    flat_forest(f, roots, roots.len())
}

proof fn lemma_rows_view_push(rows: Seq<FlatRow>, r: FlatRow)
    ensures
        rows_view(rows.push(r)) == rows_view(rows).push(r@),
{
    assert(rows_view(rows.push(r)) =~= rows_view(rows).push(r@));
}

/// Whether `n` itself meets the criteria, and whether a descendant does while some
/// criterion is set.
pub fn check_node_and_children_match(f: &FilterCriteria, node: &ProcessNode) -> (r: (bool, bool))
    ensures
        r.0 == f.accepts(node.info),
        r.1 == (f.is_active() && children_match(*f, *node, node.children@.len())),
        (r.0 || r.1) == subtree_matches(*f, *node),
    decreases node,
{
    let node_matches = f.accepts_info(&node.info);
    let mut has_matching_children = false;
    if f.any_active() {
        let mut i: usize = 0;
        while i < node.children.len()
            invariant
                i <= node.children@.len(),
                has_matching_children == children_match(*f, *node, i as nat),
            decreases node.children@.len() - i,
        {
            if !has_matching_children {
                let (child_matches, child_has_matching) = check_node_and_children_match(f, &node.children[i]);
                has_matching_children = child_matches || child_has_matching;
            }
            i = i + 1;
        }
    }
    (node_matches, has_matching_children)
}

/// Appends the rows of `node` (at `depth`, reached by `path`) to `result`.
pub fn flatten_node_with_path(
    f: &FilterCriteria,
    node: &ProcessNode,
    depth: usize,
    path: &mut Vec<usize>,
    result: &mut Vec<FlatRow>,
)
    requires
        depth + 1 == old(path)@.len(),
    ensures
        final(path)@ == old(path)@,
        rows_view(final(result)@) == rows_view(old(result)@) + flat_node(*f, *node, depth as nat, old(path)@),
    decreases node,
{
    let (node_matches, has_matching_children) = check_node_and_children_match(f, node);
    if !node_matches && !has_matching_children {
        assert(rows_view(result@) =~= rows_view(old(result)@) + flat_node(*f, *node, depth as nat, old(path)@));
        return;
    }
    let ghost before = result@;
    let row = FlatRow { depth, path: path.clone() };
    assert(row.path@ =~= path@);
    result.push(row);
    proof {
        lemma_rows_view_push(before, row);
    }
    if node.expanded && !node.children.is_empty() {
        let mut child_idx: usize = 0;
        while child_idx < node.children.len()
            invariant
                child_idx <= node.children@.len(),
                path@ == old(path)@,
                depth + 1 == path@.len(),
                rows_view(result@) == rows_view(old(result)@) + seq![(depth as nat, path@)]
                    + flat_children(*f, *node, child_idx as nat, depth as nat + 1, path@),
            decreases node.children@.len() - child_idx,
        {
            let ghost mid = result@;
            path.push(child_idx);
            let child_depth = path.len() - 1;
            flatten_node_with_path(f, &node.children[child_idx], child_depth, path, result);
            path.pop();
            proof {
                assert(path@ =~= old(path)@);
                assert(rows_view(result@) =~= rows_view(old(result)@) + seq![(depth as nat, path@)]
                    + flat_children(*f, *node, (child_idx + 1) as nat, depth as nat + 1, path@));
            }
            child_idx = child_idx + 1;
        }
        assert(rows_view(result@) =~= rows_view(old(result)@) + flat_node(*f, *node, depth as nat, old(path)@));
    } else {
        assert(node.expanded ==> node.children@.len() == 0);
        assert(flat_children(*f, *node, 0, depth as nat + 1, path@) =~= seq![]);
        assert(rows_view(result@) =~= rows_view(old(result)@) + flat_node(*f, *node, depth as nat, old(path)@));
    }
}

/// Computes the flattened view of a forest.
pub fn flatten_forest(f: &FilterCriteria, roots: &Vec<ProcessNode>) -> (r: Vec<FlatRow>)
    ensures
        rows_view(r@) == flat_view(*f, roots@),
{
    let mut result: Vec<FlatRow> = Vec::new();
    let mut idx: usize = 0;
    assert(rows_view(result@) =~= seq![]);
    while idx < roots.len()
        invariant
            idx <= roots@.len(),
            rows_view(result@) == flat_forest(*f, roots@, idx as nat),
        decreases roots@.len() - idx,
    {
        let mut path: Vec<usize> = Vec::new();
        path.push(idx);
        assert(path@ =~= seq![idx]);
        flatten_node_with_path(f, &roots[idx], 0, &mut path, &mut result);
        idx = idx + 1;
    }
    result
}

/// A node one of whose descendants meets the criteria has a matching subtree.
proof fn lemma_descendant_match(f: FilterCriteria, n: ProcessNode, rel: Seq<usize>)
    requires
        descendant(n, rel) is Some,
        f.accepts(descendant(n, rel)->0.info),
    ensures
        subtree_matches(f, n),
    decreases rel.len(),
{
    if rel.len() > 0 {
        let i = rel[0] as int;
        lemma_descendant_match(f, n.children@[i], rel.drop_first());
        lemma_children_match_witness(f, n, n.children@.len(), i);
    }
}

proof fn lemma_children_match_witness(f: FilterCriteria, n: ProcessNode, k: nat, i: int)
    requires
        0 <= i < k <= n.children@.len(),
        subtree_matches(f, n.children@[i]),
    ensures
        children_match(f, n, k),
    decreases k,
{
    if i < k - 1 {
        lemma_children_match_witness(f, n, (k - 1) as nat, i);
    }
}

/// The rows of child `i` are among the rows of the first `k` children.
proof fn lemma_flat_children_contains(f: FilterCriteria, n: ProcessNode, k: nat, depth: nat, path: Seq<usize>, i: int, row: (nat, Seq<usize>))
    requires
        0 <= i < k <= n.children@.len(),
        flat_node(f, n.children@[i], depth, path.push(i as usize)).contains(row),
    ensures
        flat_children(f, n, k, depth, path).contains(row),
    decreases k,
{
    let a = flat_children(f, n, (k - 1) as nat, depth, path);
    let b = flat_node(f, n.children@[k - 1], depth, path.push((k - 1) as usize));
    if i < k - 1 {
        lemma_flat_children_contains(f, n, (k - 1) as nat, depth, path, i, row);
        let w = choose|w: int| 0 <= w < a.len() && a[w] == row;
        assert((a + b)[w] == row);
    } else {
        let w = choose|w: int| 0 <= w < b.len() && b[w] == row;
        assert((a + b)[a.len() + w] == row);
    }
}

/// The rows of root `i` are among the rows of the first `k` roots.
proof fn lemma_flat_forest_contains(f: FilterCriteria, roots: Seq<ProcessNode>, k: nat, i: int, row: (nat, Seq<usize>))
    requires
        0 <= i < k <= roots.len(),
        flat_node(f, roots[i], 0, seq![i as usize]).contains(row),
    ensures
        flat_forest(f, roots, k).contains(row),
    decreases k,
{
    let a = flat_forest(f, roots, (k - 1) as nat);
    let b = flat_node(f, roots[k - 1], 0, seq![(k - 1) as usize]);
    if i < k - 1 {
        lemma_flat_forest_contains(f, roots, (k - 1) as nat, i, row);
        let w = choose|w: int| 0 <= w < a.len() && a[w] == row;
        assert((a + b)[w] == row);
    } else {
        let w = choose|w: int| 0 <= w < b.len() && b[w] == row;
        assert((a + b)[a.len() + w] == row);
    }
}

/// Below a node, the row of the ancestor `m` steps down the way to a matching node is
/// listed when the nodes before it on the way are expanded.
proof fn lemma_flat_node_lists_ancestor(f: FilterCriteria, n: ProcessNode, depth: nat, base: Seq<usize>, rel: Seq<usize>, m: nat)
    requires
        descendant(n, rel) is Some,
        f.accepts(descendant(n, rel)->0.info),
        m <= rel.len(),
        forall|j: int| 0 <= j < m ==> (#[trigger] descendant(n, rel.subrange(0, j))) is Some
            && descendant(n, rel.subrange(0, j))->0.expanded,
    ensures
        flat_node(f, n, depth, base).contains((depth + m, base + rel.subrange(0, m as int))),
    decreases rel.len(),
{
    lemma_descendant_match(f, n, rel);
    if m == 0 {
        assert(base + rel.subrange(0, 0) =~= base);
        assert(flat_node(f, n, depth, base)[0] == (depth, base));
    } else {
        assert(rel.subrange(0, 0) =~= Seq::<usize>::empty());
        assert(descendant(n, rel.subrange(0, 0)) == Some(n));
        let i = rel[0] as int;
        let c = n.children@[i];
        let rest = rel.drop_first();
        assert forall|j: int| 0 <= j < m - 1 implies (#[trigger] descendant(c, rest.subrange(0, j))) is Some
            && descendant(c, rest.subrange(0, j))->0.expanded by {
            assert(rel.subrange(0, j + 1).drop_first() =~= rest.subrange(0, j));
            assert(descendant(n, rel.subrange(0, j + 1)) == descendant(c, rest.subrange(0, j)));
        }
        lemma_flat_node_lists_ancestor(f, c, depth + 1, base.push(i as usize), rest, (m - 1) as nat);
        assert(base.push(i as usize) + rest.subrange(0, m - 1) =~= base + rel.subrange(0, m as int));
        let row = (depth + m, base + rel.subrange(0, m as int));
        lemma_flat_children_contains(f, n, n.children@.len(), depth + 1, base, i, row);
        let tail = flat_children(f, n, n.children@.len(), depth + 1, base);
        let w = choose|w: int| 0 <= w < tail.len() && tail[w] == row;
        assert((seq![(depth, base)] + tail)[w + 1] == row);
    }
}

/// Every ancestor of a node that meets the criteria is listed, even when the ancestor
/// itself does not meet them, provided the nodes above that ancestor are expanded (a
/// collapsed node hides everything below it).
pub proof fn lemma_ancestors_of_matches_listed(f: FilterCriteria, roots: Seq<ProcessNode>, path: Seq<usize>, k: int)
    requires
        node_at(roots, path) is Some,
        f.accepts(node_at(roots, path)->0.info),
        1 <= k <= path.len(),
        forall|j: int| 1 <= j < k ==> (#[trigger] node_at(roots, path.subrange(0, j))) is Some
            && node_at(roots, path.subrange(0, j))->0.expanded,
    ensures
        flat_view(f, roots).contains(((k - 1) as nat, path.subrange(0, k))),
{
    let i = path[0] as int;
    let rel = path.drop_first();
    assert forall|j: int| 0 <= j < k - 1 implies (#[trigger] descendant(roots[i], rel.subrange(0, j))) is Some
        && descendant(roots[i], rel.subrange(0, j))->0.expanded by {
        assert(path.subrange(0, j + 1).drop_first() =~= rel.subrange(0, j));
        assert(node_at(roots, path.subrange(0, j + 1)) == descendant(roots[i], rel.subrange(0, j)));
    }
    lemma_flat_node_lists_ancestor(f, roots[i], 0, seq![i as usize], rel, (k - 1) as nat);
    assert(seq![i as usize] + rel.subrange(0, k - 1) =~= path.subrange(0, k));
    lemma_flat_forest_contains(f, roots, roots.len(), i, ((k - 1) as nat, path.subrange(0, k)));
}

} // verus!
