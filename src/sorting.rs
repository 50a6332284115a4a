use vstd::multiset::Multiset;
use vstd::prelude::*;

use crate::model::{ProcessInfo, ProcessNode, SortColumn};
use crate::text::chars_of;

verus! {

/// Three-way comparison of integers: -1, 0 or 1.
pub open spec fn cmp_int(x: int, y: int) -> int {
    if x < y { -1 } else if x > y { 1 } else { 0 }
}

/// Three-way lexicographic comparison of texts, character by character (the order of
/// `str`, whose byte order agrees with the order of code points).
pub open spec fn lex_cmp(a: Seq<char>, b: Seq<char>) -> int
    decreases a.len(),
{
    if a.len() == 0 {
        if b.len() == 0 { 0 } else { -1 }
    } else if b.len() == 0 {
        1
    } else if a[0] < b[0] {
        -1
    } else if a[0] > b[0] {
        1
    } else {
        lex_cmp(a.drop_first(), b.drop_first())
    }
}

/// Three-way comparison of two processes by the value shown in `col`.
pub open spec fn key_cmp(col: SortColumn, a: ProcessInfo, b: ProcessInfo) -> int {
    match col {
        SortColumn::Pid => cmp_int(a.pid as int, b.pid as int),
        SortColumn::Name => lex_cmp(a.name@, b.name@),
        SortColumn::Cpu => cmp_int(a.cpu_usage as int, b.cpu_usage as int),
        SortColumn::Memory => cmp_int(a.memory as int, b.memory as int),
    }
}

/// `a` is listed before `b`: by the column, descending when `reverse`, and by pid
/// ascending where the column ties.
pub open spec fn goes_before(col: SortColumn, reverse: bool, a: ProcessInfo, b: ProcessInfo) -> bool {
    let c = key_cmp(col, a, b);
    if c != 0 {
        if reverse { c > 0 } else { c < 0 }
    } else {
        a.pid < b.pid
    }
}

/// No node of the list goes before one that precedes it.
pub open spec fn sorted_level(col: SortColumn, reverse: bool, s: Seq<ProcessNode>) -> bool {
    forall|i: int, j: int| 0 <= i < j < s.len() ==> !goes_before(col, reverse, #[trigger] s[j].info, #[trigger] s[i].info)
}

/// Every list of siblings in the forest is sorted.
pub open spec fn sorted_tree(col: SortColumn, reverse: bool, s: Seq<ProcessNode>) -> bool
    decreases s,
{
    sorted_level(col, reverse, s) && forall|i: int| 0 <= i < s.len() ==> sorted_tree(col, reverse, #[trigger] s[i].children@)
}

pub open spec fn infos(s: Seq<ProcessNode>) -> Seq<ProcessInfo> {
    s.map_values(|n: ProcessNode| n.info)
}

/// `b` holds the nodes of `a`, possibly in another order, each with the same process,
/// the same expand flag and, recursively, the same children.
pub open spec fn reordered(a: Seq<ProcessNode>, b: Seq<ProcessNode>) -> bool
    decreases a,
{
    &&& a.len() == b.len()
    &&& infos(a).to_multiset() == infos(b).to_multiset()
    &&& forall|i: int| 0 <= i < b.len() ==> exists|j: int| 0 <= j < a.len() && #[trigger] a[j].info == #[trigger] b[i].info
        && a[j].expanded == b[i].expanded && reordered(a[j].children@, b[i].children@)
    &&& forall|j: int| 0 <= j < a.len() ==> exists|i: int| 0 <= i < b.len() && #[trigger] a[j].info == #[trigger] b[i].info
        && a[j].expanded == b[i].expanded && reordered(a[j].children@, b[i].children@)
}

pub proof fn lemma_lex_antisymmetric(a: Seq<char>, b: Seq<char>)
    ensures
        lex_cmp(a, b) == -lex_cmp(b, a),
        -1 <= lex_cmp(a, b) <= 1,
        lex_cmp(a, b) == 0 <==> a == b,
    decreases a.len(),
{
    if a.len() > 0 && b.len() > 0 && a[0] == b[0] {
        lemma_lex_antisymmetric(a.drop_first(), b.drop_first());
        if a.drop_first() == b.drop_first() {
            assert(a =~= seq![a[0]] + a.drop_first());
            assert(b =~= seq![b[0]] + b.drop_first());
        }
    } else if a.len() == 0 && b.len() == 0 {
        assert(a =~= b);
    }
}

pub proof fn lemma_lex_transitive(a: Seq<char>, b: Seq<char>, c: Seq<char>)
    requires
        lex_cmp(a, b) < 0,
        lex_cmp(b, c) < 0,
    ensures
        lex_cmp(a, c) < 0,
    decreases a.len(),
{
    if a.len() > 0 && b.len() > 0 && c.len() > 0 && a[0] == b[0] && b[0] == c[0] {
        lemma_lex_transitive(a.drop_first(), b.drop_first(), c.drop_first());
    }
}

pub proof fn lemma_key_cmp_properties(col: SortColumn, a: ProcessInfo, b: ProcessInfo, c: ProcessInfo)
    ensures
        key_cmp(col, a, b) == -key_cmp(col, b, a),
        -1 <= key_cmp(col, a, b) <= 1,
        key_cmp(col, a, b) < 0 && key_cmp(col, b, c) < 0 ==> key_cmp(col, a, c) < 0,
        key_cmp(col, a, b) == 0 ==> key_cmp(col, a, c) == key_cmp(col, b, c),
{
    lemma_lex_antisymmetric(a.name@, b.name@);
    lemma_lex_antisymmetric(a.name@, c.name@);
    lemma_lex_antisymmetric(b.name@, c.name@);
    if lex_cmp(a.name@, b.name@) < 0 && lex_cmp(b.name@, c.name@) < 0 {
        lemma_lex_transitive(a.name@, b.name@, c.name@);
    }
}

/// Listing order is a strict order: irreflexive and transitive.
pub proof fn lemma_goes_before_transitive(col: SortColumn, reverse: bool, a: ProcessInfo, b: ProcessInfo, c: ProcessInfo)
    ensures
        !goes_before(col, reverse, a, a),
        goes_before(col, reverse, a, b) && goes_before(col, reverse, b, c) ==> goes_before(col, reverse, a, c),
{
    lemma_key_cmp_properties(col, a, a, a);
    lemma_key_cmp_properties(col, a, b, c);
    lemma_key_cmp_properties(col, c, b, a);
    lemma_key_cmp_properties(col, b, a, c);
    lemma_key_cmp_properties(col, b, c, a);
    lemma_key_cmp_properties(col, a, c, b);
    lemma_key_cmp_properties(col, c, a, b);
}

/// Two processes with different pids are always ordered one way or the other.
pub proof fn lemma_goes_before_total(col: SortColumn, reverse: bool, a: ProcessInfo, b: ProcessInfo)
    requires
        a.pid != b.pid,
    ensures
        goes_before(col, reverse, a, b) || goes_before(col, reverse, b, a),
        !(goes_before(col, reverse, a, b) && goes_before(col, reverse, b, a)),
{
    lemma_key_cmp_properties(col, a, b, a);
}

/// Lexicographic comparison of two texts.
pub fn lex_compare(a: &Vec<char>, b: &Vec<char>) -> (r: i8)
    ensures
        r as int == lex_cmp(a@, b@),
{
    let mut i: usize = 0;
    assert(a@.skip(0) =~= a@);
    assert(b@.skip(0) =~= b@);
    while i < a.len() && i < b.len()
        invariant
            i <= a@.len(),
            i <= b@.len(),
            lex_cmp(a@, b@) == lex_cmp(a@.skip(i as int), b@.skip(i as int)),
        decreases a@.len() - i,
    {
        if a[i] < b[i] {
            return -1;
        }
        if a[i] > b[i] {
            return 1;
        }
        assert(a@.skip(i as int).drop_first() =~= a@.skip(i + 1));
        assert(b@.skip(i as int).drop_first() =~= b@.skip(i + 1));
        i = i + 1;
    }
    if i < a.len() {
        1
    } else if i < b.len() {
        -1
    } else {
        0
    }
}

fn cmp_u64(x: u64, y: u64) -> (r: i8)
    ensures
        r as int == cmp_int(x as int, y as int),
{
    if x < y { -1 } else if x > y { 1 } else { 0 }
}

/// Whether `a` is listed before `b`.
pub fn goes_before_exec(col: SortColumn, reverse: bool, a: &ProcessInfo, b: &ProcessInfo) -> (r: bool)
    ensures
        r == goes_before(col, reverse, *a, *b),
{
    let c = match col {
        SortColumn::Pid => cmp_u64(a.pid as u64, b.pid as u64),
        SortColumn::Name => lex_compare(&chars_of(a.name.as_str()), &chars_of(b.name.as_str())),
        SortColumn::Cpu => cmp_u64(a.cpu_usage as u64, b.cpu_usage as u64),
        SortColumn::Memory => cmp_u64(a.memory, b.memory),
    };
    if c != 0 {
        if reverse { c > 0 } else { c < 0 }
    } else {
        a.pid < b.pid
    }
}

/// Sorts one list of siblings: each node keeps its children as they are.
fn sort_level(col: SortColumn, reverse: bool, nodes: &mut Vec<ProcessNode>)
    ensures
        sorted_level(col, reverse, final(nodes)@),
        final(nodes)@.len() == old(nodes)@.len(),
        final(nodes)@.to_multiset() == old(nodes)@.to_multiset(),
        infos(final(nodes)@).to_multiset() == infos(old(nodes)@).to_multiset(),
        forall|k: int| 0 <= k < final(nodes)@.len() ==> old(nodes)@.contains(#[trigger] final(nodes)@[k]),
        forall|k: int| 0 <= k < old(nodes)@.len() ==> final(nodes)@.contains(#[trigger] old(nodes)@[k]),
{
    let ghost orig = nodes@;
    let mut out: Vec<ProcessNode> = Vec::new();
    proof {
        out@.to_multiset_ensures();
        infos(out@).to_multiset_ensures();
        assert(out@.to_multiset() =~= Multiset::empty());
        assert(infos(out@).to_multiset() =~= Multiset::empty());
        assert(out@.to_multiset().add(nodes@.to_multiset()) =~= orig.to_multiset());
        assert(infos(out@).to_multiset().add(infos(nodes@).to_multiset()) =~= infos(orig).to_multiset());
        assert forall|k: int| 0 <= k < nodes@.len() implies orig.contains(#[trigger] nodes@[k]) by {
            assert(nodes@[k] == orig[k]);
        }
    }
    while nodes.len() > 0
        invariant
            sorted_level(col, reverse, out@),
            forall|x: int, y: int| 0 <= x < out@.len() && 0 <= y < nodes@.len()
                ==> !goes_before(col, reverse, #[trigger] nodes@[y].info, #[trigger] out@[x].info),
            out@.to_multiset().add(nodes@.to_multiset()) == orig.to_multiset(),
            infos(out@).to_multiset().add(infos(nodes@).to_multiset()) == infos(orig).to_multiset(),
            out@.len() + nodes@.len() == orig.len(),
            forall|k: int| 0 <= k < out@.len() ==> orig.contains(#[trigger] out@[k]),
            forall|k: int| 0 <= k < nodes@.len() ==> orig.contains(#[trigger] nodes@[k]),
        decreases nodes@.len(),
    {
        let mut best: usize = 0;
        let mut i: usize = 1;
        proof {
            lemma_goes_before_transitive(col, reverse, nodes@[0].info, nodes@[0].info, nodes@[0].info);
        }
        while i < nodes.len()
            invariant
                1 <= i <= nodes@.len(),
                best < nodes@.len(),
                forall|k: int| 0 <= k < i ==> !goes_before(col, reverse, #[trigger] nodes@[k].info, nodes@[best as int].info),
            decreases nodes@.len() - i,
        {
            if goes_before_exec(col, reverse, &nodes[i].info, &nodes[best].info) {
                proof {
                    assert forall|k: int| 0 <= k < i + 1 implies !goes_before(col, reverse, #[trigger] nodes@[k].info, nodes@[i as int].info) by {
                        lemma_goes_before_transitive(col, reverse, nodes@[k].info, nodes@[i as int].info, nodes@[best as int].info);
                        lemma_goes_before_transitive(col, reverse, nodes@[k].info, nodes@[best as int].info, nodes@[i as int].info);
                    }
                }
                best = i;
            }
            i = i + 1;
        }
        let ghost rem = nodes@;
        let ghost old_out = out@;
        let x = nodes.remove(best);
        proof {
            rem.remove_ensures(best as int);
            infos(rem).remove_ensures(best as int);
            rem.to_multiset_ensures();
            infos(rem).to_multiset_ensures();
            old_out.to_multiset_ensures();
            infos(old_out).to_multiset_ensures();
            assert(infos(nodes@) =~= infos(rem).remove(best as int));
            assert(infos(out@.push(x)) =~= infos(out@).push(x.info));
        }
        out.push(x);
        proof {
            assert forall|k: int| 0 <= k < nodes@.len() implies orig.contains(#[trigger] nodes@[k]) by {
                if k < best {
                    assert(nodes@[k] == rem[k]);
                } else {
                    assert(nodes@[k] == rem[k + 1]);
                }
            }
            assert forall|k: int| 0 <= k < out@.len() implies orig.contains(#[trigger] out@[k]) by {
                if k < old_out.len() {
                    assert(out@[k] == old_out[k]);
                } else {
                    assert(out@[k] == rem[best as int]);
                }
            }
            assert forall|a: int, b: int| 0 <= a < b < out@.len() implies !goes_before(col, reverse, #[trigger] out@[b].info, #[trigger] out@[a].info) by {
                if b < old_out.len() {
                    assert(out@[b] == old_out[b]);
                    assert(out@[a] == old_out[a]);
                } else {
                    assert(out@[a] == old_out[a]);
                    assert(out@[b] == rem[best as int]);
                }
            }
            assert forall|a: int, y: int| 0 <= a < out@.len() && 0 <= y < nodes@.len()
                implies !goes_before(col, reverse, #[trigger] nodes@[y].info, #[trigger] out@[a].info) by {
                let yy = if y < best { y } else { y + 1 };
                assert(nodes@[y] == rem[yy]);
                if a < old_out.len() {
                    assert(out@[a] == old_out[a]);
                } else {
                    assert(out@[a] == rem[best as int]);
                }
            }
            assert(out@.to_multiset().add(nodes@.to_multiset()) =~= orig.to_multiset());
            assert(infos(out@).to_multiset().add(infos(nodes@).to_multiset()) =~= infos(orig).to_multiset());
        }
    }
    proof {
        nodes@.to_multiset_ensures();
        infos(nodes@).to_multiset_ensures();
        assert(nodes@ =~= Seq::<ProcessNode>::empty());
        assert(infos(nodes@) =~= Seq::<ProcessInfo>::empty());
        assert(out@.to_multiset() =~= orig.to_multiset());
        assert(infos(out@).to_multiset() =~= infos(orig).to_multiset());
    }
    *nodes = out;
    assert(nodes@ == out@);
    assert forall|k: int| 0 <= k < orig.len() implies nodes@.contains(#[trigger] orig[k]) by {
        orig.to_multiset_ensures();
        out@.to_multiset_ensures();
        assert(orig.contains(orig[k])) by { assert(orig[k] == orig[k]); }
        assert(orig.to_multiset().count(orig[k]) > 0);
        assert(out@.to_multiset().count(orig[k]) > 0);
        assert(out@.contains(orig[k]));
    }
}

/// Sorts every list of siblings in a forest, the roots included.
pub fn sort_nodes(col: SortColumn, reverse: bool, nodes: &mut Vec<ProcessNode>)
    ensures
        sorted_tree(col, reverse, final(nodes)@),
        reordered(old(nodes)@, final(nodes)@),
{
    let mut taken: Vec<ProcessNode> = Vec::new();
    std::mem::swap(nodes, &mut taken);
    *nodes = sorted_forest(col, reverse, taken);
}

fn sorted_forest(col: SortColumn, reverse: bool, nodes: Vec<ProcessNode>) -> (r: Vec<ProcessNode>)
    ensures
        sorted_tree(col, reverse, r@),
        reordered(nodes@, r@),
    decreases nodes@,
{
    let ghost orig = nodes@;
    let mut rest = nodes;
    let mut done: Vec<ProcessNode> = Vec::new();
    while rest.len() > 0
        invariant
            nodes@ == orig,
            done@.len() + rest@.len() == orig.len(),
            rest@ == orig.subrange(done@.len() as int, orig.len() as int),
            forall|k: int| 0 <= k < done@.len() ==> {
                &&& (#[trigger] done@[k]).info == orig[k].info
                &&& done@[k].expanded == orig[k].expanded
                &&& sorted_tree(col, reverse, done@[k].children@)
                &&& reordered(orig[k].children@, done@[k].children@)
            },
        decreases rest@.len(),
    {
        let node = rest.remove(0);
        let ghost k = done@.len() as int;
        assert(node == orig[k]);
        let ProcessNode { info, children, expanded } = node;
        assert(decreases_to!(nodes@ => children@));
        let sorted_children = sorted_forest(col, reverse, children);
        done.push(ProcessNode { info, children: sorted_children, expanded });
        assert(rest@ =~= orig.subrange(done@.len() as int, orig.len() as int));
    }
    let ghost mid = done@;
    assert(infos(mid) =~= infos(orig));
    sort_level(col, reverse, &mut done);
    assert forall|k: int| 0 <= k < done@.len() implies sorted_tree(col, reverse, #[trigger] done@[k].children@) by {
        assert(mid.contains(done@[k]));
    }
    assert forall|k: int| 0 <= k < done@.len() implies exists|j: int| 0 <= j < orig.len() && #[trigger] orig[j].info == #[trigger] done@[k].info
        && orig[j].expanded == done@[k].expanded && reordered(orig[j].children@, done@[k].children@) by {
        assert(mid.contains(done@[k]));
        let j = choose|j: int| 0 <= j < mid.len() && mid[j] == done@[k];
        assert(orig[j].info == done@[k].info);
    }
    assert forall|j: int| 0 <= j < orig.len() implies exists|i: int| 0 <= i < done@.len() && #[trigger] orig[j].info == #[trigger] done@[i].info
        && orig[j].expanded == done@[i].expanded && reordered(orig[j].children@, done@[i].children@) by {
        assert(done@.contains(mid[j]));
        let i = choose|i: int| 0 <= i < done@.len() && done@[i] == mid[j];
        assert(orig[j].info == done@[i].info);
    }
    done
}

/// No process of the list goes before one that precedes it.
pub open spec fn sorted_infos(col: SortColumn, reverse: bool, s: Seq<ProcessInfo>) -> bool {
    forall|i: int, j: int| 0 <= i < j < s.len() ==> !goes_before(col, reverse, #[trigger] s[j], #[trigger] s[i])
}

/// No two processes of the list share a pid.
pub open spec fn distinct_pids(s: Seq<ProcessInfo>) -> bool {
    forall|i: int, j: int| 0 <= i < s.len() && 0 <= j < s.len() && i != j ==> (#[trigger] s[i]).pid != (#[trigger] s[j]).pid
}

/// No two processes of the list tie on the column.
pub open spec fn tie_free(col: SortColumn, s: Seq<ProcessInfo>) -> bool {
    forall|i: int, j: int| 0 <= i < s.len() && 0 <= j < s.len() && i != j ==> key_cmp(col, #[trigger] s[i], #[trigger] s[j]) != 0
}

pub proof fn lemma_sorted_level_infos(col: SortColumn, reverse: bool, s: Seq<ProcessNode>)
    ensures
        sorted_level(col, reverse, s) <==> sorted_infos(col, reverse, infos(s)),
{
    if sorted_infos(col, reverse, infos(s)) {
        assert forall|i: int, j: int| 0 <= i < j < s.len() implies !goes_before(col, reverse, #[trigger] s[j].info, #[trigger] s[i].info) by {
            assert(infos(s)[i] == s[i].info && infos(s)[j] == s[j].info);
        }
    }
}

/// The order of a sorted list is fixed by its contents: two lists with the same
/// processes (no pid twice), both sorted by the same column and direction, are equal.
/// So sorting an already sorted list again changes nothing.
pub proof fn lemma_sorted_order_unique(col: SortColumn, reverse: bool, a: Seq<ProcessInfo>, b: Seq<ProcessInfo>)
    requires
        sorted_infos(col, reverse, a),
        sorted_infos(col, reverse, b),
        a.to_multiset() == b.to_multiset(),
        distinct_pids(a),
    ensures
        a == b,
    decreases a.len(),
{
    a.to_multiset_ensures();
    b.to_multiset_ensures();
    if a.len() == 0 {
        assert(b.len() == 0);
        assert(a =~= b);
    } else {
        assert(b.len() == a.len());
        assert(b.contains(b[0])) by { assert(b[0] == b[0]); }
        assert(a.contains(a[0])) by { assert(a[0] == a[0]); }
        assert(b.to_multiset().count(b[0]) > 0);
        assert(a.to_multiset().count(a[0]) > 0);
        assert(a.contains(b[0]));
        assert(b.contains(a[0]));
        let p = choose|p: int| 0 <= p < a.len() && a[p] == b[0];
        let q = choose|q: int| 0 <= q < b.len() && b[q] == a[0];
        if p != 0 && q != 0 {
            lemma_goes_before_total(col, reverse, a[0], a[p]);
            assert(!goes_before(col, reverse, a[p], a[0]));
            assert(!goes_before(col, reverse, b[q], b[0]));
        }
        if p == 0 {
            assert(a[0] == b[0]);
        } else {
            assert(q == 0);
            assert(a[0] == b[0]);
        }
        let a2 = a.drop_first();
        let b2 = b.drop_first();
        assert(a.remove(0) =~= a2);
        assert(b.remove(0) =~= b2);
        assert(a2.to_multiset() =~= b2.to_multiset());
        assert(sorted_infos(col, reverse, a2)) by {
            assert forall|i: int, j: int| 0 <= i < j < a2.len() implies !goes_before(col, reverse, #[trigger] a2[j], #[trigger] a2[i]) by {
                assert(a2[i] == a[i + 1] && a2[j] == a[j + 1]);
            }
        }
        assert(sorted_infos(col, reverse, b2)) by {
            assert forall|i: int, j: int| 0 <= i < j < b2.len() implies !goes_before(col, reverse, #[trigger] b2[j], #[trigger] b2[i]) by {
                assert(b2[i] == b[i + 1] && b2[j] == b[j + 1]);
            }
        }
        assert(distinct_pids(a2)) by {
            assert forall|i: int, j: int| 0 <= i < a2.len() && 0 <= j < a2.len() && i != j implies (#[trigger] a2[i]).pid != (#[trigger] a2[j]).pid by {
                assert(a2[i] == a[i + 1] && a2[j] == a[j + 1]);
            }
        }
        lemma_sorted_order_unique(col, reverse, a2, b2);
        assert(a =~= b) by {
            assert forall|i: int| 0 <= i < a.len() implies a[i] == b[i] by {
                if i > 0 {
                    assert(a[i] == a2[i - 1] && b[i] == b2[i - 1]);
                }
            }
        }
    }
}

/// Sorting twice by the same column and direction gives the same order: when `b` is a
/// sorted reordering of the siblings `a`, and `c` a sorted reordering of `b`, then `c`
/// lists the same processes as `b` in the same order (no pid twice).
pub proof fn lemma_resort_keeps_order(col: SortColumn, reverse: bool, a: Seq<ProcessNode>, b: Seq<ProcessNode>, c: Seq<ProcessNode>)
    requires
        reordered(a, b),
        sorted_level(col, reverse, b),
        reordered(b, c),
        sorted_level(col, reverse, c),
        distinct_pids(infos(b)),
    ensures
        infos(c) == infos(b),
{
    lemma_sorted_level_infos(col, reverse, b);
    lemma_sorted_level_infos(col, reverse, c);
    lemma_sorted_order_unique(col, reverse, infos(b), infos(c));
}

/// Reversing the direction reverses the order: when no two processes tie on the
/// column (and no pid occurs twice), the list sorted descending is the list sorted
/// ascending, read backwards.
pub proof fn lemma_reverse_direction_reverses(col: SortColumn, up: Seq<ProcessInfo>, down: Seq<ProcessInfo>)
    requires
        sorted_infos(col, false, up),
        sorted_infos(col, true, down),
        up.to_multiset() == down.to_multiset(),
        distinct_pids(up),
        tie_free(col, up),
    ensures
        down == up.reverse(),
{
    let r = up.reverse();
    let n = up.len() as int;
    assert(sorted_infos(col, true, r)) by {
        assert forall|i: int, j: int| 0 <= i < j < r.len() implies !goes_before(col, true, #[trigger] r[j], #[trigger] r[i]) by {
            let x = up[n - 1 - i];
            let y = up[n - 1 - j];
            assert(r[i] == x && r[j] == y);
            assert(!goes_before(col, false, x, y));
            lemma_key_cmp_properties(col, x, y, x);
        }
    }
    assert(distinct_pids(r)) by {
        assert forall|i: int, j: int| 0 <= i < r.len() && 0 <= j < r.len() && i != j implies (#[trigger] r[i]).pid != (#[trigger] r[j]).pid by {
            assert(r[i] == up[n - 1 - i] && r[j] == up[n - 1 - j]);
        }
    }
    up.lemma_reverse_to_multiset();
    lemma_sorted_order_unique(col, true, r, down);
}

/// No two siblings share a pid, at any level.
pub open spec fn distinct_tree(s: Seq<ProcessNode>) -> bool
    decreases s,
{
    distinct_pids(infos(s)) && forall|i: int| 0 <= i < s.len() ==> distinct_tree(#[trigger] s[i].children@)
}

/// No two siblings tie on the column, at any level.
pub open spec fn tie_free_tree(col: SortColumn, s: Seq<ProcessNode>) -> bool
    decreases s,
{
    tie_free(col, infos(s)) && forall|i: int| 0 <= i < s.len() ==> tie_free_tree(col, #[trigger] s[i].children@)
}

/// The two forests have the same processes and flags in the same order at every level.
pub open spec fn same_forest(a: Seq<ProcessNode>, b: Seq<ProcessNode>) -> bool
    decreases a,
{
    &&& a.len() == b.len()
    &&& forall|i: int| 0 <= i < a.len() ==> {
        &&& (#[trigger] a[i]).info == b[i].info
        &&& a[i].expanded == b[i].expanded
        &&& same_forest(a[i].children@, b[i].children@)
    }
}

/// `b` is `a` with every list of siblings read backwards.
pub open spec fn mirrored(a: Seq<ProcessNode>, b: Seq<ProcessNode>) -> bool
    decreases a,
{
    &&& a.len() == b.len()
    &&& forall|i: int| 0 <= i < a.len() ==> {
        &&& (#[trigger] a[i]).info == b[a.len() - 1 - i].info
        &&& a[i].expanded == b[a.len() - 1 - i].expanded
        &&& mirrored(a[i].children@, b[a.len() - 1 - i].children@)
    }
}

/// The sibling of `b` that matches `b[i]` under `reordered(b, c)` holds the same pid.
proof fn lemma_match_by_pid(b: Seq<ProcessNode>, c: Seq<ProcessNode>, i: int, k: int) -> (j: int)
    requires
        reordered(b, c),
        distinct_pids(infos(b)),
        0 <= i < c.len(),
        0 <= k < b.len(),
        b[k].info.pid == c[i].info.pid,
    ensures
        j == k,
        b[j].info == c[i].info,
        b[j].expanded == c[i].expanded,
        reordered(b[j].children@, c[i].children@),
{
    let j = choose|j: int| 0 <= j < b.len() && #[trigger] b[j].info == #[trigger] c[i].info
        && b[j].expanded == c[i].expanded && reordered(b[j].children@, c[i].children@);
    assert(infos(b)[j] == b[j].info && infos(b)[k] == b[k].info);
    j
}

/// Sorting twice by the same column and direction changes nothing, at every level:
/// a sorted reordering of an already sorted forest (no pid twice among siblings) is the
/// same forest.
pub proof fn lemma_resort_keeps_forest(col: SortColumn, reverse: bool, b: Seq<ProcessNode>, c: Seq<ProcessNode>)
    requires
        sorted_tree(col, reverse, b),
        sorted_tree(col, reverse, c),
        reordered(b, c),
        distinct_tree(b),
    ensures
        same_forest(b, c),
    decreases b,
{
    lemma_sorted_level_infos(col, reverse, b);
    lemma_sorted_level_infos(col, reverse, c);
    lemma_sorted_order_unique(col, reverse, infos(b), infos(c));
    assert forall|i: int| 0 <= i < b.len() implies {
        &&& (#[trigger] b[i]).info == c[i].info
        &&& b[i].expanded == c[i].expanded
        &&& same_forest(b[i].children@, c[i].children@)
    } by {
        assert(infos(b)[i] == b[i].info && infos(c)[i] == c[i].info);
        let j = lemma_match_by_pid(b, c, i, i);
        lemma_resort_keeps_forest(col, reverse, b[i].children@, c[i].children@);
    }
}

/// Reversing the direction mirrors the forest: when no two siblings tie on the column
/// (and no pid occurs twice among siblings), the forest sorted descending is the one
/// sorted ascending with every list of siblings read backwards.
#[verifier::rlimit(60)]
pub proof fn lemma_reverse_direction_mirrors(col: SortColumn, up: Seq<ProcessNode>, down: Seq<ProcessNode>)
    requires
        sorted_tree(col, false, up),
        sorted_tree(col, true, down),
        reordered(up, down),
        distinct_tree(up),
        tie_free_tree(col, up),
    ensures
        mirrored(up, down),
    decreases up,
{
    lemma_sorted_level_infos(col, false, up);
    lemma_sorted_level_infos(col, true, down);
    lemma_reverse_direction_reverses(col, infos(up), infos(down));
    let n = up.len() as int;
    assert forall|i: int| 0 <= i < n implies {
        &&& (#[trigger] up[i]).info == down[n - 1 - i].info
        &&& up[i].expanded == down[n - 1 - i].expanded
        &&& mirrored(up[i].children@, down[n - 1 - i].children@)
    } by {
        assert(infos(up)[i] == up[i].info);
        assert(infos(down)[n - 1 - i] == down[n - 1 - i].info);
        assert(infos(up).reverse()[n - 1 - i] == infos(up)[i]);
        let j = lemma_match_by_pid(up, down, n - 1 - i, i);
        assert(sorted_tree(col, false, up[i].children@));
        assert(sorted_tree(col, true, down[n - 1 - i].children@));
        assert(distinct_tree(up[i].children@));
        assert(tie_free_tree(col, up[i].children@));
        lemma_reverse_direction_mirrors(col, up[i].children@, down[n - 1 - i].children@);
    }
}

/// Sorting twice by the same column and direction gives the same forest at every level
/// (no pid twice among siblings).
pub proof fn lemma_sort_twice_same(col: SortColumn, reverse: bool, v: Seq<ProcessNode>, once: Seq<ProcessNode>, twice: Seq<ProcessNode>)
    requires
        reordered(v, once),
        sorted_tree(col, reverse, once),
        reordered(once, twice),
        sorted_tree(col, reverse, twice),
        distinct_tree(once),
    ensures
        same_forest(once, twice),
{
    lemma_resort_keeps_forest(col, reverse, once, twice);
}

} // verus!
