//! The roots of the commit graph, and the order in which the smartlog shows
//! them: earlier history first.

use crate::graph::{CommitGraph, CommitTime, NodeView};
use crate::mergebase::{lemma_lookup_is_symmetric, spec_lookup, MergeBaseCache, MergeBaseRow};
use crate::oid::Oid;
use vstd::prelude::*;

verus! {

/// How one thing stands to another in an order.
#[derive(Clone, Copy, Debug, PartialEq, Eq, Structural)]
pub enum Order {
    Less,
    Equal,
    Greater,
}

/// What the order of roots looks at in a commit: its identifier, and the time
/// it was made, if the repository has the commit.
#[derive(Clone, Copy, Debug, PartialEq, Eq, Structural)]
pub struct RootCommit {
    pub oid: Oid,
    pub time: Option<CommitTime>,
}

/// The order read the other way round.
pub open spec fn flip(order: Order) -> Order {
    match order {
        Order::Less => Order::Greater,
        Order::Equal => Order::Equal,
        Order::Greater => Order::Less,
    }
}

/// Whether the time `a` is before the time `b`.
pub open spec fn time_before(a: CommitTime, b: CommitTime) -> bool {
    a.seconds < b.seconds || (a.seconds == b.seconds && a.offset_minutes < b.offset_minutes)
}

/// The order of two identifiers: that of their bytes.
pub open spec fn spec_compare_oids(a: Oid, b: Oid) -> Order {
    if a@ < b@ {
        Order::Less
    } else if a@ == b@ {
        Order::Equal
    } else {
        Order::Greater
    }
}

/// The order of two commits by time, and by identifier where the times are the
/// same.
pub open spec fn spec_compare_by_time(a_time: CommitTime, a: Oid, b_time: CommitTime, b: Oid) -> Order {
    if time_before(a_time, b_time) {
        Order::Less
    } else if time_before(b_time, a_time) {
        Order::Greater
    } else {
        spec_compare_oids(a, b)
    }
}

/// The order of two roots. Where the repository lacks one of the commits, the
/// order is that of the identifiers. Else a commit that is the merge base of
/// the two comes first; and where neither is, or the merge base is not known,
/// the commit made earlier comes first, the identifiers deciding between equal
/// times.
pub open spec fn spec_compare_roots(lhs: RootCommit, rhs: RootCommit, merge_base: Option<Oid>) -> Order {
    match (lhs.time, rhs.time) {
        (Some(lhs_time), Some(rhs_time)) => if merge_base == Some(lhs.oid) {
            Order::Less
        } else if merge_base == Some(rhs.oid) {
            Order::Greater
        } else {
            spec_compare_by_time(lhs_time, lhs.oid, rhs_time, rhs.oid)
        },
        _ => spec_compare_oids(lhs.oid, rhs.oid),
    }
}

/// The order of two identifiers.
pub fn compare_oids(a: Oid, b: Oid) -> (order: Order)
    ensures
        order == spec_compare_oids(a, b),
{
    if a.precedes(&b) {
        Order::Less
    } else if b.precedes(&a) {
        Order::Greater
    } else {
        Order::Equal
    }
}

/// Whether the time `a` is before the time `b`.
pub fn is_time_before(a: CommitTime, b: CommitTime) -> (before: bool)
    ensures
        before == time_before(a, b),
{
    a.seconds < b.seconds || (a.seconds == b.seconds && a.offset_minutes < b.offset_minutes)
}

/// The order of two roots, given their merge base as far as it is known.
pub fn compare_roots(lhs: RootCommit, rhs: RootCommit, merge_base: Option<Oid>) -> (order: Order)
    ensures
        order == spec_compare_roots(lhs, rhs, merge_base),
{
    match (lhs.time, rhs.time) {
        (Some(lhs_time), Some(rhs_time)) => {
            let is_lhs = match merge_base {
                Some(oid) => oid == lhs.oid,
                None => false,
            };
            let is_rhs = match merge_base {
                Some(oid) => oid == rhs.oid,
                None => false,
            };
            if is_lhs {
                Order::Less
            } else if is_rhs {
                Order::Greater
            } else if is_time_before(lhs_time, rhs_time) {
                Order::Less
            } else if is_time_before(rhs_time, lhs_time) {
                Order::Greater
            } else {
                compare_oids(lhs.oid, rhs.oid)
            }
        },
        _ => compare_oids(lhs.oid, rhs.oid),
    }
}

/// A commit does not come before itself: comparing a root with itself gives
/// `Equal`, unless the commit is reported as its own merge base, in which case
/// the rule for merge bases answers `Less`.
pub proof fn lemma_compare_roots_reflexive(root: RootCommit, merge_base: Option<Oid>)
    requires
        root.time is None || merge_base != Some(root.oid),
    ensures
        spec_compare_roots(root, root, merge_base) == Order::Equal,
{
}

/// Comparing two roots the other way round gives the opposite answer, for the
/// same merge base. The one exception is a commit compared with itself and
/// reported as its own merge base.
pub proof fn lemma_compare_roots_antisymmetric(lhs: RootCommit, rhs: RootCommit, merge_base: Option<Oid>)
    requires
        !(lhs.time is Some && rhs.time is Some && lhs.oid == rhs.oid && merge_base == Some(
            lhs.oid,
        )),
    ensures
        spec_compare_roots(rhs, lhs, merge_base) == flip(spec_compare_roots(lhs, rhs, merge_base)),
{
    crate::mergebase::lemma_oid_by_number(lhs.oid, rhs.oid);
}

/// A root that comes after another has that other come before it, whatever the
/// merge base says.
pub proof fn lemma_greater_flips(lhs: RootCommit, rhs: RootCommit, merge_base: Option<Oid>)
    requires
        spec_compare_roots(lhs, rhs, merge_base) == Order::Greater,
    ensures
        spec_compare_roots(rhs, lhs, merge_base) == Order::Less,
{
    crate::mergebase::lemma_oid_by_number(lhs.oid, rhs.oid);
}

/// Whether the merge base reported for two commits agrees with their times: a
/// commit that is the merge base of itself and another was made first.
pub open spec fn agrees_with_time(a: RootCommit, b: RootCommit, merge_base: Option<Oid>) -> bool {
    match (a.time, b.time) {
        (Some(a_time), Some(b_time)) => {
            &&& a.oid != b.oid
            &&& merge_base == Some(a.oid) ==> spec_compare_by_time(a_time, a.oid, b_time, b.oid)
                == Order::Less
            &&& merge_base == Some(b.oid) ==> spec_compare_by_time(a_time, a.oid, b_time, b.oid)
                == Order::Greater
        },
        _ => false,
    }
}

/// The order of roots is transitive over three commits of the repository whose
/// reported merge bases agree with their times, and over three commits that
/// the repository lacks. Where ancestry and times disagree it need not be.
pub proof fn lemma_compare_roots_transitive(
    a: RootCommit,
    b: RootCommit,
    c: RootCommit,
    base_ab: Option<Oid>,
    base_bc: Option<Oid>,
    base_ac: Option<Oid>,
)
    requires
        (agrees_with_time(a, b, base_ab) && agrees_with_time(b, c, base_bc) && agrees_with_time(
            a,
            c,
            base_ac,
        )) || (a.time is None && b.time is None && c.time is None),
        spec_compare_roots(a, b, base_ab) != Order::Greater,
        spec_compare_roots(b, c, base_bc) != Order::Greater,
    ensures
        spec_compare_roots(a, c, base_ac) != Order::Greater,
{
}

/// `item` put into `sorted` from the back: before every element at the end
/// that `after` puts after it.
pub open spec fn insert_sorted(
    sorted: Seq<usize>,
    item: usize,
    after: spec_fn(usize, usize) -> bool,
) -> Seq<usize>
    decreases sorted.len(),
{
    if sorted.len() > 0 && after(sorted.last(), item) {
        insert_sorted(sorted.drop_last(), item, after).push(sorted.last())
    } else {
        sorted.push(item)
    }
}

/// `items` sorted by insertion: each item in turn is put into the sorted items
/// before it. Items that `after` does not put apart keep their order.
pub open spec fn sort_by(items: Seq<usize>, after: spec_fn(usize, usize) -> bool) -> Seq<usize>
    decreases items.len(),
{
    if items.len() == 0 {
        Seq::empty()
    } else {
        insert_sorted(sort_by(items.drop_last(), after), items.last(), after)
    }
}

/// Every neighbour in `items` is in order: the right one is not put before the
/// left one.
pub open spec fn neighbours_in_order(items: Seq<usize>, after: spec_fn(usize, usize) -> bool) -> bool {
    forall|k: int| 0 <= k < items.len() - 1 ==> !after(#[trigger] items[k], items[k + 1])
}

/// Insertion keeps what is there and adds the item.
pub proof fn lemma_insert_sorted_holds(
    sorted: Seq<usize>,
    item: usize,
    after: spec_fn(usize, usize) -> bool,
)
    ensures
        insert_sorted(sorted, item, after).to_multiset() == sorted.to_multiset().insert(item),
        insert_sorted(sorted, item, after).len() == sorted.len() + 1,
    decreases sorted.len(),
{
    broadcast use vstd::seq_lib::group_to_multiset_ensures;

    if sorted.len() > 0 && after(sorted.last(), item) {
        let init = sorted.drop_last();
        lemma_insert_sorted_holds(init, item, after);
        assert(sorted =~= init.push(sorted.last()));
        assert(insert_sorted(sorted, item, after).to_multiset() =~= sorted.to_multiset().insert(
            item,
        ));
    }
}

/// Sorting rearranges: the sorted items are the given items, each as often as
/// it was given.
pub proof fn lemma_sort_by_rearranges(items: Seq<usize>, after: spec_fn(usize, usize) -> bool)
    ensures
        sort_by(items, after).to_multiset() == items.to_multiset(),
        sort_by(items, after).len() == items.len(),
    decreases items.len(),
{
    broadcast use vstd::seq_lib::group_to_multiset_ensures;

    if items.len() > 0 {
        let init = items.drop_last();
        lemma_sort_by_rearranges(init, after);
        lemma_insert_sorted_holds(sort_by(init, after), items.last(), after);
        assert(items =~= init.push(items.last()));
    } else {
        assert(items =~= Seq::<usize>::empty());
    }
}

/// Insertion keeps neighbours in order, where `after` never puts two items
/// each after the other.
pub proof fn lemma_insert_sorted_orders(
    sorted: Seq<usize>,
    item: usize,
    after: spec_fn(usize, usize) -> bool,
)
    requires
        neighbours_in_order(sorted, after),
        forall|x: usize, y: usize| #[trigger] after(x, y) ==> !after(y, x),
    ensures
        neighbours_in_order(insert_sorted(sorted, item, after), after),
        insert_sorted(sorted, item, after).len() == sorted.len() + 1,
        insert_sorted(sorted, item, after).last() == if sorted.len() > 0 && after(
            sorted.last(),
            item,
        ) {
            sorted.last()
        } else {
            item
        },
    decreases sorted.len(),
{
    let result = insert_sorted(sorted, item, after);
    if sorted.len() > 0 && after(sorted.last(), item) {
        let init = sorted.drop_last();
        assert forall|k: int| 0 <= k < init.len() - 1 implies !after(
            #[trigger] init[k],
            init[k + 1],
        ) by {
            assert(init[k] == sorted[k]);
            assert(init[k + 1] == sorted[k + 1]);
        }
        lemma_insert_sorted_orders(init, item, after);
        let inner = insert_sorted(init, item, after);
        assert forall|k: int| 0 <= k < result.len() - 1 implies !after(
            #[trigger] result[k],
            result[k + 1],
        ) by {
            if k < inner.len() - 1 {
                assert(result[k] == inner[k]);
                assert(result[k + 1] == inner[k + 1]);
            } else {
                assert(result[k] == inner.last());
                assert(result[k + 1] == sorted.last());
                if init.len() > 0 && after(init.last(), item) {
                    assert(inner.last() == init.last());
                    assert(init.last() == sorted[sorted.len() - 2]);
                    assert(!after(sorted[sorted.len() - 2], sorted[sorted.len() - 2 + 1]));
                } else {
                    assert(inner.last() == item);
                }
            }
        }
    } else {
        assert forall|k: int| 0 <= k < result.len() - 1 implies !after(
            #[trigger] result[k],
            result[k + 1],
        ) by {
            if k < sorted.len() - 1 {
                assert(result[k] == sorted[k]);
                assert(result[k + 1] == sorted[k + 1]);
            } else {
                assert(result[k] == sorted.last());
                assert(result[k + 1] == item);
            }
        }
    }
}

/// Sorted items have their neighbours in order, where `after` never puts two
/// items each after the other.
pub proof fn lemma_sort_by_orders(items: Seq<usize>, after: spec_fn(usize, usize) -> bool)
    requires
        forall|x: usize, y: usize| #[trigger] after(x, y) ==> !after(y, x),
    ensures
        neighbours_in_order(sort_by(items, after), after),
    decreases items.len(),
{
    if items.len() > 0 {
        lemma_sort_by_orders(items.drop_last(), after);
        lemma_insert_sorted_orders(sort_by(items.drop_last(), after), items.last(), after);
    }
}

/// What the order of roots looks at in the commit at `place`.
pub open spec fn root_commit(graph: Seq<NodeView>, place: usize) -> RootCommit {
    RootCommit { oid: graph[place as int].oid, time: Some(graph[place as int].time) }
}

/// The merge base of two commits as far as `rows` knows it: none where the two
/// have none, and none where the pair was never asked about.
pub open spec fn known_merge_base(rows: Seq<MergeBaseRow>, a: Oid, b: Oid) -> Option<Oid> {
    match spec_lookup(rows, a, b) {
        Some(answer) => answer,
        None => None,
    }
}

/// Whether the root at `a` comes after the root at `b`.
pub open spec fn root_comes_after(graph: Seq<NodeView>, rows: Seq<MergeBaseRow>) -> spec_fn(
    usize,
    usize,
) -> bool {
    |a: usize, b: usize|
        spec_compare_roots(
            root_commit(graph, a),
            root_commit(graph, b),
            known_merge_base(rows, graph[a as int].oid, graph[b as int].oid),
        ) == Order::Greater
}

/// The places of the commits without a parent in the graph, among the first
/// `count` commits, in the order of the graph.
pub open spec fn root_places(graph: Seq<NodeView>, count: nat) -> Seq<usize>
    decreases count,
{
    if count == 0 || count > graph.len() {
        Seq::empty()
    } else if graph[count - 1].parent is None {
        root_places(graph, (count - 1) as nat).push((count - 1) as usize)
    } else {
        root_places(graph, (count - 1) as nat)
    }
}

/// The roots of the graph in the order of showing.
pub open spec fn spec_split_by_roots(graph: Seq<NodeView>, rows: Seq<MergeBaseRow>) -> Seq<usize> {
    sort_by(root_places(graph, graph.len()), root_comes_after(graph, rows))
}

/// The roots in the order of showing are the roots of the graph, each once,
/// and none of them is shown before a root that comes before it.
pub proof fn lemma_roots_are_ordered(graph: Seq<NodeView>, rows: Seq<MergeBaseRow>)
    ensures
        spec_split_by_roots(graph, rows).to_multiset() == root_places(
            graph,
            graph.len(),
        ).to_multiset(),
        neighbours_in_order(spec_split_by_roots(graph, rows), root_comes_after(graph, rows)),
{
    let after = root_comes_after(graph, rows);
    lemma_sort_by_rearranges(root_places(graph, graph.len()), after);
    assert forall|x: usize, y: usize| #[trigger] after(x, y) implies !after(y, x) by {
        lemma_lookup_is_symmetric(rows, graph[x as int].oid, graph[y as int].oid);
        lemma_greater_flips(
            root_commit(graph, x),
            root_commit(graph, y),
            known_merge_base(rows, graph[x as int].oid, graph[y as int].oid),
        );
    }
    lemma_sort_by_orders(root_places(graph, graph.len()), after);
}

/// The roots of the first `count` commits of the graph, in the order of the
/// graph.
pub open spec fn root_oids(graph: Seq<NodeView>, count: nat) -> Seq<Oid> {
    root_places(graph, count).map_values(|place: usize| graph[place as int].oid)
}

/// Every pair of two of `oids`, the one that stands first in `oids` first.
pub open spec fn all_pairs(oids: Seq<Oid>) -> Seq<(Oid, Oid)>
    decreases oids.len(),
{
    if oids.len() == 0 {
        Seq::empty()
    } else {
        all_pairs(oids.drop_last()) + oids.drop_last().map_values(|oid: Oid| (oid, oids.last()))
    }
}

/// The pairs of roots whose merge bases the order of showing asks for: every
/// pair of two roots of the graph.
pub open spec fn spec_root_pairs(graph: Seq<NodeView>) -> Seq<(Oid, Oid)> {
    all_pairs(root_oids(graph, graph.len()))
}

/// Every two of `oids` are one of their pairs.
pub proof fn lemma_all_pairs_holds(oids: Seq<Oid>, i: int, j: int)
    requires
        0 <= i < j < oids.len(),
    ensures
        all_pairs(oids).contains((oids[i], oids[j])),
    decreases oids.len(),
{
    let init = oids.drop_last();
    let earlier = all_pairs(init);
    let with_last = init.map_values(|oid: Oid| (oid, oids.last()));
    if j == oids.len() - 1 {
        assert(with_last[i] == (oids[i], oids[j]));
        assert(all_pairs(oids)[earlier.len() + i] == with_last[i]);
    } else {
        lemma_all_pairs_holds(init, i, j);
        let at = choose|at: int| 0 <= at < earlier.len() && earlier[at] == (init[i], init[j]);
        assert(all_pairs(oids)[at] == earlier[at]);
    }
}

/// Once the cache holds an answer for every pair of roots, it holds one for any
/// two roots, asked about in either order: the order of showing then rests on
/// what the repository said, not on a pair that was never asked about.
pub proof fn lemma_root_pairs_cover(graph: Seq<NodeView>, rows: Seq<MergeBaseRow>, i: int, j: int)
    requires
        forall|k: int|
            0 <= k < spec_root_pairs(graph).len() ==> spec_lookup(
                rows,
                (#[trigger] spec_root_pairs(graph)[k]).0,
                spec_root_pairs(graph)[k].1,
            ) is Some,
        0 <= i < root_oids(graph, graph.len()).len(),
        0 <= j < root_oids(graph, graph.len()).len(),
        i != j,
    ensures
        spec_lookup(rows, root_oids(graph, graph.len())[i], root_oids(graph, graph.len())[j])
            is Some,
{
    let oids = root_oids(graph, graph.len());
    let pairs = spec_root_pairs(graph);
    if i < j {
        lemma_all_pairs_holds(oids, i, j);
        let k = choose|k: int| 0 <= k < pairs.len() && pairs[k] == (oids[i], oids[j]);
        assert(spec_lookup(rows, pairs[k].0, pairs[k].1) is Some);
    } else {
        lemma_all_pairs_holds(oids, j, i);
        let k = choose|k: int| 0 <= k < pairs.len() && pairs[k] == (oids[j], oids[i]);
        assert(spec_lookup(rows, pairs[k].0, pairs[k].1) is Some);
        lemma_lookup_is_symmetric(rows, oids[i], oids[j]);
    }
}

/// The pairs of roots whose merge bases the order of showing asks for. With an
/// answer for each of them in the cache, `split_commit_graph_by_roots` orders
/// the roots by what the repository said.
pub fn root_pairs(graph: &CommitGraph) -> (pairs: Vec<(Oid, Oid)>)
    ensures
        pairs@ == spec_root_pairs(graph@),
{
    let mut oids: Vec<Oid> = Vec::new();
    let mut i: usize = 0;
    assert(oids@ =~= root_oids(graph@, 0));
    while i < graph.len()
        invariant
            i <= graph@.len(),
            oids@ == root_oids(graph@, i as nat),
        decreases graph@.len() - i,
    {
        let ghost before = oids@;
        match graph.node(i) {
            Some(node) => {
                if node.parent.is_none() {
                    oids.push(node.oid);
                    assert(oids@ =~= root_oids(graph@, (i + 1) as nat));
                } else {
                    assert(oids@ =~= root_oids(graph@, (i + 1) as nat));
                }
            },
            None => {},
        }
        i += 1;
    }
    let mut pairs: Vec<(Oid, Oid)> = Vec::new();
    let mut j: usize = 0;
    assert(oids@.take(0) =~= Seq::<Oid>::empty());
    while j < oids.len()
        invariant
            j <= oids.len(),
            pairs@ == all_pairs(oids@.take(j as int)),
        decreases oids.len() - j,
    {
        let ghost earlier = pairs@;
        let ghost init = oids@.take(j as int);
        let last = oids[j];
        proof {
            assert(oids@.take(j + 1).drop_last() =~= init);
            assert(oids@.take(j + 1).last() == last);
        }
        let mut k: usize = 0;
        while k < j
            invariant
                k <= j < oids.len(),
                init == oids@.take(j as int),
                last == oids@[j as int],
                pairs@ == earlier + init.take(k as int).map_values(|oid: Oid| (oid, last)),
            decreases j - k,
        {
            pairs.push((oids[k], last));
            k += 1;
            assert(pairs@ =~= earlier + init.take(k as int).map_values(|oid: Oid| (oid, last)));
        }
        assert(init.take(j as int) =~= init);
        j += 1;
    }
    assert(oids@.take(oids.len() as int) =~= oids@);
    pairs
}

/// Puts the last element of `places` where it belongs among the others, which
/// are sorted.
pub(crate) fn settle_last_root(graph: &CommitGraph, cache: &MergeBaseCache, places: &mut Vec<usize>)
    requires
        old(places).len() > 0,
        forall|k: int| 0 <= k < old(places).len() ==> (#[trigger] old(places)[k]) < graph@.len(),
    ensures
        final(places)@ == insert_sorted(
            old(places)@.drop_last(),
            old(places)@.last(),
            root_comes_after(graph@, cache@),
        ),
        forall|k: int| 0 <= k < final(places).len() ==> (#[trigger] final(places)[k]) < graph@.len(),
{
    let ghost after = root_comes_after(graph@, cache@);
    let ghost sorted = old(places)@.drop_last();
    let ghost item = old(places)@.last();
    let mut j: usize = places.len() - 1;
    assert(places@.subrange(0, j as int) =~= sorted);
    assert(places@.subrange(j + 1, places.len() as int) =~= Seq::<usize>::empty());
    assert(insert_sorted(sorted, item, after) + Seq::<usize>::empty() =~= insert_sorted(
        sorted,
        item,
        after,
    ));
    while j > 0
        invariant
            j < places.len(),
            places.len() == old(places).len(),
            places[j as int] == item,
            sorted == old(places)@.drop_last(),
            item == old(places)@.last(),
            forall|k: int| 0 <= k < places.len() ==> (#[trigger] places[k]) < graph@.len(),
            after == root_comes_after(graph@, cache@),
            insert_sorted(places@.subrange(0, j as int), item, after) + places@.subrange(
                j + 1,
                places.len() as int,
            ) == insert_sorted(sorted, item, after),
        decreases j,
    {
        let left = places[j - 1];
        let moving = places[j];
        let ghost before = places@;
        let goes_after = match (graph.node(left), graph.node(moving)) {
            (Some(left_node), Some(item_node)) => {
                let merge_base = match cache.get_merge_base_oid(left_node.oid, item_node.oid) {
                    Some(answer) => answer,
                    None => None,
                };
                let order = compare_roots(
                    RootCommit { oid: left_node.oid, time: Some(left_node.time) },
                    RootCommit { oid: item_node.oid, time: Some(item_node.time) },
                    merge_base,
                );
                order == Order::Greater
            },
            _ => false,
        };
        assert(goes_after == after(left, item));
        if !goes_after {
            proof {
                let head = places@.subrange(0, j as int);
                assert(head.last() == left);
                assert(insert_sorted(head, item, after) == head.push(item));
                assert(head.push(item) + places@.subrange(j + 1, places.len() as int) =~= places@);
                assert(places@ == insert_sorted(sorted, item, after));
            }
            return ;
        }
        places[j] = left;
        places[j - 1] = moving;
        proof {
            let head = before.subrange(0, j as int);
            assert(head.last() == left);
            assert(head.drop_last() =~= places@.subrange(0, j - 1));
            assert(insert_sorted(head, item, after) == insert_sorted(
                head.drop_last(),
                item,
                after,
            ).push(left));
            assert(places@.subrange(j as int, places.len() as int) =~= seq![left]
                + before.subrange(j + 1, places.len() as int));
            assert(insert_sorted(head.drop_last(), item, after).push(left) + before.subrange(
                j + 1,
                places.len() as int,
            ) =~= insert_sorted(head.drop_last(), item, after) + (seq![left] + before.subrange(
                j + 1,
                places.len() as int,
            )));
        }
        j -= 1;
    }
    proof {
        assert(places@.subrange(0, 0) =~= Seq::<usize>::empty());
        assert(insert_sorted(Seq::<usize>::empty(), item, after) =~= seq![item]);
        assert(seq![item] + places@.subrange(1, places.len() as int) =~= places@);
    }
}

/// The roots of the graph, the commits without a parent in it, in the order in
/// which the smartlog shows them. A root that is the merge base of itself and
/// another comes before that other; roots that are not related come in the
/// order of their times. `cache` holds the merge bases; a pair that it does not
/// hold counts as not related.
pub fn split_commit_graph_by_roots(graph: &CommitGraph, cache: &MergeBaseCache) -> (roots: Vec<
    usize,
>)
    ensures
        roots@ == spec_split_by_roots(graph@, cache@),
        forall|k: int| 0 <= k < roots.len() ==> (#[trigger] roots[k]) < graph@.len(),
{
    let ghost after = root_comes_after(graph@, cache@);
    let mut roots: Vec<usize> = Vec::new();
    let mut i: usize = 0;
    while i < graph.len()
        invariant
            i <= graph@.len(),
            after == root_comes_after(graph@, cache@),
            roots@ == sort_by(root_places(graph@, i as nat), after),
            forall|k: int| 0 <= k < roots.len() ==> (#[trigger] roots[k]) < graph@.len(),
        decreases graph@.len() - i,
    {
        let is_root = match graph.node(i) {
            Some(node) => node.parent.is_none(),
            None => false,
        };
        if is_root {
            let ghost sorted = roots@;
            roots.push(i);
            assert(roots@.drop_last() =~= sorted);
            settle_last_root(graph, cache, &mut roots);
            proof {
                let found = root_places(graph@, (i + 1) as nat);
                assert(found.drop_last() =~= root_places(graph@, i as nat));
            }
        }
        i += 1;
    }
    roots
}

} // verus!
