//! Tours over a node sequence and their length.
//!
//! A route is a sequence of positions in the node sequence. A tour of `n`
//! nodes is a route that names each position below `n` exactly once; it is
//! travelled as a cycle, from the last position back to the first.

use crate::geometry::{distance, lemma_distance_symmetric, lemma_distance_zero, Node};
use vstd::prelude::*;

verus! {

/// Every entry of `route` is a position below `n`.
pub open spec fn in_range(route: Seq<usize>, n: nat) -> bool {
    forall|i: int| 0 <= i < route.len() ==> (#[trigger] route[i]) < n
}

/// `route` visits each of the positions `0, ..., n - 1` exactly once.
pub open spec fn is_tour(route: Seq<usize>, n: nat) -> bool {
    &&& route.len() == n
    &&& in_range(route, n)
    &&& route.no_duplicates()
}

/// The tour that visits the nodes in the order in which they are stored.
pub open spec fn identity_route(n: nat) -> Seq<usize> {
    Seq::new(n, |i: int| i as usize)
}

/// `route` with the entries at positions `i` and `j` exchanged.
pub open spec fn swapped(route: Seq<usize>, i: int, j: int) -> Seq<usize> {
    route.update(i, route[j]).update(j, route[i])
}

/// `route` started `k` stops later; the first `k` stops move to the end.
pub open spec fn rotated(route: Seq<usize>, k: int) -> Seq<usize> {
    route.subrange(k, route.len() as int) + route.subrange(0, k)
}

/// The distance between the nodes stored at positions `a` and `b`.
pub open spec fn leg(nodes: Seq<Node>, a: usize, b: usize) -> nat {
    distance(nodes[a as int], nodes[b as int])
}

/// The length of the open path along `route`: the sum of the legs between
/// consecutive stops.
pub open spec fn path_length(nodes: Seq<Node>, route: Seq<usize>) -> nat
    decreases route.len(),
{
    if route.len() < 2 {
        0
    } else {
        path_length(nodes, route.drop_last()) + leg(
            nodes,
            route[route.len() - 2],
            route[route.len() - 1],
        )
    }
}

/// The length of the closed tour along `route`: the open path plus the leg
/// between the first and the last stop. The empty route has length zero.
pub open spec fn tour_length(nodes: Seq<Node>, route: Seq<usize>) -> nat {
    if route.len() == 0 {
        0
    } else {
        path_length(nodes, route) + leg(nodes, route[0], route[route.len() - 1])
    }
}

/// The open path can also be summed from the front: its first leg plus the
/// path along the remaining stops.
pub proof fn lemma_path_length_front(nodes: Seq<Node>, route: Seq<usize>)
    requires
        route.len() >= 2,
    ensures
        path_length(nodes, route) == leg(nodes, route[0], route[1]) + path_length(
            nodes,
            route.drop_first(),
        ),
    decreases route.len(),
{
    let n = route.len() as int;
    if n == 2 {
        assert(path_length(nodes, route.drop_last()) == 0);
        assert(path_length(nodes, route.drop_first()) == 0);
    } else {
        let front = route.drop_last();
        lemma_path_length_front(nodes, front);
        assert(front.drop_first() =~= route.drop_first().drop_last());
    }
}

/// A route with a single stop is a tour of length zero.
pub proof fn lemma_single_stop_length(nodes: Seq<Node>, route: Seq<usize>)
    requires
        route.len() == 1,
    ensures
        tour_length(nodes, route) == 0,
{
    lemma_distance_zero(nodes[route[0] as int], nodes[route[0] as int]);
}

/// Starting a tour one stop later does not change its length.
proof fn lemma_rotate_one(nodes: Seq<Node>, route: Seq<usize>)
    requires
        route.len() >= 1,
    ensures
        tour_length(nodes, rotated(route, 1)) == tour_length(nodes, route),
{
    let n = route.len() as int;
    let turned = rotated(route, 1);
    if n == 1 {
        assert(turned =~= route);
    } else {
        lemma_path_length_front(nodes, route);
        assert(turned.drop_last() =~= route.drop_first());
        assert(turned[n - 2] == route[n - 1]);
        assert(turned[n - 1] == route[0]);
        assert(turned[0] == route[1]);
        lemma_distance_symmetric(nodes[route[n - 1] as int], nodes[route[0] as int]);
        lemma_distance_symmetric(nodes[route[1] as int], nodes[route[0] as int]);
    }
}

/// The length of a tour does not depend on the stop at which it starts:
/// every cyclic rotation of a route has the same tour length.
pub proof fn lemma_tour_length_rotation(nodes: Seq<Node>, route: Seq<usize>, k: int)
    requires
        0 <= k <= route.len(),
    ensures
        tour_length(nodes, rotated(route, k)) == tour_length(nodes, route),
    decreases k,
{
    if k == 0 {
        assert(rotated(route, 0) =~= route);
    } else {
        lemma_tour_length_rotation(nodes, route, k - 1);
        let before = rotated(route, k - 1);
        lemma_rotate_one(nodes, before);
        assert(rotated(before, 1) =~= rotated(route, k));
    }
}

/// The open path has the same length in both directions.
proof fn lemma_path_length_reversal(nodes: Seq<Node>, route: Seq<usize>)
    ensures
        path_length(nodes, route.reverse()) == path_length(nodes, route),
    decreases route.len(),
{
    let n = route.len() as int;
    let back = route.reverse();
    if n >= 2 {
        lemma_path_length_front(nodes, back);
        assert(back.drop_first() =~= route.drop_last().reverse());
        lemma_path_length_reversal(nodes, route.drop_last());
        assert(back[0] == route[n - 1]);
        assert(back[1] == route[n - 2]);
        lemma_distance_symmetric(nodes[route[n - 1] as int], nodes[route[n - 2] as int]);
    }
}

/// The length of a tour does not depend on the direction of travel: a route
/// and its reverse have the same tour length.
pub proof fn lemma_tour_length_reversal(nodes: Seq<Node>, route: Seq<usize>)
    ensures
        tour_length(nodes, route.reverse()) == tour_length(nodes, route),
{
    let n = route.len() as int;
    if n > 0 {
        let back = route.reverse();
        lemma_path_length_reversal(nodes, route);
        assert(back[0] == route[n - 1]);
        assert(back[n - 1] == route[0]);
        lemma_distance_symmetric(nodes[route[n - 1] as int], nodes[route[0] as int]);
    }
}

/// Builds the identity route of `n` stops.
pub fn identity_path(n: usize) -> (path: Vec<usize>)
    ensures
        path@ == identity_route(n as nat),
{
    let mut path: Vec<usize> = Vec::new();
    let mut next: usize = 0;
    while next < n
        invariant
            next <= n,
            path@ == identity_route(next as nat),
        decreases n - next,
    {
        path.push(next);
        assert(path@ =~= identity_route((next + 1) as nat));
        next += 1;
    }
    path
}

/// A tour of a single node is the route `[0]`, of length zero.
pub proof fn lemma_single_node_tour(nodes: Seq<Node>, route: Seq<usize>)
    requires
        is_tour(route, 1),
    ensures
        route == seq![0usize],
        tour_length(nodes, route) == 0,
{
    assert(route[0] < 1);
    assert(route =~= seq![0usize]);
    lemma_single_stop_length(nodes, route);
}

/// The identity route is a tour.
pub proof fn lemma_identity_is_tour(n: nat)
    requires
        n <= usize::MAX + 1,
    ensures
        is_tour(identity_route(n), n),
{
}

/// Exchanging two stops of a tour gives a tour.
pub proof fn lemma_swapped_is_tour(route: Seq<usize>, n: nat, i: int, j: int)
    requires
        is_tour(route, n),
        0 <= i < n,
        0 <= j < n,
    ensures
        is_tour(swapped(route, i, j), n),
{
    let other = swapped(route, i, j);
    assert forall|a: int, b: int| 0 <= a < other.len() && 0 <= b < other.len() && a != b implies other[a]
        != other[b] by {
        let src_a = if a == i { j } else if a == j { i } else { a };
        let src_b = if b == i { j } else if b == j { i } else { b };
        assert(other[a] == route[src_a]);
        assert(other[b] == route[src_b]);
    }
}

/// The stops of a route, as a set of integers.
spec fn stops_of(route: Seq<usize>) -> Set<int> {
    route.map_values(|v: usize| v as int).to_set()
}

/// A route without repeated stops has as many distinct stops as entries.
proof fn lemma_stops_count(route: Seq<usize>)
    requires
        route.no_duplicates(),
    ensures
        stops_of(route).finite(),
        stops_of(route).len() == route.len(),
        forall|i: int| 0 <= i < route.len() ==> stops_of(route).contains(#[trigger] route[i] as int),
        forall|v: usize| stops_of(route).contains(v as int) ==> route.contains(v),
{
    let ints = route.map_values(|v: usize| v as int);
    assert forall|i: int, j: int| 0 <= i < ints.len() && 0 <= j < ints.len() && i != j implies ints[i]
        != ints[j] by {
        assert(ints[i] == route[i] as int);
        assert(ints[j] == route[j] as int);
    }
    ints.unique_seq_to_set();
    assert forall|i: int| 0 <= i < route.len() implies stops_of(route).contains(
        #[trigger] route[i] as int,
    ) by {
        assert(ints[i] == route[i] as int);
        assert(ints.contains(ints[i]));
    }
    assert forall|v: usize| stops_of(route).contains(v as int) implies route.contains(v) by {
        let i = choose|i: int| 0 <= i < ints.len() && ints[i] == v as int;
        assert(route[i] == v);
    }
}

/// A tour cannot have more stops than there are positions.
pub proof fn lemma_tour_size_bound(route: Seq<usize>, n: nat)
    requires
        is_tour(route, n),
    ensures
        n <= usize::MAX + 1,
{
    let stops = stops_of(route);
    let all = vstd::set_lib::set_int_range(0, usize::MAX + 1);
    lemma_stops_count(route);
    vstd::set_lib::lemma_int_range(0, usize::MAX + 1);
    assert forall|v: int| stops.contains(v) implies all.contains(v) by {
        let ints = route.map_values(|v: usize| v as int);
        let i = choose|i: int| 0 <= i < ints.len() && ints[i] == v;
        assert(ints[i] == route[i] as int);
    }
    vstd::set_lib::lemma_len_subset(stops, all);
}

/// A tour visits every position below `n`.
pub proof fn lemma_tour_visits_all(route: Seq<usize>, n: nat)
    requires
        is_tour(route, n),
    ensures
        forall|v: usize| v < n ==> route.contains(v),
{
    let stops = stops_of(route);
    let all = vstd::set_lib::set_int_range(0, n as int);
    lemma_stops_count(route);
    vstd::set_lib::lemma_int_range(0, n as int);
    assert forall|v: int| stops.contains(v) implies all.contains(v) by {
        let ints = route.map_values(|v: usize| v as int);
        let i = choose|i: int| 0 <= i < ints.len() && ints[i] == v;
        assert(ints[i] == route[i] as int);
        assert(route[i] < n);
    }
    vstd::set_lib::lemma_subset_equality(stops, all);
    assert forall|v: usize| v < n implies route.contains(v) by {
        assert(all.contains(v as int));
    }
}

/// A rearrangement of the identity route is a tour.
pub proof fn lemma_rearranged_identity_is_tour(route: Seq<usize>, n: nat)
    requires
        n <= usize::MAX + 1,
        route.to_multiset() == identity_route(n).to_multiset(),
    ensures
        is_tour(route, n),
{
    broadcast use vstd::seq_lib::group_to_multiset_ensures;

    let base = identity_route(n);
    assert(route.len() == route.to_multiset().len());
    assert(base.len() == base.to_multiset().len());
    assert forall|i: int| 0 <= i < route.len() implies (#[trigger] route[i]) < n by {
        assert(route.contains(route[i]));
        assert(route.to_multiset().count(route[i]) > 0);
        assert(base.contains(route[i]));
    }
    base.lemma_multiset_has_no_duplicates();
    route.lemma_multiset_has_no_duplicates_conv();
}

/// Every tour is a rearrangement of the identity route.
pub proof fn lemma_tour_rearranges_identity(route: Seq<usize>, n: nat)
    requires
        is_tour(route, n),
    ensures
        route.to_multiset() == identity_route(n).to_multiset(),
{
    broadcast use vstd::seq_lib::group_to_multiset_ensures;

    let base = identity_route(n);
    lemma_tour_size_bound(route, n);
    lemma_tour_visits_all(route, n);
    route.lemma_multiset_has_no_duplicates();
    base.lemma_multiset_has_no_duplicates();
    assert forall|v: usize| route.to_multiset().count(v) == base.to_multiset().count(v) by {
        if v < n {
            assert(base[v as int] == v);
            assert(base.contains(v));
            assert(route.contains(v));
            assert(route.to_multiset().contains(v));
            assert(base.to_multiset().contains(v));
        } else {
            if route.contains(v) {
                let i = choose|i: int| 0 <= i < route.len() && route[i] == v;
                assert(route[i] < n);
            }
            if base.contains(v) {
                let i = choose|i: int| 0 <= i < base.len() && base[i] == v;
                assert(base[i] == i as usize);
            }
        }
    }
    assert(route.to_multiset() =~= base.to_multiset());
}

} // verus!
