//! The 2-swap neighbourhood of a route and the choice of the shortest among
//! several routes.

use crate::geometry::Node;
use crate::tour::{is_tour, lemma_swapped_is_tour, swapped, tour_length};
use vstd::prelude::*;

verus! {

/// The routes that a list of vectors holds, each as a sequence.
pub open spec fn routes_of(list: Seq<Vec<usize>>) -> Seq<Seq<usize>> {
    list.map_values(|route: Vec<usize>| route@)
}

/// The neighbours of `route` that exchange stop `i` with a later stop, in the
/// order of that later stop.
pub open spec fn neighbour_row(route: Seq<usize>, i: int) -> Seq<Seq<usize>> {
    Seq::new((route.len() - 1 - i) as nat, |t: int| swapped(route, i, i + 1 + t))
}

/// The rows of neighbours for the first `k` stops, one after the other.
pub open spec fn neighbour_rows(route: Seq<usize>, k: nat) -> Seq<Seq<usize>>
    decreases k,
{
    if k == 0 {
        Seq::empty()
    } else {
        neighbour_rows(route, (k - 1) as nat) + neighbour_row(route, k - 1)
    }
}

/// The 2-swap neighbourhood of `route`: for every pair of positions `i < j`
/// the route with those two stops exchanged, ordered by `i` and then by `j`.
pub open spec fn neighbours(route: Seq<usize>) -> Seq<Seq<usize>> {
    neighbour_rows(route, route.len())
}

/// The number of pairs `i < j` below `n`.
pub open spec fn pair_count(n: nat) -> nat
    decreases n,
{
    if n == 0 {
        0
    } else {
        pair_count((n - 1) as nat) + (n - 1) as nat
    }
}

/// Counts the neighbours in the first `k` rows: row `i` holds
/// `route.len() - 1 - i` of them.
pub proof fn lemma_neighbour_rows_len(route: Seq<usize>, k: nat)
    requires
        k <= route.len(),
    ensures
        neighbour_rows(route, k).len() + pair_count((route.len() - k) as nat) == pair_count(
            route.len(),
        ),
    decreases k,
{
    let n = route.len();
    if k == 0 {
    } else {
        lemma_neighbour_rows_len(route, (k - 1) as nat);
        assert(pair_count((n - k + 1) as nat) == pair_count((n - k) as nat) + (n - k));
    }
}

/// A route of `n` stops has one neighbour for each of the `n * (n - 1) / 2`
/// pairs of positions.
pub proof fn lemma_neighbours_len(route: Seq<usize>)
    ensures
        neighbours(route).len() == pair_count(route.len()),
        2 * pair_count(route.len()) == route.len() * (route.len() - 1),
{
    lemma_neighbour_rows_len(route, route.len());
    lemma_pair_count_closed_form(route.len());
}

/// Twice the number of pairs below `n` is `n * (n - 1)`.
pub proof fn lemma_pair_count_closed_form(n: nat)
    ensures
        2 * pair_count(n) == n * (n - 1),
    decreases n,
{
    if n > 0 {
        lemma_pair_count_closed_form((n - 1) as nat);
        assert(2 * pair_count(n) == (n - 1) * (n - 2) + 2 * (n - 1));
        assert((n - 1) * (n - 2) + 2 * (n - 1) == n * (n - 1)) by (nonlinear_arith);
    } else {
        assert(n * (n - 1) == 0) by (nonlinear_arith)
            requires
                n == 0,
        ;
    }
}

/// Every route among the first `k` rows exchanges two distinct positions of
/// `route`, the first of them below `k`.
pub proof fn lemma_neighbour_is_swap(route: Seq<usize>, k: nat, index: int) -> (pair: (int, int))
    requires
        k <= route.len(),
        0 <= index < neighbour_rows(route, k).len(),
    ensures
        0 <= pair.0 < pair.1 < route.len(),
        pair.0 < k,
        neighbour_rows(route, k)[index] == swapped(route, pair.0, pair.1),
    decreases k,
{
    let earlier = neighbour_rows(route, (k - 1) as nat);
    if index < earlier.len() {
        lemma_neighbour_is_swap(route, (k - 1) as nat, index)
    } else {
        (k - 1, k + (index - earlier.len()))
    }
}

/// Every exchange of two distinct positions of `route`, the first of them
/// below `k`, is among the first `k` rows.
pub proof fn lemma_swap_is_neighbour(route: Seq<usize>, k: nat, i: int, j: int) -> (index: int)
    requires
        k <= route.len(),
        0 <= i < j < route.len(),
        i < k,
    ensures
        0 <= index < neighbour_rows(route, k).len(),
        neighbour_rows(route, k)[index] == swapped(route, i, j),
    decreases k,
{
    let earlier = neighbour_rows(route, (k - 1) as nat);
    if i < k - 1 {
        lemma_swap_is_neighbour(route, (k - 1) as nat, i, j)
    } else {
        earlier.len() + (j - i - 1)
    }
}

/// Every neighbour of a tour is a tour.
pub proof fn lemma_neighbours_are_tours(route: Seq<usize>, n: nat)
    requires
        is_tour(route, n),
    ensures
        forall|index: int|
            0 <= index < neighbours(route).len() ==> is_tour(#[trigger] neighbours(route)[index], n),
{
    assert forall|index: int| 0 <= index < neighbours(route).len() implies is_tour(
        #[trigger] neighbours(route)[index],
        n,
    ) by {
        let pair = lemma_neighbour_is_swap(route, route.len(), index);
        lemma_swapped_is_tour(route, n, pair.0, pair.1);
    }
}

/// `routes[k]` is the first shortest of `routes`: every earlier route is
/// strictly longer, and no later one is shorter.
pub open spec fn is_first_shortest(nodes: Seq<Node>, routes: Seq<Seq<usize>>, k: int) -> bool {
    &&& 0 <= k < routes.len()
    &&& forall|t: int| 0 <= t < k ==> tour_length(nodes, #[trigger] routes[t]) > tour_length(nodes, routes[k])
    &&& forall|t: int|
        k <= t < routes.len() ==> tour_length(nodes, #[trigger] routes[t]) >= tour_length(nodes, routes[k])
}

/// The position of the first shortest of `routes`. Meaningful where `routes`
/// is not empty.
pub open spec fn first_shortest(nodes: Seq<Node>, routes: Seq<Seq<usize>>) -> int {
    choose|k: int| is_first_shortest(nodes, routes, k)
}

/// At most one position is that of the first shortest route.
pub proof fn lemma_first_shortest_unique(nodes: Seq<Node>, routes: Seq<Seq<usize>>, k1: int, k2: int)
    requires
        is_first_shortest(nodes, routes, k1),
        is_first_shortest(nodes, routes, k2),
    ensures
        k1 == k2,
{
    let at_k1 = tour_length(nodes, routes[k1]);
    let at_k2 = tour_length(nodes, routes[k2]);
    if k1 < k2 {
        assert(at_k1 > at_k2);
        assert(at_k2 >= at_k1);
    } else if k2 < k1 {
        assert(at_k2 > at_k1);
        assert(at_k1 >= at_k2);
    }
}

/// A position that satisfies the defining conditions is the one that
/// `first_shortest` names.
pub proof fn lemma_first_shortest_is(nodes: Seq<Node>, routes: Seq<Seq<usize>>, k: int)
    requires
        is_first_shortest(nodes, routes, k),
    ensures
        first_shortest(nodes, routes) == k,
{
    lemma_first_shortest_unique(nodes, routes, k, first_shortest(nodes, routes));
}

} // verus!
