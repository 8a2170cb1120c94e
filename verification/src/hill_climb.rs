//! Hill climbing: local search over the 2-swap neighbourhood that always
//! moves to the best neighbour, as long as that neighbour is strictly shorter.

use crate::geometry::Node;
use crate::neighbourhood::{
    first_shortest, is_first_shortest, lemma_first_shortest_is, lemma_neighbours_are_tours,
    lemma_neighbours_len, lemma_swap_is_neighbour, neighbour_row, neighbour_rows, neighbours,
    routes_of,
};
use crate::random::random_path;
use crate::tour::{in_range, is_tour, lemma_single_node_tour, swapped, tour_length};
use crate::tsp::{Route, Tsp};
use vstd::prelude::*;

verus! {

/// The first shortest route of the 2-swap neighbourhood of `route`.
/// Meaningful where `route` has at least two stops.
pub open spec fn best_neighbour(nodes: Seq<Node>, route: Seq<usize>) -> Seq<usize> {
    neighbours(route)[first_shortest(nodes, neighbours(route))]
}

/// Hill climbing moves on from `route`: it has neighbours, and the best of
/// them is strictly shorter.
pub open spec fn improves(nodes: Seq<Node>, route: Seq<usize>) -> bool {
    route.len() >= 2 && tour_length(nodes, best_neighbour(nodes, route)) < tour_length(nodes, route)
}

/// The route at which hill climbing stops when it starts from `route`: it
/// moves to the best neighbour for as long as that is an improvement.
pub open spec fn climb(nodes: Seq<Node>, route: Seq<usize>) -> Seq<usize>
    decreases tour_length(nodes, route),
{
    if improves(nodes, route) {
        climb(nodes, best_neighbour(nodes, route))
    } else {
        route
    }
}

/// Hill climbing never ends on a longer tour than the one it started from.
pub proof fn lemma_climb_never_lengthens(nodes: Seq<Node>, start: Seq<usize>)
    ensures
        tour_length(nodes, climb(nodes, start)) <= tour_length(nodes, start),
    decreases tour_length(nodes, start),
{
    if improves(nodes, start) {
        lemma_climb_never_lengthens(nodes, best_neighbour(nodes, start));
    }
}

/// No exchange of two stops makes `route` shorter.
pub open spec fn is_local_optimum(nodes: Seq<Node>, route: Seq<usize>) -> bool {
    forall|i: int, j: int|
        0 <= i < j < route.len() ==> tour_length(nodes, #[trigger] swapped(route, i, j))
            >= tour_length(nodes, route)
}

/// `route` is where hill climbing stops from some tour of `nodes`.
pub open spec fn is_climb_result(nodes: Seq<Node>, route: Seq<usize>) -> bool {
    exists|start: Seq<usize>| is_tour(start, nodes.len()) && route == #[trigger] climb(nodes, start)
}

impl Tsp {
    /// Solves the instance by hill climbing from a random tour. The result is
    /// a tour that no exchange of two stops can shorten; which one depends on
    /// the start that was drawn.
    pub fn hill_climb(&self) -> (route: Route)
        ensures
            route.is_tour_of(self@),
            is_local_optimum(self@, route.path@),
            is_climb_result(self@, route.path@),
            self@.len() == 1 ==> route.path@ == seq![0usize] && route.distance == 0,
    {
        let start = random_path(self.size());
        let route = self.hill_climb_from(start);
        proof {
            if self@.len() == 1 {
                lemma_single_node_tour(self@, route.path@);
            }
        }
        route
    }

    /// Climbs from `start`: generates all neighbours of the current tour,
    /// takes the first shortest of them, and moves there if it is strictly
    /// shorter than the current tour; stops at the first tour without such a
    /// neighbour. A tour of fewer than two nodes has no neighbours and is
    /// returned as it is.
    pub fn hill_climb_from(&self, start: Vec<usize>) -> (route: Route)
        requires
            is_tour(start@, self@.len()),
        ensures
            route.path@ == climb(self@, start@),
            route.is_tour_of(self@),
            route.distance <= tour_length(self@, start@),
            is_local_optimum(self@, route.path@),
    {
        let distance = self.calc_path_distance(&start);
        let mut current = Route { path: start, distance };
        if self.size() < 2 {
            return current;
        }
        loop
            invariant
                self@.len() >= 2,
                current.is_tour_of(self@),
                climb(self@, current.path@) == climb(self@, start@),
                current.distance <= tour_length(self@, start@),
            ensures
                current.is_tour_of(self@),
                current.path@ == climb(self@, start@),
                current.distance <= tour_length(self@, start@),
                is_local_optimum(self@, current.path@),
            decreases current.distance,
        {
            let neighbours = self.gen_neighbours(&current.path);
            proof {
                lemma_neighbours_len(current.path@);
                lemma_neighbours_are_tours(current.path@, self@.len());
                assert forall|k: int| 0 <= k < neighbours@.len() implies in_range(
                    (#[trigger] neighbours@[k])@,
                    self@.len(),
                ) by {
                    assert(neighbours@[k]@ == routes_of(neighbours@)[k]);
                }
            }
            let best_neighbour = self.get_best_neighbour(neighbours.as_slice());
            if best_neighbour.distance >= current.distance {
                proof {
                    let around = routes_of(neighbours@);
                    let k = first_shortest(self@, around);
                    assert forall|i: int, j: int| 0 <= i < j < current.path@.len() implies tour_length(
                        self@,
                        #[trigger] swapped(current.path@, i, j),
                    ) >= tour_length(self@, current.path@) by {
                        let at = lemma_swap_is_neighbour(current.path@, current.path@.len(), i, j);
                        assert(tour_length(self@, around[at]) >= tour_length(self@, around[k]));
                    }
                }
                break ;
            }
            current = best_neighbour;
        }
        current
    }

    /// Generates the 2-swap neighbourhood of `route`: one route for every pair
    /// of positions `i < j`, with the stops at those positions exchanged.
    pub fn gen_neighbours(&self, route: &Vec<usize>) -> (result: Vec<Vec<usize>>)
        ensures
            routes_of(result@) == neighbours(route@),
    {
        let n = route.len();
        let mut result: Vec<Vec<usize>> = Vec::new();
        let mut i: usize = 0;
        while i < n
            invariant
                n == route.len(),
                i <= n,
                result.len() == neighbour_rows(route@, i as nat).len(),
                forall|k: int|
                    0 <= k < result.len() ==> (#[trigger] result[k])@ == neighbour_rows(
                        route@,
                        i as nat,
                    )[k],
            decreases n - i,
        {
            let ghost done = neighbour_rows(route@, i as nat);
            let mut j: usize = i + 1;
            while j < n
                invariant
                    n == route.len(),
                    i < j <= n,
                    done == neighbour_rows(route@, i as nat),
                    result.len() == done.len() + (j - i - 1),
                    forall|k: int| 0 <= k < done.len() ==> (#[trigger] result[k])@ == done[k],
                    forall|k: int|
                        done.len() <= k < result.len() ==> (#[trigger] result[k])@ == swapped(
                            route@,
                            i as int,
                            i + 1 + (k - done.len()),
                        ),
                decreases n - j,
            {
                let mut neighbour = route.clone();
                neighbour[i] = route[j];
                neighbour[j] = route[i];
                assert(neighbour@ =~= swapped(route@, i as int, j as int));
                result.push(neighbour);
                j += 1;
            }
            proof {
                let row = neighbour_row(route@, i as int);
                let next = neighbour_rows(route@, (i + 1) as nat);
                assert(next == done + row);
                assert forall|k: int| 0 <= k < result.len() implies (#[trigger] result[k])@
                    == next[k] by {
                    if k >= done.len() {
                        assert(next[k] == row[k - done.len()]);
                    }
                }
            }
            i += 1;
        }
        assert(routes_of(result@) =~= neighbours(route@));
        result
    }

    /// Finds the first shortest of `neighbours` and returns it with its
    /// length.
    pub fn get_best_neighbour(&self, neighbours: &[Vec<usize>]) -> (best: Route)
        requires
            neighbours@.len() > 0,
            forall|k: int|
                0 <= k < neighbours@.len() ==> in_range((#[trigger] neighbours@[k])@, self@.len()),
        ensures
            is_first_shortest(
                self@,
                routes_of(neighbours@),
                first_shortest(self@, routes_of(neighbours@)),
            ),
            best.path@ == routes_of(neighbours@)[first_shortest(self@, routes_of(neighbours@))],
            best.distance == tour_length(self@, best.path@),
    {
        let ghost routes = routes_of(neighbours@);
        let mut best_path_index: usize = 0;
        let mut best_distance = self.calc_path_distance(&neighbours[0]);
        let mut index: usize = 1;
        while index < neighbours.len()
            invariant
                routes == routes_of(neighbours@),
                1 <= index <= neighbours@.len(),
                forall|k: int|
                    0 <= k < neighbours@.len() ==> in_range(
                        (#[trigger] neighbours@[k])@,
                        self@.len(),
                    ),
                is_first_shortest(self@, routes.take(index as int), best_path_index as int),
                best_distance == tour_length(self@, routes[best_path_index as int]),
            decreases neighbours@.len() - index,
        {
            let current_distance = self.calc_path_distance(&neighbours[index]);
            proof {
                let seen = routes.take(index as int);
                let more = routes.take(index + 1);
                assert(routes[index as int] == neighbours@[index as int]@);
                assert forall|t: int| 0 <= t < more.len() implies more[t] == routes[t] by {}
                assert forall|t: int| 0 <= t < seen.len() implies seen[t] == routes[t] by {}
                if current_distance < best_distance {
                    assert forall|t: int| 0 <= t < index implies tour_length(
                        self@,
                        #[trigger] more[t],
                    ) > tour_length(self@, more[index as int]) by {
                        assert(tour_length(self@, seen[t]) >= best_distance);
                    }
                    assert(is_first_shortest(self@, more, index as int));
                } else {
                    assert forall|t: int| best_path_index <= t < more.len() implies tour_length(
                        self@,
                        #[trigger] more[t],
                    ) >= best_distance by {
                        if t < index {
                            assert(tour_length(self@, seen[t]) >= best_distance);
                        }
                    }
                    assert forall|t: int| 0 <= t < best_path_index implies tour_length(
                        self@,
                        #[trigger] more[t],
                    ) > best_distance by {
                        assert(tour_length(self@, seen[t]) > best_distance);
                    }
                    assert(is_first_shortest(self@, more, best_path_index as int));
                }
            }
            if current_distance < best_distance {
                best_path_index = index;
                best_distance = current_distance;
            }
            index += 1;
        }
        proof {
            assert(routes.take(index as int) =~= routes);
            lemma_first_shortest_is(self@, routes, best_path_index as int);
        }
        Route { path: neighbours[best_path_index].clone(), distance: best_distance }
    }
}

} // verus!
