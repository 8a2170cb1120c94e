//! Exact search: every tour is evaluated and the first shortest is kept.

use crate::neighbourhood::{first_shortest, is_first_shortest, routes_of};
use crate::permutations::{heap_permutations, permutations};
use crate::tour::{
    identity_path, identity_route, in_range, is_tour, lemma_rearranged_identity_is_tour,
    lemma_single_node_tour, lemma_tour_rearranges_identity, tour_length,
};
use crate::tsp::{Route, Tsp};
use vstd::prelude::*;

verus! {

impl Tsp {
    /// Solves the instance exactly: enumerates every order of the nodes,
    /// evaluates each, and returns the first shortest in the order of the
    /// enumeration. No tour of the instance is shorter than the result. An
    /// instance without nodes yields the empty route, of length zero.
    ///
    /// The enumeration holds all `n!` orders in memory at once; the caller
    /// decides for which sizes that is acceptable.
    pub fn brute_force(&self) -> (route: Route)
        ensures
            route.is_tour_of(self@),
            forall|other: Seq<usize>| #[trigger]
                is_tour(other, self@.len()) ==> route.distance <= tour_length(self@, other),
            ({
                let all = heap_permutations(identity_route(self@.len()));
                &&& is_first_shortest(self@, all, first_shortest(self@, all))
                &&& route.path@ == all[first_shortest(self@, all)]
            }),
            self@.len() == 1 ==> route.path@ == seq![0usize] && route.distance == 0,
    {
        let n = self.size();
        let orders = permutations(identity_path(n));
        let ghost all = routes_of(orders@);
        proof {
            let base = identity_route(n as nat);
            assert(all.contains(base));
            assert forall|k: int| 0 <= k < orders@.len() implies in_range(
                (#[trigger] orders@[k])@,
                self@.len(),
            ) by {
                assert(all[k] == orders@[k]@);
                lemma_rearranged_identity_is_tour(all[k], n as nat);
            }
        }
        let best = self.get_best_neighbour(orders.as_slice());
        proof {
            let k = first_shortest(self@, all);
            lemma_rearranged_identity_is_tour(all[k], n as nat);
            assert forall|other: Seq<usize>| #[trigger]
                is_tour(other, self@.len()) implies best.distance <= tour_length(
                self@,
                other,
            ) by {
                lemma_tour_rearranges_identity(other, n as nat);
                assert(all.contains(other));
                let at = choose|at: int| 0 <= at < all.len() && all[at] == other;
                assert(tour_length(self@, all[at]) >= tour_length(self@, all[k]));
            }
            if n == 1 {
                lemma_single_node_tour(self@, best.path@);
            }
        }
        best
    }
}

} // verus!
