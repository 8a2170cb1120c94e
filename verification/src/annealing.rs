//! Simulated annealing: a random walk over 2-swaps that keeps every move
//! which does not lengthen the tour, and a lengthening move only where the
//! increase stays within the tolerance of that step.
//!
//! The tolerance of a step stands for the Metropolis criterion. At
//! temperature `t`, with a draw `u` taken uniformly from the unit interval, a
//! lengthening by `delta` is kept where `exp(-delta / t) >= u`, that is where
//! `delta <= -t * ln(u)`. The right-hand side does not depend on the tour, so
//! the caller computes it ahead for every step, from its cooling schedule and
//! its draws, rounds it down to a whole grid unit, and hands it over as the
//! step's tolerance. Tour lengths are whole numbers, so rounding down loses
//! nothing.

use crate::geometry::Node;
use crate::random::{index_below, random_path};
use crate::tour::{is_tour, lemma_single_node_tour, lemma_swapped_is_tour, swapped, tour_length};
use crate::tsp::{Route, Tsp};
use vstd::prelude::*;

verus! {

/// One step of the walk: the two positions to exchange, and the largest
/// increase in tour length at which the exchange is kept.
#[derive(Clone, Copy, Debug)]
pub struct Move {
    pub first: usize,
    pub second: usize,
    pub tolerance: u128,
}

/// Both positions of every move are below `n`.
pub open spec fn moves_fit(moves: Seq<Move>, n: nat) -> bool {
    forall|k: int| 0 <= k < moves.len() ==> (#[trigger] moves[k]).first < n && moves[k].second < n
}

/// The tolerances of `moves`, in order.
pub open spec fn tolerances_of(moves: Seq<Move>) -> Seq<u128> {
    moves.map_values(|step: Move| step.tolerance)
}

/// The route after one step from `route`: the two stops are exchanged, and
/// the exchange is undone where it lengthens the tour by more than the
/// tolerance.
pub open spec fn anneal_step(nodes: Seq<Node>, route: Seq<usize>, step: Move) -> Seq<usize> {
    let candidate = swapped(route, step.first as int, step.second as int);
    if tour_length(nodes, candidate) > tour_length(nodes, route) + step.tolerance {
        route
    } else {
        candidate
    }
}

/// The route after all of `moves`, applied in order from `start`.
pub open spec fn anneal(nodes: Seq<Node>, start: Seq<usize>, moves: Seq<Move>) -> Seq<usize>
    decreases moves.len(),
{
    if moves.len() == 0 {
        start
    } else {
        anneal_step(nodes, anneal(nodes, start, moves.drop_last()), moves.last())
    }
}

/// `route` is where the walk ends from some tour of `nodes`, for some choice
/// of positions and the given tolerances.
pub open spec fn is_anneal_result(nodes: Seq<Node>, tolerances: Seq<u128>, route: Seq<usize>) -> bool {
    exists|start: Seq<usize>, moves: Seq<Move>|
        {
            &&& is_tour(start, nodes.len())
            &&& moves_fit(moves, nodes.len())
            &&& tolerances_of(moves) == tolerances
            &&& route == #[trigger] anneal(nodes, start, moves)
        }
}

/// Exchanges the stops at positions `i` and `j` of `path`.
fn swap_stops(path: &mut Vec<usize>, i: usize, j: usize)
    requires
        i < old(path)@.len(),
        j < old(path)@.len(),
    ensures
        final(path)@ == swapped(old(path)@, i as int, j as int),
{
    let at_i = path[i];
    let at_j = path[j];
    path[i] = at_j;
    path[j] = at_i;
    assert(path@ =~= swapped(old(path)@, i as int, j as int));
}

impl Tsp {
    /// Solves the instance by simulated annealing from a random tour, with
    /// one step for each entry of `tolerances`. Each step draws two positions
    /// independently and uniformly (they may coincide) and applies them with
    /// the step's tolerance, as `anneal` does.
    ///
    /// An instance without nodes has no positions to draw; it yields the
    /// empty route.
    pub fn simulated_annealing(&self, tolerances: &Vec<u128>) -> (route: Route)
        ensures
            route.is_tour_of(self@),
            self@.len() > 0 ==> is_anneal_result(self@, tolerances@, route.path@),
            self@.len() == 1 ==> route.path@ == seq![0usize] && route.distance == 0,
    {
        let n_nodes = self.size();
        let start = random_path(n_nodes);
        let mut moves: Vec<Move> = Vec::new();
        if n_nodes > 0 {
            let mut rng = rand::thread_rng();
            let mut k: usize = 0;
            while k < tolerances.len()
                invariant
                    n_nodes > 0,
                    k <= tolerances@.len(),
                    moves@.len() == k,
                    moves_fit(moves@, n_nodes as nat),
                    tolerances_of(moves@) == tolerances@.take(k as int),
                decreases tolerances@.len() - k,
            {
                let first = index_below(&mut rng, n_nodes);
                let second = index_below(&mut rng, n_nodes);
                moves.push(Move { first, second, tolerance: tolerances[k] });
                assert(tolerances_of(moves@) =~= tolerances@.take(k + 1));
                k += 1;
            }
            assert(tolerances@.take(k as int) =~= tolerances@);
        }
        let ghost from = start@;
        let route = self.anneal(start, &moves);
        proof {
            if n_nodes == 1 {
                lemma_single_node_tour(self@, route.path@);
            }
            if n_nodes > 0 {
                assert(route.path@ == anneal(self@, from, moves@));
            }
        }
        route
    }

    /// Walks from `start` through `moves`, one step each. A step evaluates
    /// the tour, exchanges the two stops, evaluates the tour again, and undoes
    /// the exchange where the tour grew by more than the step's tolerance; a
    /// tour that did not grow is always kept. After the last step the tour is
    /// evaluated once more and returned. Without moves the result is `start`.
    pub fn anneal(&self, start: Vec<usize>, moves: &Vec<Move>) -> (route: Route)
        requires
            is_tour(start@, self@.len()),
            moves_fit(moves@, self@.len()),
        ensures
            route.path@ == anneal(self@, start@, moves@),
            route.is_tour_of(self@),
            moves@.len() == 0 ==> route.path@ == start@,
    {
        let ghost from = start@;
        let mut path = start;
        let mut k: usize = 0;
        while k < moves.len()
            invariant
                k <= moves@.len(),
                moves_fit(moves@, self@.len()),
                is_tour(path@, self@.len()),
                path@ == anneal(self@, from, moves@.take(k as int)),
            decreases moves@.len() - k,
        {
            let step = moves[k];
            let ghost before = path@;
            let current_distance = self.calc_path_distance(&path);
            swap_stops(&mut path, step.first, step.second);
            proof {
                lemma_swapped_is_tour(before, self@.len(), step.first as int, step.second as int);
            }
            let new_distance = self.calc_path_distance(&path);
            if new_distance > current_distance && new_distance - current_distance > step.tolerance {
                swap_stops(&mut path, step.first, step.second);
                assert(path@ =~= before);
            }
            proof {
                let done = moves@.take(k + 1);
                assert(done.drop_last() =~= moves@.take(k as int));
                assert(done.last() == step);
            }
            k += 1;
        }
        assert(moves@.take(k as int) =~= moves@);
        let distance = self.calc_path_distance(&path);
        Route { path, distance }
    }
}

} // verus!
