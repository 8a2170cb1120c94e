//! The problem instance: a fixed node sequence with its distance matrix, and
//! the evaluation of routes over it.

use crate::geometry::{calc_distance, distance, Node};
use crate::tour::{in_range, is_tour, leg, path_length, tour_length};
use vstd::prelude::*;

verus! {

/// A visiting order together with the length of the closed tour along it.
#[derive(Debug)]
pub struct Route {
    pub path: Vec<usize>,
    pub distance: u128,
}

impl Clone for Route {
    fn clone(&self) -> (copy: Route)
        ensures
            copy.path@ == self.path@,
            copy.distance == self.distance,
    {
        Route { path: self.path.clone(), distance: self.distance }
    }
}

impl Route {
    /// The route is a tour of `nodes` and carries that tour's length.
    pub open spec fn is_tour_of(&self, nodes: Seq<Node>) -> bool {
        &&& is_tour(self.path@, nodes.len())
        &&& self.distance == tour_length(nodes, self.path@)
    }
}

/// `matrix` is square, of the size of `nodes`, and its cell `(i, j)` holds the
/// distance between node `i` and node `j`.
pub open spec fn is_distance_matrix(matrix: Seq<Vec<u64>>, nodes: Seq<Node>) -> bool {
    &&& matrix.len() == nodes.len()
    &&& forall|i: int| 0 <= i < matrix.len() ==> (#[trigger] matrix[i]).len() == nodes.len()
    &&& forall|i: int, j: int|
        0 <= i < nodes.len() && 0 <= j < nodes.len() ==> (#[trigger] matrix[i][j]) == distance(
            nodes[i],
            nodes[j],
        )
}

/// A travelling-salesman instance. It owns the nodes and the matrix of their
/// pairwise distances, computed once when the instance is made and never
/// changed afterwards. Its view is the node sequence.
pub struct Tsp {
    matrix: Vec<Vec<u64>>,
    nodes: Vec<Node>,
}

impl View for Tsp {
    type V = Seq<Node>;

    closed spec fn view(&self) -> Seq<Node> {
        self.nodes@
    }
}

impl Tsp {
    #[verifier::type_invariant]
    spec fn matrix_matches_nodes(self) -> bool {
        is_distance_matrix(self.matrix@, self.nodes@)
    }

    /// Makes the instance for `nodes`, computing the distance matrix.
    pub fn new(nodes: Vec<Node>) -> (tsp: Tsp)
        ensures
            tsp@ == nodes@,
    {
        let matrix = Tsp::calc_distance_matrix(&nodes);
        Tsp { matrix, nodes }
    }

    /// The number of nodes.
    pub fn size(&self) -> (n: usize)
        ensures
            n == self@.len(),
    {
        self.nodes.len()
    }

    /// Computes the matrix of pairwise distances between `nodes`.
    pub fn calc_distance_matrix(nodes: &Vec<Node>) -> (matrix: Vec<Vec<u64>>)
        ensures
            is_distance_matrix(matrix@, nodes@),
    {
        let n = nodes.len();
        let mut distances: Vec<Vec<u64>> = Vec::new();
        let mut i: usize = 0;
        while i < n
            invariant
                n == nodes.len(),
                i <= n,
                distances.len() == i,
                forall|r: int| 0 <= r < i ==> (#[trigger] distances[r]).len() == n,
                forall|r: int, c: int|
                    0 <= r < i && 0 <= c < n ==> (#[trigger] distances[r][c]) == distance(
                        nodes[r],
                        nodes[c],
                    ),
            decreases n - i,
        {
            let mut row: Vec<u64> = Vec::new();
            let mut j: usize = 0;
            while j < n
                invariant
                    n == nodes.len(),
                    i < n,
                    j <= n,
                    row.len() == j,
                    forall|c: int| 0 <= c < j ==> (#[trigger] row[c]) == distance(nodes[i as int], nodes[c]),
                decreases n - j,
            {
                row.push(calc_distance(&nodes[i], &nodes[j]));
                j += 1;
            }
            distances.push(row);
            i += 1;
        }
        distances
    }

    /// Computes the length of the closed tour along `route`: the legs between
    /// consecutive stops, plus the leg that joins the last stop to the first.
    /// The empty route has length zero.
    pub fn calc_path_distance(&self, route: &Vec<usize>) -> (total: u128)
        requires
            in_range(route@, self@.len()),
        ensures
            total == tour_length(self@, route@),
    {
        proof {
            use_type_invariant(self);
        }
        let n = route.len();
        if n == 0 {
            return 0;
        }
        let mut total: u128 = 0;
        let mut i: usize = 1;
        while i < n
            invariant
                n == route.len(),
                1 <= i <= n,
                in_range(route@, self.nodes@.len()),
                is_distance_matrix(self.matrix@, self.nodes@),
                total == path_length(self.nodes@, route@.take(i as int)),
                total <= (i - 1) * u64::MAX,
            decreases n - i,
        {
            let from = route[i - 1];
            let to = route[i];
            proof {
                let upto = route@.take(i + 1);
                assert(upto.drop_last() =~= route@.take(i as int));
                assert(upto[i - 1] == from && upto[i as int] == to);
                assert(self.matrix@[from as int][to as int] == leg(self.nodes@, from, to));
            }
            total += self.matrix[from][to] as u128;
            i += 1;
        }
        let first = route[0];
        let last = route[n - 1];
        proof {
            assert(route@.take(n as int) =~= route@);
            assert(self.matrix@[first as int][last as int] == leg(self.nodes@, first, last));
        }
        total + self.matrix[first][last] as u128
    }
}

} // verus!
