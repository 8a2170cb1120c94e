//! Random tours as a baseline to hold the solvers' results against.

use crate::random::random_path;
use crate::tsp::{Route, Tsp};
use vstd::prelude::*;

verus! {

impl Tsp {
    /// Draws `n_samples` random tours and evaluates each.
    pub fn sample_routes(&self, n_samples: usize) -> (routes: Vec<Route>)
        ensures
            routes@.len() == n_samples,
            forall|k: int| 0 <= k < routes@.len() ==> (#[trigger] routes@[k]).is_tour_of(self@),
    {
        let mut routes: Vec<Route> = Vec::new();
        let mut drawn: usize = 0;
        while drawn < n_samples
            invariant
                drawn <= n_samples,
                routes@.len() == drawn,
                forall|k: int| 0 <= k < routes@.len() ==> (#[trigger] routes@[k]).is_tour_of(self@),
            decreases n_samples - drawn,
        {
            let path = random_path(self.size());
            let distance = self.calc_path_distance(&path);
            routes.push(Route { path, distance });
            drawn += 1;
        }
        routes
    }
}

} // verus!
