use kata::annealing::Move;
use kata::geometry::Node;
use kata::random::random_path;
use kata::tsp::{Route, Tsp};

fn rectangle() -> Tsp {
    Tsp::new(vec![
        Node { id: 0, x: 0, y: 0 },
        Node { id: 1, x: 3, y: 4 },
        Node { id: 2, x: 3, y: 0 },
        Node { id: 3, x: 0, y: 4 },
    ])
}

fn single() -> Tsp {
    Tsp::new(vec![Node { id: 0, x: 17, y: -4 }])
}

fn empty() -> Tsp {
    Tsp::new(Vec::new())
}

/// Node sets that are the same on every run.
fn node_set(count: usize, seed: u64) -> Vec<Node> {
    let mut state: u64 = seed;
    let mut nodes: Vec<Node> = Vec::new();
    for id in 0..count {
        state = state.wrapping_mul(6364136223846793005).wrapping_add(1442695040888963407);
        let x: i32 = ((state >> 33) % 1000) as i32;
        state = state.wrapping_mul(6364136223846793005).wrapping_add(1442695040888963407);
        let y: i32 = ((state >> 33) % 1000) as i32;
        nodes.push(Node { id, x, y });
    }
    nodes
}

fn is_permutation(path: &[usize], n: usize) -> bool {
    let mut sorted: Vec<usize> = path.to_vec();
    sorted.sort();
    sorted == (0..n).collect::<Vec<usize>>()
}

fn assert_tour(tsp: &Tsp, route: &Route) {
    assert!(is_permutation(&route.path, tsp.size()));
    assert_eq!(route.distance, tsp.calc_path_distance(&route.path));
}

fn floor_sqrt(value: i64) -> u128 {
    let mut root: i64 = (value as f64).sqrt() as i64;
    while root * root > value {
        root -= 1;
    }
    while (root + 1) * (root + 1) <= value {
        root += 1;
    }
    root as u128
}

fn reference_length(nodes: &[Node], path: &[usize]) -> u128 {
    let leg = |a: usize, b: usize| -> u128 {
        let dx: i64 = nodes[a].x as i64 - nodes[b].x as i64;
        let dy: i64 = nodes[a].y as i64 - nodes[b].y as i64;
        floor_sqrt(dx * dx + dy * dy)
    };
    let mut total: u128 = 0;
    for i in 1..path.len() {
        total += leg(path[i - 1], path[i]);
    }
    if !path.is_empty() {
        total += leg(path[0], path[path.len() - 1]);
    }
    total
}

fn shortest_by_enumeration(nodes: &[Node], prefix: &mut Vec<usize>, used: &mut Vec<bool>) -> u128 {
    if prefix.len() == nodes.len() {
        return reference_length(nodes, prefix);
    }
    let mut best: u128 = u128::MAX;
    for next in 0..nodes.len() {
        if !used[next] {
            used[next] = true;
            prefix.push(next);
            best = best.min(shortest_by_enumeration(nodes, prefix, used));
            prefix.pop();
            used[next] = false;
        }
    }
    best
}

#[test]
fn brute_force_finds_the_first_shortest_order() {
    let route = rectangle().brute_force();
    assert_eq!(route.path, vec![0, 2, 1, 3]);
    assert_eq!(route.distance, 14);
}

#[test]
fn brute_force_is_exact_on_small_node_sets() {
    for count in 1..=7usize {
        for seed in 1..=3u64 {
            let nodes = node_set(count, seed * 7919 + count as u64);
            let tsp = Tsp::new(nodes.clone());
            let route = tsp.brute_force();
            assert_tour(&tsp, &route);
            assert_eq!(route.distance, reference_length(&nodes, &route.path));
            let shortest: u128 =
                shortest_by_enumeration(&nodes, &mut Vec::new(), &mut vec![false; count]);
            assert_eq!(route.distance, shortest);
        }
    }
}

#[test]
fn brute_force_on_eight_nodes() {
    let nodes = node_set(8, 424242);
    let tsp = Tsp::new(nodes.clone());
    let route = tsp.brute_force();
    assert_tour(&tsp, &route);
    let shortest: u128 = shortest_by_enumeration(&nodes, &mut Vec::new(), &mut vec![false; 8]);
    assert_eq!(route.distance, shortest);
}

#[test]
fn brute_force_on_collinear_points_goes_there_and_back() {
    let tsp = Tsp::new(vec![
        Node { id: 0, x: 0, y: 0 },
        Node { id: 1, x: 1, y: 0 },
        Node { id: 2, x: 2, y: 0 },
    ]);
    let route = tsp.brute_force();
    assert_tour(&tsp, &route);
    assert_eq!(route.distance, 4);
    assert_eq!(route.path, vec![0, 1, 2]);
}

#[test]
fn brute_force_keeps_the_first_of_equal_tours() {
    let tsp = Tsp::new(vec![
        Node { id: 0, x: 5, y: 5 },
        Node { id: 1, x: 5, y: 5 },
        Node { id: 2, x: 5, y: 5 },
    ]);
    let route = tsp.brute_force();
    assert_eq!(route.path, vec![0, 1, 2]);
    assert_eq!(route.distance, 0);
}

#[test]
fn brute_force_without_nodes_gives_the_empty_route() {
    let route = empty().brute_force();
    assert_eq!(route.path, Vec::<usize>::new());
    assert_eq!(route.distance, 0);
}

#[test]
fn single_node_gives_the_trivial_route_from_every_solver() {
    let tsp = single();
    let routes: Vec<Route> = vec![
        tsp.brute_force(),
        tsp.hill_climb(),
        tsp.hill_climb_from(vec![0]),
        tsp.simulated_annealing(&vec![1000, 990, 980]),
        tsp.simulated_annealing(&Vec::new()),
        tsp.anneal(vec![0], &vec![Move { first: 0, second: 0, tolerance: 5 }]),
    ];
    for route in routes {
        assert_eq!(route.path, vec![0]);
        assert_eq!(route.distance, 0);
    }
}

#[test]
fn neighbours_exchange_every_pair_in_order() {
    let tsp = rectangle();
    let neighbours = tsp.gen_neighbours(&vec![0, 1, 2, 3]);
    assert_eq!(
        neighbours,
        vec![
            vec![1, 0, 2, 3],
            vec![2, 1, 0, 3],
            vec![3, 1, 2, 0],
            vec![0, 2, 1, 3],
            vec![0, 3, 2, 1],
            vec![0, 1, 3, 2],
        ]
    );
    assert_eq!(tsp.gen_neighbours(&vec![2, 0]), vec![vec![0, 2]]);
    assert_eq!(tsp.gen_neighbours(&vec![0]), Vec::<Vec<usize>>::new());
    assert_eq!(tsp.gen_neighbours(&Vec::new()), Vec::<Vec<usize>>::new());
}

#[test]
fn neighbours_number_n_choose_two() {
    let tsp = Tsp::new(node_set(9, 5));
    for n in 0..=9usize {
        let route: Vec<usize> = (0..n).collect();
        assert_eq!(tsp.gen_neighbours(&route).len(), n * n.saturating_sub(1) / 2);
    }
}

#[test]
fn best_neighbour_is_the_first_shortest() {
    let tsp = rectangle();
    let candidates: Vec<Vec<usize>> = vec![
        vec![0, 1, 2, 3],
        vec![1, 0, 2, 3],
        vec![3, 1, 2, 0],
        vec![0, 2, 1, 3],
        vec![0, 1, 3, 2],
    ];
    let best = tsp.get_best_neighbour(&candidates);
    assert_eq!(best.path, vec![3, 1, 2, 0]);
    assert_eq!(best.distance, 14);
    let only = tsp.get_best_neighbour(&candidates[..1]);
    assert_eq!(only.path, vec![0, 1, 2, 3]);
    assert_eq!(only.distance, 18);
}

#[test]
fn hill_climb_moves_to_the_best_neighbour_and_stops_at_an_optimum() {
    let tsp = rectangle();
    let route = tsp.hill_climb_from(vec![0, 1, 2, 3]);
    assert_eq!(route.path, vec![3, 1, 2, 0]);
    assert_eq!(route.distance, 14);
    let again = tsp.hill_climb_from(route.path.clone());
    assert_eq!(again.path, route.path);
    assert_eq!(again.distance, 14);
}

#[test]
fn hill_climb_never_ends_above_its_start() {
    for seed in 1..=5u64 {
        let tsp = Tsp::new(node_set(9, seed));
        for _ in 0..4 {
            let start: Vec<usize> = random_path(tsp.size());
            let start_distance: u128 = tsp.calc_path_distance(&start);
            let route = tsp.hill_climb_from(start);
            assert_tour(&tsp, &route);
            assert!(route.distance <= start_distance);
        }
    }
}

#[test]
fn hill_climb_ends_where_no_exchange_helps() {
    let tsp = Tsp::new(node_set(8, 99));
    let route = tsp.hill_climb();
    assert_tour(&tsp, &route);
    for neighbour in tsp.gen_neighbours(&route.path) {
        assert!(tsp.calc_path_distance(&neighbour) >= route.distance);
    }
}

#[test]
fn hill_climb_on_two_nodes_and_on_none() {
    let pair = Tsp::new(node_set(2, 3));
    let route = pair.hill_climb();
    assert_tour(&pair, &route);
    let nothing = empty().hill_climb();
    assert_eq!(nothing.path, Vec::<usize>::new());
    assert_eq!(nothing.distance, 0);
}

#[test]
fn anneal_without_moves_returns_the_start() {
    let tsp = rectangle();
    let route = tsp.anneal(vec![2, 0, 3, 1], &Vec::new());
    assert_eq!(route.path, vec![2, 0, 3, 1]);
    assert_eq!(route.distance, tsp.calc_path_distance(&vec![2, 0, 3, 1]));
}

#[test]
fn anneal_keeps_a_move_within_its_tolerance_and_undoes_the_others() {
    let tsp = rectangle();
    let start: Vec<usize> = vec![0, 1, 2, 3];

    let improving = vec![Move { first: 0, second: 3, tolerance: 0 }];
    let route = tsp.anneal(start.clone(), &improving);
    assert_eq!(route.path, vec![3, 1, 2, 0]);
    assert_eq!(route.distance, 14);

    let too_costly = vec![
        Move { first: 0, second: 3, tolerance: 0 },
        Move { first: 0, second: 1, tolerance: 1 },
    ];
    let route = tsp.anneal(start.clone(), &too_costly);
    assert_eq!(route.path, vec![3, 1, 2, 0]);
    assert_eq!(route.distance, 14);

    let tolerated = vec![
        Move { first: 0, second: 3, tolerance: 0 },
        Move { first: 0, second: 1, tolerance: 1 },
        Move { first: 0, second: 1, tolerance: 2 },
        Move { first: 2, second: 2, tolerance: 0 },
    ];
    let route = tsp.anneal(start, &tolerated);
    assert_eq!(route.path, vec![1, 3, 2, 0]);
    assert_eq!(route.distance, 16);
}

#[test]
fn anneal_with_no_tolerance_never_lengthens_the_tour() {
    let tsp = Tsp::new(node_set(10, 2024));
    let start: Vec<usize> = (0..10).collect();
    let mut moves: Vec<Move> = Vec::new();
    let mut best: u128 = tsp.calc_path_distance(&start);
    for step in 0..200usize {
        moves.push(Move { first: step * 7 % 10, second: step * 3 % 10, tolerance: 0 });
        let route = tsp.anneal(start.clone(), &moves);
        assert_tour(&tsp, &route);
        assert!(route.distance <= best);
        best = route.distance;
    }
}

#[test]
fn anneal_with_unbounded_tolerance_keeps_every_move() {
    let tsp = Tsp::new(node_set(6, 11));
    let moves = vec![
        Move { first: 0, second: 5, tolerance: u128::MAX },
        Move { first: 1, second: 4, tolerance: u128::MAX },
        Move { first: 2, second: 3, tolerance: u128::MAX },
    ];
    let route = tsp.anneal(vec![0, 1, 2, 3, 4, 5], &moves);
    assert_eq!(route.path, vec![5, 4, 3, 2, 1, 0]);
    assert_tour(&tsp, &route);
}

#[test]
fn simulated_annealing_returns_a_tour() {
    let tsp = Tsp::new(node_set(12, 77));
    let mut tolerances: Vec<u128> = Vec::new();
    let mut tolerance: u128 = 1_000_000;
    for _ in 0..1000 {
        tolerances.push(tolerance);
        tolerance = tolerance * 99 / 100;
    }
    let route = tsp.simulated_annealing(&tolerances);
    assert_tour(&tsp, &route);
    let unchanged = tsp.simulated_annealing(&Vec::new());
    assert_tour(&tsp, &unchanged);
}

#[test]
fn simulated_annealing_without_nodes_gives_the_empty_route() {
    let route = empty().simulated_annealing(&vec![10, 9, 8]);
    assert_eq!(route.path, Vec::<usize>::new());
    assert_eq!(route.distance, 0);
}

#[test]
fn random_path_is_a_permutation() {
    for n in 0..40usize {
        assert!(is_permutation(&random_path(n), n));
    }
}

#[test]
fn random_path_is_shuffled() {
    let identity: Vec<usize> = (0..50).collect();
    let mut moved = false;
    for _ in 0..5 {
        moved = moved || random_path(50) != identity;
    }
    assert!(moved);
}

#[test]
fn sample_routes_draws_the_number_asked_for() {
    let tsp = Tsp::new(node_set(8, 1));
    let routes = tsp.sample_routes(10);
    assert_eq!(routes.len(), 10);
    for route in &routes {
        assert_tour(&tsp, route);
    }
    assert!(tsp.sample_routes(0).is_empty());
}
