use kata::geometry::Node;
use kata::tour::identity_path;
use kata::tsp::Tsp;

fn rectangle() -> Tsp {
    Tsp::new(vec![
        Node { id: 0, x: 0, y: 0 },
        Node { id: 1, x: 3, y: 4 },
        Node { id: 2, x: 3, y: 0 },
        Node { id: 3, x: 0, y: 4 },
    ])
}

fn scattered() -> Tsp {
    Tsp::new(vec![
        Node { id: 10, x: 12, y: 7 },
        Node { id: 20, x: -40, y: 93 },
        Node { id: 30, x: 55, y: 55 },
        Node { id: 40, x: 0, y: -18 },
        Node { id: 50, x: 71, y: 2 },
        Node { id: 60, x: -9, y: -9 },
        Node { id: 70, x: 33, y: 80 },
    ])
}

#[test]
fn distance_matrix_holds_every_pairwise_distance() {
    let nodes = vec![
        Node { id: 0, x: 0, y: 0 },
        Node { id: 1, x: 3, y: 4 },
        Node { id: 2, x: 3, y: 0 },
    ];
    let matrix = Tsp::calc_distance_matrix(&nodes);
    assert_eq!(matrix, vec![vec![0, 5, 3], vec![5, 0, 4], vec![3, 4, 0]]);
    assert_eq!(Tsp::calc_distance_matrix(&Vec::new()), Vec::<Vec<u64>>::new());
}

#[test]
fn size_is_the_number_of_nodes() {
    assert_eq!(rectangle().size(), 4);
    assert_eq!(Tsp::new(Vec::new()).size(), 0);
}

#[test]
fn path_distance_sums_the_legs_and_closes_the_cycle() {
    let tsp = rectangle();
    assert_eq!(tsp.calc_path_distance(&vec![0, 1, 2, 3]), 18);
    assert_eq!(tsp.calc_path_distance(&vec![0, 2, 1, 3]), 14);
    assert_eq!(tsp.calc_path_distance(&vec![1, 0, 2, 3]), 16);
    assert_eq!(tsp.calc_path_distance(&vec![0, 1]), 10);
    assert_eq!(tsp.calc_path_distance(&vec![0, 2, 1]), 12);
}

#[test]
fn path_distance_of_short_routes_is_zero() {
    let tsp = rectangle();
    assert_eq!(tsp.calc_path_distance(&Vec::new()), 0);
    assert_eq!(tsp.calc_path_distance(&vec![2]), 0);
}

#[test]
fn path_distance_does_not_change_the_route_or_the_instance() {
    let tsp = rectangle();
    let route: Vec<usize> = vec![3, 1, 0, 2];
    let first: u128 = tsp.calc_path_distance(&route);
    let second: u128 = tsp.calc_path_distance(&route);
    assert_eq!(first, second);
    assert_eq!(route, vec![3, 1, 0, 2]);
}

#[test]
fn path_distance_is_invariant_under_rotation() {
    let tsp = scattered();
    let route: Vec<usize> = vec![4, 0, 6, 2, 5, 1, 3];
    let expected: u128 = tsp.calc_path_distance(&route);
    for shift in 0..=route.len() {
        let mut turned: Vec<usize> = route.clone();
        turned.rotate_left(shift % route.len());
        assert_eq!(tsp.calc_path_distance(&turned), expected);
    }
}

#[test]
fn path_distance_is_invariant_under_reversal() {
    let tsp = scattered();
    let route: Vec<usize> = vec![4, 0, 6, 2, 5, 1, 3];
    let mut back: Vec<usize> = route.clone();
    back.reverse();
    assert_eq!(tsp.calc_path_distance(&back), tsp.calc_path_distance(&route));
}

#[test]
fn identity_path_counts_up_from_zero() {
    assert_eq!(identity_path(0), Vec::<usize>::new());
    assert_eq!(identity_path(1), vec![0]);
    assert_eq!(identity_path(5), vec![0, 1, 2, 3, 4]);
}
