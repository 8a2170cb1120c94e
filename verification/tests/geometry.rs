use kata::geometry::{calc_distance, integer_sqrt, Node};

#[test]
fn test_calc_distance() {
    let a = Node { id: 0, x: 0, y: 3 };
    let b = Node { id: 2, x: 4, y: 0 };
    assert_eq!(calc_distance(&a, &b), 5);
}

#[test]
fn distance_is_symmetric_and_zero_to_itself() {
    let a = Node { id: 7, x: -12, y: 40 };
    let b = Node { id: 9, x: 31, y: -5 };
    assert_eq!(calc_distance(&a, &b), calc_distance(&b, &a));
    assert_eq!(calc_distance(&a, &a), 0);
    assert_eq!(calc_distance(&b, &b), 0);
}

#[test]
fn distance_is_rounded_down() {
    let origin = Node { id: 0, x: 0, y: 0 };
    assert_eq!(calc_distance(&origin, &Node { id: 1, x: 1, y: 1 }), 1);
    assert_eq!(calc_distance(&origin, &Node { id: 2, x: 2, y: 2 }), 2);
    assert_eq!(calc_distance(&origin, &Node { id: 3, x: 1_000_000, y: 1_000_000 }), 1_414_213);
    assert_eq!(calc_distance(&origin, &Node { id: 4, x: -5, y: 12 }), 13);
}

#[test]
fn distance_between_opposite_corners_of_the_grid() {
    let low = Node { id: 0, x: i32::MIN, y: i32::MIN };
    let high = Node { id: 1, x: i32::MAX, y: i32::MAX };
    assert_eq!(calc_distance(&low, &high), 6_074_000_998);
    assert_eq!(calc_distance(&low, &Node { id: 2, x: i32::MAX, y: i32::MIN }), 4_294_967_295);
}

#[test]
fn integer_sqrt_rounds_down() {
    let cases: [(u128, u64); 10] = [
        (0, 0),
        (1, 1),
        (2, 1),
        (3, 1),
        (4, 2),
        (24, 4),
        (25, 5),
        (26, 5),
        (u128::MAX, u64::MAX),
        ((u64::MAX as u128) * (u64::MAX as u128) - 1, u64::MAX - 1),
    ];
    for (value, root) in cases {
        assert_eq!(integer_sqrt(value), root);
    }
}

#[test]
fn integer_sqrt_brackets_its_argument() {
    for value in 0..5000u128 {
        let root: u128 = integer_sqrt(value) as u128;
        assert!(root * root <= value);
        assert!(value < (root + 1) * (root + 1));
    }
}
