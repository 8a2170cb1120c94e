use kata::fibonacci::fib;

#[test]
fn test_fib_numbers() {
    let input_output: Vec<(usize, usize)> = vec![
        (0, 0),
        (1, 1),
        (2, 1),
        (3, 2),
        (4, 3),
        (5, 5),
        (40, 102334155),
    ];
    for (n, exp) in input_output {
        assert_eq!(fib(n), exp);
    }
}

#[test]
fn fib_follows_the_recurrence() {
    for n in 2..=47usize {
        assert_eq!(fib(n), fib(n - 1) + fib(n - 2));
    }
}

#[test]
fn fib_of_the_largest_index_that_fits_in_32_bits() {
    assert_eq!(fib(47), 2_971_215_073);
}
