use learn_more_rust::math::{
    do_n_times, fib, fib_inverse, fib_inverse_rounded_up, next_factor_of_three, to_do_n_times,
    FibonacciSequence,
};

#[test]
fn fib_next_sequence_is_correct() {
    let expected_list = vec![0u64, 1, 1, 2, 3, 5, 8, 13, 21, 34, 55];
    let mut iterator = FibonacciSequence::new();
    for expected in expected_list {
        let actual = iterator.next().unwrap();
        assert_eq!(actual, expected);
    }
}

#[test]
fn fib_n_overflows() {
    let n = FibonacciSequence::new().nth(94);
    assert_eq!(n, None);
}

#[test]
fn fib_max() {
    let n = FibonacciSequence::new().nth(93).unwrap();
    assert_eq!(n, 12200160415121876738);
}

#[test]
fn fib_sequence_stays_exhausted() {
    let mut sequence = FibonacciSequence::new();
    for _ in 0..94 {
        assert!(sequence.next().is_some());
    }
    for _ in 0..600 {
        assert_eq!(sequence.next(), None);
    }
}

#[test]
fn fib_nth_counts_from_where_the_walk_stands() {
    let mut sequence = FibonacciSequence::new();
    assert_eq!(sequence.nth(3), Some(2));
    assert_eq!(sequence.nth(0), Some(3));
    assert_eq!(sequence.nth(2), Some(13));
}

#[test]
fn fib_of_small_indices() {
    assert_eq!(fib(0), Some(0));
    assert_eq!(fib(1), Some(1));
    assert_eq!(fib(2), Some(1));
    assert_eq!(fib(10), Some(55));
    assert_eq!(fib(93), Some(12200160415121876738));
    assert_eq!(fib(94), None);
    assert_eq!(fib(u64::MAX), None);
}

#[test]
fn fib_inverse_finds_first_index() {
    assert_eq!(fib_inverse(55), Some(10));
    assert_eq!(fib_inverse(0), Some(0));
    assert_eq!(fib_inverse(1), Some(1));
    assert_eq!(fib_inverse(2), Some(3));
    assert_eq!(fib_inverse(4), None);
    assert_eq!(fib_inverse(12200160415121876738), Some(93));
    assert_eq!(fib_inverse(u64::MAX), None);
}

#[test]
fn fib_inverse_rounded_up_finds_first_index_at_least() {
    assert_eq!(fib_inverse_rounded_up(0), Some(0));
    assert_eq!(fib_inverse_rounded_up(1), Some(1));
    assert_eq!(fib_inverse_rounded_up(2), Some(3));
    assert_eq!(fib_inverse_rounded_up(4), Some(5));
    assert_eq!(fib_inverse_rounded_up(55), Some(10));
    assert_eq!(fib_inverse_rounded_up(56), Some(11));
    assert_eq!(fib_inverse_rounded_up(12200160415121876738), Some(93));
    assert_eq!(fib_inverse_rounded_up(12200160415121876739), None);
}

#[test]
fn next_factor_of_three_is_the_least_multiple_above() {
    assert_eq!(next_factor_of_three(0), 3);
    assert_eq!(next_factor_of_three(1), 3);
    assert_eq!(next_factor_of_three(2), 3);
    assert_eq!(next_factor_of_three(3), 6);
    assert_eq!(next_factor_of_three(-1), 0);
    assert_eq!(next_factor_of_three(-3), 0);
    assert_eq!(next_factor_of_three(-4), -3);
    assert_eq!(next_factor_of_three(i32::MIN), -2147483646);
    assert_eq!(next_factor_of_three(2147483645), 2147483646);
}

#[test]
fn do_n_times_applies_the_function_over_and_over() {
    assert_eq!(do_n_times(next_factor_of_three, 0, 7), 7);
    assert_eq!(do_n_times(next_factor_of_three, 1, 7), 9);
    assert_eq!(do_n_times(next_factor_of_three, 3, 7), 15);
    assert_eq!(do_n_times(|x: i32| x * 2, 5, 1), 32);
}

#[test]
fn to_do_n_times_makes_the_repeated_function() {
    let f = to_do_n_times(next_factor_of_three, 3);
    for n in 0..100 {
        assert_eq!(f(n), next_factor_of_three(n) + 6);
    }
}
