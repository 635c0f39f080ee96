use katas::numbers::{fib_fac, fibonacci, factorial, is_even, recursive_factorial, recursive_fibonacci};

#[test]
fn even_numbers_are_recognised() {
    assert!(is_even(0));
    assert!(is_even(4));
    assert!(is_even(-2));
    assert!(!is_even(7));
    assert!(!is_even(-3));
}

#[test]
fn fibonacci_small_values() {
    assert_eq!(fibonacci(0), 0);
    assert_eq!(fibonacci(1), 1);
    assert_eq!(fibonacci(2), 1);
    assert_eq!(fibonacci(10), 55);
}

#[test]
fn fibonacci_negative_input_is_returned() {
    assert_eq!(fibonacci(-5), -5);
    assert_eq!(recursive_fibonacci(-5), -5);
}

#[test]
fn fibonacci_largest_in_range() {
    assert_eq!(fibonacci(46), 1836311903);
}

#[test]
fn recursive_and_iterative_fibonacci_agree() {
    for n in 0..20 {
        assert_eq!(recursive_fibonacci(n), fibonacci(n));
    }
}

#[test]
fn factorial_small_values() {
    assert_eq!(factorial(0), 1);
    assert_eq!(factorial(1), 1);
    assert_eq!(factorial(5), 120);
    assert_eq!(recursive_factorial(6), 720);
}

#[test]
fn factorial_largest_in_range() {
    assert_eq!(factorial(20), 2432902008176640000);
    assert_eq!(recursive_factorial(20), 2432902008176640000);
}

#[test]
fn fib_fac_pairs_both_results() {
    assert_eq!(fib_fac(6), (8, 720));
    assert_eq!(fib_fac(1), (1, 1));
}
