//! Fibonacci and factorial warm-ups: recursive and iterative forms, each
//! proved against a common mathematical definition, plus an evenness test.

use vstd::prelude::*;

verus! {

/// The Fibonacci numbers: 0, 1, 1, 2, 3, 5, ...
pub open spec fn spec_fib(n: int) -> int
    decreases n,
{
    if n <= 0 {
        0
    } else if n == 1 {
        1
    } else {
        spec_fib(n - 1) + spec_fib(n - 2)
    }
}

/// The factorial function, extended as 1 below 2 so that it matches the
/// iterative computation on every input.
pub open spec fn spec_factorial(n: int) -> int
    decreases n,
{
    if n <= 1 {
        1
    } else {
        n * spec_factorial(n - 1)
    }
}

/// Fibonacci grows monotonically, so every intermediate value of the
/// iteration stays below the final one.
proof fn lemma_fib_monotonic(i: int, j: int)
    requires
        0 <= i <= j,
    ensures
        spec_fib(i) <= spec_fib(j),
    decreases j - i,
{
    if i < j {
        lemma_fib_monotonic(i, j - 1);
        if j >= 2 {
            lemma_fib_nonneg(j - 2);
        }
    }
}

proof fn lemma_fib_nonneg(n: int)
    ensures
        spec_fib(n) >= 0,
    decreases n,
{
    if n > 1 {
        lemma_fib_nonneg(n - 1);
        lemma_fib_nonneg(n - 2);
    }
}

/// The largest Fibonacci number that fits in an `i32`.
#[verifier::rlimit(100)]
proof fn lemma_fib_46()
    ensures
        spec_fib(46) == 1836311903,
{
    reveal_with_fuel(spec_fib, 47);
}

/// The largest factorial that fits in an `i64`.
#[verifier::rlimit(100)]
proof fn lemma_factorial_20()
    ensures
        spec_factorial(20) == 2432902008176640000,
{
    reveal_with_fuel(spec_factorial, 21);
}

/// Reports whether a number is even, negative numbers included.
pub fn is_even(number: i32) -> (r: bool)
    ensures
        r <==> number as int % 2 == 0,
{
    if number % 2 == 0 {
        return true;
    }
    false
}

/// The nth Fibonacci number, computed iteratively.  Inputs at most 1 are
/// returned as they are; the bound of 46 keeps the result within `i32`.
pub fn fibonacci(n: i32) -> (r: i32)
    requires
        n <= 46,
    ensures
        n <= 1 ==> r == n,
        n > 1 ==> r == spec_fib(n as int),
{
    if n <= 1 {
        return n;
    }
    let mut a: i32 = 0;
    let mut b: i32 = 1;
    let mut fib: i32 = 0;
    let mut i: i32 = 2;
    proof {
        lemma_fib_46();
        lemma_fib_monotonic(n as int, 46);
        lemma_fib_nonneg(n as int);
    }
    while i <= n
        invariant
            2 <= i <= n + 1,
            n <= 46,
            a == spec_fib(i - 2),
            b == spec_fib(i - 1),
            i > 2 ==> fib == b,
            spec_fib(n as int) <= i32::MAX,
        decreases n + 1 - i,
    {
        proof {
            lemma_fib_monotonic(i as int, n as int);
            lemma_fib_nonneg(i - 2);
            lemma_fib_nonneg(i - 1);
        }
        fib = a + b;
        a = b;
        b = fib;
        i = i + 1;
    }
    fib
}

/// The nth Fibonacci number, computed by recursion on the two preceding
/// values.
pub fn recursive_fibonacci(n: i32) -> (r: i32)
    requires
        n <= 46,
    ensures
        n <= 1 ==> r == n,
        n > 1 ==> r == spec_fib(n as int),
{
    if n <= 1 {
        return n;
    }
    proof {
        lemma_fib_46();
        lemma_fib_monotonic(n as int, 46);
        lemma_fib_nonneg(n - 1);
        lemma_fib_nonneg(n - 2);
    }
    fibonacci(n - 1) + fibonacci(n - 2)
}

/// Every intermediate product of the factorial iteration divides the final
/// value, so none of them overflows when the final value fits.
proof fn lemma_factorial_monotonic(i: int, j: int)
    requires
        1 <= i <= j,
    ensures
        spec_factorial(i) <= spec_factorial(j),
    decreases j - i,
{
    if i < j {
        lemma_factorial_monotonic(i, j - 1);
        lemma_factorial_pos(j - 1);
        assert(spec_factorial(j) == j * spec_factorial(j - 1));
        assert(spec_factorial(j - 1) <= j * spec_factorial(j - 1)) by (nonlinear_arith)
            requires
                j >= 2,
                spec_factorial(j - 1) >= 1,
        ;
    }
}

proof fn lemma_factorial_pos(n: int)
    ensures
        spec_factorial(n) >= 1,
    decreases n,
{
    if n > 1 {
        lemma_factorial_pos(n - 1);
        assert(n * spec_factorial(n - 1) >= spec_factorial(n - 1)) by (nonlinear_arith)
            requires
                n >= 2,
                spec_factorial(n - 1) >= 1,
        ;
    }
}

/// The factorial of a number, computed by recursion.  Inputs at most 1 give
/// 1; the bound of 20 keeps the result within `i64`.
pub fn recursive_factorial(number: i32) -> (r: i64)
    requires
        number <= 20,
    ensures
        r == spec_factorial(number as int),
    decreases number,
{
    if number <= 1 {
        return 1;
    }
    let rest = recursive_factorial(number - 1);
    proof {
        lemma_factorial_20();
        lemma_factorial_pos(number - 1);
        lemma_factorial_monotonic(number as int, 20);
        assert(number * spec_factorial(number - 1) == spec_factorial(number as int));
    }
    number as i64 * rest
}

/// The factorial of a number, computed iteratively.
pub fn factorial(number: i32) -> (r: i64)
    requires
        number <= 20,
    ensures
        r == spec_factorial(number as int),
{
    let mut n: i32 = number;
    let mut res: i64 = 1;
    proof {
        lemma_factorial_pos(number as int);
    }
    while n > 1
        invariant
            n <= number <= 20,
            res >= 1,
            res * spec_factorial(n as int) == spec_factorial(number as int),
        decreases n,
    {
        proof {
            lemma_factorial_20();
            lemma_factorial_pos(n - 1);
            lemma_factorial_monotonic(number as int, 20);
            assert(spec_factorial(n as int) == n * spec_factorial(n - 1));
            assert(spec_factorial(n as int) >= n) by (nonlinear_arith)
                requires
                    n >= 2,
                    spec_factorial(n as int) == n * spec_factorial(n - 1),
                    spec_factorial(n - 1) >= 1,
            ;
            assert(res * spec_factorial(n as int) == (res * n) * spec_factorial(n - 1))
                by (nonlinear_arith)
                requires
                    spec_factorial(n as int) == n * spec_factorial(n - 1),
            ;
            assert(1 <= res * n <= res * spec_factorial(n as int)) by (nonlinear_arith)
                requires
                    res >= 1,
                    2 <= n <= spec_factorial(n as int),
            ;
        }
        res = res * n as i64;
        n = n - 1;
    }
    res
}

/// The nth Fibonacci number and the factorial of n, side by side.
pub fn fib_fac(number: i32) -> (r: (i32, i64))
    requires
        number <= 20,
    ensures
        number <= 1 ==> r.0 == number,
        number > 1 ==> r.0 == spec_fib(number as int),
        r.1 == spec_factorial(number as int),
{
    let res_fib = fibonacci(number);
    let res_fac = factorial(number);
    (res_fib, res_fac)
}

} // verus!
