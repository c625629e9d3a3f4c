//! A number to crunch: the sum of the squares below a bound.

use vstd::prelude::*;

verus! {

/// The sum of the squares of the numbers below `n`.
pub open spec fn sum_of_squares(n: nat) -> int
    decreases n,
{
    if n == 0 {
        0
    } else {
        sum_of_squares((n - 1) as nat) + (n - 1) * (n - 1)
    }
}

/// The sum of the squares below `n` in closed form.
pub proof fn lemma_sum_of_squares(n: nat)
    ensures
        6 * sum_of_squares(n) == (n - 1) * n * (2 * n - 1),
    decreases n,
{
    if n > 0 {
        lemma_sum_of_squares((n - 1) as nat);
        let m = n - 1;
        assert(6 * (m * m) + (m - 1) * m * (2 * m - 1) == m * (m + 1) * (2 * (m + 1) - 1))
            by (nonlinear_arith);
        assert(6 * (sum_of_squares(m as nat) + m * m) == 6 * sum_of_squares(m as nat) + 6 * (m
            * m)) by (nonlinear_arith);
    } else {
        assert((n - 1) * n * (2 * n - 1) == 0) by (nonlinear_arith)
            requires
                n == 0,
        ;
    }
}

/// The sums grow with the bound.
proof fn lemma_sum_of_squares_grows(a: nat, b: nat)
    requires
        a <= b,
    ensures
        sum_of_squares(a) <= sum_of_squares(b),
    decreases b - a,
{
    if a < b {
        lemma_sum_of_squares_grows(a, (b - 1) as nat);
    }
}

/// The square of `x`.
pub fn square(x: u32) -> (squared: u32)
    requires
        x <= 65535,
    ensures
        squared == x * x,
{
    assert(x * x <= 65535 * 65535) by (nonlinear_arith)
        requires
            x <= 65535,
    ;
    x * x
}

/// The sum of the squares of the numbers from 0 to 1000.
pub fn crunch() -> (sum: u32)
    ensures
        sum == sum_of_squares(1001),
        sum == 333833500,
{
    let mut sum: u32 = 0;
    let mut x: u32 = 0;
    proof {
        lemma_sum_of_squares(1001);
        assert((1001 - 1) * 1001 * (2 * 1001 - 1) == 6 * 333833500) by (nonlinear_arith);
    }
    while x < 1001
        invariant
            x <= 1001,
            sum == sum_of_squares(x as nat),
            sum_of_squares(1001) == 333833500,
        decreases 1001 - x,
    {
        proof {
            lemma_sum_of_squares_grows((x + 1) as nat, 1001);
        }
        sum = sum + square(x);
        x += 1;
    }
    sum
}

} // verus!
