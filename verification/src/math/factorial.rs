use vstd::prelude::*;

verus! {

/// Mathematical factorial: the product of the integers from 1 to `n`.
pub open spec fn spec_factorial(n: nat) -> nat
    decreases n,
{
    if n <= 1 {
        1
    } else {
        n * spec_factorial((n - 1) as nat)
    }
}

/// Factorial never shrinks as its argument grows.
proof fn lemma_factorial_monotonic(i: nat, j: nat)
    requires
        i <= j,
    ensures
        spec_factorial(i) <= spec_factorial(j),
    decreases j,
{
    if i < j {
        lemma_factorial_monotonic(i, (j - 1) as nat);
        if j > 1 {
            let prev: nat = spec_factorial((j - 1) as nat);
            assert(spec_factorial(j) == j * prev);
            assert(j * prev >= prev) by (nonlinear_arith)
                requires
                    j >= 1,
                    prev >= 0,
            ;
        }
    }
}

/// The largest factorial that fits in a `u64`.
proof fn lemma_factorial_20()
    ensures
        spec_factorial(20) == 2432902008176640000,
{
    reveal_with_fuel(spec_factorial, 21);
}

/// Computes `num!`, the product of the integers from 1 to `num`.
///
/// Inputs above 20 are excluded: their factorial does not fit in a `u64`.
pub fn factorial(num: u64) -> (r: u64)
    requires
        num <= 20,
    ensures
        r == spec_factorial(num as nat),
    decreases num,
{
    match num {
        0 | 1 => 1,
        _ => {
            let rest: u64 = factorial(num - 1);
            proof {
                lemma_factorial_20();
                lemma_factorial_monotonic(num as nat, 20);
                assert(spec_factorial(num as nat) == num * spec_factorial((num - 1) as nat));
                assert(rest * num == num * rest) by (nonlinear_arith);
            }
            rest * num
        },
    }
}

} // verus!
