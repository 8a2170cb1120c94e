//! Fibonacci numbers.

use vstd::prelude::*;

verus! {

/// The Fibonacci number of index `n`: `0, 1, 1, 2, 3, 5, ...`, each the sum
/// of the two before it.
pub open spec fn fib_number(n: nat) -> nat
    decreases n,
{
    if n < 2 {
        n
    } else {
        fib_number((n - 1) as nat) + fib_number((n - 2) as nat)
    }
}

/// The Fibonacci numbers never decrease.
pub proof fn lemma_fib_grows(low: nat, high: nat)
    requires
        low <= high,
    ensures
        fib_number(low) <= fib_number(high),
    decreases high,
{
    if low < high {
        if high >= 2 {
            lemma_fib_grows(low, (high - 1) as nat);
        }
    }
}

/// The Fibonacci numbers up to index 47 fit in 32 bits, and so in a `usize`
/// of either width.
pub proof fn lemma_fib_fits(n: nat)
    requires
        n <= 47,
    ensures
        fib_number(n) <= u32::MAX,
{
    reveal_with_fuel(fib_number, 9);
    assert(fib_number(6) == 8 && fib_number(7) == 13);
    assert(fib_number(14) == 377 && fib_number(15) == 610);
    assert(fib_number(22) == 17711 && fib_number(23) == 28657);
    assert(fib_number(30) == 832040 && fib_number(31) == 1346269);
    assert(fib_number(38) == 39088169 && fib_number(39) == 63245986);
    assert(fib_number(46) == 1836311903 && fib_number(47) == 2971215073);
    lemma_fib_grows(n, 47);
}

/// Computes the Fibonacci number of index `n` in `n` additions. The number
/// must fit in a `usize`.
pub fn fib(n: usize) -> (value: usize)
    requires
        fib_number(n as nat) <= usize::MAX,
    ensures
        value == fib_number(n as nat),
{
    if n < 2 {
        return n;
    }
    let mut pair: (usize, usize) = (0, 1);
    let mut index: usize = 1;
    while index < n
        invariant
            1 <= index <= n,
            pair.0 == fib_number((index - 1) as nat),
            pair.1 == fib_number(index as nat),
            fib_number(n as nat) <= usize::MAX,
        decreases n - index,
    {
        proof {
            lemma_fib_grows((index + 1) as nat, n as nat);
        }
        pair = (pair.1, pair.0 + pair.1);
        index += 1;
    }
    pair.1
}

} // verus!
