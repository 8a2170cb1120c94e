//! FizzBuzz classification of a single number.

use vstd::prelude::*;

verus! {

/// The word that FizzBuzz assigns to `n`: `"FizzBuzz"` for multiples of
/// fifteen, `"Fizz"` for the other multiples of three, `"Buzz"` for the other
/// multiples of five, and the empty word for every other number.
pub open spec fn fizzbuzz_word(n: nat) -> Seq<char> {
    if n % 3 == 0 && n % 5 == 0 {
        "FizzBuzz"@
    } else if n % 3 == 0 {
        "Fizz"@
    } else if n % 5 == 0 {
        "Buzz"@
    } else {
        ""@
    }
}

/// Returns the FizzBuzz word of `n` as an owned string.
pub fn fizzbuzz(n: usize) -> (word: String)
    ensures
        word@ == fizzbuzz_word(n as nat),
{
    if n % 3 == 0 && n % 5 == 0 {
        String::from_str("FizzBuzz")
    } else if n % 3 == 0 {
        String::from_str("Fizz")
    } else if n % 5 == 0 {
        String::from_str("Buzz")
    } else {
        String::from_str("")
    }
}

} // verus!
