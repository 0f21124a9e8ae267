//! Telemetry counters that wrap around: at the width of the machine word, or at 64
//! bits.

use vstd::arithmetic::div_mod::*;
use vstd::prelude::*;

verus! {

/// The value a wrapping counter shows when its true value is `x`.
pub open spec fn wrapped(x: int) -> int {
    x % (usize::MAX as int + 1)
}

/// The value a wrapping 64-bit counter shows when its true value is `x`.
pub open spec fn wrapped64(x: int) -> int {
    x % 0x1_0000_0000_0000_0000
}

/// A value that fits the counter is shown as it is.
pub proof fn lemma_wrapped_small(x: int)
    requires
        0 <= x <= usize::MAX,
    ensures
        wrapped(x) == x,
{
    lemma_small_mod(x as nat, (usize::MAX as int + 1) as nat);
}

/// Wrapping loses nothing for later additions and subtractions.
pub proof fn lemma_wrapped_shift(x: int, n: int)
    ensures
        wrapped(wrapped(x) + n) == wrapped(x + n),
        0 <= wrapped(x) <= usize::MAX,
{
    let m = usize::MAX as int + 1;
    lemma_mod_bound(x, m);
    lemma_add_mod_noop(x, n, m);
    lemma_add_mod_noop(wrapped(x), n, m);
    lemma_mod_twice(x, m);
}

/// Adds `n` to the counter.
pub fn counter_add(counter: &mut usize, n: usize)
    ensures
        *final(counter) == wrapped(*old(counter) + n),
{
    proof {
        let m = usize::MAX as int + 1;
        let sum = *counter + n;
        if sum > usize::MAX {
            lemma_wrapped_small(sum - m);
            lemma_mod_multiples_vanish(1, sum - m, m);
        } else {
            lemma_wrapped_small(sum);
        }
    }
    *counter = counter.wrapping_add(n);
}

/// Subtracts `n` from the counter.
pub fn counter_sub(counter: &mut usize, n: usize)
    ensures
        *final(counter) == wrapped(*old(counter) - n),
{
    proof {
        let m = usize::MAX as int + 1;
        let difference = *counter - n;
        if difference < 0 {
            lemma_wrapped_small(difference + m);
            lemma_mod_multiples_vanish(1, difference, m);
        } else {
            lemma_wrapped_small(difference);
        }
    }
    *counter = counter.wrapping_sub(n);
}

} // verus!
