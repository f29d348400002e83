//! Block-height bookkeeping for a driving host.
//!
//! The registry itself is block-agnostic; a host that orders its operations
//! advances a block counter between them. This helper advances such a counter
//! to a target height, one block at a time, and never moves it backwards.

use vstd::prelude::*;

verus! {

/// Advance the block counter to height `n`; a counter already at or past `n`
/// stays where it is.
pub fn run_to_block(block_number: &mut u64, n: u64)
    ensures
        *final(block_number) == if *old(block_number) < n {
            n
        } else {
            *old(block_number)
        },
{
    let mut b: u64 = *block_number;
    while b < n
        invariant
            if *old(block_number) < n {
                *old(block_number) <= b <= n
            } else {
                b == *old(block_number)
            },
        decreases n - b,
    {
        b = b + 1;
    }
    *block_number = b;
}

} // verus!
