use vstd::prelude::*;

verus! {

// A small comparison utility: find where two equally long byte sequences
// disagree, for inspecting an imperfect round trip.

/// The offsets below `n` at which the two sequences disagree, in increasing
/// order.
pub open spec fn diff_positions(a: Seq<u8>, b: Seq<u8>, n: int) -> Seq<usize>
    decreases n,
{
    if n <= 0 {
        Seq::empty()
    } else if a[n - 1] != b[n - 1] {
        diff_positions(a, b, n - 1).push((n - 1) as usize)
    } else {
        diff_positions(a, b, n - 1)
    }
}

/// Compare two byte sequences of equal length and return every position at
/// which they differ, in increasing order.
pub fn byte_diff_positions(first: &Vec<u8>, second: &Vec<u8>) -> (r: Vec<usize>)
    requires
        first@.len() == second@.len(),
    ensures
        r@ == diff_positions(first@, second@, first@.len() as int),
{
    let mut positions: Vec<usize> = Vec::new();
    let mut i: usize = 0;
    while i < first.len()
        invariant
            i <= first@.len(),
            first@.len() == second@.len(),
            positions@ == diff_positions(first@, second@, i as int),
        decreases first@.len() - i,
    {
        if first[i] != second[i] {
            positions.push(i);
        }
        i = i + 1;
    }
    positions
}

} // verus!
