//! Reading the CP arrays shared by the PLC structures.

use vstd::prelude::*;

use crate::binary::{le_u32_seq, non_decreasing, read_u32_le, strictly_increasing};

verus! {

/// Reads `n` little-endian `u32` values from the start of `bytes`.
pub fn read_u32_array(bytes: &[u8], n: usize) -> (res: Vec<u32>)
    requires
        4 * n <= bytes@.len(),
    ensures
        res@ == le_u32_seq(bytes@, 0, n as nat),
{
    let len = bytes.len();
    let mut values: Vec<u32> = Vec::new();
    let mut k: usize = 0;
    while k < n
        invariant
            len == bytes@.len(),
            4 * n <= len,
            k <= n,
            values@ == le_u32_seq(bytes@, 0, n as nat).take(k as int),
        decreases n - k,
    {
        values.push(read_u32_le(bytes, 4 * k));
        proof {
            assert(values@ =~= le_u32_seq(bytes@, 0, n as nat).take(k as int + 1));
        }
        k = k + 1;
    }
    assert(values@ =~= le_u32_seq(bytes@, 0, n as nat));
    values
}

/// Whether `values` increase strictly.
pub fn is_strictly_increasing(values: &[u32]) -> (res: bool)
    ensures
        res == strictly_increasing(values@),
{
    let n = values.len();
    if n == 0 {
        return true;
    }
    let mut k: usize = 0;
    while k + 1 < n
        invariant
            n == values@.len(),
            n >= 1,
            k + 1 <= n,
            forall|i: int, j: int| 0 <= i < j <= k ==> values@[i] < values@[j],
        decreases n - k,
    {
        if values[k] >= values[k + 1] {
            assert(!strictly_increasing(values@)) by {
                assert(values@[k as int] >= values@[k as int + 1]);
            }
            return false;
        }
        k = k + 1;
    }
    true
}

/// Whether `values` never decrease.
pub fn is_non_decreasing(values: &[u32]) -> (res: bool)
    ensures
        res == non_decreasing(values@),
{
    let n = values.len();
    if n == 0 {
        return true;
    }
    let mut k: usize = 0;
    while k + 1 < n
        invariant
            n == values@.len(),
            n >= 1,
            k + 1 <= n,
            forall|i: int, j: int| 0 <= i <= j <= k ==> values@[i] <= values@[j],
        decreases n - k,
    {
        if values[k] > values[k + 1] {
            assert(!non_decreasing(values@)) by {
                assert(values@[k as int] > values@[k as int + 1]);
            }
            return false;
        }
        k = k + 1;
    }
    true
}

/// Whether some of the first `count` values is at least `bound`.
pub open spec fn any_at_least(values: Seq<u32>, count: int, bound: int) -> bool {
    exists|k: int| 0 <= k < count && #[trigger] values[k] >= bound
}

/// Whether some of the first `count` values is at least `bound`.
pub fn has_value_at_least(values: &[u32], count: usize, bound: u32) -> (res: bool)
    requires
        count <= values@.len(),
    ensures
        res == any_at_least(values@, count as int, bound as int),
{
    let mut k: usize = 0;
    while k < count
        invariant
            count <= values@.len(),
            k <= count,
            forall|i: int| 0 <= i < k ==> values@[i] < bound,
        decreases count - k,
    {
        if values[k] >= bound {
            assert(values@[k as int] >= bound);
            return true;
        }
        k = k + 1;
    }
    false
}

} // verus!
