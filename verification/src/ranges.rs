//! Sets of packet numbers, as lists of ranges.
use vstd::prelude::*;

verus! {

/// A set of packet numbers: those from the first number of one of its ranges up
/// to, and without, the second.
pub struct RangeSet {
    pub ranges: Vec<(u64, u64)>,
}

impl RangeSet {
    /// The packet number `n` is in the set.
    pub open spec fn has(&self, n: int) -> bool {
        exists|i: int|
            0 <= i < self.ranges@.len() && (#[trigger] self.ranges@[i]).0 <= n < self.ranges@[i].1
    }
}

impl Default for RangeSet {
    /// The empty set.
    fn default() -> (res: RangeSet)
        ensures
            res.ranges@ == Seq::<(u64, u64)>::empty(),
            forall|n: int| !res.has(n),
    {
        RangeSet { ranges: Vec::new() }
    }
}

/// A number is in the set if and only if one of the ranges has it.
pub proof fn numbers_in_ranges(set: RangeSet, i: int, n: int)
    requires
        0 <= i < set.ranges@.len(),
    ensures
        set.ranges@[i].0 <= n < set.ranges@[i].1 ==> set.has(n),
        (forall|j: int|
            0 <= j < set.ranges@.len() ==> n < (#[trigger] set.ranges@[j]).0 || n
                >= set.ranges@[j].1) ==> !set.has(n),
{
}

} // verus!
