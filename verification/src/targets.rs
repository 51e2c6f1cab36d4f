//! Bit-packed sets of seat indices, as carried by statements that name
//! several seats. The fixed 16-bit width makes set equality a single word
//! compare; seat indices used by the solver always fit below it.

use vstd::prelude::*;

verus! {

/// A set of seat indices, one bit per seat, seat 0 at the least significant
/// bit.
#[derive(Clone, Copy, Debug, PartialEq, Eq, Hash, Structural)]
pub struct TargetIndexes {
    pub bits: u16,
}

impl TargetIndexes {
    /// Whether seat `i` is in the set.
    pub open spec fn spec_has(self, i: int) -> bool {
        0 <= i < 16 && (self.bits >> (i as u16)) & 1u16 == 1u16
    }

    /// All members of the set are seats of a table of size `n`.
    pub open spec fn wf(self, n: int) -> bool {
        forall|i: int| self.spec_has(i) ==> i < n
    }

    /// The number of members below index `k`.
    pub open spec fn spec_count_upto(self, k: int) -> int
        decreases k,
    {
        if k <= 0 {
            0
        } else {
            self.spec_count_upto(k - 1) + if self.spec_has(k - 1) {
                1int
            } else {
                0int
            }
        }
    }

    /// The number of members of the set.
    pub open spec fn spec_count(self) -> int {
        self.spec_count_upto(16)
    }

    /// The empty set.
    pub fn empty() -> (t: TargetIndexes)
        ensures
            forall|i: int| !t.spec_has(i),
    {
        let t = TargetIndexes { bits: 0 };
        proof {
            assert(forall|j: u16| j < 16 ==> (0u16 >> j) & 1u16 != 1u16) by (bit_vector);
        }
        t
    }

    /// Whether seat `i` is in the set.
    pub fn has(&self, i: usize) -> (r: bool)
        requires
            i < 16,
        ensures
            r == self.spec_has(i as int),
    {
        (self.bits >> (i as u16)) & 1u16 == 1u16
    }

    /// The set with seat `i` added.
    pub fn with(self, i: usize) -> (t: TargetIndexes)
        requires
            i < 16,
        ensures
            forall|j: int| t.spec_has(j) == (self.spec_has(j) || j == i as int),
    {
        let t = TargetIndexes { bits: self.bits | (1u16 << (i as u16)) };
        proof {
            let b = self.bits;
            let iu = i as u16;
            assert forall|j: int| t.spec_has(j) == (self.spec_has(j) || j == i as int) by {
                if 0 <= j < 16 {
                    let ju = j as u16;
                    assert((((b | (1u16 << iu)) >> ju) & 1u16 == 1u16) <==> (((b >> ju) & 1u16
                        == 1u16) || ju == iu)) by (bit_vector)
                        requires
                            iu < 16,
                            ju < 16,
                    ;
                }
            }
        }
        t
    }

    /// The number of members of the set.
    pub fn count(&self) -> (r: usize)
        ensures
            r == self.spec_count(),
    {
        let mut r: usize = 0;
        let mut i: usize = 0;
        while i < 16
            invariant
                i <= 16,
                r == self.spec_count_upto(i as int),
                r <= i,
            decreases 16 - i,
        {
            if self.has(i) {
                r = r + 1;
            }
            i = i + 1;
        }
        r
    }
}

/// Collects a list of seat indices into a bit-packed target set.
pub fn to_bitvec(indices: &Vec<usize>) -> (t: TargetIndexes)
    requires
        forall|k: int| 0 <= k < indices@.len() ==> indices@[k] < 16,
    ensures
        forall|j: int|
            t.spec_has(j) == exists|k: int| 0 <= k < indices@.len() && indices@[k] == j,
{
    let mut t = TargetIndexes::empty();
    let mut k: usize = 0;
    while k < indices.len()
        invariant
            k <= indices@.len(),
            forall|k2: int| 0 <= k2 < indices@.len() ==> indices@[k2] < 16,
            forall|j: int|
                t.spec_has(j) == exists|k2: int| 0 <= k2 < k as int && indices@[k2] == j,
        decreases indices@.len() - k,
    {
        t = t.with(indices[k]);
        k = k + 1;
    }
    t
}

} // verus!
