//! The weight of database accesses.
use vstd::prelude::*;

verus! {

/// An amount of execution time, in units of the reference hardware.
pub type Weight = u64;

/// The weight of one database access of each kind.
#[derive(Clone, Copy, Debug, PartialEq, Eq, Structural)]
pub struct RuntimeDbWeight {
    /// The weight of one read.
    pub read: Weight,
    /// The weight of one write.
    pub write: Weight,
}

/// The largest weight that is not above `n`.
pub open spec fn saturated(n: nat) -> Weight {
    if n <= u64::MAX {
        n as u64
    } else {
        u64::MAX
    }
}

impl RuntimeDbWeight {
    /// The weight of so many reads and writes.
    pub open spec fn weight_of(self, reads: nat, writes: nat) -> Weight {
        saturated((self.read * reads + self.write * writes) as nat)
    }

    /// Computes the weight of so many reads and writes.
    ///
    /// `frame_support::weights::RuntimeDbWeight::reads_writes` multiplies each count with the
    /// weight of one access and adds the two products. Each of these operations stops at the
    /// largest 64-bit number instead of overflowing. The result is a two-dimensional weight, of
    /// which this is the reference time; the other dimension, the proof size, is always zero.
    #[verifier::external_body]
    pub(crate) fn reads_writes(self, reads: u64, writes: u64) -> (weight: Weight)
        ensures
            weight == self.weight_of(reads as nat, writes as nat),
    {
        let db_weight = frame_support::weights::RuntimeDbWeight { read: self.read, write: self.write };
        db_weight.reads_writes(reads, writes).ref_time()
    }
}

} // verus!
