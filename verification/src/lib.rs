//! Paging-aware quantum-circuit simulation engine.
//!
//! The state vector for `N` qubits is a dense array of `2^N` complex
//! amplitudes of 16 bytes each, backed by a file on fast storage. Because
//! the amplitudes a gate touches depend only on its target qubit, the
//! engine compiles a circuit into a per-gate page-access schedule and
//! issues coalesced prefetch advisories ahead of execution.

use vstd::prelude::*;
use vstd::arithmetic::power2::{pow2, lemma_pow2_adds, lemma_pow2_strictly_increases, lemma2_to64};

pub mod bitmap;
pub mod circuit;
pub mod io;
pub mod kernels;
pub mod memory;
pub mod controller;

verus! {

/// Size in bytes of the virtual-memory unit this design pages on.
pub const PAGE_SIZE: usize = 4096;

/// Size in bytes of one complex amplitude: two IEEE-754 binary64 values.
pub const AMP_BYTES: usize = 16;

/// Total length in bytes of the state vector for `num_qubits` qubits:
/// `2^N` amplitudes of 16 bytes each.
pub open spec fn state_bytes_len(num_qubits: nat) -> nat {
    pow2(num_qubits) * (AMP_BYTES as nat)
}

/// Total number of pages covering the state vector (rounding the last,
/// partial page up).
pub open spec fn page_count(num_qubits: nat) -> nat {
    (state_bytes_len(num_qubits) + (PAGE_SIZE - 1) as nat) / (PAGE_SIZE as nat)
}

/// The errors the engine reports: one precondition violation and the
/// ways a gate list or a restored snapshot can be malformed. I/O
/// failures of the backing file and the advisory ring belong to the
/// host shell that owns those resources.
#[derive(Clone, Copy, Debug, PartialEq, Eq, Structural)]
pub enum SimError {
    /// An operation that needs the memory manager ran before `initialize`.
    NotInitialized,
    /// The parallel gate-list arrays differ in length.
    LengthMismatch,
    /// A gate names zero or more than two targets.
    BadTargetCount,
    /// A gate targets a qubit at or beyond the qubit count.
    TargetOutOfRange,
    /// A two-qubit gate names the same qubit twice.
    DuplicateTarget,
    /// A restored snapshot's byte length is not the mapped length.
    BadSnapshotLength,
}

impl SimError {
    /// A short description, as the host surface reports it.
    pub fn message(&self) -> (r: &'static str)
        ensures
            r@ == self.message_spec(),
    {
        match self {
            SimError::NotInitialized => "Memory not initialized",
            SimError::LengthMismatch => "gate list arrays differ in length",
            SimError::BadTargetCount => "gate must have one or two targets",
            SimError::TargetOutOfRange => "gate target out of range",
            SimError::DuplicateTarget => "gate targets must be distinct",
            SimError::BadSnapshotLength => "snapshot length does not match mapping",
        }
    }

    /// The description `message` returns.
    pub open spec fn message_spec(&self) -> Seq<char> {
        match self {
            SimError::NotInitialized => "Memory not initialized"@,
            SimError::LengthMismatch => "gate list arrays differ in length"@,
            SimError::BadTargetCount => "gate must have one or two targets"@,
            SimError::TargetOutOfRange => "gate target out of range"@,
            SimError::DuplicateTarget => "gate targets must be distinct"@,
            SimError::BadSnapshotLength => "snapshot length does not match mapping"@,
        }
    }
}

/// `2^e` as a machine integer.
pub fn pow2_exec(e: usize) -> (r: usize)
    requires
        pow2(e as nat) <= usize::MAX,
    ensures
        r as nat == pow2(e as nat),
{
    proof {
        lemma2_to64();
    }
    let mut r: usize = 1;
    let mut i: usize = 0;
    while i < e
        invariant
            i <= e,
            r as nat == pow2(i as nat),
            pow2(e as nat) <= usize::MAX,
        decreases e - i,
    {
        proof {
            lemma_pow2_adds(i as nat, 1);
            lemma2_to64();
            if ((i + 1) as nat) < (e as nat) {
                lemma_pow2_strictly_increases((i + 1) as nat, e as nat);
            }
        }
        r = r * 2;
        i = i + 1;
    }
    r
}

} // verus!
