//! Memory manager: the state-vector region and its page residency.
//!
//! The manager models the file-backed mapping of the state vector as a
//! dense array of amplitudes together with one residency bit per page.
//! The host shell that owns the actual file and mapping keeps the file
//! byte-for-byte equal to [`state_le_bytes`] of this array: amplitudes
//! tightly packed, each component little-endian, no header. Snapshots
//! and restores move through exactly that byte layout.

use vstd::prelude::*;
use vstd::arithmetic::power2::{pow2, lemma_pow2_adds, lemma_pow2_pos, lemma2_to64};
use vstd::arithmetic::div_mod::{lemma_fundamental_div_mod_converse, lemma_mod_multiples_basic};
use vstd::arithmetic::mul::lemma_mul_inequality;
use vstd::bytes::{
    spec_u64_to_le_bytes, spec_u64_from_le_bytes, lemma_auto_spec_u64_to_from_le_bytes,
    u64_to_le_bytes, u64_from_le_bytes,
};
use vstd::slice::slice_subrange;
use crate::bitmap::{PageBits, bits_of};
use crate::kernels::Amp;
use crate::{AMP_BYTES, PAGE_SIZE, SimError, page_count, pow2_exec, state_bytes_len};

verus! {

/// One amplitude as its 16 raw bytes: real component first, each
/// component little-endian.
pub open spec fn amp_le_bytes(a: Amp) -> Seq<u8> {
    spec_u64_to_le_bytes(a.re) + spec_u64_to_le_bytes(a.im)
}

/// The raw byte image of a state vector: amplitudes in index order,
/// tightly packed, no header.
pub open spec fn state_le_bytes(s: Seq<Amp>) -> Seq<u8>
    decreases s.len(),
{
    if s.len() == 0 {
        Seq::empty()
    } else {
        state_le_bytes(s.drop_last()) + amp_le_bytes(s.last())
    }
}

/// The state vector a raw byte image denotes: one amplitude per 16
/// bytes.
pub open spec fn le_bytes_to_state(b: Seq<u8>) -> Seq<Amp> {
    Seq::new(
        b.len() / 16,
        |k: int|
            Amp {
                re: spec_u64_from_le_bytes(b.subrange(16 * k, 16 * k + 8)),
                im: spec_u64_from_le_bytes(b.subrange(16 * k + 8, 16 * k + 16)),
            },
    )
}

/// The byte image is 16 bytes per amplitude.
pub proof fn lemma_state_le_bytes_len(s: Seq<Amp>)
    ensures
        state_le_bytes(s).len() == 16 * s.len(),
    decreases s.len(),
{
    lemma_auto_spec_u64_to_from_le_bytes();
    if s.len() > 0 {
        lemma_state_le_bytes_len(s.drop_last());
    }
}

/// Amplitude `k`'s bytes sit at offset `16 * k` of the byte image.
proof fn lemma_state_le_bytes_decompose(s: Seq<Amp>, k: int)
    requires
        0 <= k < s.len(),
    ensures
        state_le_bytes(s).subrange(16 * k, 16 * k + 8) == spec_u64_to_le_bytes(s[k].re),
        state_le_bytes(s).subrange(16 * k + 8, 16 * k + 16) == spec_u64_to_le_bytes(s[k].im),
    decreases s.len(),
{
    lemma_auto_spec_u64_to_from_le_bytes();
    lemma_state_le_bytes_len(s);
    lemma_state_le_bytes_len(s.drop_last());
    if k == s.len() - 1 {
        assert(state_le_bytes(s).subrange(16 * k, 16 * k + 8) =~= spec_u64_to_le_bytes(s[k].re));
        assert(state_le_bytes(s).subrange(16 * k + 8, 16 * k + 16) =~= spec_u64_to_le_bytes(
            s[k].im,
        ));
    } else {
        lemma_state_le_bytes_decompose(s.drop_last(), k);
        assert(state_le_bytes(s).subrange(16 * k, 16 * k + 8) =~= state_le_bytes(
            s.drop_last(),
        ).subrange(16 * k, 16 * k + 8));
        assert(state_le_bytes(s).subrange(16 * k + 8, 16 * k + 16) =~= state_le_bytes(
            s.drop_last(),
        ).subrange(16 * k + 8, 16 * k + 16));
    }
}

/// Law: the raw byte image round-trips—reading the bytes a state
/// vector was written as yields the same state vector, amplitude for
/// amplitude, so a checkpoint restores byte-for-byte.
pub proof fn lemma_snapshot_round_trip(s: Seq<Amp>)
    ensures
        le_bytes_to_state(state_le_bytes(s)) == s,
{
    lemma_auto_spec_u64_to_from_le_bytes();
    lemma_state_le_bytes_len(s);
    assert forall|k: int| 0 <= k < s.len() implies le_bytes_to_state(state_le_bytes(s))[k]
        == s[k] by {
        lemma_state_le_bytes_decompose(s, k);
    }
    assert(le_bytes_to_state(state_le_bytes(s)) =~= s);
}

/// Law: for eight or more qubits the mapped length `2^N * 16` is an
/// exact multiple of the 4 KiB page size, and the page count covers it
/// exactly.
pub proof fn lemma_mapped_len_page_multiple(num_qubits: nat)
    requires
        8 <= num_qubits,
    ensures
        state_bytes_len(num_qubits) % (PAGE_SIZE as nat) == 0,
        state_bytes_len(num_qubits) == page_count(num_qubits) * (PAGE_SIZE as nat),
{
    lemma_pow2_adds(num_qubits, 4);
    lemma_pow2_adds((num_qubits - 8) as nat, 12);
    lemma_pow2_pos((num_qubits - 8) as nat);
    lemma2_to64();
    let blocks = pow2((num_qubits - 8) as nat) as int;
    lemma_mod_multiples_basic(blocks, PAGE_SIZE as int);
    lemma_fundamental_div_mod_converse(
        state_bytes_len(num_qubits) as int + (PAGE_SIZE - 1) as int,
        PAGE_SIZE as int,
        blocks,
        (PAGE_SIZE - 1) as int,
    );
}

/// Owns the model of the state-vector mapping: the amplitudes and the
/// per-page residency bits. The residency bits record the last
/// advisory given to the OS; they are a hint, not ground truth.
pub struct QuantumMemoryManager {
    pub(crate) state: Vec<Amp>,
    pub num_qubits: usize,
    pub total_bytes: usize,
    pub resident_bitmap: PageBits,
}

impl QuantumMemoryManager {
    /// The manager's sizes agree: `2^N` amplitudes, `2^N * 16` bytes,
    /// one residency bit per page.
    pub closed spec fn wf(&self) -> bool {
        &&& self.state@.len() == pow2(self.num_qubits as nat)
        &&& self.total_bytes as nat == state_bytes_len(self.num_qubits as nat)
        &&& bits_of(self.resident_bitmap).len() == page_count(self.num_qubits as nat)
        &&& state_bytes_len(self.num_qubits as nat) + (PAGE_SIZE as nat) <= usize::MAX as nat
    }

    /// What well-formedness gives a caller: the sizes agree with the
    /// qubit count.
    pub proof fn lemma_wf_facts(&self)
        requires
            self.wf(),
        ensures
            self.mapped_bytes() as nat == state_bytes_len(self.nq() as nat),
            self.state_view().len() == pow2(self.nq() as nat),
            self.resident_view().len() == page_count(self.nq() as nat),
            state_bytes_len(self.nq() as nat) + (PAGE_SIZE as nat) <= usize::MAX as nat,
    {
    }

    /// The spec views in terms of the fields, for the crate's own
    /// modules that hand the state to the kernels.
    pub(crate) proof fn lemma_fields(&self)
        ensures
            self.state_view() == self.state@,
            self.resident_view() == bits_of(self.resident_bitmap),
            self.nq() == self.num_qubits,
            self.mapped_bytes() == self.total_bytes,
            self.wf() <==> (self.state@.len() == pow2(self.num_qubits as nat)
                && self.total_bytes as nat == state_bytes_len(self.num_qubits as nat) && bits_of(
                self.resident_bitmap,
            ).len() == page_count(self.num_qubits as nat) && state_bytes_len(
                self.num_qubits as nat,
            ) + (PAGE_SIZE as nat) <= usize::MAX as nat),
    {
    }

    /// The qubit count the manager was built for.
    pub closed spec fn nq(&self) -> usize {
        self.num_qubits
    }

    /// The mapped length in bytes.
    pub closed spec fn mapped_bytes(&self) -> usize {
        self.total_bytes
    }

    /// The amplitudes of the mapped region.
    pub closed spec fn state_view(&self) -> Seq<Amp> {
        self.state@
    }

    /// The residency bits, one per page.
    pub closed spec fn resident_view(&self) -> Seq<bool> {
        bits_of(self.resident_bitmap)
    }

    /// A manager for `num_qubits` qubits with an all-zero state and no
    /// page advised resident. The host shell pairs this with a fresh
    /// (hence zero-filled) backing file of the same length.
    pub fn new(num_qubits: usize) -> (r: QuantumMemoryManager)
        requires
            state_bytes_len(num_qubits as nat) + (PAGE_SIZE as nat) <= usize::MAX as nat,
        ensures
            r.wf(),
            r.nq() == num_qubits,
            r.mapped_bytes() as nat == state_bytes_len(num_qubits as nat),
            r.state_view() == Seq::new(pow2(num_qubits as nat), |k: int| Amp { re: 0, im: 0 }),
            r.resident_view() == Seq::new(page_count(num_qubits as nat), |p: int| false),
    {
        proof {
            lemma_pow2_adds(num_qubits as nat, 4);
            lemma2_to64();
        }
        let n = pow2_exec(num_qubits);
        let total_bytes = n * AMP_BYTES;
        let total_pages = (total_bytes + (PAGE_SIZE - 1)) / PAGE_SIZE;
        let resident_bitmap = PageBits::filled(false, total_pages);
        let mut state: Vec<Amp> = Vec::new();
        let mut k: usize = 0;
        while k < n
            invariant
                k <= n,
                state@.len() == k as nat,
                forall|i: int| 0 <= i < k as int ==> state@[i] == (Amp { re: 0u64, im: 0u64 }),
            decreases n as int - k as int,
        {
            state.push(Amp { re: 0, im: 0 });
            k = k + 1;
        }
        proof {
            assert(state@ =~= Seq::new(pow2(num_qubits as nat), |i: int| Amp { re: 0, im: 0 }));
        }
        QuantumMemoryManager { state, num_qubits, total_bytes, resident_bitmap }
    }

    /// The number of amplitudes held.
    pub fn state_len(&self) -> (r: usize)
        ensures
            r as nat == self.state_view().len(),
    {
        self.state.len()
    }

    /// Reads one amplitude of the region.
    pub fn get_amp(&self, k: usize) -> (r: Amp)
        requires
            (k as nat) < self.state_view().len(),
        ensures
            r == self.state_view()[k as int],
    {
        self.state[k]
    }

    /// Writes one amplitude of the region.
    pub fn set_amp(&mut self, k: usize, a: Amp)
        requires
            (k as nat) < old(self).state_view().len(),
        ensures
            final(self).state_view() == old(self).state_view().update(k as int, a),
            final(self).resident_view() == old(self).resident_view(),
            final(self).nq() == old(self).nq(),
            final(self).mapped_bytes() == old(self).mapped_bytes(),
            old(self).wf() ==> final(self).wf(),
    {
        self.state[k] = a;
    }

    /// Advises that a page is no longer wanted and clears its
    /// residency bit. The advisory itself is a hint the host shell
    /// forwards to the OS; a failed advisory is a no-op, so nothing
    /// can fail here.
    pub fn evict_page(&mut self, page_idx: usize)
        requires
            (page_idx as nat) < old(self).resident_view().len(),
        ensures
            final(self).resident_view() == old(self).resident_view().update(
                page_idx as int,
                false,
            ),
            final(self).state_view() == old(self).state_view(),
            final(self).nq() == old(self).nq(),
            final(self).mapped_bytes() == old(self).mapped_bytes(),
            old(self).wf() ==> final(self).wf(),
    {
        self.resident_bitmap.set(page_idx, false);
    }

    /// The raw byte image of the whole region: what the backing file
    /// holds once flushed, and what a checkpoint copies.
    pub fn snapshot(&self) -> (r: Vec<u8>)
        ensures
            r@ == state_le_bytes(self.state_view()),
    {
        let n = self.state.len();
        let mut bytes: Vec<u8> = Vec::new();
        let mut k: usize = 0;
        while k < n
            invariant
                n as nat == self.state@.len(),
                k <= n,
                bytes@ == state_le_bytes(self.state@.take(k as int)),
            decreases n as int - k as int,
        {
            let a = self.state[k];
            let re_bytes = u64_to_le_bytes(a.re);
            let im_bytes = u64_to_le_bytes(a.im);
            bytes.extend_from_slice(re_bytes.as_slice());
            bytes.extend_from_slice(im_bytes.as_slice());
            proof {
                let taken = self.state@.take(k as int + 1);
                assert(taken.drop_last() =~= self.state@.take(k as int));
                assert(bytes@ =~= state_le_bytes(taken.drop_last()) + amp_le_bytes(taken.last()));
            }
            k = k + 1;
        }
        proof {
            assert(self.state@.take(n as int) =~= self.state@);
        }
        bytes
    }

    /// Replaces the region's amplitudes with the ones a raw byte image
    /// denotes. Succeeds exactly when the image has the mapped length;
    /// a wrong-sized image is rejected and nothing changes.
    pub fn restore(&mut self, bytes: &Vec<u8>) -> (r: Result<(), SimError>)
        requires
            old(self).wf(),
        ensures
            final(self).wf(),
            r is Ok <==> bytes@.len() == old(self).mapped_bytes() as nat,
            r is Err ==> r == Result::<(), SimError>::Err(SimError::BadSnapshotLength)
                && *final(self) == *old(self),
            r is Ok ==> final(self).state_view() == le_bytes_to_state(bytes@)
                && final(self).resident_view() == old(self).resident_view()
                && final(self).nq() == old(self).nq()
                && final(self).mapped_bytes() == old(self).mapped_bytes(),
    {
        if bytes.len() != self.total_bytes {
            return Err(SimError::BadSnapshotLength);
        }
        let n = bytes.len() / AMP_BYTES;
        proof {
            lemma_pow2_pos(self.num_qubits as nat);
            lemma_fundamental_div_mod_converse(
                bytes@.len() as int,
                16,
                pow2(self.num_qubits as nat) as int,
                0,
            );
        }
        let mut state: Vec<Amp> = Vec::new();
        let mut k: usize = 0;
        while k < n
            invariant
                bytes@.len() == 16 * (n as nat),
                bytes@.len() <= usize::MAX as nat,
                k <= n,
                state@.len() == k as nat,
                forall|i: int|
                    0 <= i < k as int ==> state@[i] == le_bytes_to_state(bytes@)[i],
            decreases n as int - k as int,
        {
            proof {
                lemma_mul_inequality(k as int + 1, n as int, 16);
                assert((k as int + 1) * 16 == (k as int) * 16 + 16 && 16 * (n as int) == (
                n as int) * 16 && (k as int) * 16 == 16 * (k as int)) by (nonlinear_arith);
                assert((k as int) * 16 + 16 <= bytes@.len());
            }
            let base = k * AMP_BYTES;
            let re = u64_from_le_bytes(slice_subrange(bytes.as_slice(), base, base + 8));
            let im = u64_from_le_bytes(slice_subrange(bytes.as_slice(), base + 8, base + 16));
            state.push(Amp { re, im });
            k = k + 1;
        }
        self.state = state;
        proof {
            assert(self.state@ =~= le_bytes_to_state(bytes@));
        }
        Ok(())
    }
}

} // verus!
