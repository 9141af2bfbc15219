//! Circuit analysis: compiling a gate list into a page-access schedule.
//!
//! For a one-qubit gate on target `q`, paired amplitudes sit `2^q`
//! entries apart. When that stride is below the page size such a gate
//! touches every page; at or above it, the state vector decomposes
//! into blocks of `2 * stride_pages` pages whose leading half is the
//! active region the schedule marks for prefetch.

use vstd::prelude::*;
use vstd::arithmetic::power2::{
    pow2, lemma_pow2_adds, lemma_pow2_subtracts, lemma_pow2_strictly_increases, lemma_pow2_pos,
    lemma2_to64,
};
use vstd::arithmetic::div_mod::{lemma_fundamental_div_mod, lemma_fundamental_div_mod_converse};
use crate::bitmap::{PageBits, bits_of};
use crate::{AMP_BYTES, PAGE_SIZE, page_count, pow2_exec, state_bytes_len};

verus! {

/// One gate of a circuit: a unitary template name, the qubits it acts
/// on (one or two in scope), and real parameters stored as IEEE-754
/// binary64 bit patterns.
#[derive(Debug, Clone)]
pub struct GateOp {
    pub name: String,
    pub targets: Vec<usize>,
    pub params: Vec<u64>,
}

/// The page-access schedule: `timeline[i]` is the bitmap of pages gate
/// `i` needs resident when it executes.
pub struct AccessSchedule {
    pub timeline: Vec<PageBits>,
}

/// Bytes between paired amplitudes for a gate on qubit `q`.
pub open spec fn stride_bytes(q: nat) -> nat {
    pow2(q) * (AMP_BYTES as nat)
}

/// Pages covered by the active (leading) half of each block in the
/// strided regime.
pub open spec fn stride_pages(q: nat) -> nat {
    stride_bytes(q) / (PAGE_SIZE as nat)
}

/// Whether a one-qubit gate on target `q` needs page `p` resident.
/// Below the page-size stride every page is touched; at or above it,
/// the leading `stride_pages(q)` pages of each `2 * stride_pages(q)`-page
/// block are marked.
pub open spec fn gate_needs_page(q: nat, p: nat) -> bool {
    if stride_bytes(q) < PAGE_SIZE as nat {
        true
    } else {
        p % (2 * stride_pages(q)) < stride_pages(q)
    }
}

/// The scheduled bit for page `p` of one gate: single-target gates
/// follow [`gate_needs_page`]; empty and two-target lists receive an
/// empty bitmap, so those gates fall back to demand paging.
pub open spec fn gate_schedule_bit(targets: Seq<usize>, p: nat) -> bool {
    targets.len() == 1 && gate_needs_page(targets[0] as nat, p)
}

/// Law: a one-qubit gate on a target below the page-size stride
/// (`q < 8`, the dense regime) needs every page of the state vector,
/// so the analyzer sets every bit of its bitmap.
pub proof fn lemma_dense_gate_needs_every_page(q: nat, p: nat)
    requires
        q < 8,
    ensures
        gate_needs_page(q, p),
{
    lemma_pow2_adds(q, 4);
    if q + 4 < 12 {
        lemma_pow2_strictly_increases(q + 4, 12);
    }
    lemma2_to64();
}

/// Law: in the strided regime (`q >= 8`) the set bits have density one
/// half: each block of `2 * stride_pages(q)` pages beginning at a block
/// boundary has exactly its leading `stride_pages(q)` pages marked and
/// its trailing `stride_pages(q)` pages clear.
pub proof fn lemma_strided_gate_half_density(q: nat, block_start: nat, j: nat)
    requires
        8 <= q,
        block_start % (2 * stride_pages(q)) == 0,
        j < stride_pages(q),
    ensures
        gate_needs_page(q, block_start + j),
        !gate_needs_page(q, block_start + stride_pages(q) + j),
{
    lemma_pow2_adds(q, 4);
    lemma_pow2_subtracts(12, q + 4);
    lemma_pow2_pos((q - 8) as nat);
    if q + 4 > 12 {
        lemma_pow2_strictly_increases(12, q + 4);
    }
    lemma2_to64();
    let sp = stride_pages(q) as int;
    let b = block_start as int;
    lemma_fundamental_div_mod(b, 2 * sp);
    assert((b / (2 * sp) * (2 * sp)) == (2 * sp) * (b / (2 * sp))) by (nonlinear_arith);
    lemma_fundamental_div_mod_converse(b + j, 2 * sp, b / (2 * sp), j as int);
    lemma_fundamental_div_mod_converse(b + sp + j, 2 * sp, b / (2 * sp), sp + j);
}

/// Whether `s` is the access schedule for gates with the given target
/// lists on a `num_qubits`-qubit state vector.
pub open spec fn schedule_matches(s: AccessSchedule, num_qubits: nat, targets: Seq<Seq<usize>>) -> bool {
    &&& s.timeline@.len() == targets.len()
    &&& forall|i: int|
        0 <= i < targets.len() ==> bits_of(#[trigger] s.timeline@[i]).len() == page_count(num_qubits)
    &&& forall|i: int, p: int|
        0 <= i < targets.len() && 0 <= p < page_count(num_qubits)
            ==> #[trigger] bits_of(s.timeline@[i])[p] == gate_schedule_bit(targets[i], p as nat)
}

impl AccessSchedule {
    /// A copy whose bitmaps hold the same bits, gate for gate.
    pub fn clone_schedule(&self) -> (r: AccessSchedule)
        ensures
            r.timeline@.len() == self.timeline@.len(),
            forall|i: int|
                0 <= i < self.timeline@.len()
                    ==> bits_of(#[trigger] r.timeline@[i]) == bits_of(self.timeline@[i]),
    {
        let mut timeline: Vec<PageBits> = Vec::new();
        let mut i: usize = 0;
        while i < self.timeline.len()
            invariant
                i <= self.timeline@.len(),
                timeline@.len() == i as nat,
                forall|j: int|
                    0 <= j < i as int
                        ==> bits_of(#[trigger] timeline@[j]) == bits_of(self.timeline@[j]),
            decreases self.timeline@.len() - i as nat,
        {
            timeline.push(self.timeline[i].clone_bits());
            i = i + 1;
        }
        AccessSchedule { timeline }
    }
}

/// Compiles gate lists into page-access schedules for a fixed number
/// of qubits.
pub struct CircuitAnalyzer {
    num_qubits: usize,
    page_size: usize,
    total_bytes: usize,
    element_size: usize,
}

impl CircuitAnalyzer {
    /// The analyzer's fields agree with the qubit count it was built for.
    pub closed spec fn wf(&self) -> bool {
        &&& self.page_size == PAGE_SIZE
        &&& self.element_size == AMP_BYTES
        &&& self.total_bytes as nat == state_bytes_len(self.num_qubits as nat)
        &&& state_bytes_len(self.num_qubits as nat) + (PAGE_SIZE as nat) <= usize::MAX as nat
    }

    /// The number of qubits the analyzer was built for.
    pub closed spec fn nq(&self) -> nat {
        self.num_qubits as nat
    }

    pub fn new(num_qubits: usize) -> (r: CircuitAnalyzer)
        requires
            state_bytes_len(num_qubits as nat) + (PAGE_SIZE as nat) <= usize::MAX as nat,
        ensures
            r.wf(),
            r.nq() == num_qubits as nat,
    {
        proof {
            lemma_pow2_adds(num_qubits as nat, 4);
            lemma2_to64();
        }
        let total_bytes = pow2_exec(num_qubits) * AMP_BYTES;
        CircuitAnalyzer { num_qubits, page_size: PAGE_SIZE, total_bytes, element_size: AMP_BYTES }
    }

    /// The number of pages covering the state vector.
    fn total_pages(&self) -> (r: usize)
        requires
            self.wf(),
        ensures
            r as nat == page_count(self.nq()),
    {
        (self.total_bytes + (self.page_size - 1)) / self.page_size
    }

    /// The pages a single gate needs resident when it executes.
    pub fn get_pages_for_gate(&self, gate: &GateOp) -> (r: PageBits)
        requires
            self.wf(),
            gate.targets@.len() == 1 ==> (gate.targets@[0] as nat) < self.nq(),
        ensures
            bits_of(r).len() == page_count(self.nq()),
            forall|p: int|
                0 <= p < page_count(self.nq())
                    ==> bits_of(r)[p] == gate_schedule_bit(gate.targets@, p as nat),
    {
        let total_pages = self.total_pages();
        let mut pages = PageBits::filled(false, total_pages);

        if gate.targets.len() != 1 {
            return pages;
        }

        let target_qubit = gate.targets[0];
        proof {
            lemma_pow2_strictly_increases(target_qubit as nat, self.num_qubits as nat);
            lemma_pow2_adds(target_qubit as nat, 4);
            lemma_pow2_adds(self.num_qubits as nat, 4);
            lemma2_to64();
        }
        let stride_elements = pow2_exec(target_qubit);
        let stride_b = stride_elements * self.element_size;

        // Dense regime: the stride is below one page, every page holds
        // amplitudes of both halves of the pair, so every page is marked.
        if stride_b < self.page_size {
            pages.fill(true);
            return pages;
        }

        // Strided regime: `stride_b == pow2(q + 4) >= pow2(12)`, so the
        // stride and block sizes are exact page multiples.
        let pages_per_stride = stride_b / self.page_size;
        let pages_per_block = pages_per_stride * 2;

        proof {
            let q = target_qubit as nat;
            let nq = self.num_qubits as nat;
            // q + 4 >= 12, hence q >= 8.
            if q + 4 < 12 {
                lemma_pow2_strictly_increases(q + 4, 12);
            }
            lemma_pow2_subtracts(12, q + 4);
            lemma_pow2_subtracts(12, nq + 4);
            lemma_pow2_adds((q - 8) as nat, 1);
            lemma_pow2_pos((q - 8) as nat);
            lemma_pow2_pos((nq - 8) as nat);
            if ((q - 7) as nat) < ((nq - 8) as nat) {
                lemma_pow2_strictly_increases((q - 7) as nat, (nq - 8) as nat);
            }
            // total_pages == pow2(nq - 8): the byte length is an exact
            // multiple of the page size, so the round-up does not move it.
            lemma_pow2_adds((nq - 8) as nat, 12);
            lemma_fundamental_div_mod_converse(
                (state_bytes_len(nq) + (PAGE_SIZE - 1) as nat) as int,
                PAGE_SIZE as int,
                pow2((nq - 8) as nat) as int,
                (PAGE_SIZE - 1) as int,
            );
            lemma_pow2_adds((q - 8) as nat, 12);
            lemma_fundamental_div_mod_converse(
                stride_bytes(q) as int,
                PAGE_SIZE as int,
                pow2((q - 8) as nat) as int,
                0,
            );
            assert(pages_per_stride as nat == stride_pages(q));
            assert(pages_per_block as nat == 2 * stride_pages(q));
            assert(total_pages as nat == page_count(nq));
            assert(pages_per_block as nat <= 2 * pow2((nq - 8) as nat));
        }

        let ghost q = target_qubit as nat;
        let mut block_start: usize = 0;
        while block_start < total_pages
            invariant
                self.wf(),
                (target_qubit as nat) < self.nq(),
                q == target_qubit as nat,
                total_pages as nat == page_count(self.nq()),
                pages_per_stride as nat == stride_pages(q),
                pages_per_block as nat == 2 * stride_pages(q),
                pages_per_stride >= 1,
                pages_per_block as nat <= 2 * (total_pages as nat),
                4 * (total_pages as nat) <= usize::MAX as nat,
                block_start as nat % (pages_per_block as nat) == 0,
                bits_of(pages).len() == total_pages as nat,
                stride_bytes(q) >= PAGE_SIZE as nat,
                forall|p: int|
                    0 <= p < total_pages as int
                        ==> bits_of(pages)[p] == (p < block_start as int
                            && p % (pages_per_block as int) < pages_per_stride as int),
            decreases total_pages as int - block_start as int + pages_per_block as int,
        {
            let mut i: usize = 0;
            while i < pages_per_stride
                invariant
                    i <= pages_per_stride,
                    pages_per_stride >= 1,
                    pages_per_block as nat == 2 * (pages_per_stride as nat),
                    pages_per_block as nat <= 2 * (total_pages as nat),
                    4 * (total_pages as nat) <= usize::MAX as nat,
                    block_start as nat % (pages_per_block as nat) == 0,
                    block_start < total_pages,
                    bits_of(pages).len() == total_pages as nat,
                    forall|p: int|
                        0 <= p < total_pages as int
                            ==> bits_of(pages)[p] == ((p < block_start as int
                                && p % (pages_per_block as int) < pages_per_stride as int)
                                || (block_start as int <= p < block_start as int + i as int)),
                decreases pages_per_stride as int - i as int,
            {
                if block_start + i < total_pages {
                    pages.set(block_start + i, true);
                }
                i = i + 1;
            }
            proof {
                // Pages of the finished block keep their final value once
                // `block_start` advances: position `bs + j` has remainder
                // `j` modulo the block size.
                lemma_fundamental_div_mod(block_start as int, pages_per_block as int);
                assert((block_start as int / pages_per_block as int + 1) * pages_per_block as int
                    == pages_per_block as int * (block_start as int / pages_per_block as int)
                        + pages_per_block as int) by (nonlinear_arith);
                lemma_fundamental_div_mod_converse(
                    block_start as int + pages_per_block as int,
                    pages_per_block as int,
                    block_start as int / pages_per_block as int + 1,
                    0,
                );
                assert forall|p: int|
                    block_start as int <= p < block_start as int + pages_per_block as int
                        implies #[trigger] (p % (pages_per_block as int)) == p - block_start as int by {
                    lemma_fundamental_div_mod_converse(
                        p,
                        pages_per_block as int,
                        block_start as int / pages_per_block as int,
                        p - block_start as int,
                    );
                }
            }
            block_start = block_start + pages_per_block;
        }

        proof {
            assert forall|p: int| 0 <= p < page_count(self.nq())
                implies bits_of(pages)[p] == gate_schedule_bit(gate.targets@, p as nat) by {
                assert(gate_needs_page(q, p as nat) == (p % (pages_per_block as int)
                    < pages_per_stride as int));
            }
        }
        pages
    }

    /// Compiles the whole gate list into its access schedule.
    pub fn analyze(&self, gates: &[GateOp]) -> (r: AccessSchedule)
        requires
            self.wf(),
            forall|i: int|
                0 <= i < gates@.len() && (#[trigger] gates@[i]).targets@.len() == 1
                    ==> (gates@[i].targets@[0] as nat) < self.nq(),
        ensures
            schedule_matches(r, self.nq(), gates@.map(|i: int, g: GateOp| g.targets@)),
    {
        let mut timeline: Vec<PageBits> = Vec::new();
        let mut idx: usize = 0;
        while idx < gates.len()
            invariant
                self.wf(),
                idx <= gates@.len(),
                timeline@.len() == idx as nat,
                forall|i: int|
                    0 <= i < gates@.len() && (#[trigger] gates@[i]).targets@.len() == 1
                        ==> (gates@[i].targets@[0] as nat) < self.nq(),
                forall|i: int|
                    0 <= i < idx as int
                        ==> bits_of(#[trigger] timeline@[i]).len() == page_count(self.nq()),
                forall|i: int, p: int|
                    0 <= i < idx as int && 0 <= p < page_count(self.nq())
                        ==> #[trigger] bits_of(timeline@[i])[p]
                            == gate_schedule_bit(gates@[i].targets@, p as nat),
            decreases gates@.len() - idx as nat,
        {
            let required_pages = self.get_pages_for_gate(&gates[idx]);
            timeline.push(required_pages);
            idx = idx + 1;
        }
        AccessSchedule { timeline }
    }
}

} // verus!
