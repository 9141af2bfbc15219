//! Controller: the lookahead execution loop and the schedule cache.
//!
//! A circuit enters as three parallel arrays (names, target lists,
//! parameter lists). The controller validates them, computes the
//! structural hash of the circuit—names and targets, parameters
//! deliberately excluded, so parameter sweeps over one topology reuse
//! the cached schedule—then walks the gates: for each step it plans
//! the coalesced prefetch advisories for whichever gate sits one position ahead
//! and applies the current gate to the state vector.

use vstd::prelude::*;
use vstd::arithmetic::mul::lemma_mul_inequality;
use vstd::bytes::{spec_u64_to_le_bytes, u64_to_le_bytes};
use vstd::string::StringSliceAdditionalSpecFns;
use crate::bitmap::bits_of;
use crate::circuit::{
    AccessSchedule, CircuitAnalyzer, GateOp, gate_schedule_bit, schedule_matches,
};
use crate::io::{AsyncIoEngine, PageRun, coalesced_runs, run_count};
use crate::kernels::{
    Amp, apply_1q_spec, apply_cnot_spec, apply_single_qubit_gate, apply_cnot, gate_is_cnot,
    get_matrix, is_cnot_name, spec_matrix,
};
use crate::memory::QuantumMemoryManager;
use crate::{PAGE_SIZE, SimError, page_count, state_bytes_len};

verus! {

/// The UTF-8 bytes of a name's characters.
pub open spec fn chars_bytes(s: Seq<char>) -> Seq<u8> {
    vstd::utf8::encode_utf8(s)
}

/// Offset basis of the 64-bit FNV-1a hash.
pub const FNV_OFFSET: u64 = 0xcbf29ce484222325;

/// Prime of the 64-bit FNV-1a hash.
pub const FNV_PRIME: u64 = 0x100000001b3;

/// One FNV-1a step: fold a byte in, then multiply modulo `2^64`.
pub open spec fn fnv1a_step(h: u64, b: u8) -> u64 {
    ((((h ^ (b as u64)) as int) * (FNV_PRIME as int)) % 0x10000000000000000) as u64
}

/// FNV-1a folded over a byte string, left to right.
pub open spec fn fnv1a_bytes(h: u64, bs: Seq<u8>) -> u64
    decreases bs.len(),
{
    if bs.len() == 0 {
        h
    } else {
        fnv1a_step(fnv1a_bytes(h, bs.drop_last()), bs.last())
    }
}

/// Folding over a concatenation is folding over both parts in turn.
proof fn lemma_fnv1a_append(h: u64, a: Seq<u8>, b: Seq<u8>)
    ensures
        fnv1a_bytes(h, a + b) == fnv1a_bytes(fnv1a_bytes(h, a), b),
    decreases b.len(),
{
    if b.len() == 0 {
        assert(a + b =~= a);
    } else {
        lemma_fnv1a_append(h, a, b.drop_last());
        assert((a + b).drop_last() =~= a + b.drop_last());
    }
}

/// The target indices as bytes: each as eight little-endian bytes.
pub open spec fn targets_bytes(ts: Seq<usize>) -> Seq<u8>
    decreases ts.len(),
{
    if ts.len() == 0 {
        Seq::empty()
    } else {
        targets_bytes(ts.drop_last()) + spec_u64_to_le_bytes(ts.last() as u64)
    }
}

/// The bytes one gate contributes to the structural hash: name length,
/// name bytes, target count, target indices. Parameters are excluded
/// by design: the schedule depends only on the circuit's topology.
pub open spec fn gate_key_bytes(name: Seq<char>, ts: Seq<usize>) -> Seq<u8> {
    spec_u64_to_le_bytes(chars_bytes(name).len() as u64) + chars_bytes(name)
        + spec_u64_to_le_bytes(ts.len() as u64) + targets_bytes(ts)
}

/// The bytes of a whole circuit's structure, gate after gate.
pub open spec fn circuit_key_bytes(names: Seq<Seq<char>>, targets: Seq<Seq<usize>>) -> Seq<u8>
    decreases names.len(),
{
    if names.len() == 0 {
        Seq::empty()
    } else {
        circuit_key_bytes(names.drop_last(), targets.drop_last()) + gate_key_bytes(
            names.last(),
            targets.last(),
        )
    }
}

/// The structural hash of a circuit: FNV-1a over the structure bytes.
pub open spec fn structural_hash(names: Seq<Seq<char>>, targets: Seq<Seq<usize>>) -> u64 {
    fnv1a_bytes(FNV_OFFSET, circuit_key_bytes(names, targets))
}

/// One FNV-1a step, carried out in 128-bit arithmetic.
fn fnv1a_step_exec(h: u64, b: u8) -> (r: u64)
    ensures
        r == fnv1a_step(h, b),
{
    let x = h ^ (b as u64);
    proof {
        lemma_mul_inequality(x as int, 0xffffffffffffffff, FNV_PRIME as int);
    }
    let wide = (x as u128) * (FNV_PRIME as u128);
    (wide % 0x10000000000000000u128) as u64
}

/// FNV-1a folded over a byte slice.
fn fnv1a_bytes_exec(h: u64, bs: &[u8]) -> (r: u64)
    ensures
        r == fnv1a_bytes(h, bs@),
{
    let mut acc = h;
    let mut i: usize = 0;
    while i < bs.len()
        invariant
            i <= bs@.len(),
            acc == fnv1a_bytes(h, bs@.take(i as int)),
        decreases bs@.len() - i as nat,
    {
        acc = fnv1a_step_exec(acc, bs[i]);
        proof {
            assert(bs@.take(i as int + 1).drop_last() =~= bs@.take(i as int));
        }
        i = i + 1;
    }
    proof {
        assert(bs@.take(bs@.len() as int) =~= bs@);
    }
    acc
}

/// FNV-1a folded over one integer's eight little-endian bytes.
fn fnv1a_u64_exec(h: u64, x: u64) -> (r: u64)
    ensures
        r == fnv1a_bytes(h, spec_u64_to_le_bytes(x)),
{
    let bytes = u64_to_le_bytes(x);
    fnv1a_bytes_exec(h, bytes.as_slice())
}

/// The structural hash of the circuit the parallel arrays describe.
fn structural_hash_exec(names: &Vec<String>, targets: &Vec<Vec<usize>>) -> (r: u64)
    requires
        names@.len() == targets@.len(),
    ensures
        r == structural_hash(names.deep_view(), targets.deep_view()),
{
    let ghost nv = names.deep_view();
    let ghost tv = targets.deep_view();
    let mut h = FNV_OFFSET;
    let mut i: usize = 0;
    while i < names.len()
        invariant
            names@.len() == targets@.len(),
            nv == names.deep_view(),
            tv == targets.deep_view(),
            nv.len() == names@.len(),
            tv.len() == targets@.len(),
            i <= names@.len(),
            h == fnv1a_bytes(FNV_OFFSET, circuit_key_bytes(nv.take(i as int), tv.take(i as int))),
        decreases names@.len() - i as nat,
    {
        let ghost key_so_far = circuit_key_bytes(nv.take(i as int), tv.take(i as int));
        let name = &names[i];
        let ts = &targets[i];
        let name_bytes = name.as_str().as_bytes();
        proof {
            assert(nv[i as int] == names@[i as int]@);
            assert(name_bytes@ == chars_bytes(nv[i as int]));
        }
        let mut g = fnv1a_u64_exec(h, name_bytes.len() as u64);
        g = fnv1a_bytes_exec(g, name_bytes);
        g = fnv1a_u64_exec(g, ts.len() as u64);
        let ghost a1 = spec_u64_to_le_bytes(chars_bytes(nv[i as int]).len() as u64);
        let ghost a2 = chars_bytes(nv[i as int]);
        let ghost a3 = spec_u64_to_le_bytes(tv[i as int].len() as u64);
        proof {
            vstd::bytes::lemma_auto_spec_u64_to_from_le_bytes();
            assert(tv[i as int] == targets@[i as int]@);
            lemma_fnv1a_append(FNV_OFFSET, key_so_far, a1);
            lemma_fnv1a_append(FNV_OFFSET, key_so_far + a1, a2);
            lemma_fnv1a_append(FNV_OFFSET, key_so_far + a1 + a2, a3);
        }
        let mut j: usize = 0;
        while j < ts.len()
            invariant
                tv == targets.deep_view(),
                tv.len() == targets@.len(),
                i < targets@.len(),
                ts == &targets[i as int],
                tv[i as int] == targets@[i as int]@,
                j <= ts@.len(),
                g == fnv1a_bytes(
                    FNV_OFFSET,
                    key_so_far + a1 + a2 + a3 + targets_bytes(tv[i as int].take(j as int)),
                ),
            decreases ts@.len() - j as nat,
        {
            let ghost pre = key_so_far + a1 + a2 + a3 + targets_bytes(tv[i as int].take(j as int));
            g = fnv1a_u64_exec(g, ts[j] as u64);
            proof {
                lemma_fnv1a_append(
                    FNV_OFFSET,
                    pre,
                    spec_u64_to_le_bytes(tv[i as int][j as int] as u64),
                );
                assert(tv[i as int].take(j as int + 1).drop_last() =~= tv[i as int].take(
                    j as int,
                ));
                assert(key_so_far + a1 + a2 + a3 + targets_bytes(tv[i as int].take(j as int + 1))
                    =~= pre + spec_u64_to_le_bytes(tv[i as int][j as int] as u64));
            }
            j = j + 1;
        }
        proof {
            assert(tv[i as int].take(ts@.len() as int) =~= tv[i as int]);
            assert(nv.take(i as int + 1).drop_last() =~= nv.take(i as int));
            assert(tv.take(i as int + 1).drop_last() =~= tv.take(i as int));
            assert(key_so_far + a1 + a2 + a3 + targets_bytes(tv[i as int]) =~= key_so_far
                + gate_key_bytes(nv[i as int], tv[i as int]));
            assert(circuit_key_bytes(nv.take(i as int + 1), tv.take(i as int + 1)) =~= key_so_far
                + gate_key_bytes(nv[i as int], tv[i as int]));
        }
        h = g;
        i = i + 1;
    }
    proof {
        assert(nv.take(names@.len() as int) =~= nv);
        assert(tv.take(targets@.len() as int) =~= tv);
    }
    h
}

/// The check applied to one gate's target list, in order: target
/// count, then range, then distinctness.
pub open spec fn gate_error(ts: Seq<usize>, nq: nat) -> Option<SimError> {
    if ts.len() < 1 || ts.len() > 2 {
        Some(SimError::BadTargetCount)
    } else if (ts[0] as nat) >= nq || (ts.len() == 2 && (ts[1] as nat) >= nq) {
        Some(SimError::TargetOutOfRange)
    } else if ts.len() == 2 && ts[0] == ts[1] {
        Some(SimError::DuplicateTarget)
    } else {
        None
    }
}

/// The first gate error at or after gate `i`, if any.
pub open spec fn first_gate_error(targets: Seq<Seq<usize>>, nq: nat, i: int) -> Option<SimError>
    decreases targets.len() - i,
{
    if i < 0 || i >= targets.len() {
        None
    } else if gate_error(targets[i], nq) is Some {
        gate_error(targets[i], nq)
    } else {
        first_gate_error(targets, nq, i + 1)
    }
}

/// The state vector after one gate: a single-target gate applies its
/// matrix; a two-target `CX`/`CNOT` applies the controlled-NOT with
/// control first; any other two-target gate is out of scope and
/// leaves the state unchanged.
pub open spec fn gate_step_spec(s: Seq<Amp>, name: Seq<char>, ts: Seq<usize>) -> Seq<Amp> {
    if ts.len() == 1 {
        apply_1q_spec(s, spec_matrix(chars_bytes(name)), ts[0] as nat)
    } else if ts.len() == 2 && is_cnot_name(chars_bytes(name)) {
        apply_cnot_spec(s, ts[0] as nat, ts[1] as nat)
    } else {
        s
    }
}

/// The state vector after the first `g` gates of a circuit.
pub open spec fn run_gates_spec(
    s: Seq<Amp>,
    names: Seq<Seq<char>>,
    targets: Seq<Seq<usize>>,
    g: int,
) -> Seq<Amp>
    decreases g,
{
    if g <= 0 {
        s
    } else {
        gate_step_spec(run_gates_spec(s, names, targets, g - 1), names[g - 1], targets[g - 1])
    }
}

/// The schedule bitmap of one gate, as a plain bit sequence.
pub open spec fn sched_bits(nq: nat, ts: Seq<usize>) -> Seq<bool> {
    Seq::new(page_count(nq), |p: int| gate_schedule_bit(ts, p as nat))
}

/// What a finished run reports back: whether the schedule cache was
/// hit, the prefetch advisories planned at each step (for whichever gate sits one
/// position ahead), and the reserved result values (currently zeros).
#[derive(Debug)]
pub struct RunReport {
    pub cache_hit: bool,
    pub prefetch_plans: Vec<Vec<PageRun>>,
    pub values: Vec<u64>,
}

/// Drives the engine: owns the configuration, the memory manager once
/// initialized, and the schedule cache keyed by the structural hash
/// and structure of the most recent circuit.
pub struct SimulatorController {
    memory: Option<QuantumMemoryManager>,
    num_qubits: usize,
    backing_store: String,
    lookahead_depth: usize,
    cached_schedule: Option<AccessSchedule>,
    last_circuit_hash: u64,
    last_names: Vec<String>,
    last_targets: Vec<Vec<usize>>,
}

impl SimulatorController {
    /// The controller's pieces agree: the manager (once present) is
    /// built for this qubit count, and a cached schedule is exactly
    /// the analysis of the remembered circuit structure.
    pub closed spec fn wf(&self) -> bool {
        &&& state_bytes_len(self.num_qubits as nat) + (PAGE_SIZE as nat) <= usize::MAX as nat
        &&& self.lookahead_depth == 1
        &&& match self.memory {
            Some(m) => m.wf() && m.nq() == self.num_qubits,
            None => true,
        }
        &&& match self.cached_schedule {
            Some(s) => {
                &&& self.last_names@.len() == self.last_targets@.len()
                &&& schedule_matches(s, self.num_qubits as nat, self.last_targets.deep_view())
                &&& self.last_circuit_hash == structural_hash(
                    self.last_names.deep_view(),
                    self.last_targets.deep_view(),
                )
            },
            None => true,
        }
    }

    /// The qubit count the controller was configured with.
    pub closed spec fn nq(&self) -> usize {
        self.num_qubits
    }

    /// The lookahead depth: how many gates ahead prefetch runs.
    pub closed spec fn lookahead(&self) -> usize {
        self.lookahead_depth
    }

    /// The configured backing-store path.
    pub closed spec fn backing(&self) -> Seq<char> {
        self.backing_store@
    }

    /// Whether `initialize` has provided the memory manager.
    pub closed spec fn has_memory(&self) -> bool {
        self.memory is Some
    }

    /// The amplitudes of the managed region (empty until initialized).
    pub closed spec fn state_view(&self) -> Seq<Amp> {
        match self.memory {
            Some(m) => m.state_view(),
            None => Seq::empty(),
        }
    }

    /// Whether the schedule cache holds exactly this circuit structure.
    pub closed spec fn cache_matches(&self, names: Seq<Seq<char>>, targets: Seq<Seq<usize>>) -> bool {
        &&& self.cached_schedule is Some
        &&& self.last_names.deep_view() == names
        &&& self.last_targets.deep_view() == targets
    }

    /// The error `run_circuit` reports for these inputs, if any: the
    /// precondition first, then the parallel-array lengths, then the
    /// first malformed gate.
    pub open spec fn expected_run_error(
        &self,
        names: Seq<Seq<char>>,
        targets: Seq<Seq<usize>>,
        n_params: int,
    ) -> Option<SimError> {
        if !self.has_memory() {
            Some(SimError::NotInitialized)
        } else if names.len() != targets.len() || names.len() != n_params {
            Some(SimError::LengthMismatch)
        } else {
            first_gate_error(targets, self.nq() as nat, 0)
        }
    }

    /// A controller configured for `num_qubits` qubits over the given
    /// backing path, with no memory manager and an empty cache.
    pub fn new(num_qubits: usize, backing_store: String) -> (r: SimulatorController)
        requires
            state_bytes_len(num_qubits as nat) + (PAGE_SIZE as nat) <= usize::MAX as nat,
        ensures
            r.wf(),
            r.nq() == num_qubits,
            r.backing() == backing_store@,
            r.lookahead() == 1,
            !r.has_memory(),
            forall|n: Seq<Seq<char>>, t: Seq<Seq<usize>>| !r.cache_matches(n, t),
    {
        SimulatorController {
            memory: None,
            num_qubits,
            backing_store,
            lookahead_depth: 1,
            cached_schedule: None,
            last_circuit_hash: 0,
            last_names: Vec::new(),
            last_targets: Vec::new(),
        }
    }

    /// Constructs the memory manager: a zeroed region, no page advised
    /// resident. The host shell pairs this with opening, extending and
    /// mapping the backing file, and advising random access.
    pub fn initialize(&mut self)
        requires
            old(self).wf(),
        ensures
            final(self).wf(),
            final(self).has_memory(),
            final(self).nq() == old(self).nq(),
            final(self).lookahead() == old(self).lookahead(),
            final(self).backing() == old(self).backing(),
            final(self).state_view() == Seq::new(
                vstd::arithmetic::power2::pow2(old(self).nq() as nat),
                |k: int| Amp { re: 0, im: 0 },
            ),
            forall|n: Seq<Seq<char>>, t: Seq<Seq<usize>>|
                final(self).cache_matches(n, t) == old(self).cache_matches(n, t),
    {
        let mem = QuantumMemoryManager::new(self.num_qubits);
        self.memory = Some(mem);
    }

    /// The raw byte image of the current state: what a checkpoint
    /// writes, and byte-for-byte what the backing file holds once
    /// flushed. Owed exactly when the controller is initialized.
    pub fn create_checkpoint(&self) -> (r: Result<Vec<u8>, SimError>)
        ensures
            r is Ok <==> self.has_memory(),
            r matches Ok(bytes) ==> bytes@ == crate::memory::state_le_bytes(self.state_view()),
            r matches Err(e) ==> e == SimError::NotInitialized,
    {
        match &self.memory {
            Some(mem) => Ok(mem.snapshot()),
            None => Err(SimError::NotInitialized),
        }
    }

    /// Replaces the state with the one a raw byte image denotes (a
    /// checkpoint being reopened). Succeeds exactly when initialized
    /// and the image has the mapped length.
    pub fn restore_state(&mut self, bytes: &Vec<u8>) -> (r: Result<(), SimError>)
        requires
            old(self).wf(),
        ensures
            final(self).wf(),
            final(self).nq() == old(self).nq(),
            final(self).lookahead() == old(self).lookahead(),
            final(self).backing() == old(self).backing(),
            final(self).has_memory() == old(self).has_memory(),
            r is Ok <==> old(self).has_memory() && bytes@.len() == state_bytes_len(
                old(self).nq() as nat,
            ),
            r is Ok ==> final(self).state_view() == crate::memory::le_bytes_to_state(bytes@),
            r is Err ==> *final(self) == *old(self),
            r matches Err(e) ==> (e == SimError::NotInitialized && !old(self).has_memory()) || (
            e == SimError::BadSnapshotLength && old(self).has_memory()),
    {
        let mut mem_opt: Option<QuantumMemoryManager> = None;
        core::mem::swap(&mut self.memory, &mut mem_opt);
        match mem_opt {
            Some(mut mem) => {
                proof {
                    mem.lemma_wf_facts();
                }
                let r = mem.restore(bytes);
                self.memory = Some(mem);
                r
            },
            None => {
                self.memory = None;
                Err(SimError::NotInitialized)
            },
        }
    }

    /// The configured qubit count.
    pub fn qubit_count(&self) -> (r: usize)
        ensures
            r == self.nq(),
    {
        self.num_qubits
    }

    /// The configured backing-store path.
    pub fn backing_path(&self) -> (r: &str)
        ensures
            r@ == self.backing(),
    {
        self.backing_store.as_str()
    }

    /// The number of amplitudes of the managed region.
    pub fn state_len(&self) -> (r: usize)
        requires
            self.has_memory(),
        ensures
            r as nat == self.state_view().len(),
    {
        match &self.memory {
            Some(mem) => mem.state_len(),
            None => 0,
        }
    }

    /// Reads one amplitude of the managed region.
    pub fn state_amplitude(&self, k: usize) -> (r: Amp)
        requires
            self.has_memory(),
            (k as nat) < self.state_view().len(),
        ensures
            r == self.state_view()[k as int],
    {
        match &self.memory {
            Some(mem) => mem.get_amp(k),
            None => Amp { re: 0, im: 0 },
        }
    }

    /// Writes one amplitude of the managed region (how a host seeds an
    /// initial state).
    pub fn set_state_amplitude(&mut self, k: usize, a: Amp)
        requires
            old(self).wf(),
            old(self).has_memory(),
            (k as nat) < old(self).state_view().len(),
        ensures
            final(self).wf(),
            final(self).has_memory(),
            final(self).nq() == old(self).nq(),
            final(self).lookahead() == old(self).lookahead(),
            final(self).backing() == old(self).backing(),
            final(self).state_view() == old(self).state_view().update(k as int, a),
            forall|n: Seq<Seq<char>>, t: Seq<Seq<usize>>|
                final(self).cache_matches(n, t) == old(self).cache_matches(n, t),
    {
        let mut mem_opt: Option<QuantumMemoryManager> = None;
        core::mem::swap(&mut self.memory, &mut mem_opt);
        match mem_opt {
            Some(mut mem) => {
                mem.set_amp(k, a);
                self.memory = Some(mem);
            },
            None => {
                self.memory = None;
            },
        }
    }

    /// Law: the schedule cache is keyed by the circuit's structure
    /// alone. Once a run has left the cache holding one circuit's
    /// names and targets, the next run hits the cache exactly when its
    /// names and targets are identical to those—whatever either run's
    /// parameters—and misses whenever any name or target differs.
    pub proof fn lemma_cache_hit_iff_same_structure(
        &self,
        names_cached: Seq<Seq<char>>,
        targets_cached: Seq<Seq<usize>>,
        names_next: Seq<Seq<char>>,
        targets_next: Seq<Seq<usize>>,
    )
        requires
            self.cache_matches(names_cached, targets_cached),
        ensures
            self.cache_matches(names_next, targets_next) <==> (names_cached == names_next
                && targets_cached == targets_next),
    {
    }

    /// Runs a circuit given as three parallel arrays: gate names,
    /// target lists, and parameter lists (parameters ride along for
    /// parameterised gates; none of the gates in scope consumes them).
    ///
    /// The inputs are validated first and a malformed list changes
    /// nothing. Then the schedule cache is consulted—hit exactly when
    /// the previous circuit had the same names and targets, whatever
    /// the parameters—and the gates run in order: at step `i` the
    /// prefetch advisories for gate `i + 1` are planned, then gate `i`
    /// is applied to the state vector. The returned values are
    /// reserved and currently zeros.
    pub fn run_circuit(
        &mut self,
        gate_names: &Vec<String>,
        targets: &Vec<Vec<usize>>,
        params: &Vec<Vec<u64>>,
    ) -> (r: Result<RunReport, SimError>)
        requires
            old(self).wf(),
        ensures
            final(self).wf(),
            final(self).nq() == old(self).nq(),
            final(self).lookahead() == old(self).lookahead(),
            final(self).backing() == old(self).backing(),
            final(self).has_memory() == old(self).has_memory(),
            r is Ok <==> old(self).expected_run_error(
                gate_names.deep_view(),
                targets.deep_view(),
                params@.len() as int,
            ) is None,
            r matches Err(e) ==> Some(e) == old(self).expected_run_error(
                gate_names.deep_view(),
                targets.deep_view(),
                params@.len() as int,
            ) && *final(self) == *old(self),
            r matches Ok(report) ==> {
                &&& report.cache_hit == old(self).cache_matches(
                    gate_names.deep_view(),
                    targets.deep_view(),
                )
                &&& final(self).cache_matches(gate_names.deep_view(), targets.deep_view())
                &&& final(self).state_view() == run_gates_spec(
                    old(self).state_view(),
                    gate_names.deep_view(),
                    targets.deep_view(),
                    gate_names@.len() as int,
                )
                &&& report.values@ == seq![0u64, 0u64]
                &&& report.prefetch_plans@.len() == gate_names@.len()
                &&& forall|i: int|
                    0 <= i < gate_names@.len() && i + 1 < gate_names@.len()
                        ==> coalesced_runs(
                            sched_bits(old(self).nq() as nat, targets.deep_view()[i + 1]),
                            (#[trigger] report.prefetch_plans@[i])@,
                        ) && report.prefetch_plans@[i]@.len() == run_count(
                            sched_bits(old(self).nq() as nat, targets.deep_view()[i + 1]),
                        )
                &&& forall|i: int|
                    0 <= i < gate_names@.len() && i + 1 >= gate_names@.len()
                        ==> (#[trigger] report.prefetch_plans@[i])@.len() == 0
            },
    {
        let ghost nv = gate_names.deep_view();
        let ghost tv = targets.deep_view();
        let ghost nqn = self.num_qubits as nat;
        let g = gate_names.len();

        if self.memory.is_none() {
            return Err(SimError::NotInitialized);
        }
        if targets.len() != g || params.len() != g {
            return Err(SimError::LengthMismatch);
        }

        // Input validation: reject the first malformed gate, with no
        // side effects on the state.
        let mut v: usize = 0;
        while v < g
            invariant
                g == gate_names@.len(),
                targets@.len() == g,
                params@.len() == g,
                nv == gate_names.deep_view(),
                tv == targets.deep_view(),
                nv.len() == g,
                tv.len() == g,
                nqn == self.nq() as nat,
                *self == *old(self),
                old(self).wf(),
                old(self).has_memory(),
                v <= g,
                first_gate_error(tv, nqn, 0) == first_gate_error(tv, nqn, v as int),
                forall|j: int| 0 <= j < v as int ==> gate_error(#[trigger] tv[j], nqn) is None,
            decreases g as int - v as int,
        {
            let ts = &targets[v];
            proof {
                assert(tv[v as int] == targets@[v as int]@);
            }
            if ts.len() < 1 || ts.len() > 2 {
                return Err(SimError::BadTargetCount);
            }
            if ts[0] >= self.num_qubits || (ts.len() == 2 && ts[1] >= self.num_qubits) {
                return Err(SimError::TargetOutOfRange);
            }
            if ts.len() == 2 && ts[0] == ts[1] {
                return Err(SimError::DuplicateTarget);
            }
            v = v + 1;
        }

        // Structural hash and cache lookup: a hit needs the hash and
        // the remembered structure itself to agree.
        let hash = structural_hash_exec(gate_names, targets);
        let cache_hit = if self.cached_schedule.is_some() && hash == self.last_circuit_hash {
            names_eq(&self.last_names, gate_names) && targets_eq(&self.last_targets, targets)
        } else {
            false
        };
        proof {
            assert(cache_hit == old(self).cache_matches(nv, tv));
        }

        let schedule: AccessSchedule = if cache_hit {
            let cached = match &self.cached_schedule {
                Some(sched) => sched.clone_schedule(),
                // A hit implies a cached schedule; this arm is dead.
                None => AccessSchedule { timeline: Vec::new() },
            };
            proof {
                assert(schedule_matches(cached, nqn, tv));
            }
            cached
        } else {
            let ops = build_ops(gate_names, targets, params);
            let analyzer = CircuitAnalyzer::new(self.num_qubits);
            proof {
                assert forall|i: int|
                    0 <= i < ops@.len() && (#[trigger] ops@[i]).targets@.len() == 1 implies (
                ops@[i].targets@[0] as nat) < analyzer.nq() by {
                    assert(gate_error(tv[i], nqn) is None);
                }
            }
            let fresh = analyzer.analyze(ops.as_slice());
            proof {
                assert(ops@.map(|i: int, gate: GateOp| gate.targets@) =~~= tv);
                assert(schedule_matches(fresh, nqn, tv));
            }
            self.cached_schedule = Some(fresh.clone_schedule());
            self.last_circuit_hash = hash;
            self.last_names = clone_names(gate_names);
            self.last_targets = clone_targets(targets);
            fresh
        };

        // The advisory ring of this depth lives with the host shell;
        // the engine plans what to submit to it.
        let engine = AsyncIoEngine::new(256);

        let mut mem_opt: Option<QuantumMemoryManager> = None;
        core::mem::swap(&mut self.memory, &mut mem_opt);
        let mut mem = match mem_opt {
            Some(m) => m,
            // The memory was checked present above; this arm is dead.
            None => {
                return Err(SimError::NotInitialized);
            },
        };
        proof {
            mem.lemma_fields();
        }
        let ghost mem0 = mem;
        let ghost s0 = mem.state@;
        let ghost self_mid = *self;

        let mut plans: Vec<Vec<PageRun>> = Vec::new();
        let mut i: usize = 0;
        while i < g
            invariant
                g == gate_names@.len(),
                targets@.len() == g,
                params@.len() == g,
                nv == gate_names.deep_view(),
                tv == targets.deep_view(),
                nv.len() == g,
                tv.len() == g,
                self.num_qubits as nat == nqn,
                *self == self_mid,
                i <= g,
                schedule_matches(schedule, nqn, tv),
                forall|j: int| 0 <= j < g as int ==> gate_error(#[trigger] tv[j], nqn) is None,
                mem.num_qubits == mem0.num_qubits,
                mem.num_qubits as nat == nqn,
                mem.total_bytes == mem0.total_bytes,
                bits_of(mem.resident_bitmap) == bits_of(mem0.resident_bitmap),
                mem0.wf(),
                s0 == mem0.state@,
                s0.len() == vstd::arithmetic::power2::pow2(nqn),
                mem.state@.len() == s0.len(),
                mem.state@ == run_gates_spec(s0, nv, tv, i as int),
                plans@.len() == i as nat,
                forall|j: int|
                    0 <= j < i as int && j + 1 < g as int ==> coalesced_runs(
                        sched_bits(nqn, tv[j + 1]),
                        (#[trigger] plans@[j])@,
                    ) && plans@[j]@.len() == run_count(sched_bits(nqn, tv[j + 1])),
                forall|j: int|
                    0 <= j < i as int && j + 1 >= g as int ==> (#[trigger] plans@[j])@.len() == 0,
            decreases g as int - i as int,
        {
            // Plan the prefetch advisories for whichever gate sits one step ahead.
            if i + 1 < g {
                let pages = &schedule.timeline[i + 1];
                let runs = engine.submit_prefetch(pages);
                proof {
                    assert(bits_of(schedule.timeline@[i as int + 1]) =~= sched_bits(
                        nqn,
                        tv[i as int + 1],
                    ));
                }
                plans.push(runs);
            } else {
                plans.push(Vec::new());
            }

            // Completion reaping is the ring owner's non-blocking
            // drain; nothing of it bears on the state.

            // Apply gate `i`.
            let ts = &targets[i];
            proof {
                assert(tv[i as int] == targets@[i as int]@);
                assert(nv[i as int] == gate_names@[i as int]@);
                assert(gate_error(tv[i as int], nqn) is None);
            }
            if ts.len() == 1 {
                let m = get_matrix(gate_names[i].as_str(), params[i].as_slice());
                apply_single_qubit_gate(&mut mem.state, self.num_qubits, ts[0], &m);
                proof {
                    assert(mem.state@ == gate_step_spec(
                        run_gates_spec(s0, nv, tv, i as int),
                        nv[i as int],
                        tv[i as int],
                    ));
                }
            } else {
                if gate_is_cnot(gate_names[i].as_str()) {
                    apply_cnot(&mut mem.state, self.num_qubits, ts[0], ts[1]);
                }
                proof {
                    assert(mem.state@ == gate_step_spec(
                        run_gates_spec(s0, nv, tv, i as int),
                        nv[i as int],
                        tv[i as int],
                    ));
                }
            }
            i = i + 1;
        }

        proof {
            mem.lemma_fields();
            mem0.lemma_fields();
        }
        self.memory = Some(mem);

        let mut values: Vec<u64> = Vec::new();
        values.push(0);
        values.push(0);
        proof {
            assert(values@ =~= seq![0u64, 0u64]);
        }
        Ok(RunReport { cache_hit, prefetch_plans: plans, values })
    }
}

/// Element copy of a target list.
fn copy_usizes(a: &Vec<usize>) -> (r: Vec<usize>)
    ensures
        r@ == a@,
{
    let mut r: Vec<usize> = Vec::new();
    let mut i: usize = 0;
    while i < a.len()
        invariant
            i <= a@.len(),
            r@ == a@.take(i as int),
        decreases a@.len() - i as nat,
    {
        r.push(a[i]);
        proof {
            assert(a@.take(i as int + 1) =~= a@.take(i as int).push(a@[i as int]));
        }
        i = i + 1;
    }
    proof {
        assert(a@.take(a@.len() as int) =~= a@);
    }
    r
}

/// Element copy of a parameter list.
fn copy_u64s(a: &Vec<u64>) -> (r: Vec<u64>)
    ensures
        r@ == a@,
{
    let mut r: Vec<u64> = Vec::new();
    let mut i: usize = 0;
    while i < a.len()
        invariant
            i <= a@.len(),
            r@ == a@.take(i as int),
        decreases a@.len() - i as nat,
    {
        r.push(a[i]);
        proof {
            assert(a@.take(i as int + 1) =~= a@.take(i as int).push(a@[i as int]));
        }
        i = i + 1;
    }
    proof {
        assert(a@.take(a@.len() as int) =~= a@);
    }
    r
}

/// Whether two name lists spell the same names.
fn names_eq(a: &Vec<String>, b: &Vec<String>) -> (r: bool)
    ensures
        r == (a.deep_view() == b.deep_view()),
{
    if a.len() != b.len() {
        proof {
            assert(a.deep_view().len() != b.deep_view().len());
        }
        return false;
    }
    let mut i: usize = 0;
    while i < a.len()
        invariant
            a@.len() == b@.len(),
            i <= a@.len(),
            forall|j: int| 0 <= j < i as int ==> a.deep_view()[j] == b.deep_view()[j],
        decreases a@.len() - i as nat,
    {
        if !(a[i] == b[i]) {
            proof {
                assert(a.deep_view()[i as int] != b.deep_view()[i as int]);
            }
            return false;
        }
        i = i + 1;
    }
    proof {
        assert(a.deep_view() =~~= b.deep_view());
    }
    true
}

/// Whether two target-list lists name the same targets.
fn targets_eq(a: &Vec<Vec<usize>>, b: &Vec<Vec<usize>>) -> (r: bool)
    ensures
        r == (a.deep_view() == b.deep_view()),
{
    if a.len() != b.len() {
        proof {
            assert(a.deep_view().len() != b.deep_view().len());
        }
        return false;
    }
    let mut i: usize = 0;
    while i < a.len()
        invariant
            a@.len() == b@.len(),
            i <= a@.len(),
            forall|j: int| 0 <= j < i as int ==> a.deep_view()[j] == b.deep_view()[j],
        decreases a@.len() - i as nat,
    {
        let x = &a[i];
        let y = &b[i];
        if x.len() != y.len() {
            proof {
                assert(a.deep_view()[i as int].len() != b.deep_view()[i as int].len());
            }
            return false;
        }
        let mut j: usize = 0;
        while j < x.len()
            invariant
                x@.len() == y@.len(),
                j <= x@.len(),
                x == &a[i as int],
                y == &b[i as int],
                i < a@.len(),
                a@.len() == b@.len(),
                forall|k: int| 0 <= k < j as int ==> x@[k] == y@[k],
            decreases x@.len() - j as nat,
        {
            if x[j] != y[j] {
                proof {
                    assert(a.deep_view()[i as int][j as int] == x@[j as int]);
                    assert(b.deep_view()[i as int][j as int] == y@[j as int]);
                }
                return false;
            }
            j = j + 1;
        }
        proof {
            assert(a.deep_view()[i as int] =~= b.deep_view()[i as int]);
        }
        i = i + 1;
    }
    proof {
        assert(a.deep_view() =~~= b.deep_view());
    }
    true
}

/// Owned copies of the names, for the cache key.
fn clone_names(a: &Vec<String>) -> (r: Vec<String>)
    ensures
        r.deep_view() == a.deep_view(),
{
    let mut r: Vec<String> = Vec::new();
    let mut i: usize = 0;
    while i < a.len()
        invariant
            i <= a@.len(),
            r@.len() == i as nat,
            forall|j: int| 0 <= j < i as int ==> r.deep_view()[j] == a.deep_view()[j],
        decreases a@.len() - i as nat,
    {
        r.push(a[i].clone());
        i = i + 1;
    }
    proof {
        assert(r.deep_view() =~~= a.deep_view());
    }
    r
}

/// Owned copies of the target lists, for the cache key.
fn clone_targets(a: &Vec<Vec<usize>>) -> (r: Vec<Vec<usize>>)
    ensures
        r.deep_view() == a.deep_view(),
{
    let mut r: Vec<Vec<usize>> = Vec::new();
    let mut i: usize = 0;
    while i < a.len()
        invariant
            i <= a@.len(),
            r@.len() == i as nat,
            forall|j: int| 0 <= j < i as int ==> r.deep_view()[j] == a.deep_view()[j],
        decreases a@.len() - i as nat,
    {
        r.push(copy_usizes(&a[i]));
        proof {
            assert(r.deep_view()[i as int] =~= a.deep_view()[i as int]);
        }
        i = i + 1;
    }
    proof {
        assert(r.deep_view() =~~= a.deep_view());
    }
    r
}

/// A circuit as owned gate values, for the analyzer.
fn build_ops(names: &Vec<String>, targets: &Vec<Vec<usize>>, params: &Vec<Vec<u64>>) -> (r: Vec<
    GateOp,
>)
    requires
        names@.len() == targets@.len(),
        names@.len() == params@.len(),
    ensures
        r@.len() == names@.len(),
        forall|i: int|
            0 <= i < r@.len() ==> (#[trigger] r@[i]).targets@ == targets.deep_view()[i]
                && r@[i].name@ == names.deep_view()[i],
{
    let mut r: Vec<GateOp> = Vec::new();
    let mut i: usize = 0;
    while i < names.len()
        invariant
            names@.len() == targets@.len(),
            names@.len() == params@.len(),
            i <= names@.len(),
            r@.len() == i as nat,
            forall|j: int|
                0 <= j < i as int ==> (#[trigger] r@[j]).targets@ == targets.deep_view()[j]
                    && r@[j].name@ == names.deep_view()[j],
        decreases names@.len() - i as nat,
    {
        r.push(
            GateOp {
                name: names[i].clone(),
                targets: copy_usizes(&targets[i]),
                params: copy_u64s(&params[i]),
            },
        );
        i = i + 1;
    }
    r
}

} // verus!
