//! Computation kernels: applying gates to the state vector.
//!
//! The state vector is a dense array of complex amplitudes; each
//! amplitude is held as the bit patterns of its two IEEE-754 binary64
//! components. For a one-qubit gate on target `q`, the amplitudes pair
//! up at distance `2^q`, and each pair is replaced by its image under
//! that gate's 2x2 matrix. The complex arithmetic itself is carried out
//! by `num_complex`; everything else—which pairs are touched and what
//! lands where—is proved here.

use vstd::prelude::*;
use vstd::arithmetic::power2::{
    pow2, lemma_pow2_adds, lemma_pow2_strictly_increases, lemma_pow2_pos, lemma_pow2_unfold,
    lemma2_to64,
};
use vstd::arithmetic::div_mod::{lemma_fundamental_div_mod, lemma_fundamental_div_mod_converse};
use vstd::arithmetic::mul::lemma_mul_inequality;
use vstd::string::StringSliceAdditionalSpecFns;
use crate::pow2_exec;

verus! {

/// One complex amplitude, stored as the bit patterns of its real and
/// imaginary IEEE-754 binary64 components.
#[derive(Clone, Copy, Debug, PartialEq, Eq, Structural)]
pub struct Amp {
    pub re: u64,
    pub im: u64,
}

/// A 2x2 unitary in row-major order: `e00, e01, e10, e11`.
#[derive(Clone, Copy, Debug, PartialEq, Eq, Structural)]
pub struct GateMatrix {
    pub e00: Amp,
    pub e01: Amp,
    pub e10: Amp,
    pub e11: Amp,
}

/// An amplitude as a plain pair of component bit patterns.
pub open spec fn amp_bits(a: Amp) -> (u64, u64) {
    (a.re, a.im)
}

/// An amplitude rebuilt from a pair of component bit patterns.
pub open spec fn amp_of_bits(b: (u64, u64)) -> Amp {
    Amp { re: b.0, im: b.1 }
}

/// A matrix as the plain sequence of its entries' bit patterns, in
/// row-major order.
pub open spec fn matrix_bits(m: GateMatrix) -> Seq<(u64, u64)> {
    seq![amp_bits(m.e00), amp_bits(m.e01), amp_bits(m.e10), amp_bits(m.e11)]
}

/// The pair of amplitude bit patterns produced by complex 2x2
/// matrix application `(m00*a0 + m01*a1, m10*a0 + m11*a1)` in IEEE-754
/// binary64 arithmetic, which depends on the bit patterns alone.
pub uninterp spec fn mat_apply(m: Seq<(u64, u64)>, a0: (u64, u64), a1: (u64, u64)) -> (
    (u64, u64),
    (u64, u64),
);

/// The image of the amplitude pair `(a0, a1)` under a gate's matrix,
/// where `a0` sits at the index with the target bit clear and `a1` at
/// the index with it set.
pub open spec fn pair_apply(m: GateMatrix, a0: Amp, a1: Amp) -> (Amp, Amp) {
    let r = mat_apply(matrix_bits(m), amp_bits(a0), amp_bits(a1));
    (amp_of_bits(r.0), amp_of_bits(r.1))
}

/// Relies on num_complex: multiplies and sums `Complex64` values in
/// IEEE-754 binary64 arithmetic (carried in and out bit-for-bit by
/// bytemuck's `cast`), so the result depends on the matrix and
/// amplitude bit patterns alone.
#[verifier::external_body]
fn pair_apply_exec(m: &GateMatrix, a0: Amp, a1: Amp) -> (r: (Amp, Amp))
    ensures
        (amp_bits(r.0), amp_bits(r.1)) == mat_apply(matrix_bits(*m), amp_bits(a0), amp_bits(a1)),
{
    let u: [num_complex::Complex64; 4] = bytemuck::cast(
        [m.e00.re, m.e00.im, m.e01.re, m.e01.im, m.e10.re, m.e10.im, m.e11.re, m.e11.im],
    );
    let c: [num_complex::Complex64; 2] = bytemuck::cast([a0.re, a0.im, a1.re, a1.im]);
    let o: [u64; 4] = bytemuck::cast([u[0] * c[0] + u[1] * c[1], u[2] * c[0] + u[3] * c[1]]);
    (Amp { re: o[0], im: o[1] }, Amp { re: o[2], im: o[3] })
}

/// Bit `q` of the basis-state index `k`.
pub open spec fn index_bit(k: int, q: nat) -> bool {
    (k / pow2(q) as int) % 2 == 1
}

/// The amplitude that a one-qubit gate on target `q` leaves at index
/// `k`: the first component of the pair image when bit `q` of `k` is
/// clear, the second when it is set.
pub open spec fn gate_result_at(s: Seq<Amp>, m: GateMatrix, q: nat, k: int) -> Amp {
    if !index_bit(k, q) {
        pair_apply(m, s[k], s[k + pow2(q)]).0
    } else {
        pair_apply(m, s[k - pow2(q)], s[k]).1
    }
}

/// The state vector after a one-qubit gate on target `q`.
pub open spec fn apply_1q_spec(s: Seq<Amp>, m: GateMatrix, q: nat) -> Seq<Amp> {
    Seq::new(s.len(), |k: int| gate_result_at(s, m, q, k))
}

/// The index whose amplitude a controlled-NOT with control `c` and
/// target `t` moves to index `k`: when bit `c` of `k` is set the
/// target bit is flipped, otherwise `k` keeps its own amplitude.
pub open spec fn cnot_src(k: int, c: nat, t: nat) -> int {
    if index_bit(k, c) {
        if index_bit(k, t) {
            k - pow2(t)
        } else {
            k + pow2(t)
        }
    } else {
        k
    }
}

/// The state vector after a controlled-NOT with control `c` and
/// target `t`.
pub open spec fn apply_cnot_spec(s: Seq<Amp>, c: nat, t: nat) -> Seq<Amp> {
    Seq::new(s.len(), |k: int| s[cnot_src(k, c, t)])
}

/// An index of the form `2 * 2^q * m + i` with `i < 2^q` has bit `q`
/// clear, and its partner `2^q` above has bit `q` set.
proof fn lemma_pair_split(m: int, i: int, q: nat)
    requires
        0 <= m,
        0 <= i < pow2(q),
    ensures
        !index_bit(2 * pow2(q) * m + i, q),
        index_bit(2 * pow2(q) * m + i + pow2(q), q),
{
    lemma_pow2_pos(q);
    let s = pow2(q) as int;
    let k = 2 * s * m + i;
    assert(2 * s * m == (2 * m) * s && (2 * m + 1) * s == (2 * m) * s + s) by (nonlinear_arith);
    lemma_fundamental_div_mod_converse(k, s, 2 * m, i);
    lemma_fundamental_div_mod_converse(2 * m, 2, m, 0);
    lemma_fundamental_div_mod_converse(k + s, s, 2 * m + 1, i);
    lemma_fundamental_div_mod_converse(2 * m + 1, 2, m, 1);
}

/// Flipping a clear bit `t` up stays inside the `2^n`-element state
/// vector and sets exactly that bit.
proof fn lemma_flip_up(k: int, t: nat, n: nat)
    requires
        t < n,
        0 <= k < pow2(n),
        !index_bit(k, t),
    ensures
        k + pow2(t) < pow2(n),
        index_bit(k + pow2(t), t),
{
    lemma_pow2_pos(t);
    let s = pow2(t) as int;
    lemma_fundamental_div_mod(k, s);
    let d = k / s;
    let r = k % s;
    lemma_fundamental_div_mod(d, 2);
    let e = d / 2;
    assert(k == (2 * e) * s + r) by (nonlinear_arith)
        requires
            k == s * d + r,
            d == 2 * e + d % 2,
            d % 2 == 0,
    ;
    assert(k + s == (2 * e + 1) * s + r) by (nonlinear_arith)
        requires
            k == (2 * e) * s + r,
    ;
    lemma_fundamental_div_mod_converse(k + s, s, 2 * e + 1, r);
    lemma_fundamental_div_mod_converse(2 * e + 1, 2, e, 1);
    // Range: with P = 2^(n-t) even and 2e < P, already 2e + 2 <= P.
    lemma_pow2_adds(t, (n - t) as nat);
    lemma_pow2_unfold((n - t) as nat);
    lemma_pow2_pos((n - t - 1) as nat);
    let p = pow2((n - t) as nat) as int;
    assert(2 * e + 2 <= p) by (nonlinear_arith)
        requires
            k == (2 * e) * s + r,
            0 <= r < s,
            0 < s,
            k < s * p,
            p == 2 * (pow2((n - t - 1) as nat) as int),
            0 <= e,
            pow2((n - t - 1) as nat) as int >= 1,
    ;
    assert(k + s < s * p) by (nonlinear_arith)
        requires
            k == (2 * e) * s + r,
            0 <= r < s,
            2 * e + 2 <= p,
            0 < s,
    ;
}

/// A set bit `t` means the index is at least `2^t`.
proof fn lemma_bit_floor(k: int, t: nat)
    requires
        0 <= k,
        index_bit(k, t),
    ensures
        k >= pow2(t),
{
    lemma_pow2_pos(t);
    let s = pow2(t) as int;
    lemma_fundamental_div_mod(k, s);
    assert(k / s >= 1);
    lemma_mul_inequality(1, k / s, s);
}

/// Removing `2^t` from an index whose bit `t` is set clears exactly
/// that bit.
proof fn lemma_flip_down(k: int, t: nat)
    requires
        0 <= k,
        index_bit(k, t),
    ensures
        k - pow2(t) >= 0,
        !index_bit(k - pow2(t), t),
{
    lemma_pow2_pos(t);
    let s = pow2(t) as int;
    lemma_fundamental_div_mod(k, s);
    let d = k / s;
    let r = k % s;
    lemma_fundamental_div_mod(d, 2);
    let e = d / 2;
    assert(k - s == (2 * e) * s + r) by (nonlinear_arith)
        requires
            k == s * d + r,
            d == 2 * e + d % 2,
            d % 2 == 1,
    ;
    lemma_mul_inequality(0, e, s);
    assert((2 * e) * s >= 0) by (nonlinear_arith)
        requires
            0 <= e,
            0 < s,
    ;
    lemma_fundamental_div_mod_converse(k - s, s, 2 * e, r);
    lemma_fundamental_div_mod_converse(2 * e, 2, e, 0);
}

/// Adding `2^t` onto an index whose bit `t` is clear leaves every
/// other bit `c != t` unchanged.
proof fn lemma_flip_keeps_other_bit(k: int, t: nat, c: nat)
    requires
        0 <= k,
        c != t,
        !index_bit(k, t),
    ensures
        index_bit(k + pow2(t), c) == index_bit(k, c),
{
    lemma_pow2_pos(t);
    lemma_pow2_pos(c);
    let s = pow2(t) as int;
    let cc = pow2(c) as int;
    if c < t {
        // 2^t is a multiple of 2^(c+1): the quotient by 2^c moves by an
        // even amount, so its parity is unchanged.
        lemma_pow2_adds(c + 1, (t - c - 1) as nat);
        lemma_pow2_unfold(c + 1);
        let dd = pow2((t - c - 1) as nat) as int;
        lemma_fundamental_div_mod(k, cc);
        let a = k / cc;
        let b = k % cc;
        assert(k + s == (a + 2 * dd) * cc + b) by (nonlinear_arith)
            requires
                k == cc * a + b,
                s == (2 * cc) * dd,
        ;
        lemma_fundamental_div_mod_converse(k + s, cc, a + 2 * dd, b);
        lemma_fundamental_div_mod(a, 2);
        assert((a + 2 * dd) % 2 == a % 2) by (nonlinear_arith)
            requires
                a == 2 * (a / 2) + a % 2,
                0 <= a % 2 < 2,
        ;
    } else {
        // c > t: the index moves within its 2^(t+1) block, so every
        // quotient by 2^(t+1) and above is unchanged.
        lemma_pow2_unfold(t + 1);
        let ss = pow2(t + 1) as int;
        lemma_fundamental_div_mod(k, ss);
        let u = k / ss;
        let w = k % ss;
        // Bit t clear forces the in-block offset below 2^t.
        if w >= s {
            assert(k == (2 * u + 1) * s + (w - s)) by (nonlinear_arith)
                requires
                    k == ss * u + w,
                    ss == 2 * s,
                    s <= w < ss,
            ;
            lemma_fundamental_div_mod_converse(k, s, 2 * u + 1, w - s);
            lemma_fundamental_div_mod_converse(2 * u + 1, 2, u, 1);
            assert(false);
        }
        assert(k + s == ss * u + (w + s)) by (nonlinear_arith)
            requires
                k == ss * u + w,
        ;
        assert((k + s) / ss == u && k / ss == u) by {
            lemma_fundamental_div_mod_converse(k + s, ss, u, w + s);
        }
        lemma_pow2_adds(t + 1, (c - t - 1) as nat);
        let rest = pow2((c - t - 1) as nat) as int;
        lemma_pow2_pos((c - t - 1) as nat);
        vstd::arithmetic::div_mod::lemma_div_denominator(k, ss, rest);
        vstd::arithmetic::div_mod::lemma_div_denominator(k + s, ss, rest);
        assert(k / cc == u / rest);
        assert((k + s) / cc == u / rest);
    }
}

/// Applies a one-qubit gate to the state vector: for each pair of
/// amplitudes `2^q` apart, both entries are replaced by the pair's
/// image under the matrix. Every amplitude of the result is pinned by
/// [`apply_1q_spec`].
pub fn apply_single_qubit_gate(
    state: &mut Vec<Amp>,
    num_qubits: usize,
    target_qubit: usize,
    matrix: &GateMatrix,
)
    requires
        target_qubit < num_qubits,
        old(state)@.len() == pow2(num_qubits as nat),
    ensures
        final(state)@ == apply_1q_spec(old(state)@, *matrix, target_qubit as nat),
{
    let ghost s0 = state@;
    let ghost q = target_qubit as nat;
    let ghost nq = num_qubits as nat;
    let n = state.len();
    proof {
        lemma_pow2_strictly_increases(q, nq);
        lemma_pow2_adds(q, 1);
        if q + 1 < nq {
            lemma_pow2_strictly_increases(q + 1, nq);
        }
        lemma_pow2_adds(q + 1, (nq - q - 1) as nat);
        lemma_pow2_pos((nq - q - 1) as nat);
        lemma_pow2_pos(q);
        lemma2_to64();
    }
    let stride = pow2_exec(target_qubit);
    let block = stride * 2;
    let ghost big_m = pow2((nq - q - 1) as nat);

    let mut block_start: usize = 0;
    let ghost mut blocks_done: int = 0;
    while block_start < n
        invariant
            state@.len() == n as nat,
            s0.len() == n as nat,
            n as nat == pow2(nq),
            q < nq,
            stride as nat == pow2(q),
            block as nat == 2 * pow2(q),
            stride >= 1,
            n as int == block as int * (big_m as int),
            0 <= blocks_done <= big_m as int,
            block_start as int == block as int * blocks_done,
            forall|k: int|
                0 <= k < n as int ==> state@[k] == (if k < block_start as int {
                    gate_result_at(s0, *matrix, q, k)
                } else {
                    s0[k]
                }),
        decreases n as int - block_start as int,
    {
        proof {
            if blocks_done >= big_m as int {
                lemma_mul_inequality(big_m as int, blocks_done, block as int);
            }
            assert(block as int * (blocks_done + 1) == block as int * blocks_done + block as int)
                by (nonlinear_arith);
            lemma_mul_inequality(blocks_done + 1, big_m as int, block as int);
        }
        let mut i: usize = 0;
        while i < stride
            invariant
                state@.len() == n as nat,
                s0.len() == n as nat,
                n as nat == pow2(nq),
                q < nq,
                stride as nat == pow2(q),
                block as nat == 2 * pow2(q),
                stride >= 1,
                i <= stride,
                block_start as int == block as int * blocks_done,
                0 <= blocks_done,
                block_start as int + block as int <= n as int,
                forall|k: int|
                    0 <= k < n as int ==> state@[k] == (if k < block_start as int
                        || (block_start as int <= k < block_start as int + i as int)
                        || (block_start as int + stride as int <= k
                            < block_start as int + stride as int + i as int) {
                        gate_result_at(s0, *matrix, q, k)
                    } else {
                        s0[k]
                    }),
            decreases stride as int - i as int,
        {
            let k = block_start + i;
            let j = k + stride;
            proof {
                assert(2 * pow2(q) * blocks_done == block as int * blocks_done)
                    by (nonlinear_arith)
                    requires
                        block as nat == 2 * pow2(q),
                ;
                lemma_pair_split(blocks_done, i as int, q);
            }
            let a0 = state[k];
            let a1 = state[j];
            let r = pair_apply_exec(matrix, a0, a1);
            state[k] = r.0;
            state[j] = r.1;
            i = i + 1;
        }
        block_start = block_start + block;
        proof {
            blocks_done = blocks_done + 1;
        }
    }
    proof {
        assert(state@ =~= apply_1q_spec(s0, *matrix, q));
    }
}

/// Applies a controlled-NOT: swaps the amplitudes of each index pair
/// that differs only in the target bit and has the control bit set.
/// Every amplitude of the result is pinned by [`apply_cnot_spec`].
pub fn apply_cnot(state: &mut Vec<Amp>, num_qubits: usize, control: usize, target: usize)
    requires
        control < num_qubits,
        target < num_qubits,
        control != target,
        old(state)@.len() == pow2(num_qubits as nat),
    ensures
        final(state)@ == apply_cnot_spec(old(state)@, control as nat, target as nat),
{
    let ghost s0 = state@;
    let ghost c = control as nat;
    let ghost t = target as nat;
    let ghost nq = num_qubits as nat;
    let n = state.len();
    proof {
        lemma_pow2_strictly_increases(c, nq);
        lemma_pow2_strictly_increases(t, nq);
        lemma_pow2_pos(c);
        lemma_pow2_pos(t);
    }
    let stride_control = pow2_exec(control);
    let stride_target = pow2_exec(target);

    let mut k: usize = 0;
    while k < n
        invariant
            state@.len() == n as nat,
            s0.len() == n as nat,
            n as nat == pow2(nq),
            c < nq,
            t < nq,
            c != t,
            k <= n,
            stride_control as nat == pow2(c),
            stride_target as nat == pow2(t),
            stride_control >= 1,
            stride_target >= 1,
            forall|x: int|
                0 <= x < n as int ==> state@[x] == (if index_bit(x, c) && !index_bit(x, t) {
                    if x < k as int {
                        s0[x + pow2(t)]
                    } else {
                        s0[x]
                    }
                } else if index_bit(x, c) && index_bit(x, t) {
                    if pow2(t) <= x && x - pow2(t) < k as int {
                        s0[x - pow2(t)]
                    } else {
                        s0[x]
                    }
                } else {
                    s0[x]
                }),
        decreases n as int - k as int,
    {
        let control_bit = (k / stride_control) % 2 == 1;
        let target_bit = (k / stride_target) % 2 == 1;
        if control_bit && !target_bit {
            proof {
                lemma_flip_up(k as int, t, nq);
                lemma_flip_keeps_other_bit(k as int, t, c);
            }
            let j = k + stride_target;
            let ak = state[k];
            let aj = state[j];
            state[k] = aj;
            state[j] = ak;
        }
        proof {
            // Every index is either untouched by this step or one side
            // of the pair `(k, k + 2^t)`; settle each index's bits once.
            assert forall|x: int| 0 <= x < n as int implies state@[x] == (if index_bit(x, c)
                && !index_bit(x, t) {
                if x < k as int + 1 {
                    s0[x + pow2(t)]
                } else {
                    s0[x]
                }
            } else if index_bit(x, c) && index_bit(x, t) {
                if pow2(t) <= x && x - pow2(t) < k as int + 1 {
                    s0[x - pow2(t)]
                } else {
                    s0[x]
                }
            } else {
                s0[x]
            }) by {
                if index_bit(x, c) && index_bit(x, t) {
                    lemma_bit_floor(x, t);
                    lemma_flip_down(x, t);
                    lemma_flip_keeps_other_bit(x - pow2(t), t, c);
                }
                if !index_bit(x, t) {
                    lemma_flip_up(x, t, nq);
                    lemma_flip_keeps_other_bit(x, t, c);
                }
            }
        }
        k = k + 1;
    }
    proof {
        assert forall|x: int| 0 <= x < n as int implies state@[x] == apply_cnot_spec(
            s0,
            c,
            t,
        )[x] by {
            if index_bit(x, c) && index_bit(x, t) {
                lemma_bit_floor(x, t);
            }
            if index_bit(x, c) && !index_bit(x, t) {
                lemma_flip_up(x, t, nq);
            }
        }
        assert(state@ =~= apply_cnot_spec(s0, c, t));
    }
}

/// IEEE-754 binary64 bit pattern of 1.0.
pub const F64_ONE_BITS: u64 = 0x3FF0000000000000;

/// IEEE-754 binary64 bit pattern of 1/sqrt(2).
pub const F64_INV_SQRT2_BITS: u64 = 0x3FE6A09E667F3BCD;

/// IEEE-754 binary64 bit pattern of -1/sqrt(2).
pub const F64_NEG_INV_SQRT2_BITS: u64 = 0xBFE6A09E667F3BCD;

/// An ASCII lower-case letter folded to upper case; other bytes kept.
pub open spec fn upper_byte(b: u8) -> u8 {
    if 97 <= b && b <= 122 {
        (b - 32) as u8
    } else {
        b
    }
}

/// A byte string folded to ASCII upper case.
pub open spec fn upper_bytes(s: Seq<u8>) -> Seq<u8> {
    s.map(|i: int, b: u8| upper_byte(b))
}

/// The Pauli-X matrix: swaps the two amplitudes of each pair.
pub open spec fn x_matrix() -> GateMatrix {
    GateMatrix {
        e00: Amp { re: 0, im: 0 },
        e01: Amp { re: F64_ONE_BITS, im: 0 },
        e10: Amp { re: F64_ONE_BITS, im: 0 },
        e11: Amp { re: 0, im: 0 },
    }
}

/// The Hadamard matrix: all entries `1/sqrt(2)`, the last negated.
pub open spec fn h_matrix() -> GateMatrix {
    GateMatrix {
        e00: Amp { re: F64_INV_SQRT2_BITS, im: 0 },
        e01: Amp { re: F64_INV_SQRT2_BITS, im: 0 },
        e10: Amp { re: F64_INV_SQRT2_BITS, im: 0 },
        e11: Amp { re: F64_NEG_INV_SQRT2_BITS, im: 0 },
    }
}

/// The identity matrix, the defensive fallback for unknown names.
pub open spec fn identity_matrix() -> GateMatrix {
    GateMatrix {
        e00: Amp { re: F64_ONE_BITS, im: 0 },
        e01: Amp { re: 0, im: 0 },
        e10: Amp { re: 0, im: 0 },
        e11: Amp { re: F64_ONE_BITS, im: 0 },
    }
}

/// The matrix a gate name selects, matched case-insensitively over the
/// name's bytes: `X` and `H` are known, anything else falls back to
/// the identity.
pub open spec fn spec_matrix(name_bytes: Seq<u8>) -> GateMatrix {
    if upper_bytes(name_bytes) == seq![88u8] {
        x_matrix()
    } else if upper_bytes(name_bytes) == seq![72u8] {
        h_matrix()
    } else {
        identity_matrix()
    }
}

/// Whether a gate name selects the controlled-NOT, matched
/// case-insensitively: `CX` or `CNOT`.
pub open spec fn is_cnot_name(name_bytes: Seq<u8>) -> bool {
    upper_bytes(name_bytes) == seq![67u8, 88u8] || upper_bytes(name_bytes) == seq![
        67u8,
        78u8,
        79u8,
        84u8,
    ]
}

/// One byte folded to ASCII upper case.
fn upper_byte_exec(b: u8) -> (r: u8)
    ensures
        r == upper_byte(b),
{
    if b >= 97 && b <= 122 {
        b - 32
    } else {
        b
    }
}

/// The name's bytes folded to ASCII upper case.
fn upper_bytes_exec(name: &str) -> (r: Vec<u8>)
    ensures
        r@ == upper_bytes(name.spec_bytes()),
{
    let bytes = name.as_bytes();
    let mut r: Vec<u8> = Vec::new();
    let mut i: usize = 0;
    while i < bytes.len()
        invariant
            bytes@ == name.spec_bytes(),
            i <= bytes@.len(),
            r@.len() == i as nat,
            forall|j: int| 0 <= j < i as int ==> r@[j] == upper_byte(bytes@[j]),
        decreases bytes@.len() - i as nat,
    {
        r.push(upper_byte_exec(bytes[i]));
        i = i + 1;
    }
    proof {
        assert(r@ =~= upper_bytes(name.spec_bytes()));
    }
    r
}

/// Selects the 2x2 matrix for a gate name, case-insensitively; the
/// gates in scope take no parameters, so `params` is not consulted.
/// Unknown names yield the identity, the documented defensive choice.
pub fn get_matrix(name: &str, _params: &[u64]) -> (r: GateMatrix)
    ensures
        r == spec_matrix(name.spec_bytes()),
{
    let up = upper_bytes_exec(name);
    if up.len() == 1 && up[0] == 88 {
        proof {
            assert(upper_bytes(name.spec_bytes()) =~= seq![88u8]);
        }
        GateMatrix {
            e00: Amp { re: 0, im: 0 },
            e01: Amp { re: F64_ONE_BITS, im: 0 },
            e10: Amp { re: F64_ONE_BITS, im: 0 },
            e11: Amp { re: 0, im: 0 },
        }
    } else if up.len() == 1 && up[0] == 72 {
        proof {
            assert(upper_bytes(name.spec_bytes()) =~= seq![72u8]);
        }
        GateMatrix {
            e00: Amp { re: F64_INV_SQRT2_BITS, im: 0 },
            e01: Amp { re: F64_INV_SQRT2_BITS, im: 0 },
            e10: Amp { re: F64_INV_SQRT2_BITS, im: 0 },
            e11: Amp { re: F64_NEG_INV_SQRT2_BITS, im: 0 },
        }
    } else {
        proof {
            if upper_bytes(name.spec_bytes()) == seq![88u8] {
                assert(up@.len() == 1 && up@[0] == 88u8);
            }
            if upper_bytes(name.spec_bytes()) == seq![72u8] {
                assert(up@.len() == 1 && up@[0] == 72u8);
            }
        }
        GateMatrix {
            e00: Amp { re: F64_ONE_BITS, im: 0 },
            e01: Amp { re: 0, im: 0 },
            e10: Amp { re: 0, im: 0 },
            e11: Amp { re: F64_ONE_BITS, im: 0 },
        }
    }
}

/// Whether a gate's name selects the controlled-NOT (`CX` or `CNOT`,
/// case-insensitively).
pub fn gate_is_cnot(name: &str) -> (r: bool)
    ensures
        r == is_cnot_name(name.spec_bytes()),
{
    let up = upper_bytes_exec(name);
    if up.len() == 2 && up[0] == 67 && up[1] == 88 {
        proof {
            assert(upper_bytes(name.spec_bytes()) =~= seq![67u8, 88u8]);
        }
        true
    } else if up.len() == 4 && up[0] == 67 && up[1] == 78 && up[2] == 79 && up[3] == 84 {
        proof {
            assert(upper_bytes(name.spec_bytes()) =~= seq![67u8, 78u8, 79u8, 84u8]);
        }
        true
    } else {
        proof {
            if upper_bytes(name.spec_bytes()) == seq![67u8, 88u8] {
                assert(up@.len() == 2 && up@[0] == 67u8 && up@[1] == 88u8);
            }
            if upper_bytes(name.spec_bytes()) == seq![67u8, 78u8, 79u8, 84u8] {
                assert(up@.len() == 4 && up@[0] == 67u8 && up@[1] == 78u8 && up@[2] == 79u8
                    && up@[3] == 84u8);
            }
        }
        false
    }
}

} // verus!
