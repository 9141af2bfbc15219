//! End-to-end circuit runs through the controller: gate semantics,
//! the schedule cache, checkpoints, and the error surface.

use qp_sim_core::controller::SimulatorController;
use qp_sim_core::kernels::{
    Amp, GateMatrix, get_matrix, F64_INV_SQRT2_BITS, F64_NEG_INV_SQRT2_BITS, F64_ONE_BITS,
};
use qp_sim_core::SimError;

fn controller(n: usize) -> SimulatorController {
    let mut c = SimulatorController::new(n, "state.bin".to_string());
    c.initialize();
    c
}

fn amp(re: f64, im: f64) -> Amp {
    Amp { re: re.to_bits(), im: im.to_bits() }
}

fn read_state(c: &SimulatorController) -> Vec<(f64, f64)> {
    let mut out = Vec::new();
    for k in 0..c.state_len() {
        let a = c.state_amplitude(k);
        out.push((f64::from_bits(a.re), f64::from_bits(a.im)));
    }
    out
}

fn run(
    c: &mut SimulatorController,
    gates: &[(&str, Vec<usize>)],
) -> qp_sim_core::controller::RunReport {
    let names: Vec<String> = gates.iter().map(|g| g.0.to_string()).collect();
    let targets: Vec<Vec<usize>> = gates.iter().map(|g| g.1.clone()).collect();
    let params: Vec<Vec<u64>> = gates.iter().map(|_| Vec::new()).collect();
    c.run_circuit(&names, &targets, &params).expect("run_circuit failed")
}

fn assert_state_close(actual: &[(f64, f64)], expected: &[(f64, f64)], tol: f64) {
    assert_eq!(actual.len(), expected.len());
    for (k, (a, e)) in actual.iter().zip(expected.iter()).enumerate() {
        assert!(
            (a.0 - e.0).abs() <= tol && (a.1 - e.1).abs() <= tol,
            "amplitude {}: got {:?}, expected {:?}",
            k,
            a,
            e
        );
    }
}

fn norm2(state: &[(f64, f64)]) -> f64 {
    state.iter().map(|(re, im)| re * re + im * im).sum::<f64>().sqrt()
}

#[test]
fn bit_pattern_constants_match_ieee754() {
    assert_eq!(F64_ONE_BITS, 1.0f64.to_bits());
    assert_eq!(F64_INV_SQRT2_BITS, std::f64::consts::FRAC_1_SQRT_2.to_bits());
    assert_eq!(F64_NEG_INV_SQRT2_BITS, (-std::f64::consts::FRAC_1_SQRT_2).to_bits());
}

#[test]
fn get_matrix_is_case_insensitive_and_defensive() {
    let x = get_matrix("X", &[]);
    assert_eq!(x, get_matrix("x", &[]));
    assert_eq!(x.e01.re, F64_ONE_BITS);
    assert_eq!(x.e00.re, 0);
    let h = get_matrix("h", &[]);
    assert_eq!(h, get_matrix("H", &[]));
    assert_eq!(h.e11.re, F64_NEG_INV_SQRT2_BITS);
    // Unknown names fall back to the identity.
    let id = get_matrix("RZ", &[]);
    let expected = GateMatrix {
        e00: Amp { re: F64_ONE_BITS, im: 0 },
        e01: Amp { re: 0, im: 0 },
        e10: Amp { re: 0, im: 0 },
        e11: Amp { re: F64_ONE_BITS, im: 0 },
    };
    assert_eq!(id, expected);
}

#[test]
fn pauli_x_on_two_qubits() {
    // Initial |00> = [1,0,0,0]; X on qubit 0 gives [0,1,0,0]; X on
    // qubit 1 then gives [0,0,0,1].
    let mut c = controller(2);
    c.set_state_amplitude(0, amp(1.0, 0.0));
    run(&mut c, &[("X", vec![0])]);
    assert_state_close(
        &read_state(&c),
        &[(0.0, 0.0), (1.0, 0.0), (0.0, 0.0), (0.0, 0.0)],
        0.0,
    );
    run(&mut c, &[("X", vec![1])]);
    assert_state_close(
        &read_state(&c),
        &[(0.0, 0.0), (0.0, 0.0), (0.0, 0.0), (1.0, 0.0)],
        0.0,
    );
}

#[test]
fn hadamard_on_one_qubit() {
    let mut c = controller(1);
    c.set_state_amplitude(0, amp(1.0, 0.0));
    run(&mut c, &[("H", vec![0])]);
    let v = std::f64::consts::FRAC_1_SQRT_2;
    assert_state_close(&read_state(&c), &[(v, 0.0), (v, 0.0)], 1e-12);
}

#[test]
fn cnot_flips_target_when_control_set() {
    // |10> (control qubit 1 set) becomes |11>.
    let mut c = controller(2);
    c.set_state_amplitude(2, amp(1.0, 0.0));
    run(&mut c, &[("CX", vec![1, 0])]);
    assert_state_close(
        &read_state(&c),
        &[(0.0, 0.0), (0.0, 0.0), (0.0, 0.0), (1.0, 0.0)],
        0.0,
    );
}

#[test]
fn cnot_leaves_control_clear_states_alone() {
    let mut c = controller(2);
    c.set_state_amplitude(0, amp(1.0, 0.0));
    run(&mut c, &[("CX", vec![1, 0])]);
    assert_state_close(
        &read_state(&c),
        &[(1.0, 0.0), (0.0, 0.0), (0.0, 0.0), (0.0, 0.0)],
        0.0,
    );
}

#[test]
fn cnot_with_target_above_control() {
    // |01> (control qubit 0 set) with CNOT(c=0, t=1) becomes |11>.
    let mut c = controller(2);
    c.set_state_amplitude(1, amp(1.0, 0.0));
    run(&mut c, &[("CNOT", vec![0, 1])]);
    assert_state_close(
        &read_state(&c),
        &[(0.0, 0.0), (0.0, 0.0), (0.0, 0.0), (1.0, 0.0)],
        0.0,
    );
}

#[test]
fn unknown_two_target_gate_is_skipped() {
    let mut c = controller(2);
    c.set_state_amplitude(1, amp(0.5, -0.25));
    let before = read_state(&c);
    run(&mut c, &[("SWAP", vec![0, 1])]);
    assert_state_close(&read_state(&c), &before, 0.0);
}

#[test]
fn gate_then_inverse_restores_state() {
    // H and X are their own inverses; a mixed state round-trips to
    // within floating tolerance.
    let mut c = controller(2);
    c.set_state_amplitude(0, amp(0.5, 0.1));
    c.set_state_amplitude(1, amp(-0.25, 0.3));
    c.set_state_amplitude(2, amp(0.125, -0.4));
    c.set_state_amplitude(3, amp(0.75, 0.2));
    let before = read_state(&c);
    let tol = 1e-12 * norm2(&before);
    run(&mut c, &[("H", vec![1]), ("H", vec![1])]);
    assert_state_close(&read_state(&c), &before, tol);
    run(&mut c, &[("X", vec![0]), ("X", vec![0])]);
    assert_state_close(&read_state(&c), &before, tol);
}

#[test]
fn unitaries_preserve_norm() {
    let mut c = controller(2);
    c.set_state_amplitude(0, amp(0.5, 0.5));
    c.set_state_amplitude(1, amp(0.5, 0.0));
    c.set_state_amplitude(2, amp(0.0, 0.5));
    c.set_state_amplitude(3, amp(0.0, 0.0));
    let before = norm2(&read_state(&c));
    run(&mut c, &[("H", vec![0]), ("X", vec![1]), ("CX", vec![1, 0]), ("H", vec![1])]);
    let after = norm2(&read_state(&c));
    assert!((before - after).abs() <= 1e-12 * before);
}

#[test]
fn schedule_cache_hit_iff_same_structure() {
    let mut c = controller(2);
    c.set_state_amplitude(0, amp(1.0, 0.0));
    let names: Vec<String> = vec!["H".to_string(), "X".to_string()];
    let targets: Vec<Vec<usize>> = vec![vec![0], vec![1]];
    let params_a: Vec<Vec<u64>> = vec![vec![0.5f64.to_bits()], vec![]];
    let params_b: Vec<Vec<u64>> = vec![vec![0.25f64.to_bits()], vec![1.5f64.to_bits()]];

    let first = c.run_circuit(&names, &targets, &params_a).unwrap();
    assert!(!first.cache_hit);
    // Same structure, different parameters: hit.
    let second = c.run_circuit(&names, &targets, &params_b).unwrap();
    assert!(second.cache_hit);
    // A changed target: miss.
    let other_targets: Vec<Vec<usize>> = vec![vec![1], vec![0]];
    let third = c.run_circuit(&names, &other_targets, &params_b).unwrap();
    assert!(!third.cache_hit);
    // A changed name: miss.
    let other_names: Vec<String> = vec!["X".to_string(), "X".to_string()];
    let fourth = c.run_circuit(&other_names, &other_targets, &params_b).unwrap();
    assert!(!fourth.cache_hit);
}

#[test]
fn run_report_plans_prefetch_one_gate_ahead() {
    // N = 12; gate 1 is X on qubit 10, so step 0 plans its two runs.
    let mut c = controller(12);
    let report = run(&mut c, &[("X", vec![0]), ("X", vec![10])]);
    assert_eq!(report.prefetch_plans.len(), 2);
    assert_eq!(report.prefetch_plans[0].len(), 2);
    assert_eq!(report.prefetch_plans[0][0].start, 0);
    assert_eq!(report.prefetch_plans[0][0].count, 4);
    assert_eq!(report.prefetch_plans[0][1].start, 8);
    assert_eq!(report.prefetch_plans[0][1].count, 4);
    // The last gate has nothing ahead of it.
    assert_eq!(report.prefetch_plans[1].len(), 0);
    // Returned values are the reserved placeholder.
    assert_eq!(report.values, vec![0, 0]);
}

#[test]
fn checkpoint_round_trips_byte_for_byte() {
    let mut c = controller(10);
    c.set_state_amplitude(0, amp(1.0, 0.0));
    run(&mut c, &[("H", vec![0])]);
    let snapshot = c.create_checkpoint().unwrap();
    assert_eq!(snapshot.len(), (1usize << 10) * 16);

    let mut reopened = controller(10);
    reopened.restore_state(&snapshot).unwrap();
    assert_eq!(reopened.create_checkpoint().unwrap(), snapshot);
    assert_state_close(&read_state(&reopened), &read_state(&c), 0.0);
}

#[test]
fn run_before_initialize_is_a_precondition_error() {
    let mut c = SimulatorController::new(2, "state.bin".to_string());
    let r = c.run_circuit(&vec!["X".to_string()], &vec![vec![0]], &vec![vec![]]);
    assert_eq!(r.unwrap_err(), SimError::NotInitialized);
    assert_eq!(c.create_checkpoint().unwrap_err(), SimError::NotInitialized);
}

#[test]
fn malformed_gate_lists_are_rejected() {
    let mut c = controller(2);
    let r = c.run_circuit(&vec!["X".to_string()], &vec![], &vec![vec![]]);
    assert_eq!(r.unwrap_err(), SimError::LengthMismatch);
    let r = c.run_circuit(&vec!["X".to_string()], &vec![vec![]], &vec![vec![]]);
    assert_eq!(r.unwrap_err(), SimError::BadTargetCount);
    let r = c.run_circuit(&vec!["X".to_string()], &vec![vec![0, 1, 0]], &vec![vec![]]);
    assert_eq!(r.unwrap_err(), SimError::BadTargetCount);
    let r = c.run_circuit(&vec!["X".to_string()], &vec![vec![5]], &vec![vec![]]);
    assert_eq!(r.unwrap_err(), SimError::TargetOutOfRange);
    let r = c.run_circuit(&vec!["CX".to_string()], &vec![vec![1, 1]], &vec![vec![]]);
    assert_eq!(r.unwrap_err(), SimError::DuplicateTarget);
    // A rejected list leaves the state untouched.
    c.set_state_amplitude(0, amp(1.0, 0.0));
    let before = read_state(&c);
    let _ = c.run_circuit(&vec!["X".to_string()], &vec![vec![5]], &vec![vec![]]);
    assert_state_close(&read_state(&c), &before, 0.0);
}

#[test]
fn restore_rejects_wrong_length() {
    let mut c = controller(4);
    let short = vec![0u8; 5];
    assert_eq!(c.restore_state(&short).unwrap_err(), SimError::BadSnapshotLength);
}

#[test]
fn error_messages_name_the_failure() {
    assert_eq!(SimError::NotInitialized.message(), "Memory not initialized");
}
