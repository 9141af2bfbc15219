//! Analyzer schedules and prefetch coalescing, checked on concrete
//! circuits.

use qp_sim_core::bitmap::PageBits;
use qp_sim_core::circuit::{CircuitAnalyzer, GateOp};
use qp_sim_core::io::{AsyncIoEngine, PageRun};
use qp_sim_core::memory::QuantumMemoryManager;

fn gate(name: &str, targets: Vec<usize>) -> GateOp {
    GateOp { name: name.to_string(), targets, params: Vec::new() }
}

fn bitmap_bits(b: &PageBits) -> Vec<bool> {
    let mut out = Vec::new();
    let mut p = 0;
    while p < b.len() {
        out.push(b.get(p));
        p += 1;
    }
    out
}

#[test]
fn dense_gate_touches_every_page() {
    // N = 12: 2^12 * 16 bytes = 16 pages. Any target below 8 is dense.
    let analyzer = CircuitAnalyzer::new(12);
    for q in 0..8 {
        let pages = analyzer.get_pages_for_gate(&gate("X", vec![q]));
        let bits = bitmap_bits(&pages);
        assert_eq!(bits.len(), 16);
        assert!(bits.iter().all(|&b| b));
    }
}

#[test]
fn stride_boundary_qubit_eight_is_strided() {
    // At q = 8 the stride equals the page size: the strict `<` puts it
    // in the strided regime, marking every other page.
    let analyzer = CircuitAnalyzer::new(12);
    let pages = analyzer.get_pages_for_gate(&gate("X", vec![8]));
    let bits = bitmap_bits(&pages);
    assert_eq!(bits.len(), 16);
    for (p, &b) in bits.iter().enumerate() {
        assert_eq!(b, p % 2 == 0, "page {}", p);
    }
}

#[test]
fn strided_gate_marks_leading_half_of_each_block() {
    // N = 12, X on qubit 10: blocks of 8 pages, first 4 of each marked.
    let analyzer = CircuitAnalyzer::new(12);
    let pages = analyzer.get_pages_for_gate(&gate("X", vec![10]));
    let bits = bitmap_bits(&pages);
    assert_eq!(bits.len(), 16);
    let expected: Vec<usize> = vec![0, 1, 2, 3, 8, 9, 10, 11];
    for (p, &b) in bits.iter().enumerate() {
        assert_eq!(b, expected.contains(&p), "page {}", p);
    }
}

#[test]
fn strided_gate_density_is_one_half() {
    let analyzer = CircuitAnalyzer::new(12);
    for q in 8..12 {
        let pages = analyzer.get_pages_for_gate(&gate("X", vec![q]));
        let bits = bitmap_bits(&pages);
        let set = bits.iter().filter(|&&b| b).count();
        assert_eq!(set * 2, bits.len(), "qubit {}", q);
    }
}

#[test]
fn two_target_gates_get_empty_bitmap() {
    let analyzer = CircuitAnalyzer::new(12);
    let pages = analyzer.get_pages_for_gate(&gate("CX", vec![1, 0]));
    assert!(bitmap_bits(&pages).iter().all(|&b| !b));
}

#[test]
fn analyze_produces_one_bitmap_per_gate() {
    let analyzer = CircuitAnalyzer::new(12);
    let gates = vec![gate("H", vec![0]), gate("X", vec![10]), gate("CX", vec![1, 0])];
    let schedule = analyzer.analyze(&gates);
    assert_eq!(schedule.timeline.len(), 3);
    assert!(bitmap_bits(&schedule.timeline[0]).iter().all(|&b| b));
    assert_eq!(
        bitmap_bits(&schedule.timeline[1]),
        bitmap_bits(&analyzer.get_pages_for_gate(&gate("X", vec![10])))
    );
    assert!(bitmap_bits(&schedule.timeline[2]).iter().all(|&b| !b));
}

#[test]
fn submit_prefetch_coalesces_maximal_runs() {
    let engine = AsyncIoEngine::new(128);
    let mut pages = PageBits::filled(false, 20);
    for p in [1, 2, 3, 7, 10, 11] {
        pages.set(p, true);
    }
    let runs = engine.submit_prefetch(&pages);
    assert_eq!(
        runs,
        vec![
            PageRun { start: 1, count: 3 },
            PageRun { start: 7, count: 1 },
            PageRun { start: 10, count: 2 },
        ]
    );
}

#[test]
fn submit_prefetch_empty_bitmap_issues_nothing() {
    let engine = AsyncIoEngine::new(128);
    let pages = PageBits::filled(false, 32);
    assert_eq!(engine.submit_prefetch(&pages).len(), 0);
}

#[test]
fn submit_prefetch_full_bitmap_issues_one_advisory() {
    let engine = AsyncIoEngine::new(128);
    let pages = PageBits::filled(true, 16);
    let runs = engine.submit_prefetch(&pages);
    assert_eq!(runs, vec![PageRun { start: 0, count: 16 }]);
}

#[test]
fn strided_schedule_coalesces_to_one_run_per_block() {
    // N = 12, X on qubit 10: runs (0..4) and (8..12).
    let analyzer = CircuitAnalyzer::new(12);
    let pages = analyzer.get_pages_for_gate(&gate("X", vec![10]));
    let engine = AsyncIoEngine::new(128);
    let runs = engine.submit_prefetch(&pages);
    assert_eq!(
        runs,
        vec![PageRun { start: 0, count: 4 }, PageRun { start: 8, count: 4 }]
    );
}

#[test]
fn mapped_length_is_page_multiple_for_eight_qubits_up() {
    for n in [8usize, 10, 12] {
        let mem = QuantumMemoryManager::new(n);
        assert_eq!(mem.total_bytes, (1usize << n) * 16);
        assert_eq!(mem.total_bytes % 4096, 0);
        assert_eq!(mem.state_len(), 1usize << n);
    }
}

#[test]
fn evict_page_clears_residency_bit() {
    let mut mem = QuantumMemoryManager::new(10);
    // 2^10 * 16 bytes = 4 pages, none advised resident at start.
    assert_eq!(mem.resident_bitmap.len(), 4);
    assert!(!mem.resident_bitmap.get(2));
    mem.evict_page(2);
    assert!(!mem.resident_bitmap.get(2));
    for p in 0..4 {
        assert!(!mem.resident_bitmap.get(p));
    }
}
