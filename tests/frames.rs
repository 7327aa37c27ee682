use mcp_phi_base::{compute_betti_vector, validate_topology, BettiFrame, Phase};

fn frame_with(phase: Phase, betti_vector: [u32; 3], chi: i32) -> BettiFrame {
    BettiFrame {
        equation: String::new(),
        betti_vector,
        chi,
        phase,
        phi_index: 0,
        timestamp: 0,
        natural_flow: false,
        dependencies: Vec::new(),
        implications: Vec::new(),
    }
}

#[test]
fn test_phase_lock() {
    let frame1 = frame_with(Phase::Past, [0, 0, 0], 0);
    let frame2 = frame_with(Phase::Present, [0, 0, 0], 0);
    assert!(frame1.phase != frame2.phase);
    assert!(validate_topology(&frame1));
    assert!(validate_topology(&frame2));
}

#[test]
fn consistent_invariant_passes() {
    assert!(validate_topology(&frame_with(Phase::Past, [3, 5, 1], -1)));
    assert!(validate_topology(&frame_with(Phase::Future, [1, 0, 0], 1)));
    assert!(validate_topology(&frame_with(Phase::Present, [7, 2, 4], 9)));
}

#[test]
fn shifted_invariant_fails() {
    for delta in [-3i32, -1, 1, 2, 1000] {
        assert!(!validate_topology(&frame_with(Phase::Past, [3, 5, 1], -1 + delta)));
    }
}

#[test]
fn large_counters_do_not_wrap() {
    let frame = frame_with(Phase::Past, [u32::MAX, 0, u32::MAX], -2);
    assert!(!validate_topology(&frame));
    let frame = frame_with(Phase::Past, [0, u32::MAX, 0], i32::MIN);
    assert!(!validate_topology(&frame));
}

#[test]
fn betti_vector_of_empty_equation() {
    assert_eq!(compute_betti_vector(""), [1, 0, 0]);
}

#[test]
fn betti_vector_counts_signs() {
    assert_eq!(compute_betti_vector("E = m(c^2)"), [2, 1, 0]);
    assert_eq!(compute_betti_vector("a = b = (c)(d"), [3, 1, 0]);
    assert_eq!(compute_betti_vector("\u{222B} f(x) dx = \u{222B}\u{222B} g"), [2, 1, 3]);
}
