use mcp_phi_base::{
    create_initial_frame, reconcile_cycle, BettiFrame, BettiTopology, Phase, TopologyViolation,
};

fn topology(b0: u32, b1: u32, b2: u32, target_chi: i32) -> BettiTopology {
    BettiTopology { b0, b1, b2, target_chi }
}

#[test]
fn seed_frame_fields() {
    let frame = create_initial_frame(1_700_000_000);
    assert_eq!(frame.equation, "");
    assert_eq!(frame.betti_vector, [1, 0, 0]);
    assert_eq!(frame.chi, 1);
    assert_eq!(frame.phase, Phase::Present);
    assert_eq!(frame.phi_index, 1);
    assert_eq!(frame.timestamp, 1_700_000_000);
    assert!(frame.natural_flow);
    assert!(frame.dependencies.is_empty());
    assert!(frame.implications.is_empty());
}

#[test]
fn acceptance_rules() {
    let t = topology(2, 1, 1, 2);
    let seed = create_initial_frame(0);
    assert!(t.validate_discovery(&seed));
    let mut high = create_initial_frame(0);
    high.chi = 3;
    assert!(!t.validate_discovery(&high));
    let mut at_ceiling = create_initial_frame(0);
    at_ceiling.betti_vector = [2, 0, 0];
    at_ceiling.chi = 2;
    assert!(t.validate_discovery(&at_ceiling));
    let mut inconsistent = create_initial_frame(0);
    inconsistent.chi = 0;
    assert!(!t.validate_discovery(&inconsistent));
    let mut forced = create_initial_frame(0);
    forced.natural_flow = false;
    assert!(!t.validate_discovery(&forced));
    let mut disconnected = create_initial_frame(0);
    disconnected.betti_vector = [0, 0, 1];
    assert!(!t.validate_discovery(&disconnected));
}

#[test]
fn euler_check_ok_and_violation() {
    assert_eq!(topology(1, 0, 0, 1).ensure_euler_characteristic(), Ok(()));
    assert_eq!(
        topology(1, 0, 0, 2).ensure_euler_characteristic(),
        Err(TopologyViolation { expected: 2, actual: 1 })
    );
    assert_eq!(
        topology(0, u32::MAX, 0, 0).ensure_euler_characteristic(),
        Err(TopologyViolation { expected: 0, actual: -(u32::MAX as i64) })
    );
}

#[test]
fn single_unit_cycle_returns_seed() {
    let seed = create_initial_frame(42);
    let result = reconcile_cycle(&topology(1, 0, 0, 1), vec![seed]);
    let frames = result.unwrap();
    assert_eq!(frames.len(), 1);
    assert_eq!(frames[0].chi, 1);
    assert_eq!(frames[0].timestamp, 42);
    assert_eq!(frames[0].betti_vector, [1, 0, 0]);
}

#[test]
fn single_unit_cycle_with_broken_target_fails() {
    let seed = create_initial_frame(42);
    let result = reconcile_cycle(&topology(1, 0, 0, 5), vec![seed]);
    assert_eq!(result.unwrap_err(), TopologyViolation { expected: 5, actual: 1 });
}

#[test]
fn cycle_keeps_accepted_in_order() {
    let mut a = create_initial_frame(1);
    a.phi_index = 10;
    let mut rejected = create_initial_frame(2);
    rejected.natural_flow = false;
    let mut b = create_initial_frame(3);
    b.phi_index = 30;
    b.betti_vector = [2, 1, 0];
    let results: Vec<BettiFrame> = vec![a, rejected, b];
    let frames = reconcile_cycle(&topology(3, 1, 0, 2), results).unwrap();
    assert_eq!(frames.len(), 2);
    assert_eq!(frames[0].phi_index, 10);
    assert_eq!(frames[1].phi_index, 30);
}

#[test]
fn cycle_with_no_results() {
    let frames = reconcile_cycle(&topology(0, 0, 0, 0), Vec::new()).unwrap();
    assert!(frames.is_empty());
}

#[test]
fn seed_rejected_under_low_target() {
    let frames = reconcile_cycle(&topology(0, 0, 0, 0), vec![create_initial_frame(7)]).unwrap();
    assert!(frames.is_empty());
}

#[test]
fn cycle_drops_inconsistent_frame() {
    let mut inconsistent = create_initial_frame(9);
    inconsistent.chi = 0;
    let frames = reconcile_cycle(&topology(1, 0, 0, 1), vec![inconsistent]).unwrap();
    assert!(frames.is_empty());
}
