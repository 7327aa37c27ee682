//! Decisions of a discovery cycle: the seed frame handed to every
//! processing unit, which returned frames are accepted, and the global
//! topology check that closes the cycle.
//!
//! Running the units (and waiting for them) is left to the caller, which
//! gathers the frames the units returned, in dispatch order, and hands them
//! to `reconcile_cycle`. On a topology mismatch only the error is returned.

use crate::frame::{is_consistent, validate_topology, BettiFrame, Phase};
use vstd::prelude::*;

verus! {

/// Configured shape counters and the invariant they must combine to.
#[derive(Debug, Clone)]
pub struct BettiTopology {
    pub b0: u32,
    pub b1: u32,
    pub b2: u32,
    pub target_chi: i32,
}

/// The configured counters do not combine to the configured invariant.
#[derive(Debug, Clone, Copy, PartialEq, Eq, Structural)]
pub struct TopologyViolation {
    /// The configured invariant.
    pub expected: i32,
    /// `b0 - b1 + b2` of the configured counters.
    pub actual: i64,
}

/// `b0 - b1 + b2` of a topology's own counters.
pub open spec fn topology_chi(t: &BettiTopology) -> int {
    t.b0 - t.b1 + t.b2
}

/// Whether a topology's counters combine to its target invariant.
pub open spec fn topology_holds(t: &BettiTopology) -> bool {
    topology_chi(t) == t.target_chi as int
}

/// A returned frame is accepted when its invariant is at most the target,
/// it came from a natural transform, it has at least one component, and
/// its invariant is the characteristic `b0 - b1 + b2` of its shape.
pub open spec fn accepts(t: &BettiTopology, frame: &BettiFrame) -> bool {
    &&& frame.chi <= t.target_chi
    &&& frame.natural_flow
    &&& frame.betti_vector@[0] > 0
    &&& is_consistent(frame)
}

/// The accepted frames of `results`, in their order.
pub open spec fn accepted(t: &BettiTopology, results: Seq<BettiFrame>) -> Seq<BettiFrame>
    decreases results.len(),
{
    if results.len() == 0 {
        Seq::empty()
    } else {
        let rest = accepted(t, results.drop_last());
        if accepts(t, &results.last()) {
            rest.push(results.last())
        } else {
            rest
        }
    }
}

/// What closing a cycle over `results` yields: the accepted frames when the
/// topology holds, else the violation with both invariants.
pub open spec fn cycle_result(
    t: &BettiTopology,
    results: Seq<BettiFrame>,
    r: Result<Vec<BettiFrame>, TopologyViolation>,
) -> bool {
    match r {
        Ok(v) => topology_holds(t) && v@ == accepted(t, results),
        Err(e) => !topology_holds(t) && e.expected == t.target_chi && e.actual == topology_chi(t),
    }
}

/// The frame every processing unit starts from.
pub open spec fn is_seed_frame(frame: &BettiFrame, timestamp: u64) -> bool {
    &&& frame.equation@.len() == 0
    &&& frame.betti_vector@ == seq![1u32, 0u32, 0u32]
    &&& frame.chi == 1
    &&& frame.phase == Phase::Present
    &&& frame.phi_index == 1
    &&& frame.timestamp == timestamp
    &&& frame.natural_flow
    &&& frame.dependencies@.len() == 0
    &&& frame.implications@.len() == 0
}

/// The seed frame, stamped with `timestamp` (seconds since the epoch).
pub fn create_initial_frame(timestamp: u64) -> (r: BettiFrame)
    ensures
        is_seed_frame(&r, timestamp),
{
    BettiFrame {
        equation: String::new(),
        betti_vector: [1, 0, 0],
        chi: 1,
        phase: Phase::Present,
        phi_index: 1,
        timestamp,
        natural_flow: true,
        dependencies: Vec::new(),
        implications: Vec::new(),
    }
}

impl BettiTopology {
    /// Whether a frame returned by a processing unit is accepted.
    pub fn validate_discovery(&self, frame: &BettiFrame) -> (r: bool)
        ensures
            r == accepts(self, frame),
    {
        frame.chi <= self.target_chi && frame.natural_flow && frame.betti_vector[0] > 0
            && validate_topology(frame)
    }

    /// `Ok` exactly when `b0 - b1 + b2` equals the target invariant.
    pub fn ensure_euler_characteristic(&self) -> (r: Result<(), TopologyViolation>)
        ensures
            r is Ok <==> topology_holds(self),
            r matches Err(e) ==> e.expected == self.target_chi && e.actual == topology_chi(self),
    {
        let current_chi = self.b0 as i64 - self.b1 as i64 + self.b2 as i64;
        if current_chi != self.target_chi as i64 {
            Err(TopologyViolation { expected: self.target_chi, actual: current_chi })
        } else {
            Ok(())
        }
    }
}

/// Closes a cycle: keeps the accepted frames among those the units
/// returned, in order, then checks the configured topology.
pub fn reconcile_cycle(topology: &BettiTopology, results: Vec<BettiFrame>) -> (r: Result<
    Vec<BettiFrame>,
    TopologyViolation,
>)
    ensures
        cycle_result(topology, results@, r),
{
    let ghost all = results@;
    let mut rest = results;
    let mut discoveries: Vec<BettiFrame> = Vec::new();
    let mut i: usize = 0;
    let total: usize = rest.len();
    while rest.len() > 0
        invariant
            all.len() == total,
            i + rest@.len() == all.len(),
            rest@ == all.skip(i as int),
            discoveries@ == accepted(topology, all.take(i as int)),
        decreases rest@.len(),
    {
        let frame = rest.remove(0);
        proof {
            assert(all.take(i + 1).drop_last() =~= all.take(i as int));
            assert(all.take(i + 1).last() == frame);
            assert(rest@ =~= all.skip(i + 1));
        }
        if topology.validate_discovery(&frame) {
            discoveries.push(frame);
        }
        i = i + 1;
    }
    proof {
        assert(all.take(all.len() as int) =~= all);
    }
    match topology.ensure_euler_characteristic() {
        Ok(()) => Ok(discoveries),
        Err(e) => Err(e),
    }
}

/// Every frame a cycle accepts passes the acceptance rule, so in particular
/// its invariant is the characteristic of its shape.
pub proof fn lemma_accepted_frames_consistent(t: &BettiTopology, results: Seq<BettiFrame>)
    ensures
        forall|i: int|
            0 <= i < accepted(t, results).len() ==> accepts(t, &#[trigger] accepted(t, results)[i])
                && is_consistent(&accepted(t, results)[i]),
    decreases results.len(),
{
    if results.len() > 0 {
        let rest = accepted(t, results.drop_last());
        lemma_accepted_frames_consistent(t, results.drop_last());
        let all = accepted(t, results);
        assert forall|i: int| 0 <= i < all.len() implies accepts(t, &#[trigger] all[i]) by {
            if i < rest.len() {
                assert(all[i] == rest[i]);
            }
        }
    }
}

/// A cycle whose single unit hands the seed frame back unchanged, under a
/// topology that holds and whose target admits the seed's invariant of 1,
/// succeeds with exactly that frame.
pub proof fn lemma_seed_cycle_accepts(
    t: &BettiTopology,
    seed: BettiFrame,
    timestamp: u64,
    r: Result<Vec<BettiFrame>, TopologyViolation>,
)
    requires
        is_seed_frame(&seed, timestamp),
        topology_holds(t),
        t.target_chi >= 1,
        cycle_result(t, seq![seed], r),
    ensures
        r matches Ok(v) && v@ == seq![seed] && v@.len() == 1,
{
    let s = seq![seed];
    assert(s.drop_last() =~= Seq::<BettiFrame>::empty());
    assert(s.last() == seed);
    assert(accepts(t, &seed));
    assert(accepted(t, Seq::<BettiFrame>::empty()) == Seq::<BettiFrame>::empty());
    assert(accepted(t, s) =~= seq![seed]);
}

/// Whatever the units return, a topology whose counters do not combine to
/// its target fails the cycle with the target and the actual invariant.
pub proof fn lemma_mismatched_topology_fails(
    t: &BettiTopology,
    results: Seq<BettiFrame>,
    r: Result<Vec<BettiFrame>, TopologyViolation>,
)
    requires
        !topology_holds(t),
        cycle_result(t, results, r),
    ensures
        r matches Err(e) && e.expected == t.target_chi && e.actual == topology_chi(t),
{
}

} // verus!
