//! Block-structured memoization of the Fibonacci sequence, topological
//! consistency checks on discovery frames, and the decision logic of a
//! discovery cycle over processing units.

mod discovery;
mod frame;
mod sequence_cache;

pub use sequence_cache::{
    fib, fibonacci, fibonacci_stats, lemma_cached_values_agree, lemma_sequence_recurrence,
    FibonacciCache, FibonacciCacheStats, FIBONACCI_BLOCK_SIZE, MAX_FIBONACCI_INDEX,
};
pub use frame::{
    capped, compute_betti_vector, count_char, euler_characteristic, is_consistent,
    lemma_consistency_exact, validate_topology, BettiFrame, Phase, Stream, INTEGRAL_SIGN,
};
pub use discovery::{
    accepted, accepts, create_initial_frame, cycle_result, is_seed_frame,
    lemma_accepted_frames_consistent,
    lemma_mismatched_topology_fails, lemma_seed_cycle_accepts, reconcile_cycle, topology_chi,
    topology_holds, BettiTopology, TopologyViolation,
};
