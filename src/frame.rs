//! Discovery frames and the checks on a single frame.

use vstd::prelude::*;

verus! {

/// Temporal phase of a frame.
#[derive(Debug, Clone, Copy, PartialEq, Eq, Structural)]
pub enum Phase {
    Past,
    Present,
    Future,
}

/// Marker of the stage a discovery run is in; carries no rule of its own.
#[derive(Debug, Clone, Copy, PartialEq, Eq, Structural)]
pub enum Stream {
    Emptiness,
    Honor,
    Focus,
    Flow,
    Respect,
    Integration,
    Emergence,
    Transmission,
}

/// A discovered unit of work: its content, its shape counters
/// `[b0, b1, b2]` (components, cycles, voids) and its stored invariant.
#[derive(Debug, Clone)]
pub struct BettiFrame {
    pub equation: String,
    pub betti_vector: [u32; 3],
    pub chi: i32,
    pub phase: Phase,
    pub phi_index: u32,
    pub timestamp: u64,
    pub natural_flow: bool,
    pub dependencies: Vec<String>,
    pub implications: Vec<String>,
}

/// The Euler characteristic `b0 - b1 + b2` of a shape.
pub open spec fn euler_characteristic(b: [u32; 3]) -> int {
    b@[0] - b@[1] + b@[2]
}

/// A frame is consistent when its stored invariant is the characteristic
/// of its shape.
pub open spec fn is_consistent(frame: &BettiFrame) -> bool {
    frame.chi as int == euler_characteristic(frame.betti_vector)
}

/// Whether `frame.chi == b0 - b1 + b2`, computed without overflow.
pub fn validate_topology(frame: &BettiFrame) -> (r: bool)
    ensures
        r == is_consistent(frame),
{
    let b0 = frame.betti_vector[0] as i64;
    let b1 = frame.betti_vector[1] as i64;
    let b2 = frame.betti_vector[2] as i64;
    frame.chi as i64 == b0 - b1 + b2
}

/// A frame whose invariant is its characteristic passes the check, and any
/// other invariant on the same shape fails it.
pub proof fn lemma_consistency_exact(good: &BettiFrame, other: &BettiFrame)
    requires
        good.chi as int == euler_characteristic(good.betti_vector),
        other.betti_vector == good.betti_vector,
        other.chi != good.chi,
    ensures
        is_consistent(good),
        !is_consistent(other),
{
}

/// Number of occurrences of `c` in `s`.
pub open spec fn count_char(s: Seq<char>, c: char) -> nat
    decreases s.len(),
{
    if s.len() == 0 {
        0
    } else {
        count_char(s.drop_last(), c) + if s.last() == c {
            1nat
        } else {
            0nat
        }
    }
}

/// The integral sign, which marks an enclosed void.
pub const INTEGRAL_SIGN: char = '\u{222B}';

/// `x`, or `u32::MAX` when it does not fit in a `u32`.
pub open spec fn capped(x: nat) -> nat {
    if x < u32::MAX {
        x
    } else {
        u32::MAX as nat
    }
}

/// Shape of an equation: one component more than its `=` signs, one cycle
/// per two parentheses (rounded down), one void per integral sign. Counts
/// that do not fit in a `u32` saturate at `u32::MAX`.
pub fn compute_betti_vector(equation: &str) -> (r: [u32; 3])
    ensures
        r@[0] == capped(count_char(equation@, '=') + 1),
        r@[1] == capped(count_char(equation@, '(') + count_char(equation@, ')')) / 2,
        r@[2] == capped(count_char(equation@, INTEGRAL_SIGN)),
{
    let mut equals: u32 = 0;
    let mut parens: u32 = 0;
    let mut voids: u32 = 0;
    for ch in it: equation.chars()
        invariant
            it.seq() == equation@,
            equals == capped(count_char(equation@.take(it.index()), '=')),
            parens == capped(
                count_char(equation@.take(it.index()), '(') + count_char(
                    equation@.take(it.index()),
                    ')',
                ),
            ),
            voids == capped(count_char(equation@.take(it.index()), INTEGRAL_SIGN)),
    {
        let ghost prefix = equation@.take(it.index() + 1);
        proof {
            assert(prefix.drop_last() =~= equation@.take(it.index()));
            assert(prefix.last() == ch);
        }
        if ch == '=' {
            equals = equals.saturating_add(1);
        }
        if ch == '(' || ch == ')' {
            parens = parens.saturating_add(1);
        }
        if ch == INTEGRAL_SIGN {
            voids = voids.saturating_add(1);
        }
    }
    proof {
        assert(equation@.take(equation@.len() as int) =~= equation@);
    }
    [equals.saturating_add(1), parens / 2, voids]
}

} // verus!
