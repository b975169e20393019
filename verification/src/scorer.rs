//! Model scoring: trading fit against complexity across candidate orders.
//!
//! A fitted theory's score has two parts. The fit is the log-loss of the
//! data under the theory, the sum of the negative base-2 logarithms of the
//! per-window conditional probabilities that
//! `MarkovTheory::window_probabilities` returns; being real-valued, that sum
//! is the caller's. The complexity is exact: the cost in bits of encoding
//! the parameter table, one parameter of a fixed bit width per context. A
//! lower total of the two is better; the penalty grows with the order while
//! the fit shrinks, so the total is minimized at the order that best
//! explains the data without overfitting. Totals are only comparable across
//! theories scored on the same data.

use vstd::prelude::*;

use crate::contexts::context_count;
use crate::contexts::count_contexts;

verus! {

/// The complexity penalty of an order-`degree` theory: 2^degree parameters,
/// each encoded in `parameter_width` bits (32 or 64, the caller's precision
/// accounting).
pub fn complexity_penalty(degree: usize, parameter_width: u64) -> (r: u64)
    requires
        degree < 32,
        parameter_width <= 0x1_0000_0000u64,
    ensures
        r == context_count(degree as nat) * parameter_width,
{
    let size = count_contexts(degree);
    proof {
        assert((size as int) * (parameter_width as int) <= 0x8000_0000i64
            * 0x1_0000_0000i64) by (nonlinear_arith)
            requires
                size <= 0x8000_0000usize,
                parameter_width <= 0x1_0000_0000u64,
        ;
    }
    (size as u64) * parameter_width
}

} // verus!
