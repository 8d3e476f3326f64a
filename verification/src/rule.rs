//! The rule that decides a cell's state in the next generation.

use vstd::prelude::*;
use crate::board::rule;

verus! {

/// The next state of a cell that is alive or dead (`current_state`) and has
/// `live_neighbors` live cells around it.
///
/// The function is total: a count above eight, which no grid produces, gives
/// a dead cell like every other count that is neither two nor three.
pub fn next_state(current_state: bool, live_neighbors: u8) -> (next: bool)
    ensures
        next == rule(current_state, live_neighbors as int),
{
    match (current_state, live_neighbors) {
        (true, 2) | (true, 3) => true,
        (false, 3) => true,
        _ => false,
    }
}

} // verus!
