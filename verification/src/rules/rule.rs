use vstd::prelude::*;

use crate::engine::grid::Grid;

verus! {

/// Cellular automata rule
///
/// Defines how cells transition from one generation to the next. Each rule
/// names its answer in `next_state`, and `apply` computes that answer. The
/// rules of this crate define `next_state` from the cell's state and its
/// live-neighbor count; a rule written outside the verifier can define it
/// as its own `apply`.
pub trait Rule: Send + Sync {
    /// Whether the cell at (x, y) of `grid` is alive in the next generation.
    spec fn next_state(&self, grid: &Grid, x: usize, y: usize) -> bool;

    /// Compute next state for cell at (x, y)
    ///
    /// Given the current grid state, return whether the cell
    /// at position (x, y) should be alive in the next generation.
    fn apply(&self, grid: &Grid, x: usize, y: usize) -> (alive: bool)
        requires
            grid@.wf(),
        ensures
            alive == self.next_state(grid, x, y),
    ;

    /// Rule name for debugging
    fn name(&self) -> (name: &str)
        default_ensures
            name@ == "CustomRule"@,
    {
        "CustomRule"
    }
}

} // verus!
