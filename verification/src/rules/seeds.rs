use vstd::prelude::*;

use super::rule::Rule;
use crate::engine::grid::Grid;

verus! {

/// The Seeds rule on a cell's state and its live-neighbor count:
/// no survival, birth on exactly 2.
pub open spec fn seeds_next(alive: bool, neighbors: nat) -> bool {
    !alive && neighbors == 2
}

/// Seeds - Creates beautiful trailing patterns
///
/// Rules:
/// - ALL live cells die in the next generation
/// - Dead cells with exactly 2 neighbors become alive
/// - All other cells stay dead
pub struct Seeds;

impl Rule for Seeds {
    open spec fn next_state(&self, grid: &Grid, x: usize, y: usize) -> bool {
        seeds_next(grid@.alive_at(x as int, y as int), grid@.neighbor_count(x as int, y as int))
    }

    fn apply(&self, grid: &Grid, x: usize, y: usize) -> (alive: bool)
        ensures
            alive == seeds_next(
                grid@.alive_at(x as int, y as int),
                grid@.neighbor_count(x as int, y as int),
            ),
    {
        let neighbors = grid.count_neighbors(x, y);
        let alive = grid.get(x, y).is_alive();
        // All living cells die; birth only on exactly 2 neighbors
        !alive && neighbors == 2
    }

    fn name(&self) -> (name: &str)
        ensures
            name@ == "Seeds"@,
    {
        "Seeds"
    }
}


/// Under Seeds no live cell survives a generation.
pub proof fn lemma_seeds_no_survival(neighbors: nat)
    ensures
        !seeds_next(true, neighbors),
{
}

/// Under Seeds a cell is alive in the next generation exactly when it is
/// dead now and has exactly two live neighbors: no live cell survives, and
/// a dead cell with any other count (three, say) stays dead.
pub proof fn lemma_seeds_answer(grid: &Grid, x: usize, y: usize)
    ensures
        Seeds.next_state(grid, x, y) == (!grid@.alive_at(x as int, y as int) && grid@.neighbor_count(
            x as int,
            y as int,
        ) == 2),
{
}

} // verus!
