use vstd::prelude::*;

use super::rule::Rule;
use crate::engine::grid::Grid;

verus! {

/// Conway's rule on a cell's state and its live-neighbor count:
/// survival on 2 or 3, birth on 3.
pub open spec fn conway_next(alive: bool, neighbors: nat) -> bool {
    if alive {
        neighbors == 2 || neighbors == 3
    } else {
        neighbors == 3
    }
}

/// Conway's Game of Life
///
/// Classic cellular automata rules:
/// - Any live cell with 2-3 live neighbors survives
/// - Any dead cell with exactly 3 live neighbors becomes alive
/// - All other cells die or stay dead
pub struct Conway;

impl Rule for Conway {
    open spec fn next_state(&self, grid: &Grid, x: usize, y: usize) -> bool {
        conway_next(grid@.alive_at(x as int, y as int), grid@.neighbor_count(x as int, y as int))
    }

    fn apply(&self, grid: &Grid, x: usize, y: usize) -> (alive: bool)
        ensures
            alive == conway_next(
                grid@.alive_at(x as int, y as int),
                grid@.neighbor_count(x as int, y as int),
            ),
    {
        let neighbors = grid.count_neighbors(x, y);
        let alive = grid.get(x, y).is_alive();
        match (alive, neighbors) {
            (true, 2) | (true, 3) => true,  // Survival
            (false, 3) => true,  // Birth
            _ => false,  // Death
        }
    }

    fn name(&self) -> (name: &str)
        ensures
            name@ == "Conway's Game of Life"@,
    {
        "Conway's Game of Life"
    }
}

/// Under Conway's rule (B3/S23) a cell is alive in the next generation
/// exactly when it has three live neighbors, or is alive with two.
pub proof fn lemma_conway_answer(grid: &Grid, x: usize, y: usize)
    ensures
        ({
            let n = grid@.neighbor_count(x as int, y as int);
            Conway.next_state(grid, x, y) == (n == 3 || (grid@.alive_at(x as int, y as int) && n
                == 2))
        }),
{
}

} // verus!
