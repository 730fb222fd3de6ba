use vstd::prelude::*;

use super::conway::conway_next;
use super::rule::Rule;
use crate::engine::grid::Grid;

verus! {

/// HighLife's rule on a cell's state and its live-neighbor count:
/// survival on 2 or 3, birth on 3 or 6.
pub open spec fn highlife_next(alive: bool, neighbors: nat) -> bool {
    if alive {
        neighbors == 2 || neighbors == 3
    } else {
        neighbors == 3 || neighbors == 6
    }
}

/// HighLife - Conway variant with replicators
///
/// Rules:
/// - Any live cell with 2-3 live neighbors survives (like Conway)
/// - Any dead cell with 3 or 6 live neighbors becomes alive
/// - All other cells die or stay dead
///
/// The B6 rule (birth on 6) creates "replicators" - patterns that copy themselves.
pub struct HighLife;

impl Rule for HighLife {
    open spec fn next_state(&self, grid: &Grid, x: usize, y: usize) -> bool {
        highlife_next(grid@.alive_at(x as int, y as int), grid@.neighbor_count(x as int, y as int))
    }

    fn apply(&self, grid: &Grid, x: usize, y: usize) -> (alive: bool)
        ensures
            alive == highlife_next(
                grid@.alive_at(x as int, y as int),
                grid@.neighbor_count(x as int, y as int),
            ),
    {
        let neighbors = grid.count_neighbors(x, y);
        let alive = grid.get(x, y).is_alive();
        match (alive, neighbors) {
            (true, 2) | (true, 3) => true,  // Survival (same as Conway)
            (false, 3) | (false, 6) => true,  // Birth (B36 rule)
            _ => false,  // Death
        }
    }

    fn name(&self) -> (name: &str)
        ensures
            name@ == "HighLife"@,
    {
        "HighLife"
    }
}

/// HighLife agrees with Conway everywhere except that a dead cell with six
/// live neighbors is born.
pub proof fn lemma_highlife_extends_conway(alive: bool, neighbors: nat)
    ensures
        highlife_next(alive, neighbors) == (conway_next(alive, neighbors) || (!alive && neighbors
            == 6)),
{
}

/// Under HighLife (B36/S23) a cell is alive in the next generation exactly
/// when it has three live neighbors, or is alive with two, or is dead with
/// six.
pub proof fn lemma_highlife_answer(grid: &Grid, x: usize, y: usize)
    ensures
        ({
            let n = grid@.neighbor_count(x as int, y as int);
            let alive = grid@.alive_at(x as int, y as int);
            HighLife.next_state(grid, x, y) == (n == 3 || (alive && n == 2) || (!alive && n == 6))
        }),
{
}

} // verus!
