use vstd::prelude::*;

use super::rule::Rule;
use crate::engine::grid::Grid;

verus! {

/// Day & Night on a cell's state and its live-neighbor count:
/// survival on 3, 4, 6, 7 or 8, birth on 3, 6, 7 or 8.
pub open spec fn daynight_next(alive: bool, neighbors: nat) -> bool {
    if alive {
        neighbors == 3 || neighbors == 4 || neighbors == 6 || neighbors == 7 || neighbors == 8
    } else {
        neighbors == 3 || neighbors == 6 || neighbors == 7 || neighbors == 8
    }
}

/// Day & Night - Symmetric cellular automata
///
/// Rules:
/// - Live cells with 3, 4, 6, 7, or 8 neighbors survive
/// - Dead cells with 3, 6, 7, or 8 neighbors become alive
///
/// This rule is "symmetric" - the pattern looks the same if you swap
/// alive/dead cells.
pub struct DayAndNight;

impl Rule for DayAndNight {
    open spec fn next_state(&self, grid: &Grid, x: usize, y: usize) -> bool {
        daynight_next(grid@.alive_at(x as int, y as int), grid@.neighbor_count(x as int, y as int))
    }

    fn apply(&self, grid: &Grid, x: usize, y: usize) -> (alive: bool)
        ensures
            alive == daynight_next(
                grid@.alive_at(x as int, y as int),
                grid@.neighbor_count(x as int, y as int),
            ),
    {
        let neighbors = grid.count_neighbors(x, y);
        let alive = grid.get(x, y).is_alive();
        match (alive, neighbors) {
            // Survival: 3, 4, 6, 7, 8
            (true, 3) | (true, 4) | (true, 6) | (true, 7) | (true, 8) => true,
            // Birth: 3, 6, 7, 8
            (false, 3) | (false, 6) | (false, 7) | (false, 8) => true,
            // Death/stay dead
            _ => false,
        }
    }

    fn name(&self) -> (name: &str)
        ensures
            name@ == "Day & Night"@,
    {
        "Day & Night"
    }
}

/// Day & Night is symmetric under swapping alive and dead: a cell whose
/// state and eight neighbors are all inverted gets the inverted next state.
pub proof fn lemma_daynight_symmetric(alive: bool, neighbors: nat)
    requires
        neighbors <= 8,
    ensures
        daynight_next(!alive, (8 - neighbors) as nat) == !daynight_next(alive, neighbors),
{
}

/// Under Day & Night (B3678/S34678) a live cell survives with 3, 4, 6, 7
/// or 8 live neighbors and a dead cell is born with 3, 6, 7 or 8.
pub proof fn lemma_daynight_answer(grid: &Grid, x: usize, y: usize)
    ensures
        ({
            let n = grid@.neighbor_count(x as int, y as int);
            let alive = grid@.alive_at(x as int, y as int);
            DayAndNight.next_state(grid, x, y) == (n == 3 || n == 6 || n == 7 || n == 8 || (alive
                && n == 4))
        }),
{
}

} // verus!
