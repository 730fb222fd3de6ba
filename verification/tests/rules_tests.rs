use lib::engine::{Cell, Grid};
use lib::rules::{Conway, DayAndNight, HighLife, Rule, Seeds};

#[test]
fn test_conway_stable_block() {
    // 2x2 block is a still life (should stay stable)
    let mut grid = Grid::new(5, 5);

    // Create 2x2 block at (1,1)
    grid.set(1, 1, Cell::alive());
    grid.set(2, 1, Cell::alive());
    grid.set(1, 2, Cell::alive());
    grid.set(2, 2, Cell::alive());

    let rule = Conway;

    // Apply rule to all cells and store in next buffer
    for y in 0..5 {
        for x in 0..5 {
            let alive = rule.apply(&grid, x, y);
            grid.set_next(x, y, if alive { Cell::alive() } else { Cell::dead() });
        }
    }

    grid.swap_buffers();

    // Block should remain stable
    assert!(grid.get(1, 1).is_alive());
    assert!(grid.get(2, 1).is_alive());
    assert!(grid.get(1, 2).is_alive());
    assert!(grid.get(2, 2).is_alive());

    // Everything else should be dead
    assert!(!grid.get(0, 0).is_alive());
    assert!(!grid.get(3, 3).is_alive());
    assert!(!grid.get(0, 1).is_alive());
}

#[test]
fn test_conway_blinker() {
    // Blinker oscillates with period 2
    let mut grid = Grid::new(5, 5);

    // Create vertical blinker at x=2
    grid.set(2, 1, Cell::alive());
    grid.set(2, 2, Cell::alive());
    grid.set(2, 3, Cell::alive());

    let rule = Conway;

    // Apply one generation
    for y in 0..5 {
        for x in 0..5 {
            let alive = rule.apply(&grid, x, y);
            grid.set_next(x, y, if alive { Cell::alive() } else { Cell::dead() });
        }
    }

    grid.swap_buffers();

    // Should now be horizontal
    assert!(grid.get(1, 2).is_alive());
    assert!(grid.get(2, 2).is_alive());
    assert!(grid.get(3, 2).is_alive());

    // Vertical positions should be dead
    assert!(!grid.get(2, 1).is_alive());
    assert!(!grid.get(2, 3).is_alive());
}

#[test]
fn test_conway_death() {
    // Single cell should die (underpopulation)
    let mut grid = Grid::new(3, 3);
    grid.set(1, 1, Cell::alive());

    let rule = Conway;
    let next_state = rule.apply(&grid, 1, 1);

    assert!(!next_state);
}

#[test]
fn test_conway_birth() {
    // Dead cell with 3 neighbors should be born
    let mut grid = Grid::new(3, 3);
    grid.set(0, 0, Cell::alive());
    grid.set(1, 0, Cell::alive());
    grid.set(0, 1, Cell::alive());

    let rule = Conway;
    // Center cell (1,1) should be born
    let next_state = rule.apply(&grid, 1, 1);

    assert!(next_state);
}

#[test]
fn test_daynight_survival() {
    let mut grid = Grid::new(5, 5);

    // Create a cell with 3 neighbors (should survive)
    grid.set(2, 2, Cell::alive());
    grid.set(1, 1, Cell::alive());
    grid.set(2, 1, Cell::alive());
    grid.set(3, 1, Cell::alive());

    let rule = DayAndNight;

    // Center cell has 3 neighbors - should survive
    assert!(rule.apply(&grid, 2, 2));
}

#[test]
fn test_daynight_birth() {
    let mut grid = Grid::new(5, 5);

    // Create 6 neighbors around a dead cell
    grid.set(1, 1, Cell::alive());
    grid.set(2, 1, Cell::alive());
    grid.set(3, 1, Cell::alive());
    grid.set(1, 2, Cell::alive());
    grid.set(3, 2, Cell::alive());
    grid.set(2, 3, Cell::alive());

    let rule = DayAndNight;

    // Center cell has 6 neighbors - should be born
    assert!(rule.apply(&grid, 2, 2));
}

#[test]
fn test_daynight_death() {
    let mut grid = Grid::new(5, 5);

    // Single cell with no neighbors
    grid.set(2, 2, Cell::alive());

    let rule = DayAndNight;

    // Should die (0 neighbors)
    assert!(!rule.apply(&grid, 2, 2));
}

#[test]
fn test_daynight_four_neighbors() {
    let mut grid = Grid::new(5, 5);

    // Create alive cell with 4 neighbors (unique to Day&Night survival)
    grid.set(2, 2, Cell::alive());
    grid.set(1, 1, Cell::alive());
    grid.set(2, 1, Cell::alive());
    grid.set(3, 1, Cell::alive());
    grid.set(1, 2, Cell::alive());

    let rule = DayAndNight;

    // Should survive (4 neighbors - doesn't survive in Conway)
    assert!(rule.apply(&grid, 2, 2));
}

#[test]
fn test_highlife_conway_compatibility() {
    // Should behave like Conway for standard patterns
    let mut grid = Grid::new(5, 5);

    // 2x2 block should be stable
    grid.set(1, 1, Cell::alive());
    grid.set(2, 1, Cell::alive());
    grid.set(1, 2, Cell::alive());
    grid.set(2, 2, Cell::alive());

    let rule = HighLife;

    // Block should remain stable
    assert!(rule.apply(&grid, 1, 1));
    assert!(rule.apply(&grid, 2, 1));
    assert!(rule.apply(&grid, 1, 2));
    assert!(rule.apply(&grid, 2, 2));
}

#[test]
fn test_highlife_birth_on_six() {
    // Test the B6 rule unique to HighLife
    let mut grid = Grid::new(5, 5);

    // Create a pattern with 6 neighbors around center
    grid.set(1, 1, Cell::alive());
    grid.set(2, 1, Cell::alive());
    grid.set(3, 1, Cell::alive());
    grid.set(1, 2, Cell::alive());
    grid.set(3, 2, Cell::alive());
    grid.set(2, 3, Cell::alive());

    let rule = HighLife;

    // Center cell should be born (6 neighbors)
    assert!(rule.apply(&grid, 2, 2));
}

#[test]
fn test_seeds_all_cells_die() {
    let mut grid = Grid::new(5, 5);

    // Create any alive cell
    grid.set(2, 2, Cell::alive());

    let rule = Seeds;

    // All alive cells should die
    assert!(!rule.apply(&grid, 2, 2));
}

#[test]
fn test_seeds_birth_on_two() {
    let mut grid = Grid::new(5, 5);

    // Create exactly 2 neighbors
    grid.set(1, 1, Cell::alive());
    grid.set(2, 1, Cell::alive());

    let rule = Seeds;

    // Dead cell at (1,2) has exactly 2 neighbors - should be born
    assert!(rule.apply(&grid, 1, 2));

    // Dead cell at (2,2) has exactly 2 neighbors - should be born
    assert!(rule.apply(&grid, 2, 2));
}

#[test]
fn test_seeds_no_stable_patterns() {
    let mut grid = Grid::new(5, 5);

    // Even a stable block in Conway dies in Seeds
    grid.set(1, 1, Cell::alive());
    grid.set(2, 1, Cell::alive());
    grid.set(1, 2, Cell::alive());
    grid.set(2, 2, Cell::alive());

    let rule = Seeds;

    // All cells in block should die
    assert!(!rule.apply(&grid, 1, 1));
    assert!(!rule.apply(&grid, 2, 1));
    assert!(!rule.apply(&grid, 1, 2));
    assert!(!rule.apply(&grid, 2, 2));
}

#[test]
fn rule_names() {
    assert_eq!(Conway.name(), "Conway's Game of Life");
    assert_eq!(HighLife.name(), "HighLife");
    assert_eq!(Seeds.name(), "Seeds");
    assert_eq!(DayAndNight.name(), "Day & Night");
}

#[test]
fn daynight_symmetry_on_interior_cell() {
    // A live cell with three live neighbors survives; in the inverted
    // neighborhood (dead cell, five live neighbors) it stays dead.
    let mut grid = Grid::new(3, 3);
    grid.set(1, 1, Cell::alive());
    grid.set(0, 0, Cell::alive());
    grid.set(1, 0, Cell::alive());
    grid.set(2, 0, Cell::alive());
    assert!(DayAndNight.apply(&grid, 1, 1));

    let mut inverted = Grid::new(3, 3);
    for y in 0..3 {
        for x in 0..3 {
            if !grid.get(x, y).is_alive() {
                inverted.set(x, y, Cell::alive());
            }
        }
    }
    assert!(!DayAndNight.apply(&inverted, 1, 1));
}

#[test]
fn highlife_differs_from_conway_only_on_six() {
    let mut grid = Grid::new(3, 3);
    for (x, y) in [(0, 0), (1, 0), (2, 0), (0, 1), (2, 1), (1, 2)] {
        grid.set(x, y, Cell::alive());
    }
    assert!(HighLife.apply(&grid, 1, 1));
    assert!(!Conway.apply(&grid, 1, 1));
}
