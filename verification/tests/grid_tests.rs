use lib::engine::{Cell, Grid};

#[test]
fn test_grid_creation() {
    let grid = Grid::new(10, 5);
    assert_eq!(grid.width(), 10);
    assert_eq!(grid.height(), 5);

    // All cells should be dead
    for y in 0..5 {
        for x in 0..10 {
            assert!(!grid.get(x, y).is_alive());
        }
    }
}

#[test]
fn test_grid_set_get() {
    let mut grid = Grid::new(5, 5);

    // Set a cell alive
    grid.set(2, 3, Cell::alive());
    assert!(grid.get(2, 3).is_alive());

    // Other cells should still be dead
    assert!(!grid.get(0, 0).is_alive());
    assert!(!grid.get(4, 4).is_alive());
}

#[test]
fn test_grid_out_of_bounds() {
    let grid = Grid::new(5, 5);

    // Out of bounds should return dead cell
    assert!(!grid.get(10, 10).is_alive());
    assert!(!grid.get(5, 0).is_alive());
    assert!(!grid.get(0, 5).is_alive());
}

#[test]
fn test_count_neighbors() {
    let mut grid = Grid::new(5, 5);

    // Create a 3x3 block of alive cells
    for y in 1..=3 {
        for x in 1..=3 {
            grid.set(x, y, Cell::alive());
        }
    }

    // Center cell should have 8 neighbors
    assert_eq!(grid.count_neighbors(2, 2), 8);

    // Corner of block should have 3 neighbors
    assert_eq!(grid.count_neighbors(1, 1), 3);

    // Cell outside block should have appropriate neighbors
    assert_eq!(grid.count_neighbors(0, 0), 1);
    assert_eq!(grid.count_neighbors(0, 2), 3);
}

#[test]
fn test_buffer_swap() {
    let mut grid = Grid::new(3, 3);

    // Set current buffer
    grid.set(1, 1, Cell::alive());
    assert!(grid.get(1, 1).is_alive());

    // Set next buffer differently
    grid.set_next(0, 0, Cell::alive());
    grid.set_next(1, 1, Cell::dead());

    // Swap buffers
    grid.swap_buffers();

    // Next buffer is now current
    assert!(grid.get(0, 0).is_alive());
    assert!(!grid.get(1, 1).is_alive());
}

#[test]
fn test_cells_iterator() {
    let mut grid = Grid::new(3, 2);
    grid.set(0, 0, Cell::alive());
    grid.set(2, 1, Cell::alive());

    let alive_cells: Vec<_> = grid
        .cells()
        .into_iter()
        .filter(|(_, _, cell)| cell.is_alive())
        .collect();

    assert_eq!(alive_cells.len(), 2);
    assert_eq!(alive_cells[0].0, 0); // x
    assert_eq!(alive_cells[0].1, 0); // y
    assert_eq!(alive_cells[1].0, 2);
    assert_eq!(alive_cells[1].1, 1);
}

#[test]
fn set_out_of_bounds_is_ignored() {
    let mut grid = Grid::new(2, 2);
    grid.set(2, 0, Cell::alive());
    grid.set(0, 2, Cell::alive());
    grid.set(usize::MAX, usize::MAX, Cell::alive());
    for (_, _, cell) in grid.cells() {
        assert!(!cell.is_alive());
    }
}

#[test]
fn count_neighbors_at_extreme_coordinates() {
    let mut grid = Grid::new(3, 3);
    for y in 0..3 {
        for x in 0..3 {
            grid.set(x, y, Cell::alive());
        }
    }
    // Coordinates far outside the grid see only dead neighbors.
    assert_eq!(grid.count_neighbors(usize::MAX, usize::MAX), 0);
    // Just outside the right edge sees the three cells of the last column.
    assert_eq!(grid.count_neighbors(3, 1), 3);
    // The corner of a full 3x3 grid has three neighbors.
    assert_eq!(grid.count_neighbors(2, 2), 3);
}

#[test]
fn swap_twice_restores_buffers() {
    let mut grid = Grid::new(2, 1);
    grid.set(0, 0, Cell::alive());
    grid.set_next(1, 0, Cell::with_decay(true, 9));
    grid.swap_buffers();
    grid.swap_buffers();
    assert_eq!(grid.get(0, 0), Cell::alive());
    assert_eq!(grid.get(1, 0), Cell::dead());
}

#[test]
fn from_cells_keeps_cells_in_row_order() {
    let cells = vec![Cell::dead(), Cell::alive(), Cell::with_decay(true, 5), Cell::dead()];
    let grid = Grid::from_cells(2, 2, cells);
    assert_eq!(grid.cells().len(), 4);
    assert!(grid.get(1, 0).is_alive());
    assert_eq!(grid.get(0, 1).decay(), 5);
    assert!(!grid.get(1, 1).is_alive());
}
