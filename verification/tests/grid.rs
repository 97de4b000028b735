use chaos_sim::cellular_automata::{Cell, Grid};

fn dead_cells(n: usize) -> Vec<Cell> {
    let mut cells = Vec::new();
    for _ in 0..n {
        cells.push(Cell {
            alive: false,
            dead: true,
        });
    }
    cells
}

fn set_alive(grid: &mut Grid, x: usize, y: usize) {
    let idx = y * grid.width + x;
    grid.cells[idx].alive = true;
    grid.cells[idx].dead = false;
}

fn alive_coords(grid: &Grid) -> Vec<(usize, usize)> {
    let mut coords = Vec::new();
    for y in 0..grid.height {
        for x in 0..grid.width {
            if grid.cells[y * grid.width + x].alive {
                coords.push((x, y));
            }
        }
    }
    coords
}

#[test]
fn new_fills_grid_with_live_cells() {
    let grid = Grid::new(3, 4, 12);
    assert_eq!(grid.height, 3);
    assert_eq!(grid.width, 4);
    assert_eq!(grid.cells.len(), 12);
    for cell in &grid.cells {
        assert!(cell.alive);
        assert!(!cell.dead);
    }
}

#[test]
fn new_with_zero_cells_is_empty() {
    let grid = Grid::new(5, 5, 0);
    assert_eq!(grid.cells.len(), 0);
}

#[test]
fn blinker_oscillates() {
    // A horizontal line of three live cells flips to a vertical line:
    // only synchronous updates from the pre-step snapshot produce this.
    let mut grid = Grid {
        height: 5,
        width: 5,
        cells: dead_cells(25),
    };
    set_alive(&mut grid, 1, 2);
    set_alive(&mut grid, 2, 2);
    set_alive(&mut grid, 3, 2);
    grid.update_cells();
    assert_eq!(alive_coords(&grid), vec![(2, 1), (2, 2), (2, 3)]);
    grid.update_cells();
    assert_eq!(alive_coords(&grid), vec![(1, 2), (2, 2), (3, 2)]);
}

#[test]
fn all_alive_2x2_survives() {
    let mut grid = Grid::new(2, 2, 4);
    grid.update_cells();
    for cell in &grid.cells {
        assert!(cell.alive);
        assert!(!cell.dead);
    }
}

#[test]
fn all_alive_3x3_keeps_only_corners() {
    let mut grid = Grid::new(3, 3, 9);
    grid.update_cells();
    assert_eq!(alive_coords(&grid), vec![(0, 0), (2, 0), (0, 2), (2, 2)]);
    for (i, cell) in grid.cells.iter().enumerate() {
        assert_eq!(cell.dead, !cell.alive, "cell {i}");
    }
}

#[test]
fn lonely_cell_dies() {
    let mut grid = Grid {
        height: 3,
        width: 3,
        cells: dead_cells(9),
    };
    set_alive(&mut grid, 1, 1);
    grid.update_cells();
    assert_eq!(alive_coords(&grid), vec![]);
}

#[test]
fn dead_cell_with_three_neighbors_is_born() {
    let mut grid = Grid {
        height: 3,
        width: 3,
        cells: dead_cells(9),
    };
    set_alive(&mut grid, 0, 0);
    set_alive(&mut grid, 2, 0);
    set_alive(&mut grid, 1, 2);
    grid.update_cells();
    assert_eq!(alive_coords(&grid), vec![(1, 1)]);
}

#[test]
fn cells_beyond_grid_area_are_kept() {
    let mut grid = Grid::new(2, 2, 6);
    grid.cells[5].alive = false;
    grid.cells[5].dead = true;
    grid.update_cells();
    assert!(grid.cells[4].alive);
    assert!(!grid.cells[5].alive);
    assert_eq!(grid.cells.len(), 6);
}

#[test]
fn simulate_matches_repeated_updates() {
    let mut by_steps = Grid {
        height: 4,
        width: 4,
        cells: dead_cells(16),
    };
    let mut one_by_one = Grid {
        height: 4,
        width: 4,
        cells: dead_cells(16),
    };
    for (x, y) in [(0, 1), (1, 1), (2, 1), (2, 0), (1, 3)] {
        set_alive(&mut by_steps, x, y);
        set_alive(&mut one_by_one, x, y);
    }
    by_steps.simulate(3);
    for _ in 0..3 {
        one_by_one.update_cells();
    }
    assert_eq!(alive_coords(&by_steps), alive_coords(&one_by_one));
}

#[test]
fn simulate_zero_steps_changes_nothing() {
    let mut grid = Grid {
        height: 3,
        width: 3,
        cells: dead_cells(9),
    };
    set_alive(&mut grid, 1, 1);
    grid.simulate(0);
    assert_eq!(alive_coords(&grid), vec![(1, 1)]);
}

#[test]
fn grid_string_pictures_rows() {
    let mut grid = Grid {
        height: 2,
        width: 2,
        cells: dead_cells(4),
    };
    set_alive(&mut grid, 0, 0);
    assert_eq!(grid.grid_string(), "X . \n. . \n\n");
}

#[test]
fn get_neighbors_corner_edge_interior() {
    let grid = Grid::new(3, 3, 9);
    assert_eq!(grid.get_neighbors(0, 0).len(), 3);
    assert_eq!(grid.get_neighbors(1, 0).len(), 5);
    assert_eq!(grid.get_neighbors(1, 1).len(), 8);
    assert_eq!(grid.get_neighbors(1, 1), vec![0, 3, 6, 1, 7, 2, 5, 8]);
}

#[test]
fn count_alive_neighbors_counts_only_live_cells() {
    let mut grid = Grid {
        height: 3,
        width: 3,
        cells: dead_cells(9),
    };
    set_alive(&mut grid, 0, 0);
    set_alive(&mut grid, 2, 2);
    set_alive(&mut grid, 1, 1);
    assert_eq!(grid.count_alive_neighbors(1, 1), 2);
    assert_eq!(grid.count_alive_neighbors(0, 0), 1);
    assert_eq!(grid.count_alive_neighbors(2, 0), 1);
}

#[test]
fn get_index_is_row_major() {
    let grid = Grid::new(4, 3, 12);
    assert_eq!(grid.get_index(0, 0), 0);
    assert_eq!(grid.get_index(2, 1), 5);
    assert_eq!(grid.get_index(2, 3), 11);
}
