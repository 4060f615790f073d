use conway::grid::{evolve_cell, Cell, CellState, Grid, Position};

fn alive(grid: &Grid, x: usize, y: usize) -> bool {
    matches!(grid.state_at(x, y), CellState::Alive)
}

#[test]
fn cell_new_keeps_fields() {
    let cell = Cell::new(CellState::Alive, Position { x: 3, y: 7 });
    assert_eq!(cell.state, CellState::Alive);
    assert_eq!(cell.position, Position { x: 3, y: 7 });
}

#[test]
fn new_dead_grid_is_all_dead() {
    let grid = Grid::new_dead(4);
    assert_eq!(grid.size(), 4);
    for y in 0..4 {
        for x in 0..4 {
            assert_eq!(grid.state_at(x, y), CellState::Dead);
        }
    }
}

#[test]
fn neighbor_wraparound_corner_sees_opposite_edges() {
    let n = 5;
    let mut grid = Grid::new_dead(n);
    grid.set_state(n - 1, n - 1, CellState::Alive);
    assert_eq!(grid.neighbor_count(0, 0), 1);
    grid.set_state(n - 1, 0, CellState::Alive);
    assert_eq!(grid.neighbor_count(0, 0), 2);
    grid.set_state(0, n - 1, CellState::Alive);
    assert_eq!(grid.neighbor_count(0, 0), 3);
}

#[test]
fn neighbor_count_interior() {
    let mut grid = Grid::new_dead(5);
    grid.set_state(1, 1, CellState::Alive);
    grid.set_state(2, 1, CellState::Alive);
    grid.set_state(3, 3, CellState::Alive);
    assert_eq!(grid.neighbor_count(2, 2), 3);
    assert_eq!(grid.neighbor_count(2, 1), 1);
    assert_eq!(grid.neighbor_count(4, 4), 1);
}

#[test]
fn rule_table_matches_conway() {
    assert_eq!(evolve_cell(CellState::Alive, 0), CellState::Dead);
    assert_eq!(evolve_cell(CellState::Alive, 1), CellState::Dead);
    assert_eq!(evolve_cell(CellState::Alive, 2), CellState::Alive);
    assert_eq!(evolve_cell(CellState::Alive, 3), CellState::Alive);
    for overcrowded in 4..=8 {
        assert_eq!(evolve_cell(CellState::Alive, overcrowded), CellState::Dead);
    }
    assert_eq!(evolve_cell(CellState::Dead, 2), CellState::Dead);
    assert_eq!(evolve_cell(CellState::Dead, 3), CellState::Alive);
    assert_eq!(evolve_cell(CellState::Dead, 4), CellState::Dead);
}

#[test]
fn isolated_live_cell_dies() {
    let mut grid = Grid::new_dead(5);
    grid.set_state(2, 2, CellState::Alive);
    let transitions = grid.step();
    assert_eq!(transitions, vec![(Position { x: 2, y: 2 }, CellState::Dead)]);
    assert_eq!(grid.state_at(2, 2), CellState::Dead);
}

#[test]
fn blinker_oscillates_with_period_two() {
    // Horizontal blinker centered on (2, 2) of a 5x5 grid.
    let mut grid = Grid::new_dead(5);
    grid.set_state(1, 2, CellState::Alive);
    grid.set_state(2, 2, CellState::Alive);
    grid.set_state(3, 2, CellState::Alive);

    let transitions = grid.step();
    // The center survives with two live neighbors: no transition for it.
    assert!(transitions.iter().all(|(p, _)| !(p.x == 2 && p.y == 2)));
    // The ends die; the cells above and below the center are born.
    assert_eq!(
        transitions,
        vec![
            (Position { x: 2, y: 1 }, CellState::Alive),
            (Position { x: 1, y: 2 }, CellState::Dead),
            (Position { x: 3, y: 2 }, CellState::Dead),
            (Position { x: 2, y: 3 }, CellState::Alive),
        ]
    );
    assert!(alive(&grid, 2, 1) && alive(&grid, 2, 2) && alive(&grid, 2, 3));
    assert!(!alive(&grid, 1, 2) && !alive(&grid, 3, 2));

    // Second step: back to the original horizontal bar.
    grid.step();
    assert!(alive(&grid, 1, 2) && alive(&grid, 2, 2) && alive(&grid, 3, 2));
    assert!(!alive(&grid, 2, 1) && !alive(&grid, 2, 3));
    for y in 0..5 {
        for x in 0..5 {
            let expect = y == 2 && (1..=3).contains(&x);
            assert_eq!(alive(&grid, x, y), expect, "cell ({x}, {y})");
        }
    }
}

#[test]
fn dead_cell_with_three_neighbors_is_born() {
    let mut grid = Grid::new_dead(6);
    grid.set_state(1, 1, CellState::Alive);
    grid.set_state(2, 1, CellState::Alive);
    grid.set_state(1, 2, CellState::Alive);
    let transitions = grid.step();
    // (2, 2) has exactly three live neighbors and is born; the block is stable.
    assert_eq!(transitions, vec![(Position { x: 2, y: 2 }, CellState::Alive)]);
}

#[test]
fn all_dead_grid_yields_empty_diff() {
    let mut grid = Grid::new_dead(8);
    let transitions = grid.step();
    assert!(transitions.is_empty());
    for y in 0..8 {
        for x in 0..8 {
            assert_eq!(grid.state_at(x, y), CellState::Dead);
        }
    }
}

#[test]
fn one_by_one_torus_counts_itself_on_every_offset() {
    let mut grid = Grid::new_dead(1);
    assert_eq!(grid.neighbor_count(0, 0), 0);
    grid.set_state(0, 0, CellState::Alive);
    assert_eq!(grid.neighbor_count(0, 0), 8);
    // Eight live neighbors: overcrowding, the lone cell dies.
    let transitions = grid.step();
    assert_eq!(transitions, vec![(Position { x: 0, y: 0 }, CellState::Dead)]);
}

#[test]
fn live_transitions_lists_live_cells_in_row_major_order() {
    let mut grid = Grid::new_dead(4);
    grid.set_state(3, 0, CellState::Alive);
    grid.set_state(0, 2, CellState::Alive);
    grid.set_state(2, 2, CellState::Alive);
    let live = grid.live_transitions();
    assert_eq!(
        live,
        vec![
            (Position { x: 3, y: 0 }, CellState::Alive),
            (Position { x: 0, y: 2 }, CellState::Alive),
            (Position { x: 2, y: 2 }, CellState::Alive),
        ]
    );
}

#[test]
fn set_state_changes_only_the_target_cell() {
    let mut grid = Grid::new_dead(3);
    grid.set_state(1, 2, CellState::Alive);
    for y in 0..3 {
        for x in 0..3 {
            assert_eq!(alive(&grid, x, y), x == 1 && y == 2);
        }
    }
    grid.set_state(1, 2, CellState::Dead);
    assert!(!alive(&grid, 1, 2));
}
