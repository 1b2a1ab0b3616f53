use fastrand::Rng;
use sand_sim::cell::Cell;
use sand_sim::grid::Grid;
use sand_sim::material::{CellType, ACCELERATION, VELOCITY_ONE};
use sand_sim::schedule::{update_cell, update_cells, update_pass, update_row};

fn put(grid: &mut Grid, x: usize, y: usize, ty: CellType) {
    grid.set_cell(x, y, Cell::tinted(ty, 0));
}

fn snapshot(grid: &Grid) -> Vec<Cell> {
    let mut cells = Vec::new();
    for y in 0..grid.height() {
        for x in 0..grid.width() {
            cells.push(grid.get_cell(x, y));
        }
    }
    cells
}

fn find(grid: &Grid, ty: CellType) -> Vec<(usize, usize)> {
    let mut found = Vec::new();
    for y in 0..grid.height() {
        for x in 0..grid.width() {
            if grid.get_cell(x, y).ty == ty {
                found.push((x, y));
            }
        }
    }
    found
}

#[test]
fn settling_progression() {
    let rng = Rng::with_seed(3);
    let mut grid = Grid::new(1, 3);
    put(&mut grid, 0, 0, CellType::Sand);
    update_cells(&mut grid, &rng);
    // at unit speed the scan reaches two steps, and the farthest match wins
    assert_eq!(find(&grid, CellType::Sand), vec![(0, 2)]);
    let sand = grid.get_cell(0, 2);
    assert_eq!(sand.velocity, VELOCITY_ONE + ACCELERATION);
    assert_eq!(sand.velocity, 786_432);
    assert!(!sand.moved);
    let mut speed = sand.velocity;
    for _ in 0..30 {
        update_cells(&mut grid, &rng);
        assert_eq!(find(&grid, CellType::Sand), vec![(0, 2)]);
        speed /= 2;
        assert_eq!(grid.get_cell(0, 2).velocity, speed);
    }
    assert_eq!(grid.get_cell(0, 2).velocity, 0);
}

#[test]
fn slow_sand_moves_one_row_a_tick() {
    let rng = Rng::with_seed(3);
    let mut grid = Grid::new(1, 4);
    let mut sand = Cell::tinted(CellType::Sand, 0);
    sand.velocity = VELOCITY_ONE / 2;
    grid.set_cell(0, 0, sand);
    update_cells(&mut grid, &rng);
    assert_eq!(find(&grid, CellType::Sand), vec![(0, 1)]);
    assert_eq!(grid.get_cell(0, 1).velocity, VELOCITY_ONE / 2 + ACCELERATION);
    update_cells(&mut grid, &rng);
    assert_eq!(find(&grid, CellType::Sand), vec![(0, 2)]);
    assert_eq!(grid.get_cell(0, 2).velocity, VELOCITY_ONE / 2 + 2 * ACCELERATION);
    update_cells(&mut grid, &rng);
    assert_eq!(find(&grid, CellType::Sand), vec![(0, 3)]);
    update_cells(&mut grid, &rng);
    assert_eq!(find(&grid, CellType::Sand), vec![(0, 3)]);
    assert_eq!(grid.get_cell(0, 3).velocity, (VELOCITY_ONE / 2 + 3 * ACCELERATION) / 2);
}

#[test]
fn tick_extinguishes_fire_beside_water() {
    for seed in 0..100 {
        let rng = Rng::with_seed(seed);
        let mut grid = Grid::new(3, 3);
        put(&mut grid, 1, 1, CellType::Fire);
        put(&mut grid, 0, 0, CellType::Water);
        update_cells(&mut grid, &rng);
        assert_eq!(grid.get_cell(1, 1).ty, CellType::Steam);
        assert_eq!(grid.get_cell(1, 1).lifetime, 50);
    }
}

#[test]
fn tick_lets_enclosed_smoke_decay() {
    let rng = Rng::with_seed(8);
    let lifetime = 7;
    let mut grid = Grid::new(3, 3);
    for x in 0..3 {
        for y in 0..3 {
            put(&mut grid, x, y, CellType::Wood);
        }
    }
    let mut smoke = Cell::tinted(CellType::Smoke, 0);
    smoke.lifetime = lifetime;
    grid.set_cell(1, 1, smoke);
    for tick in 1..=lifetime {
        update_cells(&mut grid, &rng);
        assert_eq!(grid.get_cell(1, 1).ty, CellType::Smoke);
        assert_eq!(grid.get_cell(1, 1).lifetime, lifetime - tick);
    }
    update_cells(&mut grid, &rng);
    assert_eq!(grid.get_cell(1, 1), Cell::tinted(CellType::Air, 0));
}

#[test]
fn pass_zero_takes_odd_columns_and_pass_one_even_ones() {
    let rng = Rng::with_seed(1);
    let mut grid = Grid::new(4, 2);
    for x in 0..4 {
        put(&mut grid, x, 0, CellType::Sand);
    }
    update_pass(0, &mut grid, &rng);
    assert_eq!(find(&grid, CellType::Sand), vec![(0, 0), (2, 0), (1, 1), (3, 1)]);
    update_pass(1, &mut grid, &rng);
    assert_eq!(find(&grid, CellType::Sand), vec![(0, 1), (1, 1), (2, 1), (3, 1)]);
}

#[test]
fn a_row_is_walked_in_the_direction_of_its_pass() {
    let rng = Rng::with_seed(1);
    // water on a floor: each cell can only go sideways, and the order of the
    // visits decides who finds room
    let mut grid = Grid::new(5, 1);
    put(&mut grid, 1, 0, CellType::Water);
    put(&mut grid, 3, 0, CellType::Water);
    put(&mut grid, 0, 0, CellType::Wood);
    put(&mut grid, 4, 0, CellType::Wood);
    // pass 0 runs right to left over the odd columns: the cell at 3 goes first
    update_row(0, &mut grid, 0, &rng);
    assert_eq!(find(&grid, CellType::Water), vec![(2, 0), (3, 0)]);
    assert!(grid.get_cell(2, 0).moved);
    assert!(grid.get_cell(3, 0).moved);
}

#[test]
fn a_moved_cell_is_not_moved_again() {
    let rng = Rng::with_seed(1);
    let mut grid = Grid::new(3, 4);
    let mut sand = Cell::tinted(CellType::Sand, 0);
    sand.moved = true;
    grid.set_cell(1, 0, sand);
    let before = snapshot(&grid);
    update_cell(0, &mut grid, 1, 0, &rng);
    assert_eq!(snapshot(&grid), before);
    sand.moved = false;
    grid.set_cell(1, 0, sand);
    update_cell(1, &mut grid, 1, 0, &rng);
    assert_eq!(grid.get_cell(1, 0).ty, CellType::Sand);
    update_cell(0, &mut grid, 1, 0, &rng);
    assert_eq!(find(&grid, CellType::Sand), vec![(1, 2)]);
    assert!(grid.get_cell(1, 2).moved);
    let before = snapshot(&grid);
    update_cell(0, &mut grid, 1, 2, &rng);
    assert_eq!(snapshot(&grid), before);
}

#[test]
fn wood_and_air_do_nothing() {
    let rng = Rng::with_seed(1);
    let mut grid = Grid::new(3, 3);
    put(&mut grid, 1, 0, CellType::Wood);
    put(&mut grid, 0, 1, CellType::Wood);
    let before = snapshot(&grid);
    for _ in 0..5 {
        update_cells(&mut grid, &rng);
    }
    assert_eq!(snapshot(&grid), before);
}

#[test]
fn ticks_keep_the_grid_whole_the_flags_clear_and_the_speeds_bounded() {
    let rng = Rng::with_seed(0xabc);
    let kinds = [
        CellType::Air,
        CellType::Sand,
        CellType::Water,
        CellType::Wood,
        CellType::Fire,
        CellType::Smoke,
        CellType::Steam,
    ];
    let (width, height) = (17, 13);
    let mut grid = Grid::new(width, height);
    for x in 0..width {
        for y in 0..height {
            let ty = kinds[rng.usize(0..kinds.len())];
            grid.set_cell(x, y, Cell::from(ty, &rng));
        }
    }
    for _ in 0..300 {
        update_cells(&mut grid, &rng);
        assert_eq!(grid.width(), width);
        assert_eq!(grid.height(), height);
        let cells = snapshot(&grid);
        assert_eq!(cells.len(), width * height);
        for cell in cells {
            assert!(!cell.moved);
            assert!(cell.is_valid());
            assert!(kinds.contains(&cell.ty));
        }
    }
}

#[test]
fn sand_is_never_lost_nor_made() {
    let rng = Rng::with_seed(0xdef);
    let (width, height) = (9, 9);
    let mut grid = Grid::new(width, height);
    for x in 0..width {
        for y in 0..4 {
            let ty = if (x + y) % 2 == 0 { CellType::Sand } else { CellType::Water };
            put(&mut grid, x, y, ty);
        }
    }
    let sand = find(&grid, CellType::Sand).len();
    let water = find(&grid, CellType::Water).len();
    for _ in 0..100 {
        update_cells(&mut grid, &rng);
        assert_eq!(find(&grid, CellType::Sand).len(), sand);
        assert_eq!(find(&grid, CellType::Water).len(), water);
    }
    // the sand has sunk below the water
    for (_, y) in find(&grid, CellType::Sand) {
        assert!(y >= height - 3);
    }
}

#[test]
fn same_seed_same_outcome() {
    let run = |seed: u64| {
        let rng = Rng::with_seed(seed);
        let mut grid = Grid::new(8, 8);
        for x in 0..8 {
            put(&mut grid, x, 0, CellType::Water);
            put(&mut grid, x, 1, CellType::Sand);
            put(&mut grid, x, 5, CellType::Wood);
        }
        put(&mut grid, 3, 4, CellType::Fire);
        for _ in 0..50 {
            update_cells(&mut grid, &rng);
        }
        snapshot(&grid)
    };
    assert_eq!(run(99), run(99));
}
