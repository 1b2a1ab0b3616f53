use fastrand::Rng;
use sand_sim::brush::{
    cursor_region_cell_coordinates, is_sparse, paint_cell, put_cell, remove_cells, within_circle,
};
use sand_sim::cell::Cell;
use sand_sim::grid::Grid;
use sand_sim::material::{CellType, VELOCITY_ONE};
use sand_sim::palette::palette_color;

fn snapshot(grid: &Grid) -> Vec<Cell> {
    let mut cells = Vec::new();
    for y in 0..grid.height() {
        for x in 0..grid.width() {
            cells.push(grid.get_cell(x, y));
        }
    }
    cells
}

fn in_circle(center: (usize, usize), radius: usize, x: usize, y: usize) -> bool {
    let dx = center.0 as i64 - x as i64;
    let dy = center.1 as i64 - y as i64;
    dx * dx + dy * dy <= (radius * radius) as i64
}

#[test]
fn circle_test() {
    assert!(within_circle((5, 5), 0, 5, 5));
    assert!(!within_circle((5, 5), 0, 5, 6));
    assert!(within_circle((5, 5), 3, 8, 5));
    assert!(within_circle((5, 5), 3, 5, 2));
    assert!(within_circle((5, 5), 3, 7, 7));
    assert!(!within_circle((5, 5), 3, 8, 6));
    assert!(within_circle((5, 5), 5, 2, 1));
    assert!(!within_circle((5, 5), 5, 1, 1));
    assert!(within_circle((0, 0), usize::MAX, 1000, 1000));
    assert!(within_circle((0, 0), usize::MAX, usize::MAX, 0));
    assert!(!within_circle((0, 0), usize::MAX, usize::MAX, 1));
    assert!(!within_circle((0, 0), usize::MAX, usize::MAX, usize::MAX));
    assert!(!within_circle((usize::MAX, 0), 1, 0, usize::MAX));
}

#[test]
fn region_is_the_filled_circle_on_the_grid() {
    let grid = Grid::new(12, 9);
    for (center, radius) in [((5, 4), 3), ((0, 0), 2), ((11, 8), 4), ((6, 6), 0), ((3, 3), 40)] {
        let region = cursor_region_cell_coordinates(&grid, center, radius);
        let mut expected = Vec::new();
        for x in 0..12 {
            for y in 0..9 {
                if in_circle(center, radius, x, y) {
                    expected.push((x, y));
                }
            }
        }
        assert_eq!(region, expected);
    }
}

#[test]
fn region_of_radius_one_is_a_plus() {
    let grid = Grid::new(5, 5);
    assert_eq!(
        cursor_region_cell_coordinates(&grid, (2, 2), 1),
        vec![(1, 2), (2, 1), (2, 2), (2, 3), (3, 2)]
    );
}

#[test]
fn sparse_materials() {
    for ty in [CellType::Sand, CellType::Water, CellType::Fire, CellType::Smoke] {
        assert!(is_sparse(ty));
    }
    for ty in [CellType::Wood, CellType::Steam, CellType::Air] {
        assert!(!is_sparse(ty));
    }
}

#[test]
fn paint_cell_overwrites_air_water_and_smoke_only() {
    let rng = Rng::with_seed(2);
    for (ty, laid) in [
        (CellType::Air, true),
        (CellType::Water, true),
        (CellType::Smoke, true),
        (CellType::Sand, false),
        (CellType::Wood, false),
        (CellType::Fire, false),
        (CellType::Steam, false),
    ] {
        let mut grid = Grid::new(2, 2);
        grid.set_cell(1, 1, Cell::tinted(ty, 0));
        assert_eq!(paint_cell(&mut grid, 1, 1, CellType::Wood, &rng), laid);
        let after = grid.get_cell(1, 1);
        if laid {
            assert_eq!(after.ty, CellType::Wood);
            assert_eq!(after.velocity, VELOCITY_ONE);
            assert!((0..4).any(|i| palette_color(CellType::Wood, i) == after.color));
        } else {
            assert_eq!(after, Cell::tinted(ty, 0));
        }
    }
}

#[test]
fn paint_containment() {
    let rng = Rng::with_seed(2);
    for selected in [CellType::Wood, CellType::Steam, CellType::Sand, CellType::Fire] {
        let mut grid = Grid::new(15, 11);
        let before = snapshot(&grid);
        let (center, radius) = ((13, 2), 4);
        put_cell(&mut grid, selected, center, radius, &rng);
        assert_eq!(grid.width(), 15);
        assert_eq!(grid.height(), 11);
        let after = snapshot(&grid);
        assert_eq!(after.len(), before.len());
        for y in 0..11 {
            for x in 0..15 {
                let cell = grid.get_cell(x, y);
                if !in_circle(center, radius, x, y) {
                    assert_eq!(cell, before[y * 15 + x]);
                } else if cell != before[y * 15 + x] {
                    assert_eq!(cell.ty, selected);
                    assert_eq!(cell.velocity, VELOCITY_ONE);
                    assert!(!cell.moved);
                }
            }
        }
    }
}

#[test]
fn dense_materials_fill_the_circle() {
    let rng = Rng::with_seed(2);
    for selected in [CellType::Wood, CellType::Steam] {
        let mut grid = Grid::new(9, 9);
        grid.set_cell(4, 4, Cell::tinted(CellType::Sand, 0));
        grid.set_cell(4, 5, Cell::tinted(CellType::Fire, 0));
        grid.set_cell(4, 3, Cell::tinted(CellType::Water, 0));
        put_cell(&mut grid, selected, (4, 4), 3, &rng);
        for x in 0..9 {
            for y in 0..9 {
                let ty = grid.get_cell(x, y).ty;
                if (x, y) == (4, 4) {
                    assert_eq!(ty, CellType::Sand);
                } else if (x, y) == (4, 5) {
                    assert_eq!(ty, CellType::Fire);
                } else if in_circle((4, 4), 3, x, y) {
                    assert_eq!(ty, selected);
                } else {
                    assert_eq!(ty, CellType::Air);
                }
            }
        }
    }
}

#[test]
fn sparse_materials_lay_about_one_cell_in_eight() {
    let rng = Rng::with_seed(77);
    let mut laid = 0;
    let mut covered = 0;
    for _ in 0..200 {
        let mut grid = Grid::new(21, 21);
        put_cell(&mut grid, CellType::Sand, (10, 10), 10, &rng);
        for x in 0..21 {
            for y in 0..21 {
                if in_circle((10, 10), 10, x, y) {
                    covered += 1;
                    if grid.get_cell(x, y).ty == CellType::Sand {
                        laid += 1;
                    }
                }
            }
        }
    }
    let share = laid as f64 / covered as f64;
    assert!((share - 0.125).abs() < 0.01, "{} of {}", laid, covered);
}

#[test]
fn erase_turns_the_circle_to_air() {
    let rng = Rng::with_seed(5);
    let mut grid = Grid::new(10, 10);
    for x in 0..10 {
        for y in 0..10 {
            grid.set_cell(x, y, Cell::tinted(CellType::Wood, (x + y) % 4));
        }
    }
    let before = snapshot(&grid);
    remove_cells(&mut grid, (2, 7), 3, &rng);
    for y in 0..10 {
        for x in 0..10 {
            if in_circle((2, 7), 3, x, y) {
                assert_eq!(grid.get_cell(x, y), Cell::tinted(CellType::Air, 0));
            } else {
                assert_eq!(grid.get_cell(x, y), before[y * 10 + x]);
            }
        }
    }
}

#[test]
fn erase_idempotence() {
    let rng = Rng::with_seed(5);
    let mut grid = Grid::new(10, 10);
    for x in 0..10 {
        for y in 0..10 {
            grid.set_cell(x, y, Cell::from(CellType::Sand, &rng));
        }
    }
    remove_cells(&mut grid, (5, 5), 4, &rng);
    let once = snapshot(&grid);
    remove_cells(&mut grid, (5, 5), 4, &rng);
    assert_eq!(snapshot(&grid), once);
}
