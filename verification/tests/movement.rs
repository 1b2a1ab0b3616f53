use fastrand::Rng;
use sand_sim::cell::Cell;
use sand_sim::grid::Grid;
use sand_sim::material::{
    CellType, ACCELERATION, MAX_VELOCITY, SMOKE_ACCELERATION, SMOKE_MAX_VELOCITY, VELOCITY_ONE,
};
use sand_sim::movement::{
    accelerate, fall_destination, fall_to, generic_fall, generic_fall_with, generic_fluid,
    generic_fluid_with, join_sides, spread_destination, whole_steps, Destination,
};
use sand_sim::search::furthest_by_vector;

const GASES_AND_AIR: [CellType; 3] = [CellType::Air, CellType::Steam, CellType::Smoke];
const AIR: [CellType; 1] = [CellType::Air];

fn put(grid: &mut Grid, x: usize, y: usize, ty: CellType) {
    grid.set_cell(x, y, Cell::tinted(ty, 0));
}

fn put_with_speed(grid: &mut Grid, x: usize, y: usize, ty: CellType, velocity: u32) {
    let mut cell = Cell::tinted(ty, 0);
    cell.velocity = velocity;
    grid.set_cell(x, y, cell);
}

#[test]
fn scan_returns_the_farthest_match() {
    let grid = Grid::new(1, 6);
    assert_eq!(furthest_by_vector(&grid, (0, 0), 0, &AIR, (0, 1)), Some((0, 1)));
    assert_eq!(furthest_by_vector(&grid, (0, 0), 1, &AIR, (0, 1)), Some((0, 2)));
    assert_eq!(furthest_by_vector(&grid, (0, 0), 3, &AIR, (0, 1)), Some((0, 4)));
    assert_eq!(furthest_by_vector(&grid, (0, 0), 100, &AIR, (0, 1)), Some((0, 5)));
    assert_eq!(furthest_by_vector(&grid, (0, 0), usize::MAX, &AIR, (0, 1)), Some((0, 5)));
}

#[test]
fn scan_goes_on_past_a_blocking_cell() {
    let mut grid = Grid::new(1, 6);
    put(&mut grid, 0, 1, CellType::Wood);
    put(&mut grid, 0, 2, CellType::Wood);
    assert_eq!(furthest_by_vector(&grid, (0, 0), 2, &AIR, (0, 1)), Some((0, 3)));
    assert_eq!(furthest_by_vector(&grid, (0, 0), 1, &AIR, (0, 1)), None);
    put(&mut grid, 0, 4, CellType::Wood);
    assert_eq!(furthest_by_vector(&grid, (0, 0), 3, &AIR, (0, 1)), Some((0, 3)));
}

#[test]
fn scan_finds_nothing_off_the_grid() {
    let grid = Grid::new(3, 3);
    assert_eq!(furthest_by_vector(&grid, (0, 0), 5, &AIR, (-1, 0)), None);
    assert_eq!(furthest_by_vector(&grid, (0, 0), 5, &AIR, (0, -1)), None);
    assert_eq!(furthest_by_vector(&grid, (2, 2), 5, &AIR, (1, 1)), None);
    assert_eq!(furthest_by_vector(&grid, (0, 2), 5, &AIR, (-1, -1)), None);
}

#[test]
fn scan_follows_each_direction() {
    let grid = Grid::new(5, 5);
    assert_eq!(furthest_by_vector(&grid, (2, 2), 0, &AIR, (-1, 0)), Some((1, 2)));
    assert_eq!(furthest_by_vector(&grid, (2, 2), 0, &AIR, (1, 0)), Some((3, 2)));
    assert_eq!(furthest_by_vector(&grid, (2, 2), 0, &AIR, (0, -1)), Some((2, 1)));
    assert_eq!(furthest_by_vector(&grid, (2, 2), 1, &AIR, (-1, -1)), Some((0, 0)));
    assert_eq!(furthest_by_vector(&grid, (2, 2), 1, &AIR, (1, -1)), Some((4, 0)));
    assert_eq!(furthest_by_vector(&grid, (2, 2), 1, &AIR, (-1, 1)), Some((0, 4)));
    assert_eq!(furthest_by_vector(&grid, (2, 2), 7, &AIR, (1, 1)), Some((4, 4)));
}

#[test]
fn scan_accepts_only_the_given_materials() {
    let mut grid = Grid::new(1, 4);
    put(&mut grid, 0, 1, CellType::Water);
    put(&mut grid, 0, 2, CellType::Smoke);
    put(&mut grid, 0, 3, CellType::Sand);
    assert_eq!(furthest_by_vector(&grid, (0, 0), 5, &AIR, (0, 1)), None);
    assert_eq!(furthest_by_vector(&grid, (0, 0), 5, &GASES_AND_AIR, (0, 1)), Some((0, 2)));
    assert_eq!(furthest_by_vector(&grid, (0, 0), 5, &[CellType::Water], (0, 1)), Some((0, 1)));
    assert_eq!(furthest_by_vector(&grid, (0, 0), 5, &[], (0, 1)), None);
}

#[test]
fn whole_steps_round_down() {
    assert_eq!(whole_steps(0), 0);
    assert_eq!(whole_steps(VELOCITY_ONE - 1), 0);
    assert_eq!(whole_steps(VELOCITY_ONE), 1);
    assert_eq!(whole_steps(VELOCITY_ONE + ACCELERATION), 1);
    assert_eq!(whole_steps(2 * VELOCITY_ONE), 2);
    assert_eq!(whole_steps(MAX_VELOCITY), 10);
}

#[test]
fn acceleration_is_clamped() {
    assert_eq!(accelerate(VELOCITY_ONE, ACCELERATION, MAX_VELOCITY), 786_432);
    assert_eq!(accelerate(MAX_VELOCITY - 1, ACCELERATION, MAX_VELOCITY), MAX_VELOCITY);
    assert_eq!(accelerate(MAX_VELOCITY, ACCELERATION, MAX_VELOCITY), MAX_VELOCITY);
    assert_eq!(
        accelerate(VELOCITY_ONE, SMOKE_ACCELERATION, SMOKE_MAX_VELOCITY),
        VELOCITY_ONE + VELOCITY_ONE / 10
    );
    assert_eq!(accelerate(u32::MAX, u32::MAX, u32::MAX), u32::MAX);
    assert_eq!(accelerate(u32::MAX, 1, 5), 5);
}

#[test]
fn destinations_resolve_by_the_coin() {
    assert_eq!(Destination::Nowhere.resolve(true), None);
    assert_eq!(Destination::One((1, 2)).resolve(false), Some((1, 2)));
    assert_eq!(Destination::Either((1, 2), (3, 4)).resolve(true), Some((1, 2)));
    assert_eq!(Destination::Either((1, 2), (3, 4)).resolve(false), Some((3, 4)));
    assert_eq!(join_sides(None, None), Destination::Nowhere);
    assert_eq!(join_sides(Some((0, 1)), None), Destination::One((0, 1)));
    assert_eq!(join_sides(None, Some((2, 1))), Destination::One((2, 1)));
    assert_eq!(join_sides(Some((0, 1)), Some((2, 1))), Destination::Either((0, 1), (2, 1)));
}

#[test]
fn toss_takes_both_sides_of_a_tie() {
    let rng = Rng::with_seed(11);
    let tie = Destination::Either((0, 1), (2, 1));
    let mut first = 0;
    let mut second = 0;
    for _ in 0..1000 {
        match tie.toss(&rng) {
            Some((0, 1)) => first += 1,
            Some((2, 1)) => second += 1,
            other => panic!("not a side of the tie: {:?}", other),
        }
    }
    assert!(first > 400 && second > 400);
    assert_eq!(Destination::Nowhere.toss(&rng), None);
    assert_eq!(Destination::One((5, 5)).toss(&rng), Some((5, 5)));
}

#[test]
fn fall_prefers_straight_down() {
    let mut grid = Grid::new(3, 3);
    put(&mut grid, 1, 0, CellType::Sand);
    assert_eq!(fall_destination(&grid, (1, 0), &AIR, false), Destination::One((1, 2)));
    let moved = generic_fall_with(&mut grid, (1, 0), &AIR, MAX_VELOCITY, ACCELERATION, false, true);
    assert_eq!(moved, Some((1, 2)));
    let sand = grid.get_cell(1, 2);
    assert_eq!(sand.ty, CellType::Sand);
    assert!(sand.moved);
    assert_eq!(sand.velocity, VELOCITY_ONE + ACCELERATION);
    let left = grid.get_cell(1, 0);
    assert_eq!(left.ty, CellType::Air);
    assert!(!left.moved);
}

#[test]
fn fall_takes_the_diagonal_the_coin_names() {
    for heads in [true, false] {
        let mut grid = Grid::new(3, 2);
        put(&mut grid, 1, 0, CellType::Sand);
        put(&mut grid, 1, 1, CellType::Wood);
        assert_eq!(
            fall_destination(&grid, (1, 0), &AIR, false),
            Destination::Either((0, 1), (2, 1))
        );
        let moved =
            generic_fall_with(&mut grid, (1, 0), &AIR, MAX_VELOCITY, ACCELERATION, false, heads);
        let expected = if heads { (0, 1) } else { (2, 1) };
        assert_eq!(moved, Some(expected));
        assert_eq!(grid.get_cell(expected.0, expected.1).ty, CellType::Sand);
        assert_eq!(grid.get_cell(expected.0, expected.1).velocity, VELOCITY_ONE + ACCELERATION);
        assert_eq!(grid.get_cell(1, 0).ty, CellType::Air);
    }
}

#[test]
fn fall_takes_the_only_open_diagonal() {
    for heads in [true, false] {
        let mut grid = Grid::new(3, 2);
        put(&mut grid, 1, 0, CellType::Sand);
        put(&mut grid, 1, 1, CellType::Wood);
        put(&mut grid, 0, 1, CellType::Wood);
        let moved =
            generic_fall_with(&mut grid, (1, 0), &AIR, MAX_VELOCITY, ACCELERATION, false, heads);
        assert_eq!(moved, Some((2, 1)));
        let mut grid = Grid::new(3, 2);
        put(&mut grid, 1, 0, CellType::Sand);
        put(&mut grid, 1, 1, CellType::Wood);
        put(&mut grid, 2, 1, CellType::Wood);
        let moved =
            generic_fall_with(&mut grid, (1, 0), &AIR, MAX_VELOCITY, ACCELERATION, false, heads);
        assert_eq!(moved, Some((0, 1)));
    }
}

#[test]
fn failed_fall_halves_the_speed() {
    let mut grid = Grid::new(1, 1);
    put_with_speed(&mut grid, 0, 0, CellType::Sand, VELOCITY_ONE + ACCELERATION);
    let moved = generic_fall_with(&mut grid, (0, 0), &AIR, MAX_VELOCITY, ACCELERATION, false, true);
    assert_eq!(moved, None);
    assert_eq!(grid.get_cell(0, 0).velocity, 393_216);
    assert!(!grid.get_cell(0, 0).moved);
    for expected in [196_608, 98_304, 49_152] {
        generic_fall_with(&mut grid, (0, 0), &AIR, MAX_VELOCITY, ACCELERATION, false, true);
        assert_eq!(grid.get_cell(0, 0).velocity, expected);
    }
}

#[test]
fn inverted_fall_goes_up() {
    let mut grid = Grid::new(1, 4);
    put(&mut grid, 0, 3, CellType::Smoke);
    let moved = generic_fall_with(
        &mut grid,
        (0, 3),
        &AIR,
        SMOKE_MAX_VELOCITY,
        SMOKE_ACCELERATION,
        true,
        true,
    );
    assert_eq!(moved, Some((0, 1)));
    assert_eq!(grid.get_cell(0, 1).ty, CellType::Smoke);
    assert_eq!(grid.get_cell(0, 1).velocity, VELOCITY_ONE + SMOKE_ACCELERATION);
}

#[test]
fn fall_reach_grows_with_speed() {
    let mut grid = Grid::new(1, 12);
    put_with_speed(&mut grid, 0, 0, CellType::Sand, 3 * VELOCITY_ONE + 5);
    let moved = generic_fall_with(&mut grid, (0, 0), &AIR, MAX_VELOCITY, ACCELERATION, false, true);
    assert_eq!(moved, Some((0, 4)));
    assert_eq!(grid.get_cell(0, 4).velocity, 3 * VELOCITY_ONE + 5 + ACCELERATION);
}

#[test]
fn fall_to_moves_or_rests() {
    let mut grid = Grid::new(2, 2);
    put(&mut grid, 0, 0, CellType::Sand);
    put(&mut grid, 1, 1, CellType::Water);
    assert_eq!(fall_to(&mut grid, (0, 0), Some((1, 1)), MAX_VELOCITY, ACCELERATION), Some((1, 1)));
    assert_eq!(grid.get_cell(1, 1).ty, CellType::Sand);
    assert!(grid.get_cell(1, 1).moved);
    assert_eq!(grid.get_cell(0, 0).ty, CellType::Water);
    assert_eq!(grid.get_cell(0, 0).velocity, VELOCITY_ONE);
    assert_eq!(fall_to(&mut grid, (1, 1), None, MAX_VELOCITY, ACCELERATION), None);
    assert_eq!(grid.get_cell(1, 1).velocity, (VELOCITY_ONE + ACCELERATION) / 2);
}

#[test]
fn random_fall_is_one_of_the_two_outcomes() {
    let rng = Rng::with_seed(5);
    let mut left = 0;
    let mut right = 0;
    for _ in 0..400 {
        let mut grid = Grid::new(3, 2);
        put(&mut grid, 1, 0, CellType::Sand);
        put(&mut grid, 1, 1, CellType::Wood);
        match generic_fall(&mut grid, (1, 0), &AIR, MAX_VELOCITY, ACCELERATION, false, &rng) {
            Some((0, 1)) => left += 1,
            Some((2, 1)) => right += 1,
            other => panic!("unexpected {:?}", other),
        }
    }
    assert!(left > 120 && right > 120);
}

#[test]
fn fluid_that_falls_does_not_spread() {
    let mut grid = Grid::new(5, 3);
    put(&mut grid, 2, 0, CellType::Water);
    let moved = generic_fluid_with(
        &mut grid,
        (2, 0),
        &GASES_AND_AIR,
        MAX_VELOCITY,
        ACCELERATION,
        false,
        true,
    );
    assert_eq!(moved, Some((2, 2)));
    assert_eq!(grid.get_cell(2, 2).velocity, VELOCITY_ONE + ACCELERATION);
}

#[test]
fn fluid_spreads_to_the_side_the_coin_names() {
    for heads in [true, false] {
        let mut grid = Grid::new(9, 1);
        put(&mut grid, 4, 0, CellType::Water);
        assert_eq!(
            spread_destination(&grid, (4, 0), &GASES_AND_AIR),
            Destination::Either((7, 0), (1, 0))
        );
        let moved = generic_fluid_with(
            &mut grid,
            (4, 0),
            &GASES_AND_AIR,
            MAX_VELOCITY,
            ACCELERATION,
            false,
            heads,
        );
        // the failed fall halves the speed first: the spread factor is 0 + 1,
        // and the scan goes one step beyond it
        let expected = if heads { (6, 0) } else { (2, 0) };
        assert_eq!(moved, Some(expected));
        let water = grid.get_cell(expected.0, expected.1);
        assert_eq!(water.ty, CellType::Water);
        assert!(water.moved);
        assert_eq!(water.velocity, VELOCITY_ONE / 2);
        assert_eq!(grid.get_cell(4, 0).ty, CellType::Air);
    }
}

#[test]
fn fluid_with_one_open_side_takes_it() {
    for heads in [true, false] {
        let mut grid = Grid::new(3, 1);
        put(&mut grid, 0, 0, CellType::Water);
        let moved = generic_fluid_with(
            &mut grid,
            (0, 0),
            &GASES_AND_AIR,
            MAX_VELOCITY,
            ACCELERATION,
            false,
            heads,
        );
        assert_eq!(moved, Some((2, 0)));
    }
}

#[test]
fn enclosed_fluid_stays_and_slows() {
    let mut grid = Grid::new(1, 1);
    put(&mut grid, 0, 0, CellType::Water);
    let rng = Rng::with_seed(2);
    let moved =
        generic_fluid(&mut grid, (0, 0), &GASES_AND_AIR, MAX_VELOCITY, ACCELERATION, false, &rng);
    assert_eq!(moved, None);
    assert_eq!(grid.get_cell(0, 0).velocity, VELOCITY_ONE / 2);
    assert_eq!(grid.get_cell(0, 0).ty, CellType::Water);
}

#[test]
fn random_fluid_spreads_both_ways() {
    let rng = Rng::with_seed(9);
    let mut left = 0;
    let mut right = 0;
    for _ in 0..400 {
        let mut grid = Grid::new(9, 1);
        put(&mut grid, 4, 0, CellType::Water);
        match generic_fluid(&mut grid, (4, 0), &AIR, MAX_VELOCITY, ACCELERATION, false, &rng) {
            Some((6, 0)) => right += 1,
            Some((2, 0)) => left += 1,
            other => panic!("unexpected {:?}", other),
        }
    }
    assert!(left > 120 && right > 120);
}
