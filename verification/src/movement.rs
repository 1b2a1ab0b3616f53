//! How a cell moves: falling along gravity, and spreading sideways as a fluid.

use vstd::prelude::*;
use crate::cell::Cell;
use crate::grid::{Grid, GridView, lemma_put_bounded, lemma_swapped_bounded, swap_cells};
use crate::material::{CellType, VELOCITY_ONE, max_velocity};
use crate::random::coin;
use crate::search::{
    farthest_match, furthest_by_vector, lemma_farthest_step, maybe_point, point,
};

verus! {

/// The speed after a successful move: raised by the acceleration, up to the limit.
pub open spec fn accelerated(velocity: u32, acceleration: u32, max_velocity: u32) -> u32 {
    if velocity + acceleration <= max_velocity {
        (velocity + acceleration) as u32
    } else {
        max_velocity
    }
}

/// One of two candidates: where both exist the coin decides, heads for the first.
pub open spec fn choose_side(
    first: Option<(int, int)>,
    second: Option<(int, int)>,
    heads: bool,
) -> Option<(int, int)> {
    if first is Some && second is Some {
        if heads {
            first
        } else {
            second
        }
    } else if first is Some {
        first
    } else {
        second
    }
}

/// The unit step along gravity.
pub open spec fn down(inverted: bool) -> int {
    if inverted {
        -1
    } else {
        1
    }
}

/// Where the cell at `pos` falls to: the farthest match straight down, else
/// one of the farthest matches down-left and down-right, heads for the left.
pub open spec fn fall_target(
    grid: GridView,
    pos: (int, int),
    fall_through: Seq<CellType>,
    inverted: bool,
    heads: bool,
) -> Option<(int, int)> {
    let reach = grid.at(pos.0, pos.1).reach();
    let straight = farthest_match(grid, pos, reach, fall_through, (0, down(inverted)));
    if straight is Some {
        straight
    } else {
        choose_side(
            farthest_match(grid, pos, reach, fall_through, (-1, down(inverted))),
            farthest_match(grid, pos, reach, fall_through, (1, down(inverted))),
            heads,
        )
    }
}

/// The grid after the cell at `pos` has moved to `target` and gained speed,
/// or, without a target, has stayed and lost half of its speed.
pub open spec fn fallen(
    grid: GridView,
    pos: (int, int),
    target: Option<(int, int)>,
    max_velocity: u32,
    acceleration: u32,
) -> GridView {
    let cell = grid.at(pos.0, pos.1);
    match target {
        Some(to) => grid.put(
            pos.0,
            pos.1,
            Cell { velocity: accelerated(cell.velocity, acceleration, max_velocity), ..cell },
        ).swapped(pos, to),
        None => grid.put(pos.0, pos.1, Cell { velocity: cell.velocity / 2, ..cell }),
    }
}

/// The grid after the cell at `pos` has tried to fall.
pub open spec fn fall_spec(
    grid: GridView,
    pos: (int, int),
    fall_through: Seq<CellType>,
    max_velocity: u32,
    acceleration: u32,
    inverted: bool,
    heads: bool,
) -> GridView {
    fallen(
        grid,
        pos,
        fall_target(grid, pos, fall_through, inverted, heads),
        max_velocity,
        acceleration,
    )
}

/// Where the cell at `pos` spreads to: one of the farthest matches to the
/// right and to the left within its spread factor, heads for the right.
pub open spec fn spread_target(
    grid: GridView,
    pos: (int, int),
    empty: Seq<CellType>,
    heads: bool,
) -> Option<(int, int)> {
    let spread_factor = grid.at(pos.0, pos.1).reach() + 1;
    choose_side(
        farthest_match(grid, pos, spread_factor, empty, (1, 0)),
        farthest_match(grid, pos, spread_factor, empty, (-1, 0)),
        heads,
    )
}

/// Where the cell at `pos` ends up as a fluid: where it falls to, or else,
/// slowed by the failed fall, where it spreads to.
pub open spec fn fluid_target(
    grid: GridView,
    pos: (int, int),
    empty: Seq<CellType>,
    max_velocity: u32,
    acceleration: u32,
    inverted: bool,
    heads: bool,
) -> Option<(int, int)> {
    let fall = fall_target(grid, pos, empty, inverted, heads);
    if fall is Some {
        fall
    } else {
        spread_target(
            fall_spec(grid, pos, empty, max_velocity, acceleration, inverted, heads),
            pos,
            empty,
            heads,
        )
    }
}

/// The grid after the cell at `pos` has moved as a fluid: a cell that fell
/// does not spread, and one that spreads changes places without gaining speed.
pub open spec fn fluid_spec(
    grid: GridView,
    pos: (int, int),
    empty: Seq<CellType>,
    max_velocity: u32,
    acceleration: u32,
    inverted: bool,
    heads: bool,
) -> GridView {
    let settled = fall_spec(grid, pos, empty, max_velocity, acceleration, inverted, heads);
    if fall_target(grid, pos, empty, inverted, heads) is Some {
        settled
    } else {
        match spread_target(settled, pos, empty, heads) {
            Some(to) => settled.swapped(pos, to),
            None => settled,
        }
    }
}

/// Every cell is within the speed limit of its material, and `max_velocity` is
/// no more than the limit of the material at `pos`: moving that cell under
/// this limit then leaves every cell within its own.
pub open spec fn keeps_bounds(grid: GridView, pos: (int, int), max_velocity: u32) -> bool {
    grid.bounded() && max_velocity <= crate::material::max_velocity(grid.at(pos.0, pos.1).ty)
}

/// A fall leaves a full grid of the same size, and under a limit within that
/// of the material it keeps every cell within its speed limit.
pub proof fn lemma_fall_keeps_grid(
    grid: GridView,
    pos: (int, int),
    fall_through: Seq<CellType>,
    max_velocity: u32,
    acceleration: u32,
    inverted: bool,
    heads: bool,
)
    requires
        grid.wf(),
        grid.in_bounds(pos.0, pos.1),
    ensures
        fall_spec(grid, pos, fall_through, max_velocity, acceleration, inverted, heads).wf(),
        fall_spec(grid, pos, fall_through, max_velocity, acceleration, inverted, heads).width
            == grid.width,
        fall_spec(grid, pos, fall_through, max_velocity, acceleration, inverted, heads).height
            == grid.height,
        keeps_bounds(grid, pos, max_velocity) ==> fall_spec(
            grid,
            pos,
            fall_through,
            max_velocity,
            acceleration,
            inverted,
            heads,
        ).bounded(),
{
    let reach = grid.at(pos.0, pos.1).reach();
    lemma_farthest_step(grid, pos, (0, down(inverted)), fall_through, reach + 1);
    lemma_farthest_step(grid, pos, (-1, down(inverted)), fall_through, reach + 1);
    lemma_farthest_step(grid, pos, (1, down(inverted)), fall_through, reach + 1);
    let cell = grid.at(pos.0, pos.1);
    let target = fall_target(grid, pos, fall_through, inverted, heads);
    match target {
        Some(to) => {
            let faster = Cell {
                velocity: accelerated(cell.velocity, acceleration, max_velocity),
                ..cell
            };
            let raised = grid.put(pos.0, pos.1, faster);
            if keeps_bounds(grid, pos, max_velocity) {
                lemma_put_bounded(grid, pos.0, pos.1, faster);
                lemma_swapped_bounded(raised, pos, to);
            }
        },
        None => {
            if keeps_bounds(grid, pos, max_velocity) {
                lemma_put_bounded(grid, pos.0, pos.1, Cell { velocity: cell.velocity / 2, ..cell });
            }
        },
    }
}

/// A move as a fluid leaves a full grid of the same size, and under a limit
/// within that of the material it keeps every cell within its speed limit.
pub proof fn lemma_fluid_keeps_grid(
    grid: GridView,
    pos: (int, int),
    empty: Seq<CellType>,
    max_velocity: u32,
    acceleration: u32,
    inverted: bool,
    heads: bool,
)
    requires
        grid.wf(),
        grid.in_bounds(pos.0, pos.1),
    ensures
        fluid_spec(grid, pos, empty, max_velocity, acceleration, inverted, heads).wf(),
        fluid_spec(grid, pos, empty, max_velocity, acceleration, inverted, heads).width
            == grid.width,
        fluid_spec(grid, pos, empty, max_velocity, acceleration, inverted, heads).height
            == grid.height,
        keeps_bounds(grid, pos, max_velocity) ==> fluid_spec(
            grid,
            pos,
            empty,
            max_velocity,
            acceleration,
            inverted,
            heads,
        ).bounded(),
{
    lemma_fall_keeps_grid(grid, pos, empty, max_velocity, acceleration, inverted, heads);
    let settled = fall_spec(grid, pos, empty, max_velocity, acceleration, inverted, heads);
    if fall_target(grid, pos, empty, inverted, heads) is None {
        let spread_factor = settled.at(pos.0, pos.1).reach() + 1;
        lemma_farthest_step(settled, pos, (1, 0), empty, spread_factor + 1);
        lemma_farthest_step(settled, pos, (-1, 0), empty, spread_factor + 1);
        match spread_target(settled, pos, empty, heads) {
            Some(to) => {
                if settled.bounded() {
                    lemma_swapped_bounded(settled, pos, to);
                }
            },
            None => {},
        }
    }
}

/// Where a move may go: nowhere, to one cell, or to one of two by a coin.
#[derive(Clone, Copy, Debug, PartialEq, Eq)]
pub enum Destination {
    Nowhere,
    One((usize, usize)),
    Either((usize, usize), (usize, usize)),
}

impl Destination {
    /// The destination once the coin has fallen: heads for the first of two.
    pub open spec fn resolved(self, heads: bool) -> Option<(int, int)> {
        match self {
            Destination::Nowhere => None,
            Destination::One(p) => Some(point(p)),
            Destination::Either(first, second) => if heads {
                Some(point(first))
            } else {
                Some(point(second))
            },
        }
    }

    /// Every cell that the move may go to lies on the grid.
    pub open spec fn on_grid(self, grid: GridView) -> bool {
        match self {
            Destination::Nowhere => true,
            Destination::One(p) => grid.in_bounds(p.0 as int, p.1 as int),
            Destination::Either(first, second) => grid.in_bounds(first.0 as int, first.1 as int)
                && grid.in_bounds(second.0 as int, second.1 as int),
        }
    }

    /// Settles the destination: heads for the first of two.
    pub fn resolve(self, heads: bool) -> (target: Option<(usize, usize)>)
        ensures
            maybe_point(target) == self.resolved(heads),
    {
        match self {
            Destination::Nowhere => None,
            Destination::One(p) => Some(p),
            Destination::Either(first, second) => if heads {
                Some(first)
            } else {
                Some(second)
            },
        }
    }

    /// Settles the destination, tossing the coin only where two cells are open.
    pub fn toss(self, rng: &fastrand::Rng) -> (target: Option<(usize, usize)>)
        ensures
            exists|heads: bool| maybe_point(target) == #[trigger] self.resolved(heads),
            self matches Destination::Nowhere ==> target is None,
    {
        let heads = match self {
            Destination::Either(_, _) => coin(rng),
            _ => false,
        };
        self.resolve(heads)
    }
}

/// Two candidates as a destination, the first standing for heads.
pub open spec fn joined(
    first: Option<(usize, usize)>,
    second: Option<(usize, usize)>,
) -> Destination {
    match (first, second) {
        (Some(a), Some(b)) => Destination::Either(a, b),
        (Some(a), None) => Destination::One(a),
        (None, Some(b)) => Destination::One(b),
        (None, None) => Destination::Nowhere,
    }
}

/// Joins two candidates into a destination, the first standing for heads.
pub fn join_sides(first: Option<(usize, usize)>, second: Option<(usize, usize)>) -> (destination:
    Destination)
    ensures
        destination == joined(first, second),
        forall|heads: bool| #[trigger]
            destination.resolved(heads) == choose_side(
                maybe_point(first),
                maybe_point(second),
                heads,
            ),
{
    match (first, second) {
        (Some(a), Some(b)) => Destination::Either(a, b),
        (Some(a), None) => Destination::One(a),
        (None, Some(b)) => Destination::One(b),
        (None, None) => Destination::Nowhere,
    }
}

/// Whole cells per tick of a speed: the speed rounded down.
pub fn whole_steps(velocity: u32) -> (steps: usize)
    ensures
        steps == velocity / VELOCITY_ONE,
{
    (velocity / VELOCITY_ONE) as usize
}

/// Where the cell at `cell_pos` can fall to.
pub fn fall_destination(
    grid: &Grid,
    cell_pos: (usize, usize),
    fall_through_types: &[CellType],
    inverted: bool,
) -> (destination: Destination)
    requires
        grid.wf(),
        grid@.in_bounds(cell_pos.0 as int, cell_pos.1 as int),
    ensures
        forall|heads: bool| #[trigger]
            destination.resolved(heads) == fall_target(
                grid@,
                point(cell_pos),
                fall_through_types@,
                inverted,
                heads,
            ),
        destination.on_grid(grid@),
{
    let down: isize = if inverted {
        -1
    } else {
        1
    };
    let reach = whole_steps(grid.get_cell(cell_pos.0, cell_pos.1).velocity);
    let furthest_down = furthest_by_vector(grid, cell_pos, reach, fall_through_types, (0, down));
    if let Some(target) = furthest_down {
        return Destination::One(target);
    }
    let furthest_down_left = furthest_by_vector(
        grid,
        cell_pos,
        reach,
        fall_through_types,
        (-1, down),
    );
    let furthest_down_right = furthest_by_vector(
        grid,
        cell_pos,
        reach,
        fall_through_types,
        (1, down),
    );
    join_sides(furthest_down_left, furthest_down_right)
}

/// Where the cell at `cell_pos` can spread to sideways.
pub fn spread_destination(grid: &Grid, cell_pos: (usize, usize), empty_types: &[CellType]) -> (
    destination: Destination)
    requires
        grid.wf(),
        grid@.in_bounds(cell_pos.0 as int, cell_pos.1 as int),
    ensures
        forall|heads: bool| #[trigger]
            destination.resolved(heads) == spread_target(
                grid@,
                point(cell_pos),
                empty_types@,
                heads,
            ),
        destination.on_grid(grid@),
{
    let spread_factor = whole_steps(grid.get_cell(cell_pos.0, cell_pos.1).velocity) + 1;
    let furthest_left = furthest_by_vector(grid, cell_pos, spread_factor, empty_types, (-1, 0));
    let furthest_right = furthest_by_vector(grid, cell_pos, spread_factor, empty_types, (1, 0));
    join_sides(furthest_right, furthest_left)
}

/// Raises a speed by the acceleration, up to the limit.
pub fn accelerate(velocity: u32, acceleration: u32, max_velocity: u32) -> (raised: u32)
    ensures
        raised == accelerated(velocity, acceleration, max_velocity),
{
    let sum: u64 = velocity as u64 + acceleration as u64;
    if sum <= max_velocity as u64 {
        sum as u32
    } else {
        max_velocity
    }
}

/// Ends a fall: moves the cell at `cell_pos` to `target` with more speed, or,
/// without a target, leaves it with half of its speed.
pub fn fall_to(
    grid: &mut Grid,
    cell_pos: (usize, usize),
    target: Option<(usize, usize)>,
    max_velocity: u32,
    acceleration: u32,
) -> (moved: Option<(usize, usize)>)
    requires
        old(grid).wf(),
        old(grid)@.in_bounds(cell_pos.0 as int, cell_pos.1 as int),
        target matches Some(to) ==> old(grid)@.in_bounds(to.0 as int, to.1 as int),
    ensures
        final(grid).wf(),
        final(grid)@ == fallen(
            old(grid)@,
            point(cell_pos),
            maybe_point(target),
            max_velocity,
            acceleration,
        ),
        moved == target,
        keeps_bounds(old(grid)@, point(cell_pos), max_velocity) ==> final(grid)@.bounded(),
{
    let mut cell = grid.get_cell(cell_pos.0, cell_pos.1);
    match target {
        Some(to) => {
            cell.velocity = accelerate(cell.velocity, acceleration, max_velocity);
            grid.set_cell(cell_pos.0, cell_pos.1, cell);
            swap_cells(grid, cell_pos, to);
        },
        None => {
            cell.velocity = cell.velocity / 2;
            grid.set_cell(cell_pos.0, cell_pos.1, cell);
        },
    }
    target
}

/// Lets the cell at `cell_pos` fall, the coin already tossed.
pub fn generic_fall_with(
    grid: &mut Grid,
    cell_pos: (usize, usize),
    fall_through_types: &[CellType],
    max_velocity: u32,
    acceleration: u32,
    inverted: bool,
    heads: bool,
) -> (moved: Option<(usize, usize)>)
    requires
        old(grid).wf(),
        old(grid)@.in_bounds(cell_pos.0 as int, cell_pos.1 as int),
    ensures
        final(grid).wf(),
        final(grid)@ == fall_spec(
            old(grid)@,
            point(cell_pos),
            fall_through_types@,
            max_velocity,
            acceleration,
            inverted,
            heads,
        ),
        maybe_point(moved) == fall_target(
            old(grid)@,
            point(cell_pos),
            fall_through_types@,
            inverted,
            heads,
        ),
        keeps_bounds(old(grid)@, point(cell_pos), max_velocity) ==> final(grid)@.bounded(),
{
    let destination = fall_destination(grid, cell_pos, fall_through_types, inverted);
    let target = destination.resolve(heads);
    fall_to(grid, cell_pos, target, max_velocity, acceleration)
}

/// Lets the cell at `cell_pos` fall along gravity and says where it went.
/// A coin is tossed only where the cell can go down-left and down-right alike.
pub fn generic_fall(
    grid: &mut Grid,
    cell_pos: (usize, usize),
    fall_through_types: &[CellType],
    max_velocity: u32,
    acceleration: u32,
    inverted: bool,
    rng: &fastrand::Rng,
) -> (moved: Option<(usize, usize)>)
    requires
        old(grid).wf(),
        old(grid)@.in_bounds(cell_pos.0 as int, cell_pos.1 as int),
    ensures
        final(grid).wf(),
        exists|heads: bool|
            final(grid)@ == #[trigger] fall_spec(
                old(grid)@,
                point(cell_pos),
                fall_through_types@,
                max_velocity,
                acceleration,
                inverted,
                heads,
            ) && maybe_point(moved) == fall_target(
                old(grid)@,
                point(cell_pos),
                fall_through_types@,
                inverted,
                heads,
            ),
        keeps_bounds(old(grid)@, point(cell_pos), max_velocity) ==> final(grid)@.bounded(),
{
    let destination = fall_destination(grid, cell_pos, fall_through_types, inverted);
    let target = destination.toss(rng);
    let ghost heads = choose|heads: bool|
        maybe_point(target) == #[trigger] destination.resolved(heads);
    let moved = fall_to(grid, cell_pos, target, max_velocity, acceleration);
    assert(grid@ == fall_spec(
        old(grid)@,
        point(cell_pos),
        fall_through_types@,
        max_velocity,
        acceleration,
        inverted,
        heads,
    ));
    moved
}

/// Lets the cell at `cell_pos` move as a fluid, the coin already tossed.
pub fn generic_fluid_with(
    grid: &mut Grid,
    cell_pos: (usize, usize),
    empty_types: &[CellType],
    max_velocity: u32,
    acceleration: u32,
    inverted: bool,
    heads: bool,
) -> (moved: Option<(usize, usize)>)
    requires
        old(grid).wf(),
        old(grid)@.in_bounds(cell_pos.0 as int, cell_pos.1 as int),
    ensures
        final(grid).wf(),
        final(grid)@ == fluid_spec(
            old(grid)@,
            point(cell_pos),
            empty_types@,
            max_velocity,
            acceleration,
            inverted,
            heads,
        ),
        maybe_point(moved) == fluid_target(
            old(grid)@,
            point(cell_pos),
            empty_types@,
            max_velocity,
            acceleration,
            inverted,
            heads,
        ),
        keeps_bounds(old(grid)@, point(cell_pos), max_velocity) ==> final(grid)@.bounded(),
{
    let fall_result = generic_fall_with(
        grid,
        cell_pos,
        empty_types,
        max_velocity,
        acceleration,
        inverted,
        heads,
    );
    if fall_result.is_some() {
        return fall_result;
    }
    let destination = spread_destination(grid, cell_pos, empty_types);
    let target = destination.resolve(heads);
    if let Some(to) = target {
        swap_cells(grid, cell_pos, to);
    }
    target
}

/// Lets the cell at `cell_pos` move as a fluid and says where it went: it
/// falls if it can, and spreads sideways if it cannot. A coin is tossed only
/// where two cells are open alike.
pub fn generic_fluid(
    grid: &mut Grid,
    cell_pos: (usize, usize),
    empty_types: &[CellType],
    max_velocity: u32,
    acceleration: u32,
    inverted: bool,
    rng: &fastrand::Rng,
) -> (moved: Option<(usize, usize)>)
    requires
        old(grid).wf(),
        old(grid)@.in_bounds(cell_pos.0 as int, cell_pos.1 as int),
    ensures
        final(grid).wf(),
        exists|heads: bool|
            final(grid)@ == #[trigger] fluid_spec(
                old(grid)@,
                point(cell_pos),
                empty_types@,
                max_velocity,
                acceleration,
                inverted,
                heads,
            ) && maybe_point(moved) == fluid_target(
                old(grid)@,
                point(cell_pos),
                empty_types@,
                max_velocity,
                acceleration,
                inverted,
                heads,
            ),
        keeps_bounds(old(grid)@, point(cell_pos), max_velocity) ==> final(grid)@.bounded(),
{
    let ghost start = grid@;
    let ghost pos = point(cell_pos);
    let fall_result = generic_fall(
        grid,
        cell_pos,
        empty_types,
        max_velocity,
        acceleration,
        inverted,
        rng,
    );
    let ghost fall_heads = choose|heads: bool|
        grid@ == #[trigger] fall_spec(
            start,
            pos,
            empty_types@,
            max_velocity,
            acceleration,
            inverted,
            heads,
        ) && maybe_point(fall_result) == fall_target(start, pos, empty_types@, inverted, heads);
    if fall_result.is_some() {
        assert(grid@ == fluid_spec(
            start,
            pos,
            empty_types@,
            max_velocity,
            acceleration,
            inverted,
            fall_heads,
        ));
        return fall_result;
    }
    let destination = spread_destination(grid, cell_pos, empty_types);
    let target = destination.toss(rng);
    let ghost heads = choose|heads: bool|
        maybe_point(target) == #[trigger] destination.resolved(heads);
    if let Some(to) = target {
        swap_cells(grid, cell_pos, to);
    }
    proof {
        assert(grid@ == fluid_spec(
            start,
            pos,
            empty_types@,
            max_velocity,
            acceleration,
            inverted,
            heads,
        ));
    }
    target
}

} // verus!
