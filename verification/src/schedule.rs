//! One tick: two passes over alternate columns give every cell one turn.

use vstd::prelude::*;
use crate::cell::Cell;
use crate::grid::{Grid, GridView, lemma_put_bounded};
use crate::material::{
    CellType, ACCELERATION, MAX_VELOCITY, SMOKE_ACCELERATION, SMOKE_MAX_VELOCITY,
    STEAM_ACCELERATION, STEAM_MAX_VELOCITY, burnable, gas_empty, sand_fall_through, water_empty,
};
use crate::movement::{fall_spec, fluid_spec, lemma_fall_keeps_grid, lemma_fluid_keeps_grid};
use crate::palette::{AIR_COLOR, in_palette};
use crate::reaction::{
    aged, condensed, fire_outcome, fire_turn_outcome, recolored, sand_outcome, shimmers,
    smoke_outcome, smoke_spec, steam_outcome, steam_spec, update_fire, update_sand, update_smoke,
    update_steam, update_water, water_outcome,
};

verus! {

/// `after` is a grid that the turn of the cell at a coordinate can leave:
/// sand falls, water flows, fire burns, the gases age and rise; wood and air
/// do nothing.
pub open spec fn turn_outcome(before: GridView, x: int, y: int, after: GridView) -> bool {
    match before.at(x, y).ty {
        CellType::Sand => sand_outcome(before, (x, y), sand_fall_through(), after),
        CellType::Water => water_outcome(before, (x, y), water_empty(), after),
        CellType::Fire => fire_turn_outcome(before, (x, y), burnable(), after),
        CellType::Smoke => smoke_outcome(before, (x, y), gas_empty(), after),
        CellType::Steam => steam_outcome(before, (x, y), gas_empty(), after),
        _ => after == before,
    }
}

/// `after` is a grid that a visit of pass `pass` to a coordinate can leave.
/// The pass skips the columns whose parity is its number, and a cell that a
/// move of this tick ended on is not given a turn.
pub open spec fn cell_step(before: GridView, pass: int, x: int, y: int, after: GridView) -> bool {
    if x % 2 == pass || before.at(x, y).moved {
        after == before
    } else {
        turn_outcome(before, x, y, after)
    }
}

/// The `k`-th column that a pass visits in a row: pass 0 runs from the right
/// to the left, pass 1 from the left to the right.
pub open spec fn column(pass: int, width: int, k: int) -> int {
    if pass == 1 {
        k
    } else {
        width - 1 - k
    }
}

/// `after` is a grid that the `k`-th visit of a pass to row `y`, counted from
/// one, can leave.
pub open spec fn visit(
    before: GridView,
    pass: int,
    width: int,
    k: nat,
    y: int,
    after: GridView,
) -> bool {
    cell_step(before, pass, column(pass, width, k - 1), y, after)
}

/// `after` is a grid that the first `k` visits of a pass to row `y` can leave.
pub open spec fn row_run(before: GridView, pass: int, y: int, k: nat, after: GridView) -> bool
    decreases k,
{
    if k == 0 {
        after == before
    } else {
        exists|mid: GridView|
            row_run(before, pass, y, (k - 1) as nat, mid) && #[trigger] visit(
                mid,
                pass,
                before.width,
                k,
                y,
                after,
            )
    }
}

/// `after` is a grid that a pass over the `rows`-th row from the bottom,
/// counted from one, can leave.
pub open spec fn sweep(
    before: GridView,
    pass: int,
    width: int,
    height: int,
    rows: nat,
    after: GridView,
) -> bool {
    row_run(before, pass, height - rows, width as nat, after)
}

/// `after` is a grid that a pass can leave once it has gone through `rows`
/// rows, from the bottom one up.
pub open spec fn pass_run(before: GridView, pass: int, rows: nat, after: GridView) -> bool
    decreases rows,
{
    if rows == 0 {
        after == before
    } else {
        exists|mid: GridView|
            pass_run(before, pass, (rows - 1) as nat, mid) && #[trigger] sweep(
                mid,
                pass,
                before.width,
                before.height,
                rows,
                after,
            )
    }
}

/// `after` is a grid that one tick can leave: pass 0 over every row, then
/// pass 1 over every row, then every move flag cleared.
pub open spec fn tick_outcome(before: GridView, after: GridView) -> bool {
    exists|first: GridView, second: GridView|
        pass_run(before, 0, before.height as nat, first) && #[trigger] pass_run(
            first,
            1,
            before.height as nat,
            second,
        ) && after == second.cleared()
}

/// A pass visits every column of a row once, and of the two passes exactly
/// one gives the cells of a column their turn.
pub proof fn lemma_each_column_once(pass: int, width: int, x: int)
    requires
        0 <= x < width,
    ensures
        0 <= column(pass, width, column(pass, width, x)) < width,
        column(pass, width, column(pass, width, x)) == x,
        forall|k: int| 0 <= k < width && column(pass, width, k) == x ==> k == column(pass, width, x),
        (x % 2 == 0) != (x % 2 == 1),
{
}

/// A turn leaves a full grid of the same size and keeps every cell within
/// the speed limit of its material.
pub proof fn lemma_turn_keeps_grid(before: GridView, x: int, y: int, after: GridView)
    requires
        before.wf(),
        before.in_bounds(x, y),
        turn_outcome(before, x, y, after),
    ensures
        after.wf(),
        after.width == before.width,
        after.height == before.height,
        before.bounded() ==> after.bounded(),
{
    let pos = (x, y);
    let cell = before.at(x, y);
    match cell.ty {
        CellType::Sand => {
            let heads = choose|heads: bool|
                after == #[trigger] fall_spec(
                    before,
                    pos,
                    sand_fall_through(),
                    MAX_VELOCITY,
                    ACCELERATION,
                    false,
                    heads,
                );
            lemma_fall_keeps_grid(
                before,
                pos,
                sand_fall_through(),
                MAX_VELOCITY,
                ACCELERATION,
                false,
                heads,
            );
        },
        CellType::Water => {
            let (tint, heads) = choose|tint: Option<[u8; 3]>, heads: bool|
                shimmers(cell, tint) && after == #[trigger] fluid_spec(
                    recolored(before, pos, tint),
                    pos,
                    water_empty(),
                    MAX_VELOCITY,
                    ACCELERATION,
                    false,
                    heads,
                );
            let start = recolored(before, pos, tint);
            if let Some(color) = tint {
                if before.bounded() {
                    lemma_put_bounded(before, x, y, Cell { color, ..cell });
                }
            }
            lemma_fluid_keeps_grid(
                start,
                pos,
                water_empty(),
                MAX_VELOCITY,
                ACCELERATION,
                false,
                heads,
            );
        },
        CellType::Fire => {
            let (should_spread, to_smoke) = choose|should_spread: bool, to_smoke: bool| #[trigger]
                fire_outcome(before, pos, burnable(), should_spread, to_smoke, after);
            if before.bounded() {
                assert forall|a: int, b: int| after.in_bounds(a, b) implies (#[trigger] after.at(
                    a,
                    b,
                )).wf() by {
                    assert(before.at(a, b).wf());
                }
            }
        },
        CellType::Smoke => {
            let heads = choose|heads: bool|
                after == #[trigger] smoke_spec(before, pos, gas_empty(), heads);
            if cell.lifetime == 0 {
                if before.bounded() {
                    lemma_put_bounded(before, x, y, Cell::fresh(CellType::Air, AIR_COLOR));
                }
            } else {
                let older = aged(cell, CellType::Smoke);
                if before.bounded() {
                    lemma_put_bounded(before, x, y, older);
                }
                lemma_fluid_keeps_grid(
                    before.put(x, y, older),
                    pos,
                    gas_empty(),
                    SMOKE_MAX_VELOCITY,
                    SMOKE_ACCELERATION,
                    true,
                    heads,
                );
            }
        },
        CellType::Steam => {
            let (condenses, tint, heads) = choose|condenses: bool, tint: [u8; 3], heads: bool|
                in_palette(CellType::Water, tint) && after == #[trigger] steam_spec(
                    before,
                    pos,
                    gas_empty(),
                    condenses,
                    tint,
                    heads,
                );
            if cell.lifetime == 0 {
                if before.bounded() {
                    lemma_put_bounded(before, x, y, condensed(condenses, tint));
                }
            } else {
                let older = aged(cell, CellType::Steam);
                if before.bounded() {
                    lemma_put_bounded(before, x, y, older);
                }
                lemma_fluid_keeps_grid(
                    before.put(x, y, older),
                    pos,
                    gas_empty(),
                    STEAM_MAX_VELOCITY,
                    STEAM_ACCELERATION,
                    true,
                    heads,
                );
            }
        },
        _ => {},
    }
}

/// The visits of a pass to a row leave a full grid of the same size and keep
/// every cell within the speed limit of its material.
pub proof fn lemma_row_keeps_grid(before: GridView, pass: int, y: int, k: nat, after: GridView)
    requires
        before.wf(),
        0 <= y < before.height,
        k <= before.width,
        row_run(before, pass, y, k, after),
    ensures
        after.wf(),
        after.width == before.width,
        after.height == before.height,
        before.bounded() ==> after.bounded(),
    decreases k,
{
    if k > 0 {
        let mid = choose|mid: GridView|
            row_run(before, pass, y, (k - 1) as nat, mid) && #[trigger] visit(
                mid,
                pass,
                before.width,
                k,
                y,
                after,
            );
        lemma_row_keeps_grid(before, pass, y, (k - 1) as nat, mid);
        let x = column(pass, before.width, k - 1);
        if !(x % 2 == pass || mid.at(x, y).moved) {
            lemma_turn_keeps_grid(mid, x, y, after);
        }
    }
}

/// The rows of a pass leave a full grid of the same size and keep every cell
/// within the speed limit of its material.
pub proof fn lemma_pass_keeps_grid(before: GridView, pass: int, rows: nat, after: GridView)
    requires
        before.wf(),
        rows <= before.height,
        pass_run(before, pass, rows, after),
    ensures
        after.wf(),
        after.width == before.width,
        after.height == before.height,
        before.bounded() ==> after.bounded(),
    decreases rows,
{
    if rows > 0 {
        let mid = choose|mid: GridView|
            pass_run(before, pass, (rows - 1) as nat, mid) && #[trigger] sweep(
                mid,
                pass,
                before.width,
                before.height,
                rows,
                after,
            );
        lemma_pass_keeps_grid(before, pass, (rows - 1) as nat, mid);
        lemma_row_keeps_grid(mid, pass, before.height - rows, before.width as nat, after);
    }
}

/// Grid totality: whatever a tick leaves is a full grid of the same size,
/// with one cell at every coordinate.
pub proof fn lemma_tick_keeps_grid(before: GridView, after: GridView)
    requires
        before.wf(),
        tick_outcome(before, after),
    ensures
        after.wf(),
        after.width == before.width,
        after.height == before.height,
{
    let (first, second) = choose|first: GridView, second: GridView|
        pass_run(before, 0, before.height as nat, first) && #[trigger] pass_run(
            first,
            1,
            before.height as nat,
            second,
        ) && after == second.cleared();
    lemma_pass_keeps_grid(before, 0, before.height as nat, first);
    lemma_pass_keeps_grid(first, 1, before.height as nat, second);
    assert forall|p: (int, int)| #[trigger]
        after.cells.dom().contains(p) <==> after.in_bounds(p.0, p.1) by {
        assert(second.cells.dom().contains(p) <==> second.in_bounds(p.0, p.1));
    }
}

/// Velocity bound: where every cell is within the speed limit of its
/// material before a tick, every cell is within it after.
pub proof fn lemma_tick_keeps_bounds(before: GridView, after: GridView)
    requires
        before.wf(),
        before.bounded(),
        tick_outcome(before, after),
    ensures
        after.bounded(),
{
    let (first, second) = choose|first: GridView, second: GridView|
        pass_run(before, 0, before.height as nat, first) && #[trigger] pass_run(
            first,
            1,
            before.height as nat,
            second,
        ) && after == second.cleared();
    lemma_pass_keeps_grid(before, 0, before.height as nat, first);
    lemma_pass_keeps_grid(first, 1, before.height as nat, second);
    assert forall|x: int, y: int| after.in_bounds(x, y) implies (#[trigger] after.at(x, y)).wf() by {
        assert(second.cells.dom().contains((x, y)));
        assert(second.at(x, y).wf());
    }
}

/// Flag reset: after a tick no cell is flagged as moved.
pub proof fn lemma_tick_clears_flags(before: GridView, after: GridView, x: int, y: int)
    requires
        before.wf(),
        tick_outcome(before, after),
        before.in_bounds(x, y),
    ensures
        !after.at(x, y).moved,
{
    let (first, second) = choose|first: GridView, second: GridView|
        pass_run(before, 0, before.height as nat, first) && #[trigger] pass_run(
            first,
            1,
            before.height as nat,
            second,
        ) && after == second.cleared();
    lemma_pass_keeps_grid(before, 0, before.height as nat, first);
    lemma_pass_keeps_grid(first, 1, before.height as nat, second);
    assert(second.cells.dom().contains((x, y)));
}

/// At most one move: a visit to a cell that a move of this tick has ended on
/// changes nothing.
pub proof fn lemma_moved_cell_rests(before: GridView, pass: int, x: int, y: int, after: GridView)
    requires
        before.at(x, y).moved,
        cell_step(before, pass, x, y, after),
    ensures
        after == before,
{
}

/// One more visit extends a run over a row.
proof fn lemma_row_extend(
    before: GridView,
    pass: int,
    y: int,
    k: nat,
    mid: GridView,
    after: GridView,
)
    requires
        row_run(before, pass, y, k, mid),
        cell_step(mid, pass, column(pass, before.width, k as int), y, after),
    ensures
        row_run(before, pass, y, k + 1, after),
{
    assert(visit(mid, pass, before.width, k + 1, y, after));
}

/// One more row extends a run of a pass.
proof fn lemma_pass_extend(
    before: GridView,
    pass: int,
    rows: nat,
    mid: GridView,
    after: GridView,
)
    requires
        pass_run(before, pass, rows, mid),
        row_run(mid, pass, before.height - (rows + 1), before.width as nat, after),
    ensures
        pass_run(before, pass, rows + 1, after),
{
    assert(sweep(mid, pass, before.width, before.height, rows + 1, after));
}

/// Gives the cell at a coordinate its turn in pass `i`, unless the pass skips
/// its column or a move of this tick has ended on it.
pub fn update_cell(i: usize, grid: &mut Grid, x: usize, y: usize, rng: &fastrand::Rng)
    requires
        old(grid).wf(),
        old(grid)@.in_bounds(x as int, y as int),
    ensures
        final(grid).wf(),
        cell_step(old(grid)@, i as int, x as int, y as int, final(grid)@),
        old(grid)@.at(x as int, y as int).moved ==> final(grid)@ == old(grid)@,
        final(grid)@.width == old(grid)@.width,
        final(grid)@.height == old(grid)@.height,
        old(grid)@.bounded() ==> final(grid)@.bounded(),
{
    if x % 2 == i {
        return ;
    }
    proof {
        grid.lemma_view_wf();
    }
    let cell = grid.get_cell(x, y);
    if cell.moved {
        return ;
    }
    match cell.ty {
        CellType::Sand => {
            let types = [CellType::Air, CellType::Water, CellType::Steam, CellType::Smoke];
            assert(types@ =~= sand_fall_through());
            update_sand(grid, x, y, types.as_slice(), rng);
        },
        CellType::Water => {
            let types = [CellType::Air, CellType::Steam, CellType::Smoke];
            assert(types@ =~= water_empty());
            update_water(grid, x, y, types.as_slice(), rng);
        },
        CellType::Fire => {
            let types = [CellType::Wood];
            assert(types@ =~= burnable());
            update_fire(grid, x, y, types.as_slice(), rng);
        },
        CellType::Smoke => {
            let types = [CellType::Air];
            assert(types@ =~= gas_empty());
            update_smoke(grid, x, y, types.as_slice(), rng);
        },
        CellType::Steam => {
            let types = [CellType::Air];
            assert(types@ =~= gas_empty());
            update_steam(grid, x, y, types.as_slice(), rng);
        },
        _ => (),
    }
    proof {
        lemma_turn_keeps_grid(old(grid)@, x as int, y as int, grid@);
    }
}

/// Runs one pass over one row.
pub fn update_row(i: usize, grid: &mut Grid, y: usize, rng: &fastrand::Rng)
    requires
        old(grid).wf(),
        y < old(grid)@.height,
    ensures
        final(grid).wf(),
        row_run(old(grid)@, i as int, y as int, old(grid)@.width as nat, final(grid)@),
        final(grid)@.width == old(grid)@.width,
        final(grid)@.height == old(grid)@.height,
        old(grid)@.bounded() ==> final(grid)@.bounded(),
{
    let width = grid.width();
    let mut k: usize = 0;
    while k < width
        invariant
            k <= width,
            grid.wf(),
            width == old(grid)@.width,
            y < old(grid)@.height,
            grid@.width == old(grid)@.width,
            grid@.height == old(grid)@.height,
            row_run(old(grid)@, i as int, y as int, k as nat, grid@),
            old(grid)@.bounded() ==> grid@.bounded(),
        decreases width - k,
    {
        let ghost mid = grid@;
        let x = if i == 1 {
            k
        } else {
            width - 1 - k
        };
        update_cell(i, grid, x, y, rng);
        proof {
            lemma_row_extend(old(grid)@, i as int, y as int, k as nat, mid, grid@);
        }
        k += 1;
    }
}

/// Runs one pass over the grid, from the bottom row up.
pub fn update_pass(i: usize, grid: &mut Grid, rng: &fastrand::Rng)
    requires
        old(grid).wf(),
    ensures
        final(grid).wf(),
        pass_run(old(grid)@, i as int, old(grid)@.height as nat, final(grid)@),
        final(grid)@.width == old(grid)@.width,
        final(grid)@.height == old(grid)@.height,
        old(grid)@.bounded() ==> final(grid)@.bounded(),
{
    let height = grid.height();
    let mut rows: usize = 0;
    while rows < height
        invariant
            rows <= height,
            grid.wf(),
            height == old(grid)@.height,
            grid@.width == old(grid)@.width,
            grid@.height == old(grid)@.height,
            pass_run(old(grid)@, i as int, rows as nat, grid@),
            old(grid)@.bounded() ==> grid@.bounded(),
        decreases height - rows,
    {
        let ghost mid = grid@;
        update_row(i, grid, height - 1 - rows, rng);
        proof {
            lemma_pass_extend(old(grid)@, i as int, rows as nat, mid, grid@);
        }
        rows += 1;
    }
}

/// Advances the grid by one tick.
pub fn update_cells(grid: &mut Grid, rng: &fastrand::Rng)
    requires
        old(grid).wf(),
    ensures
        final(grid).wf(),
        tick_outcome(old(grid)@, final(grid)@),
        final(grid)@.wf(),
        final(grid)@.width == old(grid)@.width,
        final(grid)@.height == old(grid)@.height,
        forall|x: int, y: int|
            final(grid)@.in_bounds(x, y) ==> !(#[trigger] final(grid)@.at(x, y)).moved,
        old(grid)@.bounded() ==> final(grid)@.bounded(),
{
    update_pass(0, grid, rng);
    let ghost first = grid@;
    update_pass(1, grid, rng);
    let ghost second = grid@;
    grid.clear_moved();
    proof {
        grid.lemma_view_wf();
    }
    assert(pass_run(old(grid)@, 0, old(grid)@.height as nat, first) && pass_run(
        first,
        1,
        old(grid)@.height as nat,
        second,
    ) && grid@ == second.cleared());
}

} // verus!
