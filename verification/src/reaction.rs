//! What each material does on its turn.

use vstd::prelude::*;
use crate::cell::Cell;
use crate::grid::{Grid, GridView, in_bounds, spread_to_cell};
use crate::material::{
    CellType, ACCELERATION, MAX_VELOCITY, REST_VELOCITY, SMOKE_ACCELERATION, SMOKE_MAX_VELOCITY,
    STEAM_ACCELERATION, STEAM_MAX_VELOCITY, contains_type,
};
use crate::movement::{
    fall_spec, fall_target, fluid_spec, generic_fall, generic_fluid, keeps_bounds, spread_target,
};
use crate::palette::{
    AIR_COLOR, SMOKE_COLOR_LIGHT, STEAM_COLOR_LIGHT, cell_type_color_random, gas_color, gas_tone,
    in_palette, palette,
};
use crate::random::roll;
use crate::search::{
    farthest_match, lemma_farthest_step_none, lemma_unit_product, point, qualifies, step_target,
};

verus! {

/// `after` is a grid that a turn of sand at `pos` can leave: the cell has
/// tried to fall under the limits of solids, by one side of the coin or the other.
pub open spec fn sand_outcome(
    before: GridView,
    pos: (int, int),
    empty: Seq<CellType>,
    after: GridView,
) -> bool {
    exists|heads: bool|
        after == #[trigger] fall_spec(before, pos, empty, MAX_VELOCITY, ACCELERATION, false, heads)
}

/// Lets a sand cell fall.
pub fn update_sand(
    grid: &mut Grid,
    x: usize,
    y: usize,
    empty_types: &[CellType],
    rng: &fastrand::Rng,
)
    requires
        old(grid).wf(),
        old(grid)@.in_bounds(x as int, y as int),
    ensures
        final(grid).wf(),
        sand_outcome(old(grid)@, (x as int, y as int), empty_types@, final(grid)@),
        keeps_bounds(old(grid)@, (x as int, y as int), MAX_VELOCITY) ==> final(grid)@.bounded(),
{
    generic_fall(grid, (x, y), empty_types, MAX_VELOCITY, ACCELERATION, false, rng);
}

/// The grid with the cell at `pos` in another colour, if one is given.
pub open spec fn recolored(grid: GridView, pos: (int, int), tint: Option<[u8; 3]>) -> GridView {
    match tint {
        Some(color) => grid.put(pos.0, pos.1, Cell { color, ..grid.at(pos.0, pos.1) }),
        None => grid,
    }
}

/// A new colour may be given only to a resting cell, from the palette of its material.
pub open spec fn shimmers(cell: Cell, tint: Option<[u8; 3]>) -> bool {
    tint matches Some(color) ==> cell.velocity < REST_VELOCITY && in_palette(cell.ty, color)
}

/// `after` is a grid that a turn of water at `pos` can leave: the cell, perhaps
/// in a new colour, has moved as a fluid under the limits of liquids.
pub open spec fn water_outcome(
    before: GridView,
    pos: (int, int),
    empty: Seq<CellType>,
    after: GridView,
) -> bool {
    exists|tint: Option<[u8; 3]>, heads: bool|
        shimmers(before.at(pos.0, pos.1), tint) && after == #[trigger] fluid_spec(
            recolored(before, pos, tint),
            pos,
            empty,
            MAX_VELOCITY,
            ACCELERATION,
            false,
            heads,
        )
}

/// Lets a water cell move as a fluid. One time in eight a resting cell first
/// takes a new colour from its palette.
pub fn update_water(
    grid: &mut Grid,
    x: usize,
    y: usize,
    empty_types: &[CellType],
    rng: &fastrand::Rng,
)
    requires
        old(grid).wf(),
        old(grid)@.in_bounds(x as int, y as int),
    ensures
        final(grid).wf(),
        water_outcome(old(grid)@, (x as int, y as int), empty_types@, final(grid)@),
        keeps_bounds(old(grid)@, (x as int, y as int), MAX_VELOCITY) ==> final(grid)@.bounded(),
{
    let ghost pos = (x as int, y as int);
    let mut cell = grid.get_cell(x, y);
    let mut tint: Ghost<Option<[u8; 3]>> = Ghost(None);
    if roll(rng, 8) == 0 && cell.velocity < REST_VELOCITY {
        cell.color = cell_type_color_random(&cell, rng);
        proof {
            tint@ = Some(cell.color);
        }
        grid.set_cell(x, y, cell);
    }
    assert(grid@ == recolored(old(grid)@, pos, tint@));
    generic_fluid(grid, (x, y), empty_types, MAX_VELOCITY, ACCELERATION, false, rng);
    proof {
        let start = recolored(old(grid)@, pos, tint@);
        let heads = choose|heads: bool|
            grid@ == #[trigger] fluid_spec(
                start,
                pos,
                empty_types@,
                MAX_VELOCITY,
                ACCELERATION,
                false,
                heads,
            );
        assert(shimmers(old(grid)@.at(pos.0, pos.1), tint@) && grid@ == fluid_spec(
            recolored(old(grid)@, pos, tint@),
            pos,
            empty_types@,
            MAX_VELOCITY,
            ACCELERATION,
            false,
            heads,
        ));
    }
}

/// A gas cell one tick older: one tick less to live, in the tone of its age.
pub open spec fn aged(cell: Cell, gas: CellType) -> Cell {
    Cell {
        lifetime: (cell.lifetime - 1) as u32,
        color: gas_color(gas, (cell.lifetime - 1) as u32),
        ..cell
    }
}

/// The grid after a smoke cell has had its turn: at the end of its life it
/// becomes air; before, it ages and rises as a fluid.
pub open spec fn smoke_spec(
    grid: GridView,
    pos: (int, int),
    empty: Seq<CellType>,
    heads: bool,
) -> GridView {
    let cell = grid.at(pos.0, pos.1);
    if cell.lifetime == 0 {
        grid.put(pos.0, pos.1, Cell::fresh(CellType::Air, AIR_COLOR))
    } else {
        fluid_spec(
            grid.put(pos.0, pos.1, aged(cell, CellType::Smoke)),
            pos,
            empty,
            SMOKE_MAX_VELOCITY,
            SMOKE_ACCELERATION,
            true,
            heads,
        )
    }
}

/// `after` is a grid that a turn of smoke at `pos` can leave.
pub open spec fn smoke_outcome(
    before: GridView,
    pos: (int, int),
    empty: Seq<CellType>,
    after: GridView,
) -> bool {
    exists|heads: bool| after == #[trigger] smoke_spec(before, pos, empty, heads)
}

/// Gives a smoke cell its turn.
pub fn update_smoke(
    grid: &mut Grid,
    x: usize,
    y: usize,
    empty_types: &[CellType],
    rng: &fastrand::Rng,
)
    requires
        old(grid).wf(),
        old(grid)@.in_bounds(x as int, y as int),
    ensures
        final(grid).wf(),
        smoke_outcome(old(grid)@, (x as int, y as int), empty_types@, final(grid)@),
        keeps_bounds(old(grid)@, (x as int, y as int), SMOKE_MAX_VELOCITY) ==>
            final(grid)@.bounded(),
{
    let ghost pos = (x as int, y as int);
    let mut cell = grid.get_cell(x, y);
    if cell.lifetime == 0 {
        let air = Cell::from(CellType::Air, rng);
        grid.set_cell(x, y, air);
        assert(grid@ == smoke_spec(old(grid)@, pos, empty_types@, true));
        return ;
    }
    cell.lifetime = cell.lifetime - 1;
    cell.color = gas_tone(CellType::Smoke, cell.lifetime);
    grid.set_cell(x, y, cell);
    let ghost start = grid@;
    generic_fluid(grid, (x, y), empty_types, SMOKE_MAX_VELOCITY, SMOKE_ACCELERATION, true, rng);
    proof {
        let heads = choose|heads: bool|
            grid@ == #[trigger] fluid_spec(
                start,
                pos,
                empty_types@,
                SMOKE_MAX_VELOCITY,
                SMOKE_ACCELERATION,
                true,
                heads,
            );
        assert(grid@ == smoke_spec(old(grid)@, pos, empty_types@, heads));
    }
}

/// What a steam cell turns into at the end of its life: water in the given
/// colour where it condenses, air where it does not.
pub open spec fn condensed(condenses: bool, tint: [u8; 3]) -> Cell {
    if condenses {
        Cell::fresh(CellType::Water, tint)
    } else {
        Cell::fresh(CellType::Air, AIR_COLOR)
    }
}

/// The grid after a steam cell has had its turn: at the end of its life it
/// condenses to water or vanishes into air; before, it ages and rises as a fluid.
pub open spec fn steam_spec(
    grid: GridView,
    pos: (int, int),
    empty: Seq<CellType>,
    condenses: bool,
    tint: [u8; 3],
    heads: bool,
) -> GridView {
    let cell = grid.at(pos.0, pos.1);
    if cell.lifetime == 0 {
        grid.put(pos.0, pos.1, condensed(condenses, tint))
    } else {
        fluid_spec(
            grid.put(pos.0, pos.1, aged(cell, CellType::Steam)),
            pos,
            empty,
            STEAM_MAX_VELOCITY,
            STEAM_ACCELERATION,
            true,
            heads,
        )
    }
}

/// Ends the life of the steam cell at a coordinate: it becomes a new water
/// cell if `condenses`, and a new air cell if not.
pub fn expire_steam(grid: &mut Grid, x: usize, y: usize, condenses: bool, rng: &fastrand::Rng)
    requires
        old(grid).wf(),
        old(grid)@.in_bounds(x as int, y as int),
    ensures
        final(grid).wf(),
        exists|tint: [u8; 3]|
            in_palette(CellType::Water, tint) && final(grid)@ == old(grid)@.put(
                x as int,
                y as int,
                #[trigger] condensed(condenses, tint),
            ),
        old(grid)@.bounded() ==> final(grid)@.bounded(),
{
    let cell = if condenses {
        Cell::from(CellType::Water, rng)
    } else {
        Cell::from(CellType::Air, rng)
    };
    grid.set_cell(x, y, cell);
    proof {
        let tint = if condenses {
            cell.color
        } else {
            palette(CellType::Water, 0)
        };
        assert(in_palette(CellType::Water, tint));
        assert(cell == condensed(condenses, tint));
    }
}

/// `after` is a grid that a turn of steam at `pos` can leave.
pub open spec fn steam_outcome(
    before: GridView,
    pos: (int, int),
    empty: Seq<CellType>,
    after: GridView,
) -> bool {
    exists|condenses: bool, tint: [u8; 3], heads: bool|
        in_palette(CellType::Water, tint) && after == #[trigger] steam_spec(
            before,
            pos,
            empty,
            condenses,
            tint,
            heads,
        )
}

/// Gives a steam cell its turn. At the end of its life it condenses one time
/// in sixty-four.
pub fn update_steam(
    grid: &mut Grid,
    x: usize,
    y: usize,
    empty_types: &[CellType],
    rng: &fastrand::Rng,
)
    requires
        old(grid).wf(),
        old(grid)@.in_bounds(x as int, y as int),
    ensures
        final(grid).wf(),
        steam_outcome(old(grid)@, (x as int, y as int), empty_types@, final(grid)@),
        keeps_bounds(old(grid)@, (x as int, y as int), STEAM_MAX_VELOCITY) ==>
            final(grid)@.bounded(),
{
    let ghost pos = (x as int, y as int);
    let mut cell = grid.get_cell(x, y);
    if cell.lifetime == 0 {
        let condenses = roll(rng, 64) == 0;
        expire_steam(grid, x, y, condenses, rng);
        proof {
            let tint = choose|tint: [u8; 3]|
                in_palette(CellType::Water, tint) && grid@ == old(grid)@.put(
                    pos.0,
                    pos.1,
                    #[trigger] condensed(condenses, tint),
                );
            assert(grid@ == steam_spec(old(grid)@, pos, empty_types@, condenses, tint, true));
        }
        return ;
    }
    cell.lifetime = cell.lifetime - 1;
    cell.color = gas_tone(CellType::Steam, cell.lifetime);
    grid.set_cell(x, y, cell);
    let ghost start = grid@;
    generic_fluid(grid, (x, y), empty_types, STEAM_MAX_VELOCITY, STEAM_ACCELERATION, true, rng);
    proof {
        let heads = choose|heads: bool|
            grid@ == #[trigger] fluid_spec(
                start,
                pos,
                empty_types@,
                STEAM_MAX_VELOCITY,
                STEAM_ACCELERATION,
                true,
                heads,
            );
        let tint = palette(CellType::Water, 0);
        assert(in_palette(CellType::Water, tint));
        assert(grid@ == steam_spec(old(grid)@, pos, empty_types@, false, tint, heads));
    }
}

/// The step from a cell to its `k`-th neighbour: left, right, up, down, then
/// up-left, down-left, up-right, down-right.
pub open spec fn neighbor_offset(k: int) -> (int, int) {
    if k == 0 {
        (-1, 0)
    } else if k == 1 {
        (1, 0)
    } else if k == 2 {
        (0, -1)
    } else if k == 3 {
        (0, 1)
    } else if k == 4 {
        (-1, -1)
    } else if k == 5 {
        (-1, 1)
    } else if k == 6 {
        (1, -1)
    } else {
        (1, 1)
    }
}

/// The `k`-th neighbour of a coordinate.
pub open spec fn neighbor(pos: (int, int), k: int) -> (int, int) {
    (pos.0 + neighbor_offset(k).0, pos.1 + neighbor_offset(k).1)
}

/// The `k`-th neighbour lies on the grid and burns.
pub open spec fn ignites(grid: GridView, pos: (int, int), burn: Seq<CellType>, k: int) -> bool {
    let n = neighbor(pos, k);
    grid.in_bounds(n.0, n.1) && burn.contains(grid.at(n.0, n.1).ty)
}

/// The `k`-th neighbour lies on the grid, does not burn, and is water.
pub open spec fn douses(grid: GridView, pos: (int, int), burn: Seq<CellType>, k: int) -> bool {
    let n = neighbor(pos, k);
    grid.in_bounds(n.0, n.1) && !burn.contains(grid.at(n.0, n.1).ty) && grid.at(n.0, n.1).ty
        == CellType::Water
}

/// The first neighbour from the `k`-th on that douses the fire, or 8 where none does.
pub open spec fn first_douse(grid: GridView, pos: (int, int), burn: Seq<CellType>, k: int) -> int
    decreases 8 - k,
{
    if k >= 8 {
        8
    } else if douses(grid, pos, burn, k) {
        k
    } else {
        first_douse(grid, pos, burn, k + 1)
    }
}

/// `p` is the `k`-th neighbour, it burns, and it comes before `limit`.
pub open spec fn lit_at(
    grid: GridView,
    pos: (int, int),
    burn: Seq<CellType>,
    limit: int,
    p: (int, int),
    k: int,
) -> bool {
    k < limit && p == neighbor(pos, k) && ignites(grid, pos, burn, k)
}

/// `p` is one of the first `limit` neighbours, and it burns.
pub open spec fn lit(
    grid: GridView,
    pos: (int, int),
    burn: Seq<CellType>,
    limit: int,
    p: (int, int),
) -> bool {
    lit_at(grid, pos, burn, limit, p, 0) || lit_at(grid, pos, burn, limit, p, 1) || lit_at(
        grid,
        pos,
        burn,
        limit,
        p,
        2,
    ) || lit_at(grid, pos, burn, limit, p, 3) || lit_at(grid, pos, burn, limit, p, 4) || lit_at(
        grid,
        pos,
        burn,
        limit,
        p,
        5,
    ) || lit_at(grid, pos, burn, limit, p, 6) || lit_at(grid, pos, burn, limit, p, 7)
}

/// One of the first `limit` neighbours burns.
pub open spec fn any_lit(grid: GridView, pos: (int, int), burn: Seq<CellType>, limit: int) -> bool {
    lit(grid, pos, burn, limit, neighbor(pos, 0)) || lit(grid, pos, burn, limit, neighbor(pos, 1))
        || lit(grid, pos, burn, limit, neighbor(pos, 2)) || lit(
        grid,
        pos,
        burn,
        limit,
        neighbor(pos, 3),
    ) || lit(grid, pos, burn, limit, neighbor(pos, 4)) || lit(
        grid,
        pos,
        burn,
        limit,
        neighbor(pos, 5),
    ) || lit(grid, pos, burn, limit, neighbor(pos, 6)) || lit(
        grid,
        pos,
        burn,
        limit,
        neighbor(pos, 7),
    )
}

/// The cell is a newly made cell of the material, flagged as moved.
pub open spec fn kindled(cell: Cell, cell_type: CellType) -> bool {
    cell.moved && cell.flagged(false).is_fresh(cell_type)
}

/// The burning cell after it has looked at its neighbours: steam where water
/// doused it; flagged and in a new colour where it spread; else as it was.
pub open spec fn source_after(before: Cell, after: Cell, spread: bool, doused: bool) -> bool {
    if doused {
        after == Cell::fresh(CellType::Steam, STEAM_COLOR_LIGHT)
    } else if spread {
        after == (Cell { moved: true, color: after.color, ..before }) && in_palette(
            before.ty,
            after.color,
        )
    } else {
        after == before
    }
}

/// The grid `after` the cell at `pos` has looked at its first `limit`
/// neighbours: where the fire spreads, each of them that burns holds a newly
/// made cell of the material at `pos`, flagged; every other cell but the one
/// at `pos` is as it was.
pub open spec fn spread_outcome(
    before: GridView,
    pos: (int, int),
    burn: Seq<CellType>,
    should_spread: bool,
    limit: int,
    doused: bool,
    after: GridView,
) -> bool {
    &&& after.width == before.width
    &&& after.height == before.height
    &&& after.wf()
    &&& forall|x: int, y: int|
        before.in_bounds(x, y) && (x, y) != pos ==> if should_spread && lit(
            before,
            pos,
            burn,
            limit,
            (x, y),
        ) {
            kindled(#[trigger] after.at(x, y), before.at(pos.0, pos.1).ty)
        } else {
            after.at(x, y) == before.at(x, y)
        }
    &&& source_after(
        before.at(pos.0, pos.1),
        after.at(pos.0, pos.1),
        should_spread && any_lit(before, pos, burn, limit),
        doused,
    )
}

/// What is left of a fire that has burnt out: smoke or air.
pub open spec fn burnt(to_smoke: bool) -> Cell {
    if to_smoke {
        Cell::fresh(CellType::Smoke, SMOKE_COLOR_LIGHT)
    } else {
        Cell::fresh(CellType::Air, AIR_COLOR)
    }
}

/// The grid `after` a fire at `pos` has had its turn. Water next to it douses
/// it into steam, whether it spreads or not; the neighbours before that water
/// are looked at first. A fire that spreads sets each burning neighbour
/// alight and, unless doused, burns out into smoke or air. A fire that
/// neither spreads nor is doused stays as it is.
pub open spec fn fire_outcome(
    before: GridView,
    pos: (int, int),
    burn: Seq<CellType>,
    should_spread: bool,
    to_smoke: bool,
    after: GridView,
) -> bool {
    let stop = first_douse(before, pos, burn, 0);
    &&& after.width == before.width
    &&& after.height == before.height
    &&& after.wf()
    &&& forall|x: int, y: int|
        before.in_bounds(x, y) && (x, y) != pos ==> if should_spread && lit(
            before,
            pos,
            burn,
            stop,
            (x, y),
        ) {
            kindled(#[trigger] after.at(x, y), before.at(pos.0, pos.1).ty)
        } else {
            after.at(x, y) == before.at(x, y)
        }
    &&& after.at(pos.0, pos.1) == if stop < 8 {
        Cell::fresh(CellType::Steam, STEAM_COLOR_LIGHT)
    } else if should_spread {
        burnt(to_smoke)
    } else {
        before.at(pos.0, pos.1)
    }
}

/// Looking at one more neighbour adds it to those alight if it burns, and no other.
proof fn lemma_lit_step(
    grid: GridView,
    pos: (int, int),
    burn: Seq<CellType>,
    k: int,
    p: (int, int),
)
    requires
        0 <= k < 8,
    ensures
        lit(grid, pos, burn, k + 1, p) == (lit(grid, pos, burn, k, p) || (p == neighbor(pos, k)
            && ignites(grid, pos, burn, k))),
        any_lit(grid, pos, burn, k + 1) == (any_lit(grid, pos, burn, k) || ignites(
            grid,
            pos,
            burn,
            k,
        )),
        !lit(grid, pos, burn, k, neighbor(pos, k)),
        !lit(grid, pos, burn, k + 1, pos),
{
}

/// The step to the `k`-th neighbour.
pub fn neighbor_step(k: usize) -> (offset: (isize, isize))
    requires
        k < 8,
    ensures
        (offset.0 as int, offset.1 as int) == neighbor_offset(k as int),
{
    if k == 0 {
        (-1, 0)
    } else if k == 1 {
        (1, 0)
    } else if k == 2 {
        (0, -1)
    } else if k == 3 {
        (0, 1)
    } else if k == 4 {
        (-1, -1)
    } else if k == 5 {
        (-1, 1)
    } else if k == 6 {
        (1, -1)
    } else {
        (1, 1)
    }
}

/// Lets the cell at a coordinate look at its neighbours in turn. Where
/// `should_spread`, it takes a new colour and spreads to each neighbour whose
/// material is one of `burn_types`. At the first neighbour that does not burn
/// and is water it turns to steam, and the answer is `true`.
pub fn spread_fire(
    grid: &mut Grid,
    x: usize,
    y: usize,
    burn_types: &[CellType],
    should_spread: bool,
    rng: &fastrand::Rng,
) -> (doused: bool)
    requires
        old(grid).wf(),
        old(grid)@.in_bounds(x as int, y as int),
    ensures
        final(grid).wf(),
        doused == (first_douse(old(grid)@, (x as int, y as int), burn_types@, 0) < 8),
        spread_outcome(
            old(grid)@,
            (x as int, y as int),
            burn_types@,
            should_spread,
            first_douse(old(grid)@, (x as int, y as int), burn_types@, 0),
            doused,
            final(grid)@,
        ),
        old(grid)@.bounded() ==> final(grid)@.bounded(),
{
    let ghost start = grid@;
    let ghost pos = (x as int, y as int);
    let ghost burn = burn_types@;
    proof {
        grid.lemma_view_wf();
    }
    let mut k: usize = 0;
    while k < 8
        invariant
            k <= 8,
            grid.wf(),
            start == old(grid)@,
            start.wf(),
            start.in_bounds(pos.0, pos.1),
            start.width <= isize::MAX,
            start.height <= isize::MAX,
            pos == (x as int, y as int),
            burn == burn_types@,
            first_douse(start, pos, burn, 0) == first_douse(start, pos, burn, k as int),
            spread_outcome(start, pos, burn, should_spread, k as int, false, grid@),
            start.bounded() ==> grid@.bounded(),
        decreases 8 - k,
    {
        let ghost before = grid@;
        let offset = neighbor_step(k);
        let nx = x as isize + offset.0;
        let ny = y as isize + offset.1;
        proof {
            assert((nx as int, ny as int) == neighbor(pos, k as int));
            assert forall|p: (int, int)| true implies lit(start, pos, burn, k + 1, p) == (lit(
                start,
                pos,
                burn,
                k as int,
                p,
            ) || (p == neighbor(pos, k as int) && ignites(start, pos, burn, k as int))) by {
                lemma_lit_step(start, pos, burn, k as int, p);
            }
            lemma_lit_step(start, pos, burn, k as int, pos);
        }
        if in_bounds(grid, nx, ny) {
            let n = (nx as usize, ny as usize);
            assert(before.at(nx as int, ny as int) == start.at(nx as int, ny as int));
            let neighbor_type = grid.get_cell(n.0, n.1).ty;
            if contains_type(burn_types, neighbor_type) {
                assert(ignites(start, pos, burn, k as int));
                if should_spread {
                    let mut source = grid.get_cell(x, y);
                    source.color = cell_type_color_random(&source, rng);
                    grid.set_cell(x, y, source);
                    let ghost recolored = grid@;
                    spread_to_cell(grid, (x, y), n, rng);
                    proof {
                        let color = choose|color: [u8; 3]|
                            in_palette(recolored.at(pos.0, pos.1).ty, color) && grid@
                                == #[trigger] recolored.spread(pos, point(n), color);
                        let lit_cell = Cell::fresh(source.ty, color).flagged(true);
                        assert(lit_cell.flagged(false) == Cell::fresh(source.ty, color));
                        grid.lemma_view_wf();
                        assert(grid@.at(pos.0, pos.1) == source.flagged(true));
                        assert(grid@.at(nx as int, ny as int) == lit_cell);
                        assert(kindled(lit_cell, start.at(pos.0, pos.1).ty));
                        assert forall|a: int, b: int|
                            start.in_bounds(a, b) && (a, b) != pos implies if should_spread && lit(
                            start,
                            pos,
                            burn,
                            k + 1,
                            (a, b),
                        ) {
                            kindled(#[trigger] grid@.at(a, b), start.at(pos.0, pos.1).ty)
                        } else {
                            grid@.at(a, b) == start.at(a, b)
                        } by {
                            if (a, b) != (nx as int, ny as int) {
                                assert(grid@.at(a, b) == before.at(a, b));
                            }
                        }
                    }
                }
            } else if neighbor_type == CellType::Water {
                let steam = Cell::from(CellType::Steam, rng);
                grid.set_cell(x, y, steam);
                proof {
                    grid.lemma_view_wf();
                    assert(douses(start, pos, burn, k as int));
                    assert(first_douse(start, pos, burn, k as int) == k as int);
                    assert(steam == Cell::fresh(CellType::Steam, STEAM_COLOR_LIGHT));
                    assert forall|a: int, b: int|
                        start.in_bounds(a, b) && (a, b) != pos implies if should_spread && lit(
                        start,
                        pos,
                        burn,
                        k as int,
                        (a, b),
                    ) {
                        kindled(#[trigger] grid@.at(a, b), start.at(pos.0, pos.1).ty)
                    } else {
                        grid@.at(a, b) == start.at(a, b)
                    } by {
                        assert(grid@.at(a, b) == before.at(a, b));
                    }
                }
                return true;
            }
        }
        k += 1;
    }
    false
}

/// Lets the fire at a coordinate burn out: the cell becomes a new smoke cell
/// if `to_smoke`, and a new air cell if not.
pub fn burn_out(grid: &mut Grid, x: usize, y: usize, to_smoke: bool, rng: &fastrand::Rng)
    requires
        old(grid).wf(),
        old(grid)@.in_bounds(x as int, y as int),
    ensures
        final(grid).wf(),
        final(grid)@ == old(grid)@.put(x as int, y as int, burnt(to_smoke)),
        old(grid)@.bounded() ==> final(grid)@.bounded(),
{
    let cell = if to_smoke {
        Cell::from(CellType::Smoke, rng)
    } else {
        Cell::from(CellType::Air, rng)
    };
    grid.set_cell(x, y, cell);
}

/// A fire that has looked at its neighbours and, where it spread without
/// being doused, has burnt out, has had its turn.
proof fn lemma_fire_turn(
    before: GridView,
    pos: (int, int),
    burn: Seq<CellType>,
    should_spread: bool,
    to_smoke: bool,
    doused: bool,
    mid: GridView,
    after: GridView,
)
    requires
        before.in_bounds(pos.0, pos.1),
        doused == (first_douse(before, pos, burn, 0) < 8),
        spread_outcome(
            before,
            pos,
            burn,
            should_spread,
            first_douse(before, pos, burn, 0),
            doused,
            mid,
        ),
        after == if !doused && should_spread {
            mid.put(pos.0, pos.1, burnt(to_smoke))
        } else {
            mid
        },
    ensures
        fire_outcome(before, pos, burn, should_spread, to_smoke, after),
{
    let stop = first_douse(before, pos, burn, 0);
    assert forall|x: int, y: int| before.in_bounds(x, y) && (x, y) != pos implies if should_spread
        && lit(before, pos, burn, stop, (x, y)) {
        kindled(#[trigger] after.at(x, y), before.at(pos.0, pos.1).ty)
    } else {
        after.at(x, y) == before.at(x, y)
    } by {
        assert(after.at(x, y) == mid.at(x, y));
    }
}

/// Gives a fire its turn, the dice already rolled.
pub fn update_fire_with(
    grid: &mut Grid,
    x: usize,
    y: usize,
    burn_types: &[CellType],
    should_spread: bool,
    to_smoke: bool,
    rng: &fastrand::Rng,
)
    requires
        old(grid).wf(),
        old(grid)@.in_bounds(x as int, y as int),
    ensures
        final(grid).wf(),
        fire_outcome(
            old(grid)@,
            (x as int, y as int),
            burn_types@,
            should_spread,
            to_smoke,
            final(grid)@,
        ),
        old(grid)@.bounded() ==> final(grid)@.bounded(),
{
    let doused = spread_fire(grid, x, y, burn_types, should_spread, rng);
    let ghost mid = grid@;
    if !doused && should_spread {
        burn_out(grid, x, y, to_smoke, rng);
    }
    proof {
        lemma_fire_turn(
            old(grid)@,
            (x as int, y as int),
            burn_types@,
            should_spread,
            to_smoke,
            doused,
            mid,
            grid@,
        );
    }
}

/// `after` is a grid that a turn of fire at `pos` can leave, however the dice fall.
pub open spec fn fire_turn_outcome(
    before: GridView,
    pos: (int, int),
    burn: Seq<CellType>,
    after: GridView,
) -> bool {
    exists|should_spread: bool, to_smoke: bool| #[trigger]
        fire_outcome(before, pos, burn, should_spread, to_smoke, after)
}

/// Gives a fire its turn. One time in sixty-four it spreads; a fire that has
/// spread and was not doused burns out, one time in eight into smoke.
pub fn update_fire(
    grid: &mut Grid,
    x: usize,
    y: usize,
    burn_types: &[CellType],
    rng: &fastrand::Rng,
)
    requires
        old(grid).wf(),
        old(grid)@.in_bounds(x as int, y as int),
    ensures
        final(grid).wf(),
        fire_turn_outcome(old(grid)@, (x as int, y as int), burn_types@, final(grid)@),
        old(grid)@.bounded() ==> final(grid)@.bounded(),
{
    let should_spread = roll(rng, 64) == 0;
    let doused = spread_fire(grid, x, y, burn_types, should_spread, rng);
    let ghost mid = grid@;
    let mut to_smoke = false;
    if !doused && should_spread {
        to_smoke = roll(rng, 8) == 0;
        burn_out(grid, x, y, to_smoke, rng);
    }
    proof {
        lemma_fire_turn(
            old(grid)@,
            (x as int, y as int),
            burn_types@,
            should_spread,
            to_smoke,
            doused,
            mid,
            grid@,
        );
    }
}

/// A neighbour that douses stops the scan of the neighbours at or before it.
pub proof fn lemma_first_douse(
    grid: GridView,
    pos: (int, int),
    burn: Seq<CellType>,
    from: int,
    k: int,
)
    requires
        0 <= from <= k < 8,
        douses(grid, pos, burn, k),
    ensures
        first_douse(grid, pos, burn, from) <= k,
    decreases k - from,
{
    if from < k && !douses(grid, pos, burn, from) {
        lemma_first_douse(grid, pos, burn, from + 1, k);
    }
}

/// Water always puts out the fire next to it: where any neighbour of a fire
/// is water that does not burn, the fire is steam after its turn, whether or
/// not it spreads.
pub proof fn lemma_water_extinguishes(
    before: GridView,
    pos: (int, int),
    burn: Seq<CellType>,
    should_spread: bool,
    to_smoke: bool,
    after: GridView,
    k: int,
)
    requires
        fire_outcome(before, pos, burn, should_spread, to_smoke, after),
        0 <= k < 8,
        douses(before, pos, burn, k),
    ensures
        after.at(pos.0, pos.1) == Cell::fresh(CellType::Steam, STEAM_COLOR_LIGHT),
{
    lemma_first_douse(before, pos, burn, 0, k);
}

/// The five directions a gas moves in: up, up-left, up-right, left, right.
pub open spec fn gas_direction(direction: (int, int)) -> bool {
    direction == (0int, -1int) || direction == (-1int, -1int) || direction == (1int, -1int)
        || direction == (-1int, 0int) || direction == (1int, 0int)
}

/// The cell at `pos` cannot move as a gas: no step along any of the lines it
/// moves on ends on a material of `empty`.
pub open spec fn enclosed(grid: GridView, pos: (int, int), empty: Seq<CellType>) -> bool {
    forall|direction: (int, int), i: int|
        gas_direction(direction) && 1 <= i ==> !#[trigger] qualifies(
            grid,
            pos,
            direction,
            empty,
            i,
        )
}

/// `after` is a grid that `n` turns of smoke at `pos`, one after the other, can leave.
pub open spec fn smoke_run(
    before: GridView,
    pos: (int, int),
    empty: Seq<CellType>,
    n: nat,
    after: GridView,
) -> bool
    decreases n,
{
    if n == 0 {
        after == before
    } else {
        exists|mid: GridView|
            smoke_run(before, pos, empty, (n - 1) as nat, mid) && #[trigger] smoke_outcome(
                mid,
                pos,
                empty,
                after,
            )
    }
}

/// A turn of an enclosed smoke cell with life left costs it one tick of life
/// and half of its speed, and changes nothing else.
pub proof fn lemma_enclosed_smoke_turn(
    before: GridView,
    pos: (int, int),
    empty: Seq<CellType>,
    after: GridView,
)
    requires
        enclosed(before, pos, empty),
        before.at(pos.0, pos.1).lifetime > 0,
        smoke_outcome(before, pos, empty, after),
    ensures
        after == before.put(
            pos.0,
            pos.1,
            Cell {
                velocity: before.at(pos.0, pos.1).velocity / 2,
                ..aged(before.at(pos.0, pos.1), CellType::Smoke)
            },
        ),
        enclosed(after, pos, empty),
{
    let heads = choose|heads: bool| after == #[trigger] smoke_spec(before, pos, empty, heads);
    let cell = before.at(pos.0, pos.1);
    let older = before.put(pos.0, pos.1, aged(cell, CellType::Smoke));
    lemma_stays_enclosed(before, pos, empty, aged(cell, CellType::Smoke));
    lemma_enclosed_finds_nothing(older, pos, empty);
    let settled = fall_spec(
        older,
        pos,
        empty,
        SMOKE_MAX_VELOCITY,
        SMOKE_ACCELERATION,
        true,
        heads,
    );
    let slowed = Cell { velocity: cell.velocity / 2, ..aged(cell, CellType::Smoke) };
    assert(settled == older.put(pos.0, pos.1, slowed));
    lemma_stays_enclosed(older, pos, empty, slowed);
    lemma_enclosed_finds_nothing(settled, pos, empty);
    assert(after == settled);
    assert(settled.cells =~= before.put(pos.0, pos.1, slowed).cells);
}

/// Putting another cell at `pos` does not open a way out of it.
proof fn lemma_stays_enclosed(grid: GridView, pos: (int, int), empty: Seq<CellType>, cell: Cell)
    requires
        enclosed(grid, pos, empty),
    ensures
        enclosed(grid.put(pos.0, pos.1, cell), pos, empty),
{
    let after = grid.put(pos.0, pos.1, cell);
    assert forall|direction: (int, int), i: int|
        gas_direction(direction) && 1 <= i implies !#[trigger] qualifies(
        after,
        pos,
        direction,
        empty,
        i,
    ) by {
        lemma_unit_product(direction.0, i);
        lemma_unit_product(direction.1, i);
        let target = step_target(pos, direction, i);
        assert(target != pos);
        assert(after.at(target.0, target.1) == grid.at(target.0, target.1));
        assert(!qualifies(grid, pos, direction, empty, i));
    }
}

/// An enclosed cell finds no cell to move to as a gas, whatever its reach.
proof fn lemma_enclosed_finds_nothing(grid: GridView, pos: (int, int), empty: Seq<CellType>)
    requires
        enclosed(grid, pos, empty),
    ensures
        forall|heads: bool| #[trigger]
            fall_target(grid, pos, empty, true, heads) is None,
        forall|heads: bool| #[trigger]
            spread_target(grid, pos, empty, heads) is None,
{
    assert forall|direction: (int, int), reach: nat|
        gas_direction(direction) implies #[trigger] farthest_match(
        grid,
        pos,
        reach,
        empty,
        direction,
    ) is None by {
        lemma_farthest_step_none(grid, pos, direction, empty, reach + 1);
    }
    assert(gas_direction((0int, -1int)));
    assert(gas_direction((-1int, -1int)));
    assert(gas_direction((1int, -1int)));
    assert(gas_direction((-1int, 0int)));
    assert(gas_direction((1int, 0int)));
}

/// An enclosed smoke cell decays on schedule: with `life` ticks to live it is
/// still smoke after `n` turns for every `n` up to `life`, with `life - n`
/// ticks left, and the turn after its life has run out makes it air.
pub proof fn lemma_smoke_decays(
    before: GridView,
    pos: (int, int),
    empty: Seq<CellType>,
    n: nat,
    after: GridView,
)
    requires
        enclosed(before, pos, empty),
        smoke_run(before, pos, empty, n, after),
        n <= before.at(pos.0, pos.1).lifetime + 1,
    ensures
        n <= before.at(pos.0, pos.1).lifetime ==> after.at(pos.0, pos.1).ty == before.at(
            pos.0,
            pos.1,
        ).ty && after.at(pos.0, pos.1).lifetime == before.at(pos.0, pos.1).lifetime - n
            && enclosed(after, pos, empty),
        n == before.at(pos.0, pos.1).lifetime + 1 ==> after.at(pos.0, pos.1) == Cell::fresh(
            CellType::Air,
            AIR_COLOR,
        ),
        forall|x: int, y: int| (x, y) != pos ==> after.at(x, y) == before.at(x, y),
    decreases n,
{
    if n > 0 {
        let mid = choose|mid: GridView|
            smoke_run(before, pos, empty, (n - 1) as nat, mid) && #[trigger] smoke_outcome(
                mid,
                pos,
                empty,
                after,
            );
        lemma_smoke_decays(before, pos, empty, (n - 1) as nat, mid);
        if mid.at(pos.0, pos.1).lifetime > 0 {
            lemma_enclosed_smoke_turn(mid, pos, empty, after);
        } else {
            let heads = choose|heads: bool| after == #[trigger] smoke_spec(mid, pos, empty, heads);
        }
    }
}

} // verus!
