//! The round brush: painting a material and erasing.

use vstd::prelude::*;
use crate::cell::Cell;
use crate::grid::{Grid, GridView, is_empty};
use crate::material::{CellType, paintable, sparse};
use crate::palette::AIR_COLOR;
use crate::random::roll;
use crate::search::point;

verus! {

/// The coordinate lies within the filled circle around `center`.
pub open spec fn in_circle(center: (int, int), radius: int, x: int, y: int) -> bool {
    (center.0 - x) * (center.0 - x) + (center.1 - y) * (center.1 - y) <= radius * radius
}

/// The coordinate lies on the grid and under the brush.
pub open spec fn covered(grid: GridView, center: (int, int), radius: int, x: int, y: int) -> bool {
    grid.in_bounds(x, y) && in_circle(center, radius, x, y)
}

/// Column by column, and top to bottom within a column.
pub open spec fn comes_before(a: (usize, usize), b: (usize, usize)) -> bool {
    a.0 < b.0 || (a.0 == b.0 && a.1 < b.1)
}

/// `region` lists the coordinates under the brush, each once, column by column.
pub open spec fn is_region(
    grid: GridView,
    center: (int, int),
    radius: int,
    region: Seq<(usize, usize)>,
) -> bool {
    &&& forall|i: int|
        0 <= i < region.len() ==> covered(
            grid,
            center,
            radius,
            (#[trigger] region[i]).0 as int,
            region[i].1 as int,
        )
    &&& forall|x: int, y: int| #[trigger]
        covered(grid, center, radius, x, y) ==> exists|i: int|
            0 <= i < region.len() && point(#[trigger] region[i]) == (x, y)
    &&& forall|i: int, j: int|
        0 <= i < j < region.len() ==> comes_before(#[trigger] region[i], #[trigger] region[j])
}

/// The distance between two coordinates on one axis.
fn distance(a: usize, b: usize) -> (d: usize)
    ensures
        d == if a >= b {
            a - b
        } else {
            b - a
        },
{
    if a >= b {
        a - b
    } else {
        b - a
    }
}

/// The square of a machine number fits in twice its width.
proof fn lemma_square_bound(d: int)
    requires
        0 <= d <= 0xffff_ffff_ffff_ffff,
    ensures
        0 <= d * d <= 0xffff_ffff_ffff_ffff * 0xffff_ffff_ffff_ffff,
{
    assert(0 <= d * d <= 0xffff_ffff_ffff_ffff * 0xffff_ffff_ffff_ffff) by (nonlinear_arith)
        requires
            0 <= d <= 0xffff_ffff_ffff_ffff,
    ;
}

/// A distance and the difference it is the size of have one square.
proof fn lemma_square_of_difference(a: int, b: int, d: int)
    requires
        d == a - b || d == b - a,
    ensures
        d * d == (a - b) * (a - b),
{
    assert(d * d == (a - b) * (a - b)) by (nonlinear_arith)
        requires
            d == a - b || d == b - a,
    ;
}

/// A coordinate farther from the centre than the radius on one axis lies outside the circle.
proof fn lemma_outside(center: (int, int), radius: int, x: int, y: int)
    requires
        radius >= 0,
        x - center.0 > radius || center.0 - x > radius || y - center.1 > radius || center.1 - y
            > radius,
    ensures
        !in_circle(center, radius, x, y),
{
    let dx = center.0 - x;
    let dy = center.1 - y;
    assert(dx * dx + dy * dy > radius * radius) by (nonlinear_arith)
        requires
            radius >= 0,
            dx > radius || -dx > radius || dy > radius || -dy > radius,
    ;
}

/// Whether a coordinate lies within the filled circle around `center`.
pub fn within_circle(center: (usize, usize), radius: usize, x: usize, y: usize) -> (inside: bool)
    ensures
        inside == in_circle(point(center), radius as int, x as int, y as int),
{
    let dx = distance(center.0, x) as u128;
    let dy = distance(center.1, y) as u128;
    let r = radius as u128;
    proof {
        lemma_square_bound(dx as int);
        lemma_square_bound(dy as int);
        lemma_square_bound(r as int);
        lemma_square_of_difference(center.0 as int, x as int, dx as int);
        lemma_square_of_difference(center.1 as int, y as int, dy as int);
    }
    match (dx * dx).checked_add(dy * dy) {
        Some(sum) => sum <= r * r,
        None => false,
    }
}

/// The coordinates of the grid under a round brush, column by column.
pub fn cursor_region_cell_coordinates(
    grid: &Grid,
    cursor_position: (usize, usize),
    cursor_radius: usize,
) -> (region: Vec<(usize, usize)>)
    requires
        grid.wf(),
        grid@.in_bounds(cursor_position.0 as int, cursor_position.1 as int),
    ensures
        is_region(grid@, point(cursor_position), cursor_radius as int, region@),
{
    let width = grid.width();
    let height = grid.height();
    proof {
        grid.lemma_view_wf();
    }
    let ghost center = point(cursor_position);
    let ghost radius = cursor_radius as int;
    let x_start = if cursor_position.0 >= cursor_radius {
        cursor_position.0 - cursor_radius
    } else {
        0
    };
    let x_end = if cursor_radius < width - cursor_position.0 {
        cursor_position.0 + cursor_radius + 1
    } else {
        width
    };
    let y_start = if cursor_position.1 >= cursor_radius {
        cursor_position.1 - cursor_radius
    } else {
        0
    };
    let y_end = if cursor_radius < height - cursor_position.1 {
        cursor_position.1 + cursor_radius + 1
    } else {
        height
    };
    let mut region: Vec<(usize, usize)> = Vec::new();
    let mut x = x_start;
    proof {
        assert forall|a: int, b: int| #[trigger]
            covered(grid@, center, radius, a, b) && a < x implies false by {
            lemma_outside(center, radius, a, b);
        }
    }
    while x < x_end
        invariant
            grid.wf(),
            width == grid@.width,
            height == grid@.height,
            width <= isize::MAX,
            height <= isize::MAX,
            center == point(cursor_position),
            radius == cursor_radius as int,
            grid@.in_bounds(center.0, center.1),
            x_start <= x <= x_end <= width,
            y_start <= y_end <= height,
            x_start == if center.0 >= radius {
                center.0 - radius
            } else {
                0
            },
            x_end == if radius < width - center.0 {
                center.0 + radius + 1
            } else {
                width as int
            },
            y_start == if center.1 >= radius {
                center.1 - radius
            } else {
                0
            },
            y_end == if radius < height - center.1 {
                center.1 + radius + 1
            } else {
                height as int
            },
            forall|i: int|
                0 <= i < region@.len() ==> covered(
                    grid@,
                    center,
                    radius,
                    (#[trigger] region@[i]).0 as int,
                    region@[i].1 as int,
                ) && region@[i].0 < x,
            forall|a: int, b: int| #[trigger]
                covered(grid@, center, radius, a, b) && a < x ==> exists|i: int|
                    0 <= i < region@.len() && point(#[trigger] region@[i]) == (a, b),
            forall|i: int, j: int|
                0 <= i < j < region@.len() ==> comes_before(
                    #[trigger] region@[i],
                    #[trigger] region@[j],
                ),
        decreases x_end - x,
    {
        let mut y = y_start;
        proof {
            assert forall|a: int, b: int| #[trigger]
                covered(grid@, center, radius, a, b) && a == x && b < y implies false by {
                lemma_outside(center, radius, a, b);
            }
        }
        while y < y_end
            invariant
                grid.wf(),
                width == grid@.width,
                height == grid@.height,
                width <= isize::MAX,
                height <= isize::MAX,
                center == point(cursor_position),
                radius == cursor_radius as int,
                grid@.in_bounds(center.0, center.1),
                x_start <= x < x_end <= width,
                y_start <= y <= y_end <= height,
                y_start == if center.1 >= radius {
                    center.1 - radius
                } else {
                    0
                },
                forall|i: int|
                    0 <= i < region@.len() ==> covered(
                        grid@,
                        center,
                        radius,
                        (#[trigger] region@[i]).0 as int,
                        region@[i].1 as int,
                    ) && (region@[i].0 < x || (region@[i].0 == x && region@[i].1 < y)),
                forall|a: int, b: int| #[trigger]
                    covered(grid@, center, radius, a, b) && (a < x || (a == x && b < y))
                        ==> exists|i: int|
                        0 <= i < region@.len() && point(#[trigger] region@[i]) == (a, b),
                forall|i: int, j: int|
                    0 <= i < j < region@.len() ==> comes_before(
                        #[trigger] region@[i],
                        #[trigger] region@[j],
                    ),
            decreases y_end - y,
        {
            let ghost listed = region@;
            if within_circle(cursor_position, cursor_radius, x, y) {
                region.push((x, y));
                proof {
                    let last = listed.len() as int;
                    assert(point(region@[last]) == (x as int, y as int));
                }
            }
            proof {
                assert forall|a: int, b: int| #[trigger]
                    covered(grid@, center, radius, a, b) && (a < x || (a == x && b < y + 1))
                    implies exists|i: int|
                    0 <= i < region@.len() && point(#[trigger] region@[i]) == (a, b) by {
                    if a == x && b == y {
                        let last = listed.len() as int;
                        assert(point(region@[last]) == (a, b));
                    } else {
                        let i = choose|i: int|
                            0 <= i < listed.len() && point(#[trigger] listed[i]) == (a, b);
                        assert(point(region@[i]) == (a, b));
                    }
                }
            }
            y += 1;
        }
        proof {
            assert forall|a: int, b: int| #[trigger]
                covered(grid@, center, radius, a, b) && a < x + 1 implies exists|i: int|
                0 <= i < region@.len() && point(#[trigger] region@[i]) == (a, b) by {
                if a == x && !(b < y) {
                    lemma_outside(center, radius, a, b);
                } else if a == x && b < y_start {
                    lemma_outside(center, radius, a, b);
                }
            }
        }
        x += 1;
    }
    proof {
        assert forall|a: int, b: int| #[trigger]
            covered(grid@, center, radius, a, b) implies exists|i: int|
            0 <= i < region@.len() && point(#[trigger] region@[i]) == (a, b) by {
            if !(a < x) {
                lemma_outside(center, radius, a, b);
            } else if a < x_start {
                lemma_outside(center, radius, a, b);
            }
        }
    }
    region
}

/// One of the first `i` coordinates of `region` is `(x, y)`.
pub open spec fn listed(region: Seq<(usize, usize)>, i: int, x: int, y: int) -> bool {
    exists|j: int| 0 <= j < i && point(#[trigger] region[j]) == (x, y)
}

/// What one stroke can make of a cell under the brush: a newly made cell of
/// the selected material where the old material can be painted over, though
/// a sparse material may leave it as it was; a cell that cannot be painted
/// over stays.
pub open spec fn painted(before: Cell, after: Cell, selected: CellType) -> bool {
    if paintable().contains(before.ty) {
        after.is_fresh(selected) || (sparse(selected) && after == before)
    } else {
        after == before
    }
}

/// `after` is a grid that one stroke of the brush can leave: the cells under
/// the brush are painted, and no other cell is touched.
pub open spec fn paint_outcome(
    before: GridView,
    selected: CellType,
    center: (int, int),
    radius: int,
    after: GridView,
) -> bool {
    &&& after.width == before.width
    &&& after.height == before.height
    &&& after.wf()
    &&& forall|x: int, y: int|
        before.in_bounds(x, y) ==> if in_circle(center, radius, x, y) {
            painted(before.at(x, y), #[trigger] after.at(x, y), selected)
        } else {
            after.at(x, y) == before.at(x, y)
        }
}

/// The grid with every cell under the brush turned to air.
pub open spec fn erased(grid: GridView, center: (int, int), radius: int) -> GridView {
    GridView {
        cells: Map::new(
            |p: (int, int)| grid.in_bounds(p.0, p.1),
            |p: (int, int)|
                if in_circle(center, radius, p.0, p.1) {
                    Cell::fresh(CellType::Air, AIR_COLOR)
                } else {
                    grid.cells[p]
                },
        ),
        ..grid
    }
}

/// Erasing twice over the same region leaves what erasing once leaves.
pub proof fn lemma_erase_idempotent(grid: GridView, center: (int, int), radius: int)
    ensures
        erased(erased(grid, center, radius), center, radius) == erased(grid, center, radius),
{
    assert(erased(erased(grid, center, radius), center, radius).cells =~= erased(
        grid,
        center,
        radius,
    ).cells);
}

/// A stroke touches no cell outside the circle of the brush, and none off the grid.
pub proof fn lemma_paint_contained(
    before: GridView,
    selected: CellType,
    center: (int, int),
    radius: int,
    after: GridView,
    x: int,
    y: int,
)
    requires
        before.wf(),
        paint_outcome(before, selected, center, radius, after),
        !covered(before, center, radius, x, y),
    ensures
        after.cells.dom().contains((x, y)) == before.cells.dom().contains((x, y)),
        before.in_bounds(x, y) ==> after.at(x, y) == before.at(x, y),
{
}

/// Lays a newly made cell of the selected material at a coordinate, if what
/// is there can be painted over, and says whether it did.
pub fn paint_cell(
    grid: &mut Grid,
    x: usize,
    y: usize,
    selected_cell_type: CellType,
    rng: &fastrand::Rng,
) -> (laid: bool)
    requires
        old(grid).wf(),
        old(grid)@.in_bounds(x as int, y as int),
    ensures
        final(grid).wf(),
        laid == paintable().contains(old(grid)@.at(x as int, y as int).ty),
        laid ==> final(grid)@.at(x as int, y as int).is_fresh(selected_cell_type) && final(grid)@
            == old(grid)@.put(x as int, y as int, final(grid)@.at(x as int, y as int)),
        !laid ==> final(grid)@ == old(grid)@,
        old(grid)@.bounded() ==> final(grid)@.bounded(),
{
    let types = [CellType::Air, CellType::Smoke, CellType::Water];
    assert(types@ =~= paintable());
    if is_empty(grid, x, y, types.as_slice()) {
        let cell = Cell::from(selected_cell_type, rng);
        grid.set_cell(x, y, cell);
        true
    } else {
        false
    }
}

/// Whether the brush lays this material one cell in eight at a time.
pub fn is_sparse(cell_type: CellType) -> (thin: bool)
    ensures
        thin == sparse(cell_type),
{
    match cell_type {
        CellType::Sand | CellType::Water | CellType::Fire | CellType::Smoke => true,
        _ => false,
    }
}

/// Paints with a round brush. Every cell under the brush that can be painted
/// over becomes a newly made cell of the selected material; of a sparse
/// material only one cell in eight is laid.
pub fn put_cell(
    grid: &mut Grid,
    selected_cell_type: CellType,
    cursor_position: (usize, usize),
    cursor_radius: usize,
    rng: &fastrand::Rng,
)
    requires
        old(grid).wf(),
        old(grid)@.in_bounds(cursor_position.0 as int, cursor_position.1 as int),
    ensures
        final(grid).wf(),
        paint_outcome(
            old(grid)@,
            selected_cell_type,
            point(cursor_position),
            cursor_radius as int,
            final(grid)@,
        ),
        old(grid)@.bounded() ==> final(grid)@.bounded(),
{
    let region = cursor_region_cell_coordinates(grid, cursor_position, cursor_radius);
    let ghost start = grid@;
    let ghost center = point(cursor_position);
    let ghost radius = cursor_radius as int;
    let thin = is_sparse(selected_cell_type);
    proof {
        grid.lemma_view_wf();
    }
    let mut i: usize = 0;
    while i < region.len()
        invariant
            i <= region@.len(),
            grid.wf(),
            grid@.wf(),
            start == old(grid)@,
            center == point(cursor_position),
            radius == cursor_radius as int,
            thin == sparse(selected_cell_type),
            is_region(start, center, radius, region@),
            grid@.width == start.width,
            grid@.height == start.height,
            forall|x: int, y: int|
                start.in_bounds(x, y) ==> if listed(region@, i as int, x, y) {
                    painted(start.at(x, y), #[trigger] grid@.at(x, y), selected_cell_type)
                } else {
                    grid@.at(x, y) == start.at(x, y)
                },
            start.bounded() ==> grid@.bounded(),
        decreases region@.len() - i,
    {
        let ghost before = grid@;
        let (x, y) = region[i];
        proof {
            let here = region@[i as int];
            assert(covered(start, center, radius, here.0 as int, here.1 as int));
            if listed(region@, i as int, x as int, y as int) {
                let j = choose|j: int| 0 <= j < i && point(#[trigger] region@[j]) == point(here);
                assert(comes_before(region@[j], here));
            }
        }
        if !thin || roll(rng, 8) == 0 {
            paint_cell(grid, x, y, selected_cell_type, rng);
            proof {
                grid.lemma_view_wf();
            }
        }
        proof {
            assert forall|a: int, b: int| start.in_bounds(a, b) implies if listed(
                region@,
                i + 1,
                a,
                b,
            ) {
                painted(start.at(a, b), #[trigger] grid@.at(a, b), selected_cell_type)
            } else {
                grid@.at(a, b) == start.at(a, b)
            } by {
                if (a, b) == (x as int, y as int) {
                    assert(point(region@[i as int]) == (a, b));
                } else {
                    assert(grid@.at(a, b) == before.at(a, b));
                    if listed(region@, i + 1, a, b) {
                        let j = choose|j: int|
                            0 <= j < i + 1 && point(#[trigger] region@[j]) == (a, b);
                        assert(j < i);
                    }
                }
            }
        }
        i += 1;
    }
    proof {
        assert forall|x: int, y: int| start.in_bounds(x, y) implies if in_circle(
            center,
            radius,
            x,
            y,
        ) {
            painted(start.at(x, y), #[trigger] grid@.at(x, y), selected_cell_type)
        } else {
            grid@.at(x, y) == start.at(x, y)
        } by {
            if in_circle(center, radius, x, y) {
                assert(covered(start, center, radius, x, y));
            } else if listed(region@, i as int, x, y) {
                let j = choose|j: int| 0 <= j < i && point(#[trigger] region@[j]) == (x, y);
                assert(covered(start, center, radius, region@[j].0 as int, region@[j].1 as int));
            }
        }
    }
}

/// Erases with a round brush: every cell under the brush becomes air.
pub fn remove_cells(
    grid: &mut Grid,
    cursor_position: (usize, usize),
    cursor_radius: usize,
    rng: &fastrand::Rng,
)
    requires
        old(grid).wf(),
        old(grid)@.in_bounds(cursor_position.0 as int, cursor_position.1 as int),
    ensures
        final(grid).wf(),
        final(grid)@ == erased(old(grid)@, point(cursor_position), cursor_radius as int),
        old(grid)@.bounded() ==> final(grid)@.bounded(),
{
    let region = cursor_region_cell_coordinates(grid, cursor_position, cursor_radius);
    let ghost start = grid@;
    let ghost center = point(cursor_position);
    let ghost radius = cursor_radius as int;
    proof {
        grid.lemma_view_wf();
    }
    let mut i: usize = 0;
    while i < region.len()
        invariant
            i <= region@.len(),
            grid.wf(),
            grid@.wf(),
            start == old(grid)@,
            center == point(cursor_position),
            radius == cursor_radius as int,
            is_region(start, center, radius, region@),
            grid@.width == start.width,
            grid@.height == start.height,
            forall|x: int, y: int|
                start.in_bounds(x, y) ==> #[trigger] grid@.at(x, y) == if listed(
                    region@,
                    i as int,
                    x,
                    y,
                ) {
                    Cell::fresh(CellType::Air, AIR_COLOR)
                } else {
                    start.at(x, y)
                },
            start.bounded() ==> grid@.bounded(),
        decreases region@.len() - i,
    {
        let ghost before = grid@;
        let (x, y) = region[i];
        proof {
            let here = region@[i as int];
            assert(covered(start, center, radius, here.0 as int, here.1 as int));
        }
        let air = Cell::from(CellType::Air, rng);
        grid.set_cell(x, y, air);
        proof {
            grid.lemma_view_wf();
            assert forall|a: int, b: int| start.in_bounds(a, b) implies #[trigger] grid@.at(a, b)
                == if listed(region@, i + 1, a, b) {
                Cell::fresh(CellType::Air, AIR_COLOR)
            } else {
                start.at(a, b)
            } by {
                if (a, b) == (x as int, y as int) {
                    assert(point(region@[i as int]) == (a, b));
                } else {
                    assert(grid@.at(a, b) == before.at(a, b));
                    if listed(region@, i + 1, a, b) {
                        let j = choose|j: int|
                            0 <= j < i + 1 && point(#[trigger] region@[j]) == (a, b);
                        assert(j < i);
                    }
                }
            }
        }
        i += 1;
    }
    proof {
        let goal = erased(start, center, radius);
        assert forall|p: (int, int)| start.in_bounds(p.0, p.1) implies #[trigger] grid@.cells[p]
            == goal.cells[p] by {
            assert(grid@.at(p.0, p.1) == grid@.cells[p]);
            if in_circle(center, radius, p.0, p.1) {
                assert(covered(start, center, radius, p.0, p.1));
            } else if listed(region@, i as int, p.0, p.1) {
                let j = choose|j: int| 0 <= j < i && point(#[trigger] region@[j]) == p;
                assert(covered(start, center, radius, region@[j].0 as int, region@[j].1 as int));
            }
        }
        assert(grid@.cells =~= goal.cells);
    }
}

} // verus!
