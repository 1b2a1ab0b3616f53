//! The farthest-match scan along a straight line.

use vstd::prelude::*;
use crate::grid::{Grid, GridView, is_empty};
use crate::material::CellType;

verus! {

/// The coordinate reached from `origin` after `i` steps in `direction`.
pub open spec fn step_target(origin: (int, int), direction: (int, int), i: int) -> (int, int) {
    (origin.0 + direction.0 * i, origin.1 + direction.1 * i)
}

/// Step `i` of the line ends on the grid, on a material of `accept`.
pub open spec fn qualifies(
    grid: GridView,
    origin: (int, int),
    direction: (int, int),
    accept: Seq<CellType>,
    i: int,
) -> bool {
    let target = step_target(origin, direction, i);
    grid.in_bounds(target.0, target.1) && accept.contains(grid.at(target.0, target.1).ty)
}

/// The largest of the steps `1..=n` that qualifies, or zero when none does.
/// Steps that do not qualify do not end the scan: a farther one may still match.
pub open spec fn farthest_step(
    grid: GridView,
    origin: (int, int),
    direction: (int, int),
    accept: Seq<CellType>,
    n: nat,
) -> nat
    decreases n,
{
    if n == 0 {
        0
    } else if qualifies(grid, origin, direction, accept, n as int) {
        n
    } else {
        farthest_step(grid, origin, direction, accept, (n - 1) as nat)
    }
}

/// The farthest qualifying cell within `magnitude + 1` steps of `origin`.
pub open spec fn farthest_match(
    grid: GridView,
    origin: (int, int),
    magnitude: nat,
    accept: Seq<CellType>,
    direction: (int, int),
) -> Option<(int, int)> {
    let step = farthest_step(grid, origin, direction, accept, magnitude + 1);
    if step == 0 {
        None
    } else {
        Some(step_target(origin, direction, step as int))
    }
}

/// A coordinate of the machine as a coordinate of the plane.
pub open spec fn point(pos: (usize, usize)) -> (int, int) {
    (pos.0 as int, pos.1 as int)
}

/// An optional coordinate of the machine as one of the plane.
pub open spec fn maybe_point(pos: Option<(usize, usize)>) -> Option<(int, int)> {
    match pos {
        Some(p) => Some(point(p)),
        None => None,
    }
}

/// The scan result is a qualifying step, and no step beyond it up to `n` qualifies.
pub proof fn lemma_farthest_step(
    grid: GridView,
    origin: (int, int),
    direction: (int, int),
    accept: Seq<CellType>,
    n: nat,
)
    ensures
        farthest_step(grid, origin, direction, accept, n) <= n,
        farthest_step(grid, origin, direction, accept, n) > 0 ==> qualifies(
            grid,
            origin,
            direction,
            accept,
            farthest_step(grid, origin, direction, accept, n) as int,
        ),
        forall|j: int|
            farthest_step(grid, origin, direction, accept, n) < j <= n ==> !qualifies(
                grid,
                origin,
                direction,
                accept,
                j,
            ),
    decreases n,
{
    if n > 0 && !qualifies(grid, origin, direction, accept, n as int) {
        lemma_farthest_step(grid, origin, direction, accept, (n - 1) as nat);
    }
}

/// Where no step in `i + 1..=n` qualifies, scanning `n` steps finds what scanning `i` finds.
proof fn lemma_farthest_step_tail(
    grid: GridView,
    origin: (int, int),
    direction: (int, int),
    accept: Seq<CellType>,
    i: nat,
    n: nat,
)
    requires
        i <= n,
        forall|j: int| i < j <= n ==> !qualifies(grid, origin, direction, accept, j),
    ensures
        farthest_step(grid, origin, direction, accept, n) == farthest_step(
            grid,
            origin,
            direction,
            accept,
            i,
        ),
    decreases n - i,
{
    if i < n {
        lemma_farthest_step_tail(grid, origin, direction, accept, i, (n - 1) as nat);
    }
}

/// The product of a unit step and a count.
pub(crate) proof fn lemma_unit_product(delta: int, i: int)
    requires
        -1 <= delta <= 1,
    ensures
        delta == 1 ==> delta * i == i,
        delta == -1 ==> delta * i == -i,
        delta == 0 ==> delta * i == 0,
        delta * (i + 1) == delta * i + delta,
{
    assert(delta == 1 ==> delta * i == i) by (nonlinear_arith);
    assert(delta == -1 ==> delta * i == -i) by (nonlinear_arith);
    assert(delta == 0 ==> delta * i == 0) by (nonlinear_arith);
    assert(delta * (i + 1) == delta * i + delta) by (nonlinear_arith);
}

/// Where no step up to `n` qualifies, the scan finds nothing.
pub proof fn lemma_farthest_step_none(
    grid: GridView,
    origin: (int, int),
    direction: (int, int),
    accept: Seq<CellType>,
    n: nat,
)
    requires
        forall|i: int| 1 <= i <= n ==> !qualifies(grid, origin, direction, accept, i),
    ensures
        farthest_step(grid, origin, direction, accept, n) == 0,
    decreases n,
{
    if n > 0 {
        lemma_farthest_step_none(grid, origin, direction, accept, (n - 1) as nat);
    }
}

/// A line that has left the grid does not come back.
proof fn lemma_line_leaves(
    grid: GridView,
    origin: (int, int),
    direction: (int, int),
    i: int,
    j: int,
)
    requires
        grid.in_bounds(origin.0, origin.1),
        -1 <= direction.0 <= 1,
        -1 <= direction.1 <= 1,
        0 <= i < j,
        !grid.in_bounds(
            step_target(origin, direction, i).0,
            step_target(origin, direction, i).1,
        ),
    ensures
        !grid.in_bounds(
            step_target(origin, direction, j).0,
            step_target(origin, direction, j).1,
        ),
{
    lemma_unit_product(direction.0, i);
    lemma_unit_product(direction.0, j);
    lemma_unit_product(direction.1, i);
    lemma_unit_product(direction.1, j);
}

/// One coordinate of the next step of a line, or nothing where it leaves `0..limit`.
fn advance(at: usize, delta: isize, limit: usize) -> (next: Option<usize>)
    requires
        -1 <= delta <= 1,
        at < limit,
    ensures
        match next {
            Some(n) => n == at + delta && n < limit,
            None => !(0 <= at + delta < limit),
        },
{
    if delta < 0 {
        if at == 0 {
            None
        } else {
            Some(at - 1)
        }
    } else if delta > 0 {
        if at + 1 >= limit {
            None
        } else {
            Some(at + 1)
        }
    } else {
        Some(at)
    }
}

/// Scans up to `movement_magnitude + 1` steps from `cell_pos` along `direction`
/// and returns the farthest cell whose material is one of `empty_types`, even
/// where a cell that is not lies in between.
pub fn furthest_by_vector(
    grid: &Grid,
    cell_pos: (usize, usize),
    movement_magnitude: usize,
    empty_types: &[CellType],
    direction: (isize, isize),
) -> (closest: Option<(usize, usize)>)
    requires
        grid.wf(),
        grid@.in_bounds(cell_pos.0 as int, cell_pos.1 as int),
        -1 <= direction.0 <= 1,
        -1 <= direction.1 <= 1,
        direction != (0isize, 0isize),
    ensures
        maybe_point(closest) == farthest_match(
            grid@,
            point(cell_pos),
            movement_magnitude as nat,
            empty_types@,
            (direction.0 as int, direction.1 as int),
        ),
        closest matches Some(p) ==> grid@.in_bounds(p.0 as int, p.1 as int),
        closest matches Some(p) ==> empty_types@.contains(grid@.at(p.0 as int, p.1 as int).ty),
{
    let ghost origin = point(cell_pos);
    let ghost dir = (direction.0 as int, direction.1 as int);
    let ghost n = (movement_magnitude + 1) as nat;
    let width = grid.width();
    let height = grid.height();
    proof {
        grid.lemma_view_wf();
    }
    let mut closest: Option<(usize, usize)> = None;
    let mut x = cell_pos.0;
    let mut y = cell_pos.1;
    let mut i: usize = 0;
    while i <= movement_magnitude
        invariant_except_break
            i <= n,
        invariant
            grid.wf(),
            width == grid@.width,
            height == grid@.height,
            width <= isize::MAX,
            height <= isize::MAX,
            origin == point(cell_pos),
            grid@.in_bounds(origin.0, origin.1),
            dir == (direction.0 as int, direction.1 as int),
            -1 <= direction.0 <= 1,
            -1 <= direction.1 <= 1,
            direction != (0isize, 0isize),
            n == movement_magnitude + 1,
            x < width,
            y < height,
            i < width + height,
            (x as int, y as int) == step_target(origin, dir, i as int),
            closest matches Some(p) ==> farthest_step(grid@, origin, dir, empty_types@, i as nat)
                > 0 && point(p) == step_target(
                origin,
                dir,
                farthest_step(grid@, origin, dir, empty_types@, i as nat) as int,
            ),
            closest is None ==> farthest_step(grid@, origin, dir, empty_types@, i as nat) == 0,
        ensures
            maybe_point(closest) == farthest_match(
                grid@,
                origin,
                movement_magnitude as nat,
                empty_types@,
                dir,
            ),
        decreases n - i,
    {
        proof {
            lemma_unit_product(dir.0, i as int);
            lemma_unit_product(dir.1, i as int);
        }
        let next_x = advance(x, direction.0, width);
        let next_y = advance(y, direction.1, height);
        if next_x.is_none() || next_y.is_none() {
            proof {
                assert forall|j: int| i < j <= n implies !qualifies(
                    grid@,
                    origin,
                    dir,
                    empty_types@,
                    j,
                ) by {
                    if j > i + 1 {
                        lemma_line_leaves(grid@, origin, dir, i + 1, j);
                    }
                }
                lemma_farthest_step_tail(grid@, origin, dir, empty_types@, i as nat, n);
            }
            break ;
        }
        x = next_x.unwrap();
        y = next_y.unwrap();
        i += 1;
        if is_empty(grid, x, y, empty_types) {
            closest = Some((x, y));
        }
    }
    proof {
        lemma_farthest_step(grid@, origin, dir, empty_types@, n);
    }
    closest
}

} // verus!
