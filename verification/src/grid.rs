//! The dense grid of cells, stored row by row in one buffer.

use vstd::prelude::*;
use crate::cell::Cell;
use crate::material::{CellType, contains_type};
use crate::palette::AIR_COLOR;

verus! {

/// A grid as contracts see it: its size and the cell at each coordinate.
pub struct GridView {
    pub width: int,
    pub height: int,
    pub cells: Map<(int, int), Cell>,
}

impl GridView {
    /// The coordinate lies on the grid.
    pub open spec fn in_bounds(self, x: int, y: int) -> bool {
        0 <= x < self.width && 0 <= y < self.height
    }

    /// The cell at a coordinate.
    pub open spec fn at(self, x: int, y: int) -> Cell {
        self.cells[(x, y)]
    }

    /// Every coordinate of the rectangle holds a cell, and no other does.
    pub open spec fn wf(self) -> bool {
        &&& self.width > 0
        &&& self.height > 0
        &&& forall|p: (int, int)| #[trigger]
            self.cells.dom().contains(p) <==> self.in_bounds(p.0, p.1)
    }

    /// Every cell moves within the speed limit of its material.
    pub open spec fn bounded(self) -> bool {
        forall|x: int, y: int| self.in_bounds(x, y) ==> (#[trigger] self.at(x, y)).wf()
    }

    /// The grid with one cell replaced.
    pub open spec fn put(self, x: int, y: int, cell: Cell) -> GridView {
        GridView { cells: self.cells.insert((x, y), cell), ..self }
    }

    /// The grid after the cell at `from` has moved to `to`: the two cells
    /// change places, the one that moved is flagged and the one it displaced is not.
    pub open spec fn swapped(self, from: (int, int), to: (int, int)) -> GridView {
        self.put(from.0, from.1, self.at(to.0, to.1).flagged(false)).put(
            to.0,
            to.1,
            self.at(from.0, from.1).flagged(true),
        )
    }

    /// The grid after the cell at `from` has spread to `to`: a newly made cell of
    /// its material, in the given colour, stands at `to`, and both are flagged.
    pub open spec fn spread(self, from: (int, int), to: (int, int), color: [u8; 3]) -> GridView {
        let lit = self.put(
            to.0,
            to.1,
            Cell::fresh(self.at(from.0, from.1).ty, color).flagged(true),
        );
        lit.put(from.0, from.1, lit.at(from.0, from.1).flagged(true))
    }

    /// The grid with every move flag cleared.
    pub open spec fn cleared(self) -> GridView {
        GridView { cells: self.cells.map_values(|cell: Cell| cell.flagged(false)), ..self }
    }

    /// A grid of air.
    pub open spec fn empty(width: int, height: int) -> GridView {
        GridView {
            width,
            height,
            cells: Map::new(
                |p: (int, int)| 0 <= p.0 < width && 0 <= p.1 < height,
                |p: (int, int)| Cell::fresh(CellType::Air, AIR_COLOR),
            ),
        }
    }
}

/// Putting a cell that is within its speed limit keeps every cell within its own.
pub proof fn lemma_put_bounded(grid: GridView, x: int, y: int, cell: Cell)
    requires
        grid.bounded(),
        cell.wf(),
    ensures
        grid.put(x, y, cell).bounded(),
{
    let after = grid.put(x, y, cell);
    assert forall|a: int, b: int| after.in_bounds(a, b) implies (#[trigger] after.at(
        a,
        b,
    )).wf() by {
        if (a, b) != (x, y) {
            assert(after.at(a, b) == grid.at(a, b));
        }
    }
}

/// A move keeps every cell within its speed limit.
pub proof fn lemma_swapped_bounded(grid: GridView, from: (int, int), to: (int, int))
    requires
        grid.bounded(),
        grid.in_bounds(from.0, from.1),
        grid.in_bounds(to.0, to.1),
    ensures
        grid.swapped(from, to).bounded(),
{
    let displaced = grid.at(to.0, to.1).flagged(false);
    let mover = grid.at(from.0, from.1).flagged(true);
    lemma_put_bounded(grid, from.0, from.1, displaced);
    lemma_put_bounded(grid.put(from.0, from.1, displaced), to.0, to.1, mover);
}

/// A grid of cells: `width` columns by `height` rows, none of them empty.
pub struct Grid {
    width: usize,
    height: usize,
    cells: Vec<Cell>,
}

/// A coordinate on the grid has a place in the buffer.
proof fn lemma_index_in_range(width: int, height: int, x: int, y: int)
    requires
        0 <= x < width,
        0 <= y < height,
    ensures
        0 <= y * width + x < width * height,
{
    assert(y * width + x < width * height) by (nonlinear_arith)
        requires
            0 <= x < width,
            0 <= y < height,
    ;
    assert(0 <= y * width) by (nonlinear_arith)
        requires
            0 <= y,
            0 <= width,
    ;
}

/// Two coordinates with one place in the buffer are the same coordinate.
pub(crate) proof fn lemma_index_injective(width: int, x1: int, y1: int, x2: int, y2: int)
    requires
        0 <= x1 < width,
        0 <= x2 < width,
        y1 * width + x1 == y2 * width + x2,
    ensures
        x1 == x2,
        y1 == y2,
{
    assert(y1 == y2) by (nonlinear_arith)
        requires
            0 <= x1 < width,
            0 <= x2 < width,
            y1 * width + x1 == y2 * width + x2,
    ;
}

impl View for Grid {
    type V = GridView;

    closed spec fn view(&self) -> GridView {
        GridView {
            width: self.width as int,
            height: self.height as int,
            cells: Map::new(
                |p: (int, int)| 0 <= p.0 < self.width && 0 <= p.1 < self.height,
                |p: (int, int)| self.cells@[p.1 * self.width + p.0],
            ),
        }
    }
}

impl Grid {
    /// The buffer holds one cell for each coordinate.
    pub closed spec fn wf(&self) -> bool {
        &&& self.width > 0
        &&& self.height > 0
        &&& self.width * self.height <= isize::MAX
        &&& self.cells@.len() == self.width * self.height
    }

    /// A well-formed grid shows a full rectangle whose sides fit a signed index.
    pub proof fn lemma_view_wf(&self)
        requires
            self.wf(),
        ensures
            self@.wf(),
            self@.width * self@.height <= isize::MAX,
            self@.width <= isize::MAX,
            self@.height <= isize::MAX,
    {
        assert(self.width <= self.width * self.height && self.height <= self.width * self.height)
            by (nonlinear_arith)
            requires
                self.width > 0,
                self.height > 0,
        ;
    }

    /// A grid of air.
    pub fn new(width: usize, height: usize) -> (grid: Grid)
        requires
            width > 0,
            height > 0,
            width * height <= isize::MAX,
        ensures
            grid.wf(),
            grid@ == GridView::empty(width as int, height as int),
            grid@.bounded(),
    {
        let count = width * height;
        let air = Cell {
            ty: CellType::Air,
            moved: false,
            velocity: crate::material::VELOCITY_ONE,
            lifetime: 0,
            color: AIR_COLOR,
        };
        let mut cells: Vec<Cell> = Vec::new();
        let mut i: usize = 0;
        while i < count
            invariant
                i <= count,
                cells@.len() == i,
                air == Cell::fresh(CellType::Air, AIR_COLOR),
                forall|j: int| 0 <= j < i ==> cells@[j] == air,
            decreases count - i,
        {
            cells.push(air);
            i += 1;
        }
        let grid = Grid { width, height, cells };
        proof {
            assert forall|p: (int, int)|
                0 <= p.0 < width && 0 <= p.1 < height implies #[trigger] grid@.cells[p] == air by {
                lemma_index_in_range(width as int, height as int, p.0, p.1);
            }
            assert(grid@.cells =~= GridView::empty(width as int, height as int).cells);
        }
        grid
    }

    /// The number of columns.
    pub fn width(&self) -> (width: usize)
        requires
            self.wf(),
        ensures
            width == self@.width,
            width > 0,
    {
        self.width
    }

    /// The number of rows.
    pub fn height(&self) -> (height: usize)
        requires
            self.wf(),
        ensures
            height == self@.height,
            height > 0,
    {
        self.height
    }

    /// The cell at a coordinate.
    pub fn get_cell(&self, x: usize, y: usize) -> (cell: Cell)
        requires
            self.wf(),
            self@.in_bounds(x as int, y as int),
        ensures
            cell == self@.at(x as int, y as int),
    {
        proof {
            lemma_index_in_range(self.width as int, self.height as int, x as int, y as int);
        }
        self.cells[y * self.width + x]
    }

    /// Replaces the cell at a coordinate.
    pub fn set_cell(&mut self, x: usize, y: usize, cell: Cell)
        requires
            old(self).wf(),
            old(self)@.in_bounds(x as int, y as int),
        ensures
            final(self).wf(),
            final(self)@ == old(self)@.put(x as int, y as int, cell),
            old(self)@.bounded() && cell.wf() ==> final(self)@.bounded(),
    {
        proof {
            if self@.bounded() && cell.wf() {
                lemma_put_bounded(self@, x as int, y as int, cell);
            }
        }
        proof {
            lemma_index_in_range(self.width as int, self.height as int, x as int, y as int);
        }
        let index = y * self.width + x;
        self.cells[index] = cell;
        proof {
            let width = self.width as int;
            assert forall|p: (int, int)| 0 <= p.0 < self.width && 0 <= p.1 < self.height implies (
            #[trigger] self@.cells[p]) == old(self)@.put(x as int, y as int, cell).cells[p] by {
                lemma_index_in_range(width, self.height as int, p.0, p.1);
                if p.1 * width + p.0 == index {
                    lemma_index_injective(width, p.0, p.1, x as int, y as int);
                }
            }
            assert(self@.cells =~= old(self)@.put(x as int, y as int, cell).cells);
        }
    }
}

impl Grid {
    /// Clears the move flag of every cell.
    pub fn clear_moved(&mut self)
        requires
            old(self).wf(),
        ensures
            final(self).wf(),
            final(self)@ == old(self)@.cleared(),
            old(self)@.bounded() ==> final(self)@.bounded(),
            forall|x: int, y: int|
                final(self)@.in_bounds(x, y) ==> !(#[trigger] final(self)@.at(x, y)).moved,
    {
        let count = self.cells.len();
        let mut i: usize = 0;
        while i < count
            invariant
                i <= count,
                count == self.cells@.len(),
                self.width == old(self).width,
                self.height == old(self).height,
                self.cells@.len() == old(self).cells@.len(),
                forall|j: int| 0 <= j < i ==> self.cells@[j] == old(self).cells@[j].flagged(false),
                forall|j: int| i <= j < count ==> self.cells@[j] == old(self).cells@[j],
            decreases count - i,
        {
            self.cells[i].moved = false;
            i += 1;
        }
        proof {
            let width = self.width as int;
            let height = self.height as int;
            assert forall|p: (int, int)| 0 <= p.0 < width && 0 <= p.1 < height implies (
            #[trigger] self@.cells[p]) == old(self)@.cleared().cells[p] by {
                lemma_index_in_range(width, height, p.0, p.1);
            }
            assert(self@.cells =~= old(self)@.cleared().cells);
            assert forall|x: int, y: int| self@.in_bounds(x, y) implies !(#[trigger] self@.at(
                x,
                y,
            )).moved by {
                lemma_index_in_range(width, height, x, y);
            }
            if old(self)@.bounded() {
                assert forall|x: int, y: int| self@.in_bounds(x, y) implies (#[trigger] self@.at(
                    x,
                    y,
                )).wf() by {
                    lemma_index_in_range(width, height, x, y);
                    assert(old(self)@.at(x, y).wf());
                }
            }
        }
    }
}

/// Whether a row index lies above the bottom edge.
pub fn in_bounds_bottom(grid: &Grid, y: usize) -> (inside: bool)
    requires
        grid.wf(),
    ensures
        inside == (y < grid@.height),
{
    y < grid.height
}

/// Whether a column index lies left of the right edge.
pub fn in_bounds_right(grid: &Grid, x: usize) -> (inside: bool)
    requires
        grid.wf(),
    ensures
        inside == (x < grid@.width),
{
    x < grid.width
}

/// Whether a signed row index lies on or below the top edge.
pub fn in_bounds_top(y: isize) -> (inside: bool)
    ensures
        inside == (y >= 0),
{
    y >= 0
}

/// Whether a signed column index lies on or right of the left edge.
pub fn in_bounds_left(x: isize) -> (inside: bool)
    ensures
        inside == (x >= 0),
{
    x >= 0
}

/// Whether a signed coordinate lies on the grid.
pub fn in_bounds(grid: &Grid, x: isize, y: isize) -> (inside: bool)
    requires
        grid.wf(),
    ensures
        inside == grid@.in_bounds(x as int, y as int),
{
    in_bounds_left(x) && in_bounds_top(y) && in_bounds_bottom(grid, y as usize) && in_bounds_right(
        grid,
        x as usize,
    )
}

/// Whether the material at a coordinate is one of `empty_types`.
pub fn is_empty(grid: &Grid, x: usize, y: usize, empty_types: &[CellType]) -> (empty: bool)
    requires
        grid.wf(),
        grid@.in_bounds(x as int, y as int),
    ensures
        empty == empty_types@.contains(grid@.at(x as int, y as int).ty),
{
    contains_type(empty_types, grid.get_cell(x, y).ty)
}

/// Moves the cell at `cell_1_pos` to `cell_2_pos`; what was there takes its place.
pub fn swap_cells(grid: &mut Grid, cell_1_pos: (usize, usize), cell_2_pos: (usize, usize))
    requires
        old(grid).wf(),
        old(grid)@.in_bounds(cell_1_pos.0 as int, cell_1_pos.1 as int),
        old(grid)@.in_bounds(cell_2_pos.0 as int, cell_2_pos.1 as int),
    ensures
        final(grid).wf(),
        final(grid)@ == old(grid)@.swapped(
            (cell_1_pos.0 as int, cell_1_pos.1 as int),
            (cell_2_pos.0 as int, cell_2_pos.1 as int),
        ),
        old(grid)@.bounded() ==> final(grid)@.bounded(),
{
    proof {
        if grid@.bounded() {
            lemma_swapped_bounded(
                grid@,
                (cell_1_pos.0 as int, cell_1_pos.1 as int),
                (cell_2_pos.0 as int, cell_2_pos.1 as int),
            );
        }
    }
    let mut temp_cell = grid.get_cell(cell_1_pos.0, cell_1_pos.1);
    let mut other_cell = grid.get_cell(cell_2_pos.0, cell_2_pos.1);
    other_cell.moved = false;
    temp_cell.moved = true;
    grid.set_cell(cell_1_pos.0, cell_1_pos.1, other_cell);
    grid.set_cell(cell_2_pos.0, cell_2_pos.1, temp_cell);
}

/// Spreads the material at `cell_1_pos` to `cell_2_pos`: a newly made cell of
/// that material is put there, and both cells are flagged as moved.
pub fn spread_to_cell(
    grid: &mut Grid,
    cell_1_pos: (usize, usize),
    cell_2_pos: (usize, usize),
    rng: &fastrand::Rng,
)
    requires
        old(grid).wf(),
        old(grid)@.in_bounds(cell_1_pos.0 as int, cell_1_pos.1 as int),
        old(grid)@.in_bounds(cell_2_pos.0 as int, cell_2_pos.1 as int),
    ensures
        final(grid).wf(),
        exists|color: [u8; 3]|
            crate::palette::in_palette(
                old(grid)@.at(cell_1_pos.0 as int, cell_1_pos.1 as int).ty,
                color,
            ) && final(grid)@ == #[trigger] old(grid)@.spread(
                (cell_1_pos.0 as int, cell_1_pos.1 as int),
                (cell_2_pos.0 as int, cell_2_pos.1 as int),
                color,
            ),
        old(grid)@.bounded() ==> final(grid)@.bounded(),
{
    let source = grid.get_cell(cell_1_pos.0, cell_1_pos.1);
    let mut copy = Cell::from(source.ty, rng);
    copy.moved = true;
    grid.set_cell(cell_2_pos.0, cell_2_pos.1, copy);
    let mut marked = grid.get_cell(cell_1_pos.0, cell_1_pos.1);
    marked.moved = true;
    grid.set_cell(cell_1_pos.0, cell_1_pos.1, marked);
    proof {
        assert(grid@ == old(grid)@.spread(
            (cell_1_pos.0 as int, cell_1_pos.1 as int),
            (cell_2_pos.0 as int, cell_2_pos.1 as int),
            copy.color,
        ));
    }
}

} // verus!
