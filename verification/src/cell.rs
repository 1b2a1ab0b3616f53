//! One cell of the grid.

use vstd::prelude::*;
use crate::material::{CellType, VELOCITY_ONE, cell_type_lifetime, initial_lifetime, max_velocity};
use crate::palette::{cell_type_color_random, in_palette, palette, palette_color, palette_len};

verus! {

/// What one coordinate of the grid holds.
#[derive(Clone, Copy, Debug, PartialEq, Eq)]
pub struct Cell {
    /// The material.
    pub ty: CellType,
    /// Set on the cell that a move of this tick ended on.
    pub moved: bool,
    /// Fixed-point speed, in units of `1 / VELOCITY_ONE` cells per tick.
    pub velocity: u32,
    /// Ticks left to a gas.
    pub lifetime: u32,
    /// Red, green, blue.
    pub color: [u8; 3],
}

impl Cell {
    /// The speed of the cell is within the limit of its material.
    pub open spec fn wf(self) -> bool {
        self.velocity <= max_velocity(self.ty)
    }

    /// A newly made cell of a material, in a given colour: at rest flag, unit
    /// speed, full lifetime.
    pub open spec fn fresh(cell_type: CellType, color: [u8; 3]) -> Cell {
        Cell {
            ty: cell_type,
            moved: false,
            velocity: VELOCITY_ONE,
            lifetime: initial_lifetime(cell_type),
            color,
        }
    }

    /// The cell is a newly made cell of the material, in one of its colours.
    pub open spec fn is_fresh(self, cell_type: CellType) -> bool {
        self == Cell::fresh(cell_type, self.color) && in_palette(cell_type, self.color)
    }

    /// The same cell with another move flag.
    pub open spec fn flagged(self, moved: bool) -> Cell {
        Cell { moved, ..self }
    }

    /// Whole cells per tick: the speed rounded down.
    pub open spec fn reach(self) -> nat {
        (self.velocity / VELOCITY_ONE) as nat
    }

    /// Makes a cell of a material; its colour is drawn from the palette.
    pub fn from(cell_type: CellType, rng: &fastrand::Rng) -> (cell: Cell)
        ensures
            cell.is_fresh(cell_type),
            cell.wf(),
    {
        let mut cell = Cell {
            ty: cell_type,
            moved: false,
            velocity: VELOCITY_ONE,
            lifetime: cell_type_lifetime(cell_type),
            color: [0, 0, 0],
        };
        cell.color = cell_type_color_random(&cell, rng);
        cell
    }

    /// Makes a cell of a material in the `tint`-th colour of its palette.
    pub fn tinted(cell_type: CellType, tint: usize) -> (cell: Cell)
        requires
            tint < palette_len(cell_type),
        ensures
            cell == Cell::fresh(cell_type, palette(cell_type, tint as int)),
            cell.is_fresh(cell_type),
            cell.wf(),
    {
        Cell {
            ty: cell_type,
            moved: false,
            velocity: VELOCITY_ONE,
            lifetime: cell_type_lifetime(cell_type),
            color: palette_color(cell_type, tint),
        }
    }

    /// Whether the speed is within the limit of the material.
    pub fn is_valid(&self) -> (valid: bool)
        ensures
            valid == self.wf(),
    {
        self.velocity <= crate::material::cell_type_max_velocity(self.ty)
    }
}

} // verus!
