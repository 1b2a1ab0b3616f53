//! The closed set of materials and their physical constants.

use vstd::prelude::*;

verus! {

/// Fixed-point units per one cell of speed: ten times two to the sixteenth, so
/// that tenths are whole numbers and sixteen successive halvings of a tenth are exact.
pub const VELOCITY_ONE: u32 = 655_360;

/// Below this speed (a tenth) a cell counts as resting.
pub const REST_VELOCITY: u32 = 65_536;

/// Speed gained on a successful move by solids and liquids (two tenths).
pub const ACCELERATION: u32 = 131_072;

/// Speed limit of solids and liquids (ten).
pub const MAX_VELOCITY: u32 = 6_553_600;

/// Speed gained on a successful move by smoke (a tenth).
pub const SMOKE_ACCELERATION: u32 = 65_536;

/// Speed limit of smoke (two).
pub const SMOKE_MAX_VELOCITY: u32 = 1_310_720;

/// Speed gained on a successful move by steam (a tenth).
pub const STEAM_ACCELERATION: u32 = 65_536;

/// Speed limit of steam (two).
pub const STEAM_MAX_VELOCITY: u32 = 1_310_720;

/// Ticks a smoke cell lives.
pub const SMOKE_LIFETIME: u32 = 100;

/// Ticks a steam cell lives.
pub const STEAM_LIFETIME: u32 = 50;

/// What a cell can be made of. Air stands for an empty cell.
#[derive(Clone, Copy, PartialEq, Eq, Structural, Debug, Hash)]
pub enum CellType {
    Air,
    Sand,
    Water,
    Wood,
    Fire,
    Smoke,
    Steam,
}

impl Default for CellType {
    fn default() -> (ty: CellType)
        ensures
            ty == CellType::Air,
    {
        CellType::Air
    }
}

/// The countdown a cell of this material starts with: zero unless it is a gas.
pub open spec fn initial_lifetime(cell_type: CellType) -> u32 {
    match cell_type {
        CellType::Smoke => SMOKE_LIFETIME,
        CellType::Steam => STEAM_LIFETIME,
        _ => 0,
    }
}

/// The speed limit of a material.
pub open spec fn max_velocity(cell_type: CellType) -> u32 {
    match cell_type {
        CellType::Smoke => SMOKE_MAX_VELOCITY,
        CellType::Steam => STEAM_MAX_VELOCITY,
        _ => MAX_VELOCITY,
    }
}

/// What sand sinks through: air, liquids and gases.
pub open spec fn sand_fall_through() -> Seq<CellType> {
    seq![CellType::Air, CellType::Water, CellType::Steam, CellType::Smoke]
}

/// What water displaces: air and gases.
pub open spec fn water_empty() -> Seq<CellType> {
    seq![CellType::Air, CellType::Steam, CellType::Smoke]
}

/// What a gas rises through: air only.
pub open spec fn gas_empty() -> Seq<CellType> {
    seq![CellType::Air]
}

/// What fire ignites.
pub open spec fn burnable() -> Seq<CellType> {
    seq![CellType::Wood]
}

/// What a brush may paint over.
pub open spec fn paintable() -> Seq<CellType> {
    seq![CellType::Air, CellType::Smoke, CellType::Water]
}

/// Materials that a brush lays down one cell in eight at a time.
pub open spec fn sparse(cell_type: CellType) -> bool {
    cell_type == CellType::Sand || cell_type == CellType::Water || cell_type == CellType::Fire
        || cell_type == CellType::Smoke
}

/// The countdown a cell of this material starts with.
pub fn cell_type_lifetime(cell_type: CellType) -> (lifetime: u32)
    ensures
        lifetime == initial_lifetime(cell_type),
{
    match cell_type {
        CellType::Smoke => SMOKE_LIFETIME,
        CellType::Steam => STEAM_LIFETIME,
        _ => 0,
    }
}

/// The speed limit of a material.
pub fn cell_type_max_velocity(cell_type: CellType) -> (limit: u32)
    ensures
        limit == max_velocity(cell_type),
{
    match cell_type {
        CellType::Smoke => SMOKE_MAX_VELOCITY,
        CellType::Steam => STEAM_MAX_VELOCITY,
        _ => MAX_VELOCITY,
    }
}

/// Whether `cell_type` occurs in `types`.
pub fn contains_type(types: &[CellType], cell_type: CellType) -> (found: bool)
    ensures
        found == types@.contains(cell_type),
{
    let mut i: usize = 0;
    while i < types.len()
        invariant
            i <= types@.len(),
            forall|j: int| 0 <= j < i ==> types@[j] != cell_type,
        decreases types@.len() - i,
    {
        if types[i] == cell_type {
            return true;
        }
        i += 1;
    }
    false
}

/// The materials a brush can select, in menu order; air, which the eraser
/// lays down, is not among them.
pub open spec fn menu_materials() -> Seq<CellType> {
    seq![
        CellType::Sand,
        CellType::Water,
        CellType::Wood,
        CellType::Fire,
        CellType::Smoke,
        CellType::Steam,
    ]
}

/// The `index`-th material of the menu.
pub fn menu_material(index: usize) -> (cell_type: CellType)
    requires
        index < 6,
    ensures
        cell_type == menu_materials()[index as int],
{
    if index == 0 {
        CellType::Sand
    } else if index == 1 {
        CellType::Water
    } else if index == 2 {
        CellType::Wood
    } else if index == 3 {
        CellType::Fire
    } else if index == 4 {
        CellType::Smoke
    } else {
        CellType::Steam
    }
}

} // verus!
