//! Colours: a small palette per material, and the fading tone of the gases.

use vstd::prelude::*;
use crate::cell::Cell;
use crate::material::CellType;
use crate::random::pick;

verus! {

/// The colour of air.
pub const AIR_COLOR: [u8; 3] = [0x00, 0x00, 0x00];

/// The tone of fresh smoke.
pub const SMOKE_COLOR_LIGHT: [u8; 3] = [0x47, 0x47, 0x47];

/// The tone of smoke at the end of its life.
pub const SMOKE_COLOR_DARK: [u8; 3] = [0x00, 0x00, 0x00];

/// The tone of fresh steam.
pub const STEAM_COLOR_LIGHT: [u8; 3] = [0xf5, 0xf5, 0xf5];

/// The tone of steam at the end of its life.
pub const STEAM_COLOR_DARK: [u8; 3] = [0x00, 0x00, 0x00];

/// How many colours a fresh cell of this material is drawn from.
pub open spec fn palette_len(cell_type: CellType) -> nat {
    match cell_type {
        CellType::Sand => 4,
        CellType::Water => 4,
        CellType::Wood => 4,
        CellType::Fire => 6,
        _ => 1,
    }
}

/// The palette of a material. Fire lists its reds twice: they come up more
/// often than the yellows.
pub open spec fn palette(cell_type: CellType, index: int) -> [u8; 3] {
    match cell_type {
        CellType::Air => AIR_COLOR,
        CellType::Sand => if index == 0 {
            [0xf6u8, 0xd7u8, 0xb0u8]
        } else if index == 1 {
            [0xf2u8, 0xd2u8, 0xa9u8]
        } else if index == 2 {
            [0xecu8, 0xccu8, 0xa2u8]
        } else {
            [0xe7u8, 0xc4u8, 0x96u8]
        },
        CellType::Water => if index == 0 {
            [0x18u8, 0x56u8, 0xdcu8]
        } else if index == 1 {
            [0x1fu8, 0x59u8, 0xd6u8]
        } else if index == 2 {
            [0x25u8, 0x5bu8, 0xd0u8]
        } else {
            [0x27u8, 0x5cu8, 0xcdu8]
        },
        CellType::Wood => if index == 0 {
            [0x77u8, 0x4fu8, 0x3cu8]
        } else if index == 1 {
            [0x71u8, 0x4bu8, 0x39u8]
        } else if index == 2 {
            [0x6bu8, 0x47u8, 0x36u8]
        } else {
            [0x65u8, 0x43u8, 0x33u8]
        },
        CellType::Fire => if index == 0 || index == 1 {
            [0xc3u8, 0x3eu8, 0x05u8]
        } else if index == 2 || index == 3 {
            [0xc2u8, 0x34u8, 0x05u8]
        } else if index == 4 {
            [0xf9u8, 0x61u8, 0x1fu8]
        } else {
            [0xf0u8, 0xa1u8, 0x2bu8]
        },
        CellType::Smoke => SMOKE_COLOR_LIGHT,
        CellType::Steam => STEAM_COLOR_LIGHT,
    }
}

/// Whether `color` is one of the colours a fresh cell of this material can have.
pub open spec fn in_palette(cell_type: CellType, color: [u8; 3]) -> bool {
    exists|index: int| 0 <= index < palette_len(cell_type) && color == palette(cell_type, index)
}

/// One channel of the tone that lies `numerator / denominator` of the way from
/// `color_2` to `color_1`, rounded down and kept within a byte.
pub open spec fn blend(channel_1: u8, channel_2: u8, numerator: u32, denominator: u32) -> u8 {
    let scaled = channel_2 * denominator + (channel_1 - channel_2) * numerator;
    let value = scaled / (denominator as int);
    if value < 0 {
        0u8
    } else if value > 255 {
        255u8
    } else {
        value as u8
    }
}

/// The tone of a gas that has `lifetime` ticks left: light when fresh, dark at the end.
pub open spec fn gas_color(cell_type: CellType, lifetime: u32) -> [u8; 3] {
    let light = if cell_type == CellType::Steam {
        STEAM_COLOR_LIGHT
    } else {
        SMOKE_COLOR_LIGHT
    };
    let dark = if cell_type == CellType::Steam {
        STEAM_COLOR_DARK
    } else {
        SMOKE_COLOR_DARK
    };
    let full = if cell_type == CellType::Steam {
        crate::material::STEAM_LIFETIME
    } else {
        crate::material::SMOKE_LIFETIME
    };
    [
        blend(light[0], dark[0], lifetime, full),
        blend(light[1], dark[1], lifetime, full),
        blend(light[2], dark[2], lifetime, full),
    ]
}

/// The colour that stands for a material in the picker: the first of its palette.
pub fn cell_type_color_fixed(cell_type: CellType) -> (color: [u8; 3])
    ensures
        color == palette(cell_type, 0),
        in_palette(cell_type, color),
{
    palette_color(cell_type, 0)
}

/// The `index`-th colour of a material's palette.
pub fn palette_color(cell_type: CellType, index: usize) -> (color: [u8; 3])
    requires
        index < palette_len(cell_type),
    ensures
        color == palette(cell_type, index as int),
        in_palette(cell_type, color),
{
    let color = match cell_type {
        CellType::Air => AIR_COLOR,
        CellType::Sand => if index == 0 {
            [0xf6, 0xd7, 0xb0]
        } else if index == 1 {
            [0xf2, 0xd2, 0xa9]
        } else if index == 2 {
            [0xec, 0xcc, 0xa2]
        } else {
            [0xe7, 0xc4, 0x96]
        },
        CellType::Water => if index == 0 {
            [0x18, 0x56, 0xdc]
        } else if index == 1 {
            [0x1f, 0x59, 0xd6]
        } else if index == 2 {
            [0x25, 0x5b, 0xd0]
        } else {
            [0x27, 0x5c, 0xcd]
        },
        CellType::Wood => if index == 0 {
            [0x77, 0x4f, 0x3c]
        } else if index == 1 {
            [0x71, 0x4b, 0x39]
        } else if index == 2 {
            [0x6b, 0x47, 0x36]
        } else {
            [0x65, 0x43, 0x33]
        },
        CellType::Fire => if index == 0 || index == 1 {
            [0xc3, 0x3e, 0x05]
        } else if index == 2 || index == 3 {
            [0xc2, 0x34, 0x05]
        } else if index == 4 {
            [0xf9, 0x61, 0x1f]
        } else {
            [0xf0, 0xa1, 0x2b]
        },
        CellType::Smoke => SMOKE_COLOR_LIGHT,
        CellType::Steam => STEAM_COLOR_LIGHT,
    };
    assert(color == palette(cell_type, index as int));
    color
}

/// How many colours the palette of a material holds.
pub fn palette_size(cell_type: CellType) -> (count: usize)
    ensures
        count == palette_len(cell_type),
{
    match cell_type {
        CellType::Sand => 4,
        CellType::Water => 4,
        CellType::Wood => 4,
        CellType::Fire => 6,
        _ => 1,
    }
}

/// A colour for a cell, drawn from the palette of its material. Air and the
/// gases have one colour each, and no draw is made for them.
pub fn cell_type_color_random(cell: &Cell, rng: &fastrand::Rng) -> (color: [u8; 3])
    ensures
        in_palette(cell.ty, color),
{
    let cell_type = cell.ty;
    match cell_type {
        CellType::Sand | CellType::Water | CellType::Wood | CellType::Fire => {
            let index = pick(rng, palette_size(cell_type));
            palette_color(cell_type, index)
        },
        _ => palette_color(cell_type, 0),
    }
}

/// The tone `numerator / denominator` of the way from `color_2` to `color_1`.
pub fn interpolate_color(
    color_1: &[u8; 3],
    color_2: &[u8; 3],
    numerator: u32,
    denominator: u32,
) -> (color: [u8; 3])
    requires
        denominator > 0,
    ensures
        color[0] == blend(color_1[0], color_2[0], numerator, denominator),
        color[1] == blend(color_1[1], color_2[1], numerator, denominator),
        color[2] == blend(color_1[2], color_2[2], numerator, denominator),
{
    [
        blend_channel(color_1[0], color_2[0], numerator, denominator),
        blend_channel(color_1[1], color_2[1], numerator, denominator),
        blend_channel(color_1[2], color_2[2], numerator, denominator),
    ]
}

fn blend_channel(channel_1: u8, channel_2: u8, numerator: u32, denominator: u32) -> (out: u8)
    requires
        denominator > 0,
    ensures
        out == blend(channel_1, channel_2, numerator, denominator),
{
    assert(0 <= channel_2 * denominator <= 255 * 0xffff_ffff) by (nonlinear_arith)
        requires
            0 <= channel_2 <= 255,
            0 < denominator <= 0xffff_ffff,
    ;
    assert(-255 * 0xffff_ffff <= (channel_1 - channel_2) * numerator <= 255 * 0xffff_ffff)
        by (nonlinear_arith)
        requires
            -255 <= channel_1 - channel_2 <= 255,
            0 <= numerator <= 0xffff_ffff,
    ;
    let base: i64 = channel_2 as i64 * denominator as i64;
    let span: i64 = (channel_1 as i64 - channel_2 as i64) * numerator as i64;
    let total: i64 = base + span;
    if total < 0 {
        assert((total as int) / (denominator as int) < 0) by (nonlinear_arith)
            requires
                total < 0,
                denominator > 0,
        ;
        0
    } else {
        let value: i64 = total / denominator as i64;
        if value > 255 {
            255
        } else {
            value as u8
        }
    }
}

/// The tone of a gas with `lifetime` ticks left.
pub fn gas_tone(cell_type: CellType, lifetime: u32) -> (color: [u8; 3])
    ensures
        color == gas_color(cell_type, lifetime),
{
    let color = if cell_type == CellType::Steam {
        interpolate_color(
            &STEAM_COLOR_LIGHT,
            &STEAM_COLOR_DARK,
            lifetime,
            crate::material::STEAM_LIFETIME,
        )
    } else {
        interpolate_color(
            &SMOKE_COLOR_LIGHT,
            &SMOKE_COLOR_DARK,
            lifetime,
            crate::material::SMOKE_LIFETIME,
        )
    };
    color
}

} // verus!
