//! Drawing into a frame of pixels: four bytes each, red, green, blue and an
//! opaque alpha, row by row.

use vstd::prelude::*;
use crate::grid::{Grid, GridView};
use crate::material::{CellType, menu_material, menu_materials};
use crate::palette::{cell_type_color_fixed, palette};

verus! {

/// Where the pixel at a coordinate starts in a frame `width` pixels wide.
pub open spec fn pixel_index(width: int, x: int, y: int) -> int {
    y * width * 4 + x * 4
}

/// `(x, y, c)` names a byte of a frame of `len` bytes and `width` pixels a
/// row: byte `c` of the pixel at `(x, y)`.
pub open spec fn is_byte(len: int, width: int, x: int, y: int, c: int) -> bool {
    0 <= x < width && 0 <= y && 0 <= c < 4 && pixel_index(width, x, y) + c < len
}

/// Byte `c` of the pixel at a coordinate.
pub open spec fn byte_at(frame: Seq<u8>, width: int, x: int, y: int, c: int) -> u8 {
    frame[pixel_index(width, x, y) + c]
}

/// Byte `c` of a pixel in a colour: the three channels, then full alpha.
pub open spec fn channel(color: [u8; 3], c: int) -> u8 {
    if c == 3 {
        0xff
    } else {
        color[c]
    }
}

/// The frame with the pixel that starts at `index` set to a colour.
pub open spec fn with_pixel(frame: Seq<u8>, index: int, color: [u8; 3]) -> Seq<u8> {
    frame.update(index, color[0]).update(index + 1, color[1]).update(index + 2, color[2]).update(
        index + 3,
        0xff,
    )
}

/// Byte `c` of the pixel at a coordinate once `drawn` has been laid over
/// `frame`: of the colour drawn there, or, where nothing is drawn, as it was.
pub open spec fn overlaid(
    frame: Seq<u8>,
    width: int,
    drawn: Option<[u8; 3]>,
    x: int,
    y: int,
    c: int,
) -> u8 {
    match drawn {
        Some(color) => channel(color, c),
        None => byte_at(frame, width, x, y, c),
    }
}

/// What a square gives the pixel at a coordinate: the border colour on its
/// rim, the fill colour inside where there is one, and nothing elsewhere.
pub open spec fn square_pixel(
    top_left: (int, int),
    size: int,
    border: [u8; 3],
    fill: Option<[u8; 3]>,
    x: int,
    y: int,
) -> Option<[u8; 3]> {
    let dx = x - top_left.0;
    let dy = y - top_left.1;
    if 0 <= dx < size && 0 <= dy < size {
        if dy == size - 1 || dy == 0 || dx == size - 1 || dx == 0 {
            Some(border)
        } else {
            fill
        }
    } else {
        None
    }
}

/// A colour behind a reference, or none.
pub open spec fn color_of(color: Option<&[u8; 3]>) -> Option<[u8; 3]> {
    match color {
        Some(color) => Some(*color),
        None => None,
    }
}

/// The pixel at `(x, y)` comes before the pixel `(column, row)` of a square
/// that is drawn row by row from its corner.
pub open spec fn drawn_before(corner: (int, int), row: int, column: int, x: int, y: int) -> bool {
    y - corner.1 < row || (y - corner.1 == row && x - corner.0 < column)
}

/// A pixel above row `rows` lies wholly within the first `rows` rows of the frame.
proof fn lemma_pixel_fits(width: int, x: int, y: int, rows: int)
    requires
        0 <= x < width,
        0 <= y < rows,
    ensures
        0 <= pixel_index(width, x, y),
        pixel_index(width, x, y) + 3 < rows * width * 4,
{
    assert(y * width * 4 + x * 4 + 4 <= rows * width * 4 && 0 <= y * width * 4)
        by (nonlinear_arith)
        requires
            0 <= x < width,
            0 <= y < rows,
    ;
}

/// Two names of one byte of a frame are the same name.
proof fn lemma_pixel_distinct(width: int, x1: int, y1: int, c1: int, x2: int, y2: int, c2: int)
    requires
        0 <= x1 < width,
        0 <= x2 < width,
        0 <= c1 < 4,
        0 <= c2 < 4,
        pixel_index(width, x1, y1) + c1 == pixel_index(width, x2, y2) + c2,
    ensures
        x1 == x2,
        y1 == y2,
        c1 == c2,
{
    assert(y1 * width * 4 == (y1 * width) * 4 && y2 * width * 4 == (y2 * width) * 4)
        by (nonlinear_arith);
    assert(c1 == c2 && y1 * width + x1 == y2 * width + x2);
    crate::grid::lemma_index_injective(width, x1, y1, x2, y2);
}

/// Setting one pixel changes its four bytes and no other.
proof fn lemma_with_pixel(
    frame: Seq<u8>,
    width: int,
    px: int,
    py: int,
    color: [u8; 3],
    x: int,
    y: int,
    c: int,
)
    requires
        0 <= px < width,
        0 <= py,
        is_byte(frame.len() as int, width, px, py, 3),
        is_byte(frame.len() as int, width, x, y, c),
    ensures
        byte_at(with_pixel(frame, pixel_index(width, px, py), color), width, x, y, c) == if (x, y)
            == (px, py) {
            channel(color, c)
        } else {
            byte_at(frame, width, x, y, c)
        },
{
    let index = pixel_index(width, px, py);
    let i = pixel_index(width, x, y) + c;
    lemma_pixel_fits(width, px, py, py + 1);
    if index <= i <= index + 3 {
        lemma_pixel_distinct(width, x, y, c, px, py, i - index);
    }
}

/// Where the pixel at a coordinate starts in a frame `width` pixels wide.
pub fn to_1d_index_pixel_buffer(x: usize, y: usize, width: usize) -> (index: usize)
    requires
        pixel_index(width as int, x as int, y as int) <= usize::MAX,
    ensures
        index == pixel_index(width as int, x as int, y as int),
{
    assert(y * width <= y * width * 4 <= y * width * 4 + x * 4) by (nonlinear_arith);
    y * width * 4 + x * 4
}

/// Sets the pixel that starts at `index` to a colour, opaque.
pub fn write_to_pixel_buffer(frame: &mut [u8], index: usize, color: &[u8; 3])
    requires
        index + 3 < old(frame)@.len(),
    ensures
        final(frame)@ == with_pixel(old(frame)@, index as int, *color),
{
    frame[index] = color[0];
    frame[index + 1] = color[1];
    frame[index + 2] = color[2];
    frame[index + 3] = 0xff;
}

/// Draws a square with a border one pixel wide and, where a fill colour is
/// given, filled; without one the inside is left as it is.
pub fn draw_square(
    frame: &mut [u8],
    width: usize,
    top_left: (usize, usize),
    size: usize,
    border_color: &[u8; 3],
    fill_color: Option<&[u8; 3]>,
)
    requires
        top_left.0 + size <= width,
        (top_left.1 + size) * width * 4 <= old(frame)@.len(),
    ensures
        final(frame)@.len() == old(frame)@.len(),
        forall|x: int, y: int, c: int|
            is_byte(old(frame)@.len() as int, width as int, x, y, c) ==> #[trigger] byte_at(
                final(frame)@,
                width as int,
                x,
                y,
                c,
            ) == overlaid(
                old(frame)@,
                width as int,
                square_pixel(
                    (top_left.0 as int, top_left.1 as int),
                    size as int,
                    *border_color,
                    color_of(fill_color),
                    x,
                    y,
                ),
                x,
                y,
                c,
            ),
{
    let ghost start = frame@;
    let ghost len = frame@.len() as int;
    let ghost w = width as int;
    let ghost corner = (top_left.0 as int, top_left.1 as int);
    let ghost border = *border_color;
    let ghost fill = color_of(fill_color);
    proof {
        vstd::slice::axiom_spec_len(frame);
    }
    let mut y: usize = 0;
    while y < size
        invariant
            y <= size,
            top_left.0 + size <= width,
            (top_left.1 + size) * width * 4 <= len,
            len == start.len(),
            len <= usize::MAX,
            frame@.len() == len,
            w == width,
            corner == (top_left.0 as int, top_left.1 as int),
            border == *border_color,
            fill == color_of(fill_color),
            forall|a: int, b: int, c: int|
                is_byte(len, w, a, b, c) ==> #[trigger] byte_at(frame@, w, a, b, c) == overlaid(
                    start,
                    w,
                    if drawn_before(corner, y as int, 0, a, b) {
                        square_pixel(corner, size as int, border, fill, a, b)
                    } else {
                        None
                    },
                    a,
                    b,
                    c,
                ),
        decreases size - y,
    {
        let mut x: usize = 0;
        while x < size
            invariant
                x <= size,
                y < size,
                top_left.0 + size <= width,
                (top_left.1 + size) * width * 4 <= len,
                len == start.len(),
                len <= usize::MAX,
                frame@.len() == len,
                w == width,
                corner == (top_left.0 as int, top_left.1 as int),
                border == *border_color,
                fill == color_of(fill_color),
                forall|a: int, b: int, c: int|
                    is_byte(len, w, a, b, c) ==> #[trigger] byte_at(frame@, w, a, b, c)
                        == overlaid(
                        start,
                        w,
                        if drawn_before(corner, y as int, x as int, a, b) {
                            square_pixel(corner, size as int, border, fill, a, b)
                        } else {
                            None
                        },
                        a,
                        b,
                        c,
                    ),
            decreases size - x,
        {
            let ghost before = frame@;
            proof {
                assert(top_left.1 + size <= (top_left.1 + size) * width * 4) by (nonlinear_arith)
                    requires
                        width >= 1,
                        top_left.1 + size >= 0,
                ;
            }
            let px = x + top_left.0;
            let py = y + top_left.1;
            proof {
                lemma_pixel_fits(w, px as int, py as int, top_left.1 + size);
            }
            let current_pixel = to_1d_index_pixel_buffer(px, py, width);
            let ghost drawn = square_pixel(corner, size as int, border, fill, px as int, py as int);
            if y == size - 1 || y == 0 || x == size - 1 || x == 0 {
                write_to_pixel_buffer(frame, current_pixel, border_color);
            } else if let Some(color) = fill_color {
                write_to_pixel_buffer(frame, current_pixel, color);
            }
            proof {
                assert forall|a: int, b: int, c: int|
                    is_byte(len, w, a, b, c) implies #[trigger] byte_at(frame@, w, a, b, c) == overlaid(
                    start,
                    w,
                    if drawn_before(corner, y as int, x + 1, a, b) {
                        square_pixel(corner, size as int, border, fill, a, b)
                    } else {
                        None
                    },
                    a,
                    b,
                    c,
                ) by {
                    assert(byte_at(before, w, a, b, c) == overlaid(
                        start,
                        w,
                        if drawn_before(corner, y as int, x as int, a, b) {
                            square_pixel(corner, size as int, border, fill, a, b)
                        } else {
                            None
                        },
                        a,
                        b,
                        c,
                    ));
                    if let Some(color) = drawn {
                        lemma_with_pixel(before, w, px as int, py as int, color, a, b, c);
                    }
                }
            }
            x += 1;
        }
        y += 1;
    }
}

/// The top left corner of the `k`-th swatch of the picker. The swatch of the
/// selected material is drawn one pixel larger on every side.
pub open spec fn swatch_corner(k: int, chosen: bool) -> (int, int) {
    if chosen {
        (5, 18 * k + 2)
    } else {
        (6, 18 * k + 3)
    }
}

/// The side of a swatch.
pub open spec fn swatch_size(chosen: bool) -> int {
    if chosen {
        17
    } else {
        15
    }
}

/// The border of a swatch: yellow round the selected material, white round the others.
pub open spec fn swatch_border(chosen: bool) -> [u8; 3] {
    if chosen {
        [0xffu8, 0xeau8, 0x00u8]
    } else {
        [0xffu8, 0xffu8, 0xffu8]
    }
}

/// What the first `k` swatches of the picker give the pixel at a coordinate.
pub open spec fn menu_pixel(selected: CellType, k: nat, x: int, y: int) -> Option<[u8; 3]>
    decreases k,
{
    if k == 0 {
        None
    } else {
        let cell_type = menu_materials()[k - 1];
        let chosen = cell_type == selected;
        match square_pixel(
            swatch_corner(k - 1, chosen),
            swatch_size(chosen),
            swatch_border(chosen),
            Some(palette(cell_type, 0)),
            x,
            y,
        ) {
            Some(color) => Some(color),
            None => menu_pixel(selected, (k - 1) as nat, x, y),
        }
    }
}

/// Draws the material picker: one swatch for each material but air, one
/// below the other, the selected one framed in yellow.
pub fn draw_menu(frame: &mut [u8], width: usize, selected_cell_type: CellType)
    requires
        width >= 22,
        109 * width * 4 <= old(frame)@.len(),
    ensures
        final(frame)@.len() == old(frame)@.len(),
        forall|x: int, y: int, c: int|
            is_byte(old(frame)@.len() as int, width as int, x, y, c) ==> #[trigger] byte_at(
                final(frame)@,
                width as int,
                x,
                y,
                c,
            ) == overlaid(
                old(frame)@,
                width as int,
                menu_pixel(selected_cell_type, 6, x, y),
                x,
                y,
                c,
            ),
{
    let ghost start = frame@;
    let ghost len = frame@.len() as int;
    let ghost w = width as int;
    let mut cell_type_index: usize = 0;
    while cell_type_index < 6
        invariant
            cell_type_index <= 6,
            width >= 22,
            109 * width * 4 <= len,
            len == start.len(),
            frame@.len() == len,
            w == width,
            forall|x: int, y: int, c: int|
                is_byte(len, w, x, y, c) ==> #[trigger] byte_at(frame@, w, x, y, c) == overlaid(
                    start,
                    w,
                    menu_pixel(selected_cell_type, cell_type_index as nat, x, y),
                    x,
                    y,
                    c,
                ),
        decreases 6 - cell_type_index,
    {
        let ghost before = frame@;
        let cell_type = menu_material(cell_type_index);
        let fill = cell_type_color_fixed(cell_type);
        let chosen = selected_cell_type == cell_type;
        proof {
            assert((18 * cell_type_index + 19) * width * 4 <= 109 * width * 4) by (nonlinear_arith)
                requires
                    cell_type_index <= 5,
                    width >= 0,
            ;
            assert((18 * cell_type_index + 18) * width * 4 <= 109 * width * 4) by (nonlinear_arith)
                requires
                    cell_type_index <= 5,
                    width >= 0,
            ;
        }
        if chosen {
            let border = [0xff, 0xea, 0x00];
            assert(border == swatch_border(true));
            draw_square(frame, width, (5, 18 * cell_type_index + 2), 17, &border, Some(&fill));
        } else {
            let border = [0xff, 0xff, 0xff];
            assert(border == swatch_border(false));
            draw_square(frame, width, (6, 18 * cell_type_index + 3), 15, &border, Some(&fill));
        }
        proof {
            assert forall|x: int, y: int, c: int|
                is_byte(len, w, x, y, c) implies #[trigger] byte_at(frame@, w, x, y, c) == overlaid(
                start,
                w,
                menu_pixel(selected_cell_type, (cell_type_index + 1) as nat, x, y),
                x,
                y,
                c,
            ) by {
                assert(byte_at(before, w, x, y, c) == overlaid(
                    start,
                    w,
                    menu_pixel(selected_cell_type, cell_type_index as nat, x, y),
                    x,
                    y,
                    c,
                ));
            }
        }
        cell_type_index += 1;
    }
}

/// Byte `c` of the pixel at a coordinate once the first `rows` rows of the
/// grid have been drawn over `frame`: of the colour of the cell there, or,
/// below those rows, as it was.
pub open spec fn cell_byte(
    frame: Seq<u8>,
    grid: GridView,
    rows: int,
    x: int,
    y: int,
    c: int,
) -> u8 {
    if y < rows {
        channel(grid.at(x, y).color, c)
    } else {
        byte_at(frame, grid.width, x, y, c)
    }
}

/// Draws every cell of the grid as one pixel of its colour. The frame is as
/// wide as the grid and at least as high.
pub fn draw_cells(frame: &mut [u8], grid: &Grid)
    requires
        grid.wf(),
        grid@.height * grid@.width * 4 <= old(frame)@.len(),
    ensures
        final(frame)@.len() == old(frame)@.len(),
        forall|x: int, y: int, c: int|
            is_byte(old(frame)@.len() as int, grid@.width, x, y, c) ==> #[trigger] byte_at(
                final(frame)@,
                grid@.width,
                x,
                y,
                c,
            ) == cell_byte(old(frame)@, grid@, grid@.height, x, y, c),
{
    let ghost start = frame@;
    let ghost len = frame@.len() as int;
    proof {
        vstd::slice::axiom_spec_len(frame);
    }
    let width = grid.width();
    let height = grid.height();
    let ghost w = width as int;
    let mut y: usize = 0;
    while y < height
        invariant
            y <= height,
            grid.wf(),
            width == grid@.width,
            height == grid@.height,
            w == width,
            height * width * 4 <= len,
            len == start.len(),
            len <= usize::MAX,
            frame@.len() == len,
            forall|a: int, b: int, c: int|
                is_byte(len, w, a, b, c) ==> #[trigger] byte_at(frame@, w, a, b, c) == cell_byte(
                    start,
                    grid@,
                    y as int,
                    a,
                    b,
                    c,
                ),
        decreases height - y,
    {
        let mut x: usize = 0;
        while x < width
            invariant
                x <= width,
                y < height,
                grid.wf(),
                width == grid@.width,
                height == grid@.height,
                w == width,
                height * width * 4 <= len,
                len == start.len(),
                len <= usize::MAX,
                frame@.len() == len,
                forall|a: int, b: int, c: int|
                    is_byte(len, w, a, b, c) ==> #[trigger] byte_at(frame@, w, a, b, c) == if b
                        == y && a < x {
                        channel(grid@.at(a, b).color, c)
                    } else {
                        cell_byte(start, grid@, y as int, a, b, c)
                    },
            decreases width - x,
        {
            let ghost before = frame@;
            proof {
                lemma_pixel_fits(w, x as int, y as int, height as int);
            }
            let cell = grid.get_cell(x, y);
            let index = to_1d_index_pixel_buffer(x, y, width);
            write_to_pixel_buffer(frame, index, &cell.color);
            proof {
                assert forall|a: int, b: int, c: int|
                    is_byte(len, w, a, b, c) implies #[trigger] byte_at(frame@, w, a, b, c) == if b == y && a < x + 1 {
                    channel(grid@.at(a, b).color, c)
                } else {
                    cell_byte(start, grid@, y as int, a, b, c)
                } by {
                    assert(byte_at(before, w, a, b, c) == if b == y && a < x {
                        channel(grid@.at(a, b).color, c)
                    } else {
                        cell_byte(start, grid@, y as int, a, b, c)
                    });
                    lemma_with_pixel(before, w, x as int, y as int, cell.color, a, b, c);
                }
            }
            x += 1;
        }
        y += 1;
    }
}

} // verus!
