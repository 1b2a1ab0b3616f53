use sand_sim::cell::Cell;
use sand_sim::frame::{
    draw_cells, draw_menu, draw_square, to_1d_index_pixel_buffer, write_to_pixel_buffer,
};
use sand_sim::grid::Grid;
use sand_sim::material::CellType;
use sand_sim::palette::cell_type_color_fixed;

fn pixel(frame: &[u8], width: usize, x: usize, y: usize) -> [u8; 4] {
    let i = (y * width + x) * 4;
    [frame[i], frame[i + 1], frame[i + 2], frame[i + 3]]
}

#[test]
fn pixel_index_is_row_major_in_fours() {
    assert_eq!(to_1d_index_pixel_buffer(0, 0, 400), 0);
    assert_eq!(to_1d_index_pixel_buffer(1, 0, 400), 4);
    assert_eq!(to_1d_index_pixel_buffer(0, 1, 400), 1600);
    assert_eq!(to_1d_index_pixel_buffer(7, 3, 400), 3 * 400 * 4 + 7 * 4);
    assert_eq!(to_1d_index_pixel_buffer(2, 5, 10), 208);
}

#[test]
fn write_sets_four_bytes() {
    let mut frame = vec![9u8; 12];
    write_to_pixel_buffer(&mut frame, 4, &[1, 2, 3]);
    assert_eq!(frame, vec![9, 9, 9, 9, 1, 2, 3, 0xff, 9, 9, 9, 9]);
}

#[test]
fn square_has_a_border_and_a_fill() {
    let (width, height) = (8, 7);
    let mut frame = vec![7u8; width * height * 4];
    draw_square(&mut frame, width, (2, 1), 4, &[10, 20, 30], Some(&[40, 50, 60]));
    for y in 0..height {
        for x in 0..width {
            let expected = if (2..6).contains(&x) && (1..5).contains(&y) {
                if x == 2 || x == 5 || y == 1 || y == 4 {
                    [10, 20, 30, 0xff]
                } else {
                    [40, 50, 60, 0xff]
                }
            } else {
                [7, 7, 7, 7]
            };
            assert_eq!(pixel(&frame, width, x, y), expected);
        }
    }
}

#[test]
fn square_without_fill_leaves_the_inside() {
    let (width, height) = (6, 6);
    let mut frame = vec![7u8; width * height * 4];
    draw_square(&mut frame, width, (1, 1), 3, &[1, 1, 1], None);
    assert_eq!(pixel(&frame, width, 2, 2), [7, 7, 7, 7]);
    assert_eq!(pixel(&frame, width, 1, 1), [1, 1, 1, 0xff]);
    assert_eq!(pixel(&frame, width, 3, 3), [1, 1, 1, 0xff]);
    assert_eq!(pixel(&frame, width, 4, 4), [7, 7, 7, 7]);
    let untouched = frame.clone();
    draw_square(&mut frame, width, (0, 0), 0, &[5, 5, 5], Some(&[6, 6, 6]));
    assert_eq!(frame, untouched);
}

#[test]
fn menu_frames_the_selected_material() {
    let (width, height) = (30, 120);
    let mut frame = vec![0u8; width * height * 4];
    draw_menu(&mut frame, width, CellType::Wood);
    let kinds = [
        CellType::Sand,
        CellType::Water,
        CellType::Wood,
        CellType::Fire,
        CellType::Smoke,
        CellType::Steam,
    ];
    for (k, ty) in kinds.into_iter().enumerate() {
        let fill = cell_type_color_fixed(ty);
        let fill = [fill[0], fill[1], fill[2], 0xff];
        if ty == CellType::Wood {
            assert_eq!(pixel(&frame, width, 5, 18 * k + 2), [0xff, 0xea, 0x00, 0xff]);
            assert_eq!(pixel(&frame, width, 21, 18 * k + 18), [0xff, 0xea, 0x00, 0xff]);
            assert_eq!(pixel(&frame, width, 6, 18 * k + 3), fill);
            assert_eq!(pixel(&frame, width, 22, 18 * k + 2), [0, 0, 0, 0]);
        } else {
            assert_eq!(pixel(&frame, width, 6, 18 * k + 3), [0xff, 0xff, 0xff, 0xff]);
            assert_eq!(pixel(&frame, width, 20, 18 * k + 17), [0xff, 0xff, 0xff, 0xff]);
            assert_eq!(pixel(&frame, width, 7, 18 * k + 4), fill);
            assert_eq!(pixel(&frame, width, 5, 18 * k + 3), [0, 0, 0, 0]);
            assert_eq!(pixel(&frame, width, 21, 18 * k + 3), [0, 0, 0, 0]);
        }
    }
    assert_eq!(pixel(&frame, width, 6, 2), [0, 0, 0, 0]);
    assert_eq!(pixel(&frame, width, 6, 109), [0, 0, 0, 0]);
}

#[test]
fn cells_are_drawn_row_by_row() {
    let mut grid = Grid::new(3, 2);
    grid.set_cell(2, 0, Cell::tinted(CellType::Sand, 0));
    grid.set_cell(0, 1, Cell::tinted(CellType::Water, 3));
    let mut frame = vec![9u8; 3 * 2 * 4 + 4];
    draw_cells(&mut frame, &grid);
    assert_eq!(pixel(&frame, 3, 0, 0), [0, 0, 0, 0xff]);
    assert_eq!(pixel(&frame, 3, 2, 0), [0xf6, 0xd7, 0xb0, 0xff]);
    assert_eq!(pixel(&frame, 3, 0, 1), [0x27, 0x5c, 0xcd, 0xff]);
    assert_eq!(pixel(&frame, 3, 2, 1), [0, 0, 0, 0xff]);
    assert_eq!(&frame[24..], &[9, 9, 9, 9]);
}
