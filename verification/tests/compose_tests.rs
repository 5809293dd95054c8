use image::{Rgb, RgbImage};
use stream_field::compose::render;
use stream_field::grid::Grid;

#[test]
fn render_gives_three_bytes_per_cell() {
    let grid: Grid<u8> = Grid::new(5, 0);
    let bytes = render(&grid, |_| [1, 2, 3]);
    assert_eq!(bytes.len(), 75);
}

#[test]
fn render_of_an_empty_grid_is_empty() {
    let grid: Grid<u8> = Grid::new(0, 0);
    let bytes = render(&grid, |_| [1, 2, 3]);
    assert!(bytes.is_empty());
}

#[test]
fn render_lays_pixels_out_row_by_row() {
    let mut grid: Grid<u8> = Grid::new(2, 0);
    grid.deposit(0, 0, |_| 10);
    grid.deposit(1, 0, |_| 20);
    grid.deposit(0, 1, |_| 30);
    grid.deposit(1, 1, |_| 40);
    let bytes = render(&grid, |cell| [cell, cell + 1, cell + 2]);
    assert_eq!(
        bytes,
        vec![10, 11, 12, 20, 21, 22, 30, 31, 32, 40, 41, 42]
    );
}

#[test]
fn render_maps_each_cell_to_its_own_pixel() {
    let size = 7u32;
    let mut grid: Grid<(u8, u8)> = Grid::new(size, (0, 0));
    for x in 0..size as usize {
        for y in 0..size as usize {
            grid.deposit(x, y, |_| (x as u8, y as u8));
        }
    }
    let bytes = render(&grid, |cell| [cell.0, cell.1, 255 - cell.0]);
    let img = RgbImage::from_raw(size, size, bytes).unwrap();
    assert_eq!(img.dimensions(), (size, size));
    for x in 0..size {
        for y in 0..size {
            assert_eq!(*img.get_pixel(x, y), Rgb([x as u8, y as u8, 255 - x as u8]));
        }
    }
}

#[test]
fn render_matches_an_image_filled_pixel_by_pixel() {
    let size = 4u32;
    let mut grid: Grid<u32> = Grid::new(size, 0);
    grid.deposit(1, 2, |cell| cell + 100);
    grid.deposit(3, 0, |cell| cell + 200);
    grid.deposit(1, 2, |cell| cell + 50);
    let tone = |cell: u32| [(cell % 256) as u8, (cell / 2) as u8, 9];
    let bytes = render(&grid, tone);
    let mut expected = RgbImage::new(size, size);
    for x in 0..size {
        for y in 0..size {
            expected.put_pixel(x, y, Rgb(tone(grid.get(x as usize, y as usize))));
        }
    }
    assert_eq!(bytes, expected.into_raw());
}

#[test]
fn untouched_cells_render_alike() {
    let mut grid: Grid<i32> = Grid::new(3, 0);
    grid.deposit(1, 1, |cell| cell + 1);
    let bytes = render(&grid, |cell| if cell == 0 { [119, 119, 119] } else { [200, 10, 10] });
    for pixel in 0..9 {
        let rgb = &bytes[pixel * 3..pixel * 3 + 3];
        if pixel == 4 {
            assert_eq!(rgb, &[200, 10, 10]);
        } else {
            assert_eq!(rgb, &[119, 119, 119]);
        }
    }
}

#[test]
fn rendering_twice_gives_the_same_bytes() {
    let mut grid: Grid<u8> = Grid::new(6, 3);
    grid.deposit(5, 0, |cell| cell * 9);
    grid.deposit(2, 4, |cell| cell + 70);
    let tone = |cell: u8| [cell, cell / 2, cell / 3];
    assert_eq!(render(&grid, tone), render(&grid, tone));
}
