use stream_field::grid::Grid;
use stream_field::lifecycle::{Lifecycle, Phase};
use stream_field::raster::rasterize;

fn live(max_age: u64) -> Lifecycle {
    let mut life = Lifecycle::new(max_age);
    assert_eq!(life.observe(false), Phase::Active);
    life
}

fn cells(grid: &Grid<u64>) -> Vec<Vec<u64>> {
    let size = grid.size() as usize;
    (0..size)
        .map(|x| (0..size).map(|y| grid.get(x, y)).collect())
        .collect()
}

#[test]
fn step_without_sub_steps_only_ages_the_stream() {
    let mut life = live(10);
    let mut grid: Grid<u64> = Grid::new(3, 5);
    rasterize(&mut life, &mut grid, 0, |_| (Some(1), Some(1)), |_, _| 99);
    assert_eq!(life.age(), 1);
    assert_eq!(life.phase(), Phase::Active);
    assert_eq!(cells(&grid), vec![vec![5; 3]; 3]);
}

#[test]
fn each_sub_step_marks_its_cell_at_its_age() {
    let mut life = live(100);
    let mut grid: Grid<u64> = Grid::new(4, 0);
    rasterize(
        &mut life,
        &mut grid,
        3,
        |i| (Some(i), Some(2)),
        |age, cell| cell + 10 + age,
    );
    assert_eq!(life.age(), 3);
    assert_eq!(
        cells(&grid),
        vec![
            vec![0, 0, 0, 0],
            vec![0, 0, 10, 0],
            vec![0, 0, 11, 0],
            vec![0, 0, 12, 0],
        ]
    );
}

#[test]
fn ages_carry_on_from_the_previous_step() {
    let mut life = live(100);
    let mut grid: Grid<u64> = Grid::new(8, 0);
    rasterize(&mut life, &mut grid, 2, |i| (Some(i), Some(0)), |age, _| 100 + age);
    assert_eq!(life.observe(false), Phase::Active);
    rasterize(&mut life, &mut grid, 0, |i| (Some(i), Some(1)), |age, _| 200 + age);
    assert_eq!(life.observe(false), Phase::Active);
    rasterize(&mut life, &mut grid, 3, |i| (Some(i), Some(2)), |age, _| 300 + age);
    assert_eq!(life.age(), 6);
    assert_eq!(grid.get(1, 0), 100);
    assert_eq!(grid.get(2, 0), 101);
    assert_eq!(grid.get(1, 1), 0);
    assert_eq!(grid.get(1, 2), 303);
    assert_eq!(grid.get(2, 2), 304);
    assert_eq!(grid.get(3, 2), 305);
}

#[test]
fn sub_steps_off_the_grid_age_without_marking() {
    let mut life = live(100);
    let mut grid: Grid<u64> = Grid::new(3, 0);
    rasterize(
        &mut life,
        &mut grid,
        5,
        |i| (Some(i), Some(1)),
        |age, cell| cell + 1 + age,
    );
    assert_eq!(life.age(), 5);
    assert_eq!(
        cells(&grid),
        vec![vec![0, 0, 0], vec![0, 1, 0], vec![0, 2, 0]]
    );
}

#[test]
fn sub_step_without_a_coordinate_marks_nothing() {
    let mut life = live(100);
    let mut grid: Grid<u64> = Grid::new(3, 0);
    rasterize(
        &mut life,
        &mut grid,
        4,
        |i| match i {
            1 => (None, Some(1)),
            2 => (Some(1), None),
            3 => (None, None),
            _ => (Some(2), Some(2)),
        },
        |age, _| 50 + age,
    );
    assert_eq!(life.age(), 4);
    assert_eq!(
        cells(&grid),
        vec![vec![0, 0, 0], vec![0, 0, 0], vec![0, 0, 53]]
    );
}

#[test]
fn repeated_hits_blend_in_sub_step_order() {
    let mut life = live(100);
    let mut grid: Grid<u64> = Grid::new(2, 7);
    rasterize(
        &mut life,
        &mut grid,
        3,
        |_| (Some(1), Some(0)),
        |age, cell| cell * 10 + age,
    );
    assert_eq!(life.age(), 3);
    assert_eq!(grid.get(1, 0), 7012);
    assert_eq!(grid.get(0, 0), 7);
    assert_eq!(grid.get(0, 1), 7);
    assert_eq!(grid.get(1, 1), 7);
}

#[test]
fn blend_is_asked_only_for_sub_steps_on_the_grid() {
    let mut life = live(100);
    let mut grid: Grid<u64> = Grid::new(2, 0);
    let asked = std::cell::Cell::new(0u32);
    rasterize(
        &mut life,
        &mut grid,
        6,
        |i| (Some(i), Some(0)),
        |_, cell| {
            asked.set(asked.get() + 1);
            cell + 1
        },
    );
    assert_eq!(asked.get(), 1);
    assert_eq!(grid.get(1, 0), 1);
}

#[test]
fn drawing_a_step_twice_gives_the_same_grid() {
    let mut first: Grid<u64> = Grid::new(5, 1);
    let mut second: Grid<u64> = Grid::new(5, 1);
    for grid in [&mut first, &mut second] {
        let mut life = live(100);
        rasterize(
            &mut life,
            grid,
            4,
            |i| (Some(i), Some(i % 2)),
            |age, cell| cell * 3 + age,
        );
    }
    assert_eq!(cells(&first), cells(&second));
}
