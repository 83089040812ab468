use doodles_lib::algorithms::grid::{Grid, MAX_CELLS};
use doodles_lib::geometry::coordinates::convert_to_upper_left_origin;
use doodles_lib::geometry::{Domain, Point};
use doodles_lib::numeric::{ceil_div, floor_div_sqrt2, floor_log2};

fn plane() -> Domain {
    Domain { left: 0, right: 40, bottom: 0, top: 40 }
}

#[test]
fn grid_indices_count_from_the_upper_left_corner() {
    let grid = Grid::new(10, plane());
    // Column: floor(25 / 10). Row: the point lies 40 - 15 = 25 below the top
    // edge, floor(25 / 10). Counted from the bottom edge the row would be 1.
    assert_eq!(grid.calculate_grid_indices(&Point { x: 25, y: 15 }), (2, 2));
    // Counted from the bottom edge the row would be 0.
    assert_eq!(grid.calculate_grid_indices(&Point { x: 25, y: 5 }), (2, 3));
    assert_eq!(grid.calculate_grid_indices(&Point { x: 0, y: 40 }), (0, 0));
    assert_eq!(grid.calculate_grid_indices(&Point { x: 9, y: 31 }), (0, 0));
    assert_eq!(grid.calculate_grid_indices(&Point { x: 10, y: 30 }), (1, 1));
}

#[test]
fn the_far_edges_belong_to_the_last_cells() {
    let grid = Grid::new(10, plane());
    assert_eq!(grid.dimensions(), (4, 4));
    assert_eq!(grid.calculate_grid_indices(&Point { x: 40, y: 0 }), (3, 3));
    assert_eq!(grid.calculate_grid_indices(&Point { x: 39, y: 1 }), (3, 3));
    assert_eq!(grid.calculate_grid_indices(&Point { x: 40, y: 40 }), (3, 0));
    let uneven = Grid::new(7, Domain { left: 0, right: 100, bottom: 0, top: 50 });
    assert_eq!(uneven.dimensions(), (15, 8));
    assert_eq!(uneven.calculate_grid_indices(&Point { x: 100, y: 0 }), (14, 7));
    assert_eq!(uneven.calculate_grid_indices(&Point { x: 98, y: 1 }), (14, 7));
    assert_eq!(uneven.calculate_grid_indices(&Point { x: 97, y: 2 }), (13, 6));
}

#[test]
fn a_new_grid_is_empty() {
    let grid = Grid::new(10, plane());
    assert_eq!(grid.cell_size(), 10);
    assert_eq!(grid.domain(), plane());
    assert_eq!(grid.occupied_cells(), 0);
    for col in 0..4 {
        for row in 0..4 {
            assert_eq!(grid.get(col, row), None);
        }
    }
}

#[test]
fn insert_stores_the_point_in_its_cell_alone() {
    let mut grid = Grid::new(10, plane());
    let point = Point { x: 25, y: 15 };
    grid.insert(point);
    assert_eq!(grid.dimensions(), (4, 4));
    assert_eq!(grid.occupied_cells(), 1);
    for col in 0..4 {
        for row in 0..4 {
            let expected = if (col, row) == (2, 2) { Some(point) } else { None };
            assert_eq!(grid.get(col, row), expected);
        }
    }
}

#[test]
fn insert_overwrites_what_the_cell_held() {
    let mut grid = Grid::new(10, plane());
    grid.insert(Point { x: 25, y: 15 });
    grid.insert(Point { x: 21, y: 19 });
    assert_eq!(grid.get(2, 2), Some(Point { x: 21, y: 19 }));
    assert_eq!(grid.occupied_cells(), 1);
    grid.insert(Point { x: 0, y: 0 });
    assert_eq!(grid.get(0, 3), Some(Point { x: 0, y: 0 }));
    assert_eq!(grid.get(2, 2), Some(Point { x: 21, y: 19 }));
    assert_eq!(grid.occupied_cells(), 2);
}

#[test]
fn a_grid_fits_up_to_the_limit_of_cells() {
    assert_eq!(MAX_CELLS, 16_777_216);
    assert!(Grid::fits(1, &Domain { left: 0, right: 4096, bottom: 0, top: 4096 }));
    assert!(!Grid::fits(1, &Domain { left: 0, right: 4097, bottom: 0, top: 4096 }));
    assert!(Grid::fits(1, &Domain { left: 0, right: 16_777_216, bottom: 0, top: 1 }));
    assert!(!Grid::fits(1, &Domain { left: 0, right: 16_777_217, bottom: 0, top: 1 }));
    let vast = Domain { left: i32::MIN, right: i32::MAX, bottom: i32::MIN, top: i32::MAX };
    assert!(!Grid::fits(1, &vast));
    assert!(Grid::fits(u32::MAX, &vast));
    assert!(Grid::fits(2_000_000, &vast));
}

#[test]
fn conversion_to_the_upper_left_origin() {
    let rect = Domain { left: -10, right: 30, bottom: 5, top: 25 };
    assert_eq!(convert_to_upper_left_origin(&Point { x: -10, y: 25 }, &rect), (0, 0));
    assert_eq!(convert_to_upper_left_origin(&Point { x: 30, y: 5 }, &rect), (40, 20));
    assert_eq!(convert_to_upper_left_origin(&Point { x: 0, y: 0 }, &rect), (10, 25));
    assert_eq!(convert_to_upper_left_origin(&Point { x: -11, y: 26 }, &rect), (-1, -1));
    let vast = Domain { left: i32::MIN, right: i32::MAX, bottom: i32::MIN, top: i32::MAX };
    assert_eq!(
        convert_to_upper_left_origin(&Point { x: i32::MAX, y: i32::MIN }, &vast),
        (4_294_967_295, 4_294_967_295)
    );
}

#[test]
fn the_side_of_a_cell_is_r_over_the_root_of_two_rounded_down() {
    assert_eq!(floor_div_sqrt2(0), 0);
    assert_eq!(floor_div_sqrt2(1), 0);
    assert_eq!(floor_div_sqrt2(2), 1);
    assert_eq!(floor_div_sqrt2(3), 2);
    assert_eq!(floor_div_sqrt2(10), 7);
    assert_eq!(floor_div_sqrt2(99), 70);
    assert_eq!(floor_div_sqrt2(100), 70);
    assert_eq!(floor_div_sqrt2(1000), 707);
    assert_eq!(floor_div_sqrt2(u32::MAX), 3_037_000_499);
}

#[test]
fn binary_logarithms_and_quotients() {
    assert_eq!(floor_log2(1), 0);
    assert_eq!(floor_log2(2), 1);
    assert_eq!(floor_log2(3), 1);
    assert_eq!(floor_log2(8191), 12);
    assert_eq!(floor_log2(8192), 13);
    assert_eq!(floor_log2(10_000), 13);
    assert_eq!(floor_log2(u64::MAX), 63);
    assert_eq!(ceil_div(0, 7), 0);
    assert_eq!(ceil_div(1, 7), 1);
    assert_eq!(ceil_div(7, 7), 1);
    assert_eq!(ceil_div(8, 7), 2);
    assert_eq!(ceil_div(100, 7), 15);
    assert_eq!(ceil_div(40, 10), 4);
}
