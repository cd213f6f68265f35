use tane_mahuta::walls::{row_plates, wall_rectangles, GridCoords, Plate, Rect, WallGrid};

fn tile(x: i32, y: i32) -> GridCoords {
    GridCoords { x, y }
}

fn rect(left: i32, right: i32, bottom: i32, top: i32) -> Rect {
    Rect { left, right, top, bottom }
}

fn block(left: i32, right: i32, bottom: i32, top: i32) -> Vec<GridCoords> {
    let mut walls = Vec::new();
    for y in bottom..=top {
        for x in left..=right {
            walls.push(tile(x, y));
        }
    }
    walls
}

fn covers(r: &Rect, x: i32, y: i32) -> bool {
    r.left <= x && x <= r.right && r.bottom <= y && y <= r.top
}

#[test]
fn single_tile_gives_one_unit_rectangle() {
    let rects = wall_rectangles(&vec![tile(2, 3)], 8, 6);
    assert_eq!(rects, vec![rect(2, 2, 3, 3)]);
    assert_eq!(rects[0].tiles_wide(), 1);
    assert_eq!(rects[0].tiles_high(), 1);
}

#[test]
fn solid_block_gives_one_rectangle() {
    let rects = wall_rectangles(&block(0, 2, 0, 1), 3, 2);
    assert_eq!(rects, vec![rect(0, 2, 0, 1)]);
    assert_eq!(rects[0].tiles_wide(), 3);
    assert_eq!(rects[0].tiles_high(), 2);
    assert_eq!(rects[0].doubled_center_x(), 3);
    assert_eq!(rects[0].doubled_center_y(), 2);
}

#[test]
fn no_walls_give_no_rectangles() {
    assert_eq!(wall_rectangles(&Vec::new(), 10, 10), Vec::<Rect>::new());
    assert_eq!(wall_rectangles(&vec![tile(0, 0)], 0, 0), Vec::<Rect>::new());
    assert_eq!(wall_rectangles(&vec![tile(0, 0)], -3, 5), Vec::<Rect>::new());
    assert_eq!(wall_rectangles(&vec![tile(0, 0)], 5, -3), Vec::<Rect>::new());
}

#[test]
fn tiles_outside_the_grid_are_left_out() {
    let walls = vec![tile(1, 1), tile(4, 1), tile(-1, 1), tile(1, 3), tile(1, -1)];
    assert_eq!(wall_rectangles(&walls, 4, 3), vec![rect(1, 1, 1, 1)]);
}

#[test]
fn a_tile_named_twice_counts_once() {
    let walls = vec![tile(0, 0), tile(1, 0), tile(0, 0), tile(1, 0)];
    assert_eq!(wall_rectangles(&walls, 2, 1), vec![rect(0, 1, 0, 0)]);
}

#[test]
fn runs_that_touch_the_edges_are_closed() {
    let rects = wall_rectangles(&block(3, 4, 2, 3), 5, 4);
    assert_eq!(rects, vec![rect(3, 4, 2, 3)]);
}

#[test]
fn plates_of_different_span_do_not_stack() {
    // row 0: x = 0..=2, row 1: x = 0..=1
    let mut walls = block(0, 2, 0, 0);
    walls.extend(block(0, 1, 1, 1));
    let rects = wall_rectangles(&walls, 4, 3);
    assert_eq!(rects, vec![rect(0, 2, 0, 0), rect(0, 1, 1, 1)]);
}

#[test]
fn a_gap_in_a_row_splits_the_column() {
    // a full block of 3 x 3 with the centre missing
    let mut walls = block(0, 2, 0, 2);
    walls.retain(|c| !(c.x == 1 && c.y == 1));
    let rects = wall_rectangles(&walls, 3, 3);
    assert_eq!(
        rects,
        vec![rect(0, 2, 0, 0), rect(0, 0, 1, 1), rect(2, 2, 1, 1), rect(0, 2, 2, 2)]
    );
}

#[test]
fn rectangles_come_out_by_top_row_then_left_edge() {
    // three columns of different height, one tile apart
    let mut walls = block(0, 0, 0, 2);
    walls.extend(block(2, 2, 0, 0));
    walls.extend(block(4, 4, 0, 1));
    let rects = wall_rectangles(&walls, 5, 3);
    assert_eq!(rects, vec![rect(2, 2, 0, 0), rect(4, 4, 0, 1), rect(0, 0, 0, 2)]);
}

#[test]
fn two_stacks_that_end_in_one_row_come_out_left_first() {
    let mut walls = block(3, 4, 0, 1);
    walls.extend(block(0, 1, 1, 1));
    let rects = wall_rectangles(&walls, 6, 4);
    assert_eq!(rects, vec![rect(0, 1, 1, 1), rect(3, 4, 0, 1)]);
}

#[test]
fn rectangles_tile_the_walls_exactly() {
    let width = 9;
    let height = 7;
    // a fixed, irregular pattern
    let mut walls = Vec::new();
    for y in 0..height {
        for x in 0..width {
            if (x * 7 + y * 5 + x * y) % 3 != 0 {
                walls.push(tile(x, y));
            }
        }
    }
    let rects = wall_rectangles(&walls, width, height);
    for y in -1..=height {
        for x in -1..=width {
            let is_wall = walls.contains(&tile(x, y));
            let count = rects.iter().filter(|r| covers(r, x, y)).count();
            assert_eq!(count, if is_wall { 1 } else { 0 }, "cell ({}, {})", x, y);
        }
    }
    let area: i64 = rects.iter().map(|r| r.tiles_wide() * r.tiles_high()).sum();
    assert_eq!(area, walls.len() as i64);
}

#[test]
fn rectangle_measures() {
    let r = rect(-3, 4, 10, 10);
    assert_eq!(r.tiles_wide(), 8);
    assert_eq!(r.tiles_high(), 1);
    assert_eq!(r.doubled_center_x(), 2);
    assert_eq!(r.doubled_center_y(), 21);
    let wide = rect(i32::MIN, i32::MAX, i32::MIN, i32::MAX);
    assert_eq!(wide.tiles_wide(), 4294967296);
    assert_eq!(wide.tiles_high(), 4294967296);
    assert_eq!(wide.doubled_center_x(), 0);
}

#[test]
fn grid_lookup_ignores_tiles_outside() {
    let grid = WallGrid::new(&vec![tile(0, 0), tile(5, 0), tile(-1, 2), tile(1, 9)], 5, 3);
    assert!(grid.is_wall(0, 0));
    assert!(!grid.is_wall(5, 0));
    assert!(!grid.is_wall(-1, 2));
    assert!(!grid.is_wall(1, 9));
    assert!(!grid.is_wall(1, 1));
}

#[test]
fn grid_keeps_cells_of_different_rows_apart() {
    let grid = WallGrid::new(&vec![tile(3, 1)], 4, 4);
    assert!(grid.is_wall(3, 1));
    assert!(!grid.is_wall(1, 3));
    assert!(!grid.is_wall(3, 0));
    assert!(!grid.is_wall(3, 2));
    assert_eq!(grid.rectangles(), vec![rect(3, 3, 1, 1)]);
}

#[test]
fn plates_of_a_row() {
    let walls = vec![tile(0, 2), tile(1, 2), tile(3, 2), tile(5, 2), tile(6, 2), tile(2, 1)];
    let grid = WallGrid::new(&walls, 7, 3);
    assert_eq!(
        row_plates(&grid, 2),
        vec![
            Plate { left: 0, right: 1 },
            Plate { left: 3, right: 3 },
            Plate { left: 5, right: 6 }
        ]
    );
    assert_eq!(row_plates(&grid, 1), vec![Plate { left: 2, right: 2 }]);
    assert_eq!(row_plates(&grid, 0), Vec::<Plate>::new());
    assert_eq!(row_plates(&grid, 3), Vec::<Plate>::new());
    assert_eq!(row_plates(&grid, -1), Vec::<Plate>::new());
}
