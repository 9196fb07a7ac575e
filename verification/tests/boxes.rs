use h3accel::boxes::find_continuous_chunks_along_axis;
use h3accel::{find_boxes_containing_data, Coordinate, Grid, Rect};

fn sorted(mut boxes: Vec<Rect<usize>>) -> Vec<(usize, usize, usize, usize)> {
    let mut out: Vec<(usize, usize, usize, usize)> =
        boxes.drain(..).map(|r| (r.min().x, r.min().y, r.max().x, r.max().y)).collect();
    out.sort();
    out
}

#[test]
fn test_find_boxes_containig_data() {
    let arr: Vec<i64> = vec![
        0, 0, 0, 0, 0, 0, 0, 0, 0, 0, 0, 0, //
        0, 1, 0, 0, 0, 0, 0, 0, 1, 0, 0, 0, //
        0, 1, 1, 0, 0, 0, 0, 1, 1, 1, 0, 0, //
        0, 0, 0, 0, 0, 0, 0, 1, 1, 1, 0, 0, //
        0, 0, 0, 0, 0, 0, 0, 0, 1, 0, 0, 0, //
        0, 0, 0, 0, 0, 0, 0, 0, 0, 0, 0, 0, //
        0, 0, 0, 1, 0, 0, 0, 0, 0, 0, 0, 0, //
        0, 0, 0, 1, 0, 0, 0, 0, 0, 0, 1, 1, //
        0, 0, 0, 1, 1, 0, 0, 0, 0, 0, 1, 1, //
    ];
    let mut arr_copy = arr.clone();
    let grid = Grid::from_shape_vec(9, 12, arr).unwrap();

    let n_elements = 9 * 12;
    let mut n_elements_in_boxes = 0;

    for rect in find_boxes_containing_data(&grid, 0) {
        n_elements_in_boxes +=
            (rect.max().x - rect.min().x + 1) * (rect.max().y - rect.min().y + 1);

        for x in rect.min().x..=rect.max().x {
            for y in rect.min().y..=rect.max().y {
                arr_copy[x * 12 + y] = 0;
            }
        }
    }

    // there should be far less indexes to visit now
    assert!(n_elements_in_boxes < (n_elements / 2));

    // all elements should have been removed
    assert_eq!(arr_copy.iter().sum::<i64>(), 0);
}

#[test]
fn boxes_of_the_two_cluster_grid_are_exact() {
    let arr: Vec<i64> = vec![
        0, 0, 0, 0, 0, 0, 0, 0, 0, 0, 0, 0, //
        0, 1, 0, 0, 0, 0, 0, 0, 1, 0, 0, 0, //
        0, 1, 1, 0, 0, 0, 0, 1, 1, 1, 0, 0, //
        0, 0, 0, 0, 0, 0, 0, 1, 1, 1, 0, 0, //
        0, 0, 0, 0, 0, 0, 0, 0, 1, 0, 0, 0, //
        0, 0, 0, 0, 0, 0, 0, 0, 0, 0, 0, 0, //
        0, 0, 0, 1, 0, 0, 0, 0, 0, 0, 0, 0, //
        0, 0, 0, 1, 0, 0, 0, 0, 0, 0, 1, 1, //
        0, 0, 0, 1, 1, 0, 0, 0, 0, 0, 1, 1, //
    ];
    let grid = Grid::from_shape_vec(9, 12, arr).unwrap();
    let boxes = sorted(find_boxes_containing_data(&grid, 0));
    // rows 1..=4 form one band, rows 6..=8 another; in each, columns split
    // into two runs, and each block is then cut to its own rows
    assert_eq!(boxes, vec![(1, 1, 2, 2), (1, 7, 4, 9), (6, 3, 8, 4), (7, 10, 8, 11)]);
}

#[test]
fn all_sentinel_grid_has_no_boxes() {
    let grid = Grid::from_shape_vec(3, 4, vec![7; 12]).unwrap();
    assert!(find_boxes_containing_data(&grid, 7).is_empty());
}

#[test]
fn empty_grids_have_no_boxes() {
    let grid = Grid::from_shape_vec(0, 0, vec![]).unwrap();
    assert!(find_boxes_containing_data(&grid, 0).is_empty());
    let grid = Grid::from_shape_vec(0, 5, vec![]).unwrap();
    assert!(find_boxes_containing_data(&grid, 0).is_empty());
    let grid = Grid::from_shape_vec(5, 0, vec![]).unwrap();
    assert!(find_boxes_containing_data(&grid, 0).is_empty());
}

#[test]
fn single_value_gives_a_single_point_box() {
    let mut values = vec![-1i64; 20];
    values[2 * 5 + 3] = 4;
    let grid = Grid::from_shape_vec(4, 5, values).unwrap();
    let boxes = sorted(find_boxes_containing_data(&grid, -1));
    assert_eq!(boxes, vec![(2, 3, 2, 3)]);
}

#[test]
fn full_grid_gives_one_box() {
    let grid = Grid::from_shape_vec(3, 2, vec![1, 2, 3, 4, 5, 6]).unwrap();
    let boxes = sorted(find_boxes_containing_data(&grid, 0));
    assert_eq!(boxes, vec![(0, 0, 2, 1)]);
}

#[test]
fn third_scan_tightens_rows_of_each_block() {
    // both rows hold data, so there is one band; its columns 0 and 2 are
    // two runs, and each block keeps only the row that holds its value
    let grid = Grid::from_shape_vec(2, 3, vec![1, 0, 0, 0, 0, 1]).unwrap();
    let boxes = sorted(find_boxes_containing_data(&grid, 0));
    assert_eq!(boxes, vec![(0, 0, 0, 0), (1, 2, 1, 2)]);
}

#[test]
fn sentinel_other_than_zero() {
    // values on the diagonal leave no row and no column empty: one box
    let grid = Grid::from_shape_vec(3, 3, vec![5, 9, 9, 9, 5, 9, 9, 9, 5]).unwrap();
    let boxes = sorted(find_boxes_containing_data(&grid, 9));
    assert_eq!(boxes, vec![(0, 0, 2, 2)]);
    // an empty row between two values: two boxes
    let grid = Grid::from_shape_vec(3, 1, vec![5, 9, 5]).unwrap();
    let boxes = sorted(find_boxes_containing_data(&grid, 9));
    assert_eq!(boxes, vec![(0, 0, 0, 0), (2, 0, 2, 0)]);
}

#[test]
fn boxes_cover_every_value_of_a_scattered_grid() {
    let rows = 17usize;
    let cols = 23usize;
    let mut values = vec![0i64; rows * cols];
    let mut state: u64 = 12345;
    for v in values.iter_mut() {
        state = state.wrapping_mul(6364136223846793005).wrapping_add(1442695040888963407);
        if (state >> 33) % 11 == 0 {
            *v = 1;
        }
    }
    let grid = Grid::from_shape_vec(rows, cols, values.clone()).unwrap();
    let boxes = find_boxes_containing_data(&grid, 0);
    for r in 0..rows {
        for c in 0..cols {
            if values[r * cols + c] != 0 {
                assert!(boxes.iter().any(|b| b.min().x <= r
                    && r <= b.max().x
                    && b.min().y <= c
                    && c <= b.max().y));
            }
        }
    }
    for b in boxes.iter() {
        assert!(b.max().x < rows && b.max().y < cols);
        let mut holds_data = false;
        for r in b.min().x..=b.max().x {
            for c in b.min().y..=b.max().y {
                holds_data = holds_data || values[r * cols + c] != 0;
            }
        }
        assert!(holds_data);
    }
    for (i, a) in boxes.iter().enumerate() {
        for b in boxes.iter().skip(i + 1) {
            assert_ne!(a, b);
            // no two boxes share a position
            let rows_apart = a.max().x < b.min().x || b.max().x < a.min().x;
            let cols_apart = a.max().y < b.min().y || b.max().y < a.min().y;
            assert!(rows_apart || cols_apart);
        }
    }
}

#[test]
fn sparse_grid_needs_less_than_the_full_area() {
    let mut values = vec![0i64; 100];
    values[11] = 1;
    values[88] = 1;
    let grid = Grid::from_shape_vec(10, 10, values).unwrap();
    let boxes = find_boxes_containing_data(&grid, 0);
    let area: usize = boxes
        .iter()
        .map(|b| (b.max().x - b.min().x + 1) * (b.max().y - b.min().y + 1))
        .sum();
    assert_eq!(area, 2);
    assert!(area < 100);
}

#[test]
fn chunks_along_both_axes() {
    let grid = Grid::from_shape_vec(
        4,
        5,
        vec![
            0, 0, 0, 0, 0, //
            0, 1, 0, 0, 1, //
            0, 1, 0, 0, 0, //
            0, 0, 0, 0, 0, //
        ],
    )
    .unwrap();
    let view = grid.view_all();
    assert_eq!(find_continuous_chunks_along_axis(&view, 0, 0), vec![(1, 2)]);
    assert_eq!(find_continuous_chunks_along_axis(&view, 1, 0), vec![(1, 1), (4, 4)]);
    let lower = view.slice(2, 2, 0, 5);
    assert_eq!(find_continuous_chunks_along_axis(&lower, 0, 0), vec![(0, 0)]);
    assert_eq!(find_continuous_chunks_along_axis(&lower, 1, 0), vec![(1, 1)]);
    assert_eq!(lower.get(0, 1), 1);
}

#[test]
fn chunk_that_reaches_the_last_line() {
    let grid = Grid::from_shape_vec(1, 4, vec![0, 0, 3, 3]).unwrap();
    let view = grid.view_all();
    assert_eq!(find_continuous_chunks_along_axis(&view, 1, 0), vec![(2, 3)]);
    assert_eq!(find_continuous_chunks_along_axis(&view, 0, 0), vec![(0, 0)]);
}

#[test]
fn grid_wants_as_many_values_as_its_shape_says() {
    assert!(Grid::from_shape_vec(2, 3, vec![0; 5]).is_none());
    assert!(Grid::from_shape_vec(2, 3, vec![0; 7]).is_none());
    assert!(Grid::from_shape_vec(2, 3, vec![0; 6]).is_some());
    assert!(Grid::from_shape_vec(0, usize::MAX, vec![]).is_none());
    assert!(Grid::from_shape_vec(usize::MAX, 2, vec![0; 2]).is_none());
}

#[test]
fn grid_is_laid_out_row_after_row() {
    let grid = Grid::from_shape_vec(2, 3, vec![10, 11, 12, 20, 21, 22]).unwrap();
    let view = grid.view_all();
    assert_eq!(view.get(0, 2), 12);
    assert_eq!(view.get(1, 0), 20);
    assert_eq!(view.slice(1, 1, 1, 2).get(0, 1), 22);
}

#[test]
fn rect_orders_its_corners() {
    let r = Rect::<usize>::new(Coordinate { x: 5, y: 1 }, Coordinate { x: 2, y: 3 });
    assert_eq!(r.min(), Coordinate { x: 2, y: 1 });
    assert_eq!(r.max(), Coordinate { x: 5, y: 3 });
    let r = Rect::<i32>::new(Coordinate { x: 5, y: -1 }, Coordinate { x: -2, y: 3 });
    assert_eq!(r.min, Coordinate { x: -2, y: -1 });
    assert_eq!(r.max, Coordinate { x: 5, y: 3 });
    assert!(r.is_valid());
    let bad = Rect { min: Coordinate { x: 1i32, y: 0 }, max: Coordinate { x: 0, y: 0 } };
    assert!(!bad.is_valid());
}
