use h3accel::spatial_index::Visitor;
use h3accel::{AccelError, BuildPackedHilbertRTreeIndex, Coordinate, PackedHilbertRTreeIndex, Rect};

fn rect(min_x: i32, min_y: i32, max_x: i32, max_y: i32) -> Rect<i32> {
    Rect { min: Coordinate { x: min_x, y: min_y }, max: Coordinate { x: max_x, y: max_y } }
}

fn column() -> Vec<Option<Rect<i32>>> {
    vec![
        Some(rect(0, 0, 10, 10)),
        None,
        Some(rect(20, 20, 30, 30)),
        None,
        Some(rect(5, 5, 25, 25)),
        // corners out of order: a row without a rectangle
        Some(rect(50, 50, 40, 40)),
        Some(rect(100, 100, 110, 110)),
    ]
}

fn build(column: &Vec<Option<Rect<i32>>>) -> PackedHilbertRTreeIndex {
    column.packed_hilbert_rtree_index().unwrap()
}

fn dist_squared(r: &Rect<i32>, x: i64, y: i64) -> i64 {
    let axis = |k: i64, min: i64, max: i64| {
        if k < min {
            min - k
        } else if k > max {
            k - max
        } else {
            0
        }
    };
    let dx = axis(x, r.min.x as i64, r.max.x as i64);
    let dy = axis(y, r.min.y as i64, r.max.y as i64);
    dx * dx + dy * dy
}

#[test]
fn query_over_the_whole_extent_marks_the_rows_with_a_rectangle() {
    let idx = build(&column());
    let mask = idx.envelopes_intersect_impl(&rect(-1000, -1000, 1000, 1000));
    assert_eq!(mask, vec![true, false, true, false, true, false, true]);
}

#[test]
fn query_marks_rows_by_their_place_in_the_column() {
    let idx = build(&column());
    // only the rectangle of row 4 reaches into the gap between rows 0 and 2
    let mask = idx.envelopes_intersect_impl(&rect(11, 11, 19, 19));
    assert_eq!(mask, vec![false, false, false, false, true, false, false]);
    // a corner that touches counts
    let mask = idx.envelopes_intersect_impl(&rect(10, 10, 10, 10));
    assert_eq!(mask, vec![true, false, false, false, true, false, false]);
    let mask = idx.envelopes_intersect_impl(&rect(105, 0, 200, 100));
    assert_eq!(mask, vec![false, false, false, false, false, false, true]);
    let mask = idx.envelopes_intersect_impl(&rect(31, 0, 99, 99));
    assert_eq!(mask, vec![false; 7]);
    // the row whose corners are out of order is never found
    let mask = idx.envelopes_intersect_impl(&rect(40, 40, 50, 50));
    assert_eq!(mask, vec![false; 7]);
}

#[test]
fn index_over_no_rectangles_finds_nothing() {
    let idx = build(&vec![]);
    assert_eq!(idx.envelopes_intersect_impl(&rect(-5, -5, 5, 5)), Vec::<bool>::new());
    assert_eq!(idx.envelopes_within_distance(Coordinate { x: 0, y: 0 }, u64::MAX), Vec::<bool>::new());
    assert!(matches!(idx.bounding_rect(), Ok(None)));

    let idx = build(&vec![None, None, Some(rect(1, 1, 0, 0))]);
    assert_eq!(idx.envelopes_intersect_impl(&rect(-5, -5, 5, 5)), vec![false; 3]);
    assert_eq!(idx.envelopes_within_distance(Coordinate { x: 0, y: 0 }, u64::MAX), vec![false; 3]);
    assert!(matches!(idx.bounding_rect(), Ok(None)));
}

#[test]
fn rows_within_a_distance() {
    let idx = build(&column());
    let p = Coordinate { x: 40, y: 30 };
    // squared distances: row 2: 100, row 4: 250, row 0: 1300, row 6: 8500
    assert_eq!(idx.envelopes_within_distance(p, 99), vec![false; 7]);
    assert_eq!(
        idx.envelopes_within_distance(p, 100),
        vec![false, false, true, false, false, false, false]
    );
    assert_eq!(
        idx.envelopes_within_distance(p, 250),
        vec![false, false, true, false, true, false, false]
    );
    assert_eq!(
        idx.envelopes_within_distance(p, 1299),
        vec![false, false, true, false, true, false, false]
    );
    assert_eq!(
        idx.envelopes_within_distance(p, 8500),
        vec![true, false, true, false, true, false, true]
    );
    // a point inside a rectangle has distance 0
    assert_eq!(
        idx.envelopes_within_distance(Coordinate { x: 7, y: 7 }, 0),
        vec![true, false, false, false, true, false, false]
    );
}

#[test]
fn distances_between_far_positions_do_not_overflow() {
    let column = vec![
        None,
        Some(rect(i32::MIN, i32::MIN, i32::MIN, i32::MIN)),
        Some(rect(i32::MAX, i32::MAX, i32::MAX, i32::MAX)),
    ];
    let idx = build(&column);
    let p = Coordinate { x: i32::MAX, y: i32::MAX };
    assert_eq!(idx.envelopes_within_distance(p, u64::MAX), vec![false, false, true]);
    assert_eq!(idx.envelopes_within_distance(p, 0), vec![false, false, true]);
    let p = Coordinate { x: i32::MIN + 3, y: i32::MIN + 4 };
    assert_eq!(idx.envelopes_within_distance(p, 25), vec![false, true, false]);
    assert_eq!(idx.envelopes_within_distance(p, 24), vec![false, false, false]);
    assert_eq!(
        idx.envelopes_intersect_impl(&rect(i32::MIN, i32::MIN, i32::MAX, i32::MAX)),
        vec![false, true, true]
    );
}

#[test]
fn bounding_rect_spans_the_rectangles_of_all_rows() {
    let idx = build(&column());
    let b = idx.bounding_rect().unwrap().unwrap();
    assert_eq!(b, rect(0, 0, 110, 110));
    let idx = build(&vec![None, Some(rect(-7, 3, -2, 4))]);
    assert_eq!(idx.bounding_rect().unwrap(), Some(rect(-7, 3, -2, 4)));
}

#[test]
fn index_keeps_its_column() {
    let idx = build(&column());
    assert_eq!(idx.h3indexchunked(), &column());
}

#[test]
fn large_column_with_gaps_agrees_with_a_scan() {
    let mut column: Vec<Option<Rect<i32>>> = Vec::new();
    let mut state: u64 = 99;
    let mut next = |m: u64| {
        state = state.wrapping_mul(6364136223846793005).wrapping_add(1442695040888963407);
        ((state >> 33) % m) as i32
    };
    for i in 0..500 {
        if i % 3 == 1 {
            column.push(None);
        } else {
            let x = next(1000) - 500;
            let y = next(1000) - 500;
            let w = next(40);
            let h = next(40);
            column.push(Some(rect(x, y, x + w, y + h)));
        }
    }
    let idx = build(&column);
    for q in [rect(-100, -100, 100, 100), rect(0, 0, 0, 0), rect(-500, 200, 600, 260), rect(900, 900, 990, 990)] {
        let mask = idx.envelopes_intersect_impl(&q);
        assert_eq!(mask.len(), column.len());
        for (row, entry) in column.iter().enumerate() {
            let expected = match entry {
                Some(r) => {
                    r.min.x <= q.max.x && q.min.x <= r.max.x && r.min.y <= q.max.y && q.min.y <= r.max.y
                }
                None => false,
            };
            assert_eq!(mask[row], expected);
        }
    }
    for (p, d) in [((0, 0), 10_000u64), ((-300, 250), 2_500), ((480, -480), 0), ((2000, 2000), 5_000_000)] {
        let mask = idx.envelopes_within_distance(Coordinate { x: p.0, y: p.1 }, d);
        assert_eq!(mask.len(), column.len());
        for (row, entry) in column.iter().enumerate() {
            let expected = match entry {
                Some(r) => dist_squared(r, p.0 as i64, p.1 as i64) as u64 <= d,
                None => false,
            };
            assert_eq!(mask[row], expected);
        }
    }
    let b = idx.bounding_rect().unwrap().unwrap();
    let rects: Vec<Rect<i32>> = column.iter().flatten().copied().collect();
    assert_eq!(b.min.x, rects.iter().map(|r| r.min.x).min().unwrap());
    assert_eq!(b.min.y, rects.iter().map(|r| r.min.y).min().unwrap());
    assert_eq!(b.max.x, rects.iter().map(|r| r.max.x).max().unwrap());
    assert_eq!(b.max.y, rects.iter().map(|r| r.max.y).max().unwrap());
}

#[test]
fn visitor_keeps_what_lies_within_its_distance() {
    let mut v = Visitor { found: vec![], distance: 50 };
    assert_eq!(v.visit(3, 0), Ok(()));
    assert_eq!(v.visit(1, 50), Ok(()));
    assert_eq!(v.visit(7, 51), Err(()));
    assert_eq!(v.found, vec![3, 1]);
    assert_eq!(v.distance, 50);
}

#[test]
fn building_never_gives_a_spatial_index_error() {
    for n in [0usize, 1, 15, 16, 17, 300] {
        let column: Vec<Option<Rect<i32>>> =
            (0..n).map(|i| Some(rect(i as i32, 0, i as i32 + 1, 1))).collect();
        let r = column.packed_hilbert_rtree_index();
        assert!(!matches!(r, Err(AccelError::SpatialIndex(_))));
        let idx = r.unwrap();
        let mask = idx.envelopes_intersect_impl(&rect(0, 0, 0, 0));
        assert_eq!(mask.iter().filter(|m| **m).count(), n.min(1));
    }
}
