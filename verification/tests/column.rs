use geo_types::Coord;
use h3accel::column::list_map_cells;
use h3accel::resolution::check_valid_h3_resolution;
use h3accel::AccelError;
use h3ron::{H3Cell, Index};

fn cell(x: f64, y: f64) -> u64 {
    H3Cell::from_coordinate(Coord { x, y }, 7).unwrap().h3index()
}

#[test]
fn null_rows_stay_null() {
    let a = cell(45.5, 45.5);
    let b = cell(-60.5, -60.5);
    let column = vec![Some(a), None, Some(b), None];
    let lists = list_map_cells(&column, |c| Ok(vec![c, c + 1])).unwrap();
    assert_eq!(lists, vec![Some(vec![a, a + 1]), None, Some(vec![b, b + 1]), None]);
}

#[test]
fn empty_column_maps_to_an_empty_list() {
    let lists = list_map_cells(&vec![], |c| Ok(vec![c])).unwrap();
    assert!(lists.is_empty());
}

#[test]
fn identifier_that_is_no_cell_ends_the_mapping() {
    let a = cell(45.5, 45.5);
    let r = list_map_cells(&vec![Some(a), Some(0), Some(a)], |c| Ok(vec![c]));
    assert!(matches!(r, Err(AccelError::CellInvalid)));
    // an edge is no cell
    let edge = H3Cell::new(a).directed_edges().unwrap().first().unwrap().h3index();
    let r = list_map_cells(&vec![None, Some(edge)], |c| Ok(vec![c]));
    assert!(matches!(r, Err(AccelError::CellInvalid)));
}

#[test]
fn first_failure_of_the_mapping_is_returned() {
    let a = cell(45.5, 45.5);
    let b = cell(-60.5, -60.5);
    let r = list_map_cells(&vec![Some(a), Some(b), Some(0)], |c| {
        if c == b {
            Err(AccelError::SegmentedPath)
        } else {
            Ok(vec![c])
        }
    });
    assert!(matches!(r, Err(AccelError::SegmentedPath)));
}

#[test]
fn resolutions_up_to_sixteen_are_valid() {
    for res in 0..=16u8 {
        assert!(check_valid_h3_resolution(res).is_ok());
    }
    assert!(matches!(check_valid_h3_resolution(17), Err(AccelError::InvalidResolution)));
    assert!(matches!(check_valid_h3_resolution(255), Err(AccelError::InvalidResolution)));
}
