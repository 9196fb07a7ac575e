use geo_types::{Coord, LineString};
use h3accel::{nearest_h3_resolution, AccelError, NearestH3ResolutionSearchMode};
use h3ron::to_geo::ToPolygon;
use h3ron::H3Cell;

/// Area of a ring of geographic positions on the sphere, in square metres.
fn area_linearring(ring: &LineString<f64>) -> f64 {
    ring.0
        .windows(2)
        .map(|coords| {
            (coords[1].x - coords[0].x).to_radians()
                * (2.0 + coords[0].y.to_radians().sin() + coords[1].y.to_radians().sin())
        })
        .sum::<f64>()
        .abs()
        * 6_378_137_f64.powi(2)
        / 2.0
}

/// Pixel position to geographic position, coefficients in rasterio's order.
fn transform(t: &[f64; 6], c: (f64, f64)) -> Coord<f64> {
    Coord { x: c.0 * t[0] + c.1 * t[1] + t[2], y: c.0 * t[3] + c.1 * t[4] + t[5] }
}

/// Bounding box area and cell areas for a raster, in square centimetres.
fn areas(t: &[f64; 6], shape: &[usize; 2]) -> (u64, [u64; 17]) {
    let c1 = transform(t, (0.0, 0.0));
    let c2 = transform(t, ((shape[0] - 1) as f64, (shape[1] - 1) as f64));
    let (min_x, max_x) = if c1.x <= c2.x { (c1.x, c2.x) } else { (c2.x, c1.x) };
    let (min_y, max_y) = if c1.y <= c2.y { (c1.y, c2.y) } else { (c2.y, c1.y) };
    let ring = LineString::from(vec![
        (min_x, min_y),
        (min_x, max_y),
        (max_x, max_y),
        (max_x, min_y),
        (min_x, min_y),
    ]);
    let bbox_area = (area_linearring(&ring) * 10_000.0).round() as u64;
    let center = Coord { x: (min_x + max_x) / 2.0, y: (min_y + max_y) / 2.0 };
    let mut cell_areas = [0u64; 17];
    for res in 0..=15u8 {
        let cell = H3Cell::from_coordinate(center, res).unwrap();
        let polygon = cell.to_polygon().unwrap();
        cell_areas[res as usize] = (area_linearring(polygon.exterior()) * 10_000.0).round() as u64;
    }
    (bbox_area, cell_areas)
}

#[test]
fn test_nearest_h3_resolution() {
    // transform of the included r.tiff
    let gt = [0.0011965049999999992, 0.0, 8.11377, 0.0, -0.001215135, 49.40792];
    let (bbox_area, cell_areas) = areas(&gt, &[2000_usize, 2000_usize]);
    let h3_res1 = nearest_h3_resolution(
        &[2000_usize, 2000_usize],
        bbox_area,
        &cell_areas,
        NearestH3ResolutionSearchMode::SmallestAreaDifference,
    )
    .unwrap();
    assert_eq!(h3_res1, 10);

    let h3_res2 = nearest_h3_resolution(
        &[2000_usize, 2000_usize],
        bbox_area,
        &cell_areas,
        NearestH3ResolutionSearchMode::IndexAreaSmallerThanPixelArea,
    )
    .unwrap();
    assert_eq!(h3_res2, 11);
}

fn halving_areas() -> [u64; 17] {
    let mut areas = [0u64; 17];
    for r in 0..17 {
        areas[r] = 1u64 << (16 - r);
    }
    areas
}

#[test]
fn empty_raster_is_an_error() {
    let areas = halving_areas();
    for shape in [[0usize, 5usize], [5, 0], [0, 0]] {
        assert!(matches!(
            nearest_h3_resolution(
                &shape,
                100,
                &areas,
                NearestH3ResolutionSearchMode::SmallestAreaDifference
            ),
            Err(AccelError::EmptyArray)
        ));
        assert!(matches!(
            nearest_h3_resolution(
                &shape,
                100,
                &areas,
                NearestH3ResolutionSearchMode::IndexAreaSmallerThanPixelArea
            ),
            Err(AccelError::EmptyArray)
        ));
    }
}

#[test]
fn first_cell_that_fits_into_a_pixel() {
    let areas = halving_areas();
    // 4 pixels over an area of 400: a pixel of 100; the first area that is
    // not larger is 64, at resolution 10
    let r = nearest_h3_resolution(
        &[2, 2],
        400,
        &areas,
        NearestH3ResolutionSearchMode::IndexAreaSmallerThanPixelArea,
    );
    assert!(matches!(r, Ok(10)));
    // a pixel of exactly 128 is matched by resolution 9
    let r = nearest_h3_resolution(
        &[2, 2],
        512,
        &areas,
        NearestH3ResolutionSearchMode::IndexAreaSmallerThanPixelArea,
    );
    assert!(matches!(r, Ok(9)));
    // a pixel of 127.75 is not
    let r = nearest_h3_resolution(
        &[2, 2],
        511,
        &areas,
        NearestH3ResolutionSearchMode::IndexAreaSmallerThanPixelArea,
    );
    assert!(matches!(r, Ok(10)));
}

#[test]
fn smallest_difference_to_a_pixel() {
    let areas = halving_areas();
    // pixel of 100: |128 - 100| = 28 at resolution 9, |64 - 100| = 36 at 10
    let r = nearest_h3_resolution(
        &[2, 2],
        400,
        &areas,
        NearestH3ResolutionSearchMode::SmallestAreaDifference,
    );
    assert!(matches!(r, Ok(9)));
    // pixel of 90: 38 at resolution 9, 26 at 10, 58 at 11
    let r = nearest_h3_resolution(
        &[2, 2],
        360,
        &areas,
        NearestH3ResolutionSearchMode::SmallestAreaDifference,
    );
    assert!(matches!(r, Ok(10)));
    // pixel of 96: 32 at resolution 9 and at 10; an equal difference does
    // not stop the scan, the larger one at 11 does
    let r = nearest_h3_resolution(
        &[2, 2],
        384,
        &areas,
        NearestH3ResolutionSearchMode::SmallestAreaDifference,
    );
    assert!(matches!(r, Ok(10)));
    // pixel of 95.75: resolution 10 is nearer by a quarter
    let r = nearest_h3_resolution(
        &[2, 2],
        383,
        &areas,
        NearestH3ResolutionSearchMode::SmallestAreaDifference,
    );
    assert!(matches!(r, Ok(10)));
    // pixel of 96.25: resolution 9 is nearer by a quarter
    let r = nearest_h3_resolution(
        &[2, 2],
        385,
        &areas,
        NearestH3ResolutionSearchMode::SmallestAreaDifference,
    );
    assert!(matches!(r, Ok(9)));
}

#[test]
fn scan_without_a_match_gives_resolution_zero() {
    let areas = [1000u64; 17];
    let r = nearest_h3_resolution(
        &[2, 2],
        4,
        &areas,
        NearestH3ResolutionSearchMode::IndexAreaSmallerThanPixelArea,
    );
    assert!(matches!(r, Ok(0)));
    let r = nearest_h3_resolution(
        &[2, 2],
        4,
        &areas,
        NearestH3ResolutionSearchMode::SmallestAreaDifference,
    );
    assert!(matches!(r, Ok(0)));
    // the difference shrinks up to the last resolution
    let r = nearest_h3_resolution(
        &[1, 1],
        0,
        &halving_areas(),
        NearestH3ResolutionSearchMode::SmallestAreaDifference,
    );
    assert!(matches!(r, Ok(0)));
}

#[test]
fn coarsest_and_finest_resolution() {
    let areas = halving_areas();
    // already the coarsest cell fits
    let r = nearest_h3_resolution(
        &[1, 1],
        1 << 20,
        &areas,
        NearestH3ResolutionSearchMode::IndexAreaSmallerThanPixelArea,
    );
    assert!(matches!(r, Ok(0)));
    let r = nearest_h3_resolution(
        &[1, 1],
        1 << 20,
        &areas,
        NearestH3ResolutionSearchMode::SmallestAreaDifference,
    );
    assert!(matches!(r, Ok(0)));
    // only the finest cell fits
    let r = nearest_h3_resolution(
        &[1, 1],
        1,
        &areas,
        NearestH3ResolutionSearchMode::IndexAreaSmallerThanPixelArea,
    );
    assert!(matches!(r, Ok(16)));
}

#[test]
fn large_areas_and_shapes_do_not_overflow() {
    let mut areas = [0u64; 17];
    for r in 0..17 {
        areas[r] = u64::MAX - r as u64;
    }
    let r = nearest_h3_resolution(
        &[1 << 31, 1 << 31],
        u64::MAX,
        &areas,
        NearestH3ResolutionSearchMode::SmallestAreaDifference,
    );
    assert!(matches!(r, Ok(0)));
    let r = nearest_h3_resolution(
        &[1 << 31, 1 << 31],
        u64::MAX,
        &areas,
        NearestH3ResolutionSearchMode::IndexAreaSmallerThanPixelArea,
    );
    assert!(matches!(r, Ok(0)));
}

#[test]
fn fitting_cell_is_never_coarser_than_nearest_cell() {
    let areas = halving_areas();
    for bbox_area in 0..3000u64 {
        for pixels in [1usize, 2, 3, 7] {
            let nearest = nearest_h3_resolution(
                &[pixels, 1],
                bbox_area,
                &areas,
                NearestH3ResolutionSearchMode::SmallestAreaDifference,
            )
            .unwrap();
            let fitting = nearest_h3_resolution(
                &[1, pixels],
                bbox_area,
                &areas,
                NearestH3ResolutionSearchMode::IndexAreaSmallerThanPixelArea,
            )
            .unwrap();
            assert!(nearest <= fitting);
        }
    }
}
