//! Choice of the grid resolution whose cells match a raster's pixels in area.
//!
//! Areas are whole numbers of one common unit. A raster of `pixels` pixels
//! over a bounding box of area `bbox_area` has pixels of area
//! `bbox_area / pixels`; cell areas are compared with this fraction exactly,
//! by comparing `area * pixels` with `bbox_area`.

use vstd::prelude::*;
use vstd::arithmetic::mul::lemma_mul_strict_inequality;
use crate::error::AccelError;

verus! {

/// The number of resolutions that are scanned: the resolutions `0..=16`.
pub const RESOLUTIONS: usize = 17;

/// Policy by which a grid resolution is matched to the area of a raster pixel.
pub enum NearestH3ResolutionSearchMode {
    /// Choose the resolution whose cell area differs least from the pixel area.
    SmallestAreaDifference,
    /// Choose the first resolution whose cell area is not larger than the pixel area.
    IndexAreaSmallerThanPixelArea,
}

/// The cell of resolution `r` is not larger than a pixel.
pub open spec fn area_fits(cell_areas: Seq<u64>, bbox_area: int, pixels: int, r: int) -> bool {
    cell_areas[r] * pixels <= bbox_area
}

/// The distance between the area of the cell of resolution `r` and the area
/// of a pixel, in units of one `pixels`-th of the area unit.
pub open spec fn area_gap(cell_areas: Seq<u64>, bbox_area: int, pixels: int, r: int) -> int {
    if cell_areas[r] * pixels >= bbox_area {
        cell_areas[r] * pixels - bbox_area
    } else {
        bbox_area - cell_areas[r] * pixels
    }
}

/// From resolution `r - 1` to resolution `r` the distance to the pixel area
/// gets larger.
pub open spec fn gap_grows(cell_areas: Seq<u64>, bbox_area: int, pixels: int, r: int) -> bool {
    area_gap(cell_areas, bbox_area, pixels, r - 1) < area_gap(cell_areas, bbox_area, pixels, r)
}

/// `res` is the resolution that the policy `mode` picks.
///
/// `IndexAreaSmallerThanPixelArea` picks the first resolution whose cell
/// fits into a pixel. `SmallestAreaDifference` picks the resolution before
/// the first one at which the distance to the pixel area grows. Where the
/// scan of the resolutions `0..=16` finds no such resolution, either policy
/// picks 0.
pub open spec fn is_nearest_resolution(
    cell_areas: Seq<u64>,
    bbox_area: int,
    pixels: int,
    mode: NearestH3ResolutionSearchMode,
    res: int,
) -> bool {
    match mode {
        NearestH3ResolutionSearchMode::IndexAreaSmallerThanPixelArea => {
            ||| {
                &&& 0 <= res < RESOLUTIONS
                &&& area_fits(cell_areas, bbox_area, pixels, res)
                &&& forall|q: int| 0 <= q < res ==>
                    !#[trigger] area_fits(cell_areas, bbox_area, pixels, q)
            }
            ||| {
                &&& res == 0
                &&& forall|q: int| 0 <= q < RESOLUTIONS ==>
                    !#[trigger] area_fits(cell_areas, bbox_area, pixels, q)
            }
        },
        NearestH3ResolutionSearchMode::SmallestAreaDifference => {
            ||| {
                &&& 0 <= res < RESOLUTIONS - 1
                &&& gap_grows(cell_areas, bbox_area, pixels, res + 1)
                &&& forall|q: int| 1 <= q <= res ==>
                    !#[trigger] gap_grows(cell_areas, bbox_area, pixels, q)
            }
            ||| {
                &&& res == 0
                &&& forall|q: int| 1 <= q < RESOLUTIONS ==>
                    !#[trigger] gap_grows(cell_areas, bbox_area, pixels, q)
            }
        },
    }
}

/// Where the cell area gets strictly smaller from each resolution to the
/// next, the resolution picked for the first cell that fits into a pixel is
/// never coarser than the one picked for the smallest difference in area.
pub proof fn lemma_fitting_is_finer_or_equal(
    cell_areas: Seq<u64>,
    bbox_area: int,
    pixels: int,
    res_difference: int,
    res_fitting: int,
)
    requires
        cell_areas.len() == RESOLUTIONS,
        pixels > 0,
        forall|r: int| 0 <= r < RESOLUTIONS - 1 ==> cell_areas[r] > #[trigger] cell_areas[r + 1],
        is_nearest_resolution(
            cell_areas,
            bbox_area,
            pixels,
            NearestH3ResolutionSearchMode::SmallestAreaDifference,
            res_difference,
        ),
        is_nearest_resolution(
            cell_areas,
            bbox_area,
            pixels,
            NearestH3ResolutionSearchMode::IndexAreaSmallerThanPixelArea,
            res_fitting,
        ),
    ensures
        res_difference <= res_fitting,
{
    if res_difference > res_fitting {
        if area_fits(cell_areas, bbox_area, pixels, res_fitting) {
            let q = res_fitting + 1;
            assert(cell_areas[res_fitting] > cell_areas[res_fitting + 1]);
            lemma_mul_strict_inequality(cell_areas[q] as int, cell_areas[res_fitting] as int, pixels);
            assert(gap_grows(cell_areas, bbox_area, pixels, q));
            assert(false);
        } else {
            let q = res_difference + 1;
            assert(!area_fits(cell_areas, bbox_area, pixels, q));
            assert(!area_fits(cell_areas, bbox_area, pixels, q - 1));
            assert(cell_areas[q - 1] > cell_areas[q - 1 + 1]);
            lemma_mul_strict_inequality(cell_areas[q] as int, cell_areas[q - 1] as int, pixels);
            assert(false);
        }
    }
}

/// Accepts the resolutions `0..=16` and no other.
pub fn check_valid_h3_resolution(h3_res: u8) -> (r: Result<(), AccelError>)
    ensures
        h3_res < RESOLUTIONS ==> r is Ok,
        h3_res >= RESOLUTIONS ==> r matches Err(AccelError::InvalidResolution),
{
    if h3_res > 16 {
        Err(AccelError::InvalidResolution)
    } else {
        Ok(())
    }
}

/// Finds the grid resolution whose cells are nearest in area to the pixels
/// of a raster of the given shape (rows, columns).
///
/// `bbox_area` is the area of the raster's bounding box and `cell_areas[r]`
/// the area of the cell of resolution `r` at the centre of that box, all in
/// one unit. A raster without rows or without columns is an error.
pub fn nearest_h3_resolution(
    shape: &[usize; 2],
    bbox_area: u64,
    cell_areas: &[u64; 17],
    search_mode: NearestH3ResolutionSearchMode,
) -> (r: Result<u8, AccelError>)
    requires
        shape[0] * shape[1] <= usize::MAX,
    ensures
        (shape[0] == 0 || shape[1] == 0) ==> r == Err::<u8, AccelError>(AccelError::EmptyArray),
        r matches Ok(res) ==> res <= 16,
        (shape[0] != 0 && shape[1] != 0) ==> (r matches Ok(res) && is_nearest_resolution(
            cell_areas@,
            bbox_area as int,
            shape[0] * shape[1],
            search_mode,
            res as int,
        )),
{
    if shape[0] == 0 || shape[1] == 0 {
        return Err(AccelError::EmptyArray);
    }
    let pixels: u128 = (shape[0] * shape[1]) as u128;
    let target: u128 = bbox_area as u128;
    let ghost areas = cell_areas@;
    let mut area_difference: Option<u128> = None;
    let mut h3_res: u8 = 0;
    while h3_res <= 16
        invariant
            h3_res <= 17,
            shape[0] != 0 && shape[1] != 0,
            shape[0] * shape[1] <= usize::MAX,
            areas == cell_areas@,
            pixels == shape[0] * shape[1],
            target == bbox_area,
            search_mode is IndexAreaSmallerThanPixelArea ==> forall|q: int| 0 <= q < h3_res ==>
                !#[trigger] area_fits(areas, target as int, pixels as int, q),
            search_mode is SmallestAreaDifference ==> {
                &&& forall|q: int| 1 <= q < h3_res ==>
                    !#[trigger] gap_grows(areas, target as int, pixels as int, q)
                &&& h3_res == 0 ==> area_difference is None
                &&& h3_res > 0 ==>
                    area_difference ==
                        Some(area_gap(areas, target as int, pixels as int, h3_res - 1) as u128)
                &&& h3_res > 0 ==>
                    area_gap(areas, target as int, pixels as int, h3_res - 1) <= u128::MAX
            },
        decreases 17 - h3_res,
    {
        let cell_area: u64 = cell_areas[h3_res as usize];
        assert(cell_area * pixels <= u64::MAX * usize::MAX) by (nonlinear_arith)
            requires
                cell_area <= u64::MAX,
                pixels <= usize::MAX,
        ;
        let scaled: u128 = cell_area as u128 * pixels;
        match search_mode {
            NearestH3ResolutionSearchMode::IndexAreaSmallerThanPixelArea => {
                if scaled <= target {
                    return Ok(h3_res);
                }
            },
            NearestH3ResolutionSearchMode::SmallestAreaDifference => {
                let new_area_difference = if scaled > target {
                    scaled - target
                } else {
                    target - scaled
                };
                if let Some(old_area_difference) = area_difference {
                    if old_area_difference < new_area_difference {
                        return Ok(h3_res - 1);
                    }
                }
                area_difference = Some(new_area_difference);
            },
        }
        h3_res += 1;
    }
    Ok(0)
}

} // verus!
