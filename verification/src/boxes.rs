//! Clustering of the cells of a sparse grid that hold data into boxes.
//!
//! A line of a matrix is a row (axis 0) or a column (axis 1). A chunk is a
//! longest run of neighbouring lines none of which is made of the no-data
//! value alone. The boxes of a grid are found in three scans: the chunks of
//! rows of the whole grid; in each such band of rows, the chunks of columns;
//! and in each block of a band and a chunk of its columns, the chunks of rows
//! once more.

use vstd::prelude::*;
use crate::geometry::{Coordinate, Rect};
use crate::grid::{Grid, GridView, sub_matrix, grid_rows, grid_cols};

verus! {

/// All rows of `m` have the same length.
pub open spec fn is_matrix(m: Seq<Seq<i64>>) -> bool {
    forall|i: int| 0 <= i < m.len() ==> #[trigger] m[i].len() == m[0].len()
}

/// The number of lines of `m` along `axis`: its rows for axis 0, its columns
/// otherwise.
pub open spec fn axis_len(m: Seq<Seq<i64>>, axis: int) -> int {
    if axis == 0 {
        m.len() as int
    } else if m.len() > 0 {
        m[0].len() as int
    } else {
        0
    }
}

/// The `j`-th value of line `i` along `axis`.
pub open spec fn line_cell(m: Seq<Seq<i64>>, axis: int, i: int, j: int) -> i64 {
    if axis == 0 {
        m[i][j]
    } else {
        m[j][i]
    }
}

/// Line `i` along `axis` holds a value other than `nodata`.
pub open spec fn line_has_data(m: Seq<Seq<i64>>, nodata: i64, axis: int, i: int) -> bool {
    exists|j: int| 0 <= j < axis_len(m, 1 - axis) && #[trigger] line_cell(m, axis, i, j) != nodata
}

/// The lines `b..=e` along `axis` are a chunk: each of them holds data, and
/// the run can be extended on neither side.
pub open spec fn is_chunk(m: Seq<Seq<i64>>, nodata: i64, axis: int, b: int, e: int) -> bool {
    &&& 0 <= b <= e < axis_len(m, axis)
    &&& forall|i: int| b <= i <= e ==> #[trigger] line_has_data(m, nodata, axis, i)
    &&& (b == 0 || !line_has_data(m, nodata, axis, b - 1))
    &&& (e + 1 == axis_len(m, axis) || !line_has_data(m, nodata, axis, e + 1))
}

/// `rect` is a box of the band of rows `b0..=e0` of `m`: the band is a chunk
/// of rows of `m`, the columns of `rect` are a chunk of columns of the band,
/// and the rows of `rect` are a chunk of rows of the block that these
/// columns cut out of the band. In a `Rect`, `x` counts rows and `y` columns.
pub open spec fn is_box_of_rows(
    m: Seq<Seq<i64>>,
    nodata: i64,
    b0: int,
    e0: int,
    rect: Rect<usize>,
) -> bool {
    let band = sub_matrix(m, b0, e0 - b0 + 1, 0, axis_len(m, 1));
    let block = sub_matrix(m, b0, e0 - b0 + 1, rect.min.y as int, rect.max.y - rect.min.y + 1);
    &&& is_chunk(m, nodata, 0, b0, e0)
    &&& is_chunk(band, nodata, 1, rect.min.y as int, rect.max.y as int)
    &&& b0 <= rect.min.x
    &&& is_chunk(block, nodata, 0, rect.min.x - b0, rect.max.x - b0)
}

/// `rect` holds a value of `m` other than `nodata`.
pub open spec fn holds_data(m: Seq<Seq<i64>>, nodata: i64, rect: Rect<usize>) -> bool {
    exists|r: int, c: int| rect.contains(r, c) && #[trigger] m[r][c] != nodata
}

/// `rect` is one of the boxes of `m`.
pub open spec fn is_data_box(m: Seq<Seq<i64>>, nodata: i64, rect: Rect<usize>) -> bool {
    exists|b0: int, e0: int| #[trigger] is_box_of_rows(m, nodata, b0, e0, rect)
}

/// Two chunks that share a line are the same chunk.
pub proof fn lemma_chunks_meet(
    m: Seq<Seq<i64>>,
    nodata: i64,
    axis: int,
    b: int,
    e: int,
    b2: int,
    e2: int,
    p: int,
)
    requires
        is_chunk(m, nodata, axis, b, e),
        is_chunk(m, nodata, axis, b2, e2),
        b <= p <= e,
        b2 <= p <= e2,
    ensures
        b == b2,
        e == e2,
{
    if b < b2 {
        assert(line_has_data(m, nodata, axis, b2 - 1));
    }
    if b2 < b {
        assert(line_has_data(m, nodata, axis, b - 1));
    }
    if e < e2 {
        assert(line_has_data(m, nodata, axis, e + 1));
    }
    if e2 < e {
        assert(line_has_data(m, nodata, axis, e2 + 1));
    }
}

/// The first line of the run of lines with data that ends at line `i`.
proof fn lemma_run_left(m: Seq<Seq<i64>>, nodata: i64, axis: int, i: int) -> (b: int)
    requires
        0 <= i,
        line_has_data(m, nodata, axis, i),
    ensures
        0 <= b <= i,
        forall|k: int| b <= k <= i ==> #[trigger] line_has_data(m, nodata, axis, k),
        b == 0 || !line_has_data(m, nodata, axis, b - 1),
    decreases i,
{
    if i == 0 || !line_has_data(m, nodata, axis, i - 1) {
        i
    } else {
        lemma_run_left(m, nodata, axis, i - 1)
    }
}

/// The last line of the run of lines with data that starts at line `i`.
proof fn lemma_run_right(m: Seq<Seq<i64>>, nodata: i64, axis: int, i: int) -> (e: int)
    requires
        0 <= i < axis_len(m, axis),
        line_has_data(m, nodata, axis, i),
    ensures
        i <= e < axis_len(m, axis),
        forall|k: int| i <= k <= e ==> #[trigger] line_has_data(m, nodata, axis, k),
        e + 1 == axis_len(m, axis) || !line_has_data(m, nodata, axis, e + 1),
    decreases axis_len(m, axis) - i,
{
    if i + 1 == axis_len(m, axis) || !line_has_data(m, nodata, axis, i + 1) {
        i
    } else {
        lemma_run_right(m, nodata, axis, i + 1)
    }
}

/// Every line that holds data lies in a chunk.
pub proof fn lemma_chunk_exists(
    m: Seq<Seq<i64>>,
    nodata: i64,
    axis: int,
    i: int,
) -> (be: (int, int))
    requires
        0 <= i < axis_len(m, axis),
        line_has_data(m, nodata, axis, i),
    ensures
        is_chunk(m, nodata, axis, be.0, be.1),
        be.0 <= i <= be.1,
{
    let b = lemma_run_left(m, nodata, axis, i);
    let e = lemma_run_right(m, nodata, axis, i);
    (b, e)
}

/// Box Clustering covers the data: every value of a matrix other than
/// `nodata` lies in one of the matrix's boxes.
pub proof fn lemma_data_is_boxed(
    m: Seq<Seq<i64>>,
    nodata: i64,
    r: int,
    c: int,
) -> (rect: Rect<usize>)
    requires
        is_matrix(m),
        m.len() <= usize::MAX,
        axis_len(m, 1) <= usize::MAX,
        0 <= r < m.len(),
        0 <= c < m[0].len(),
        m[r][c] != nodata,
    ensures
        is_data_box(m, nodata, rect),
        rect.contains(r, c),
{
    assert(line_cell(m, 0, r, c) != nodata);
    let (b0, e0) = lemma_chunk_exists(m, nodata, 0, r);
    let band = sub_matrix(m, b0, e0 - b0 + 1, 0, axis_len(m, 1));
    assert(line_cell(band, 1, c, r - b0) != nodata);
    let (b1, e1) = lemma_chunk_exists(band, nodata, 1, c);
    let block = sub_matrix(m, b0, e0 - b0 + 1, b1, e1 - b1 + 1);
    assert(line_cell(block, 0, r - b0, c - b1) != nodata);
    let (b2, e2) = lemma_chunk_exists(block, nodata, 0, r - b0);
    let rect = Rect {
        min: Coordinate { x: (b2 + b0) as usize, y: b1 as usize },
        max: Coordinate { x: (e2 + b0) as usize, y: e1 as usize },
    };
    assert(is_box_of_rows(m, nodata, b0, e0, rect));
    rect
}

/// A box lies inside its matrix and holds a value other than `nodata`.
pub proof fn lemma_data_box_holds_data(
    m: Seq<Seq<i64>>,
    nodata: i64,
    rect: Rect<usize>,
) -> (rc: (int, int))
    requires
        is_data_box(m, nodata, rect),
    ensures
        rect.wf(),
        rect.max.x < m.len(),
        rect.max.y < axis_len(m, 1),
        rect.contains(rc.0, rc.1),
        m[rc.0][rc.1] != nodata,
{
    let (b0, e0) = choose|b0: int, e0: int| #[trigger] is_box_of_rows(m, nodata, b0, e0, rect);
    let block = sub_matrix(m, b0, e0 - b0 + 1, rect.min.y as int, rect.max.y - rect.min.y + 1);
    let i = rect.min.x - b0;
    assert(line_has_data(block, nodata, 0, i));
    let j = choose|j: int| 0 <= j < axis_len(block, 1)
        && #[trigger] line_cell(block, 0, i, j) != nodata;
    (rect.min.x as int, rect.min.y + j)
}

/// Boxes do not overlap: two boxes that share a position are the same box.
pub proof fn lemma_boxes_are_disjoint(
    m: Seq<Seq<i64>>,
    nodata: i64,
    rect1: Rect<usize>,
    rect2: Rect<usize>,
    r: int,
    c: int,
)
    requires
        is_data_box(m, nodata, rect1),
        is_data_box(m, nodata, rect2),
        rect1.contains(r, c),
        rect2.contains(r, c),
    ensures
        rect1 == rect2,
{
    let (b1, e1) = choose|b0: int, e0: int| #[trigger] is_box_of_rows(m, nodata, b0, e0, rect1);
    let (b2, e2) = choose|b0: int, e0: int| #[trigger] is_box_of_rows(m, nodata, b0, e0, rect2);
    // both bands hold row `r`
    lemma_chunks_meet(m, nodata, 0, b1, e1, b2, e2, r);
    let band = sub_matrix(m, b1, e1 - b1 + 1, 0, axis_len(m, 1));
    // both runs of columns hold column `c`
    lemma_chunks_meet(
        band,
        nodata,
        1,
        rect1.min.y as int,
        rect1.max.y as int,
        rect2.min.y as int,
        rect2.max.y as int,
        c,
    );
    let block = sub_matrix(m, b1, e1 - b1 + 1, rect1.min.y as int, rect1.max.y - rect1.min.y + 1);
    // both runs of rows of the block hold row `r`
    lemma_chunks_meet(
        block,
        nodata,
        0,
        rect1.min.x - b1,
        rect1.max.x - b1,
        rect2.min.x - b1,
        rect2.max.x - b1,
        r - b1,
    );
}

/// Tells whether line `i` of the window along `axis` holds a value other
/// than `nodata_value`.
fn line_holds_data(a: &GridView, axis: usize, i: usize, nodata_value: i64) -> (r: bool)
    requires
        a.wf(),
        axis < 2,
        i < (if axis == 0 { a.rows } else { a.cols }),
    ensures
        r == line_has_data(a@, nodata_value, axis as int, i as int),
{
    let n = if axis == 0 { a.cols } else { a.rows };
    let mut j: usize = 0;
    while j < n
        invariant
            a.wf(),
            axis < 2,
            i < (if axis == 0 { a.rows } else { a.cols }),
            n == (if axis == 0 { a.cols } else { a.rows }),
            j <= n,
            forall|k: int| 0 <= k < j ==> line_cell(a@, axis as int, i as int, k) == nodata_value,
        decreases n - j,
    {
        let v = if axis == 0 { a.get(i, j) } else { a.get(j, i) };
        if v != nodata_value {
            assert(line_cell(a@, axis as int, i as int, j as int) != nodata_value);
            return true;
        }
        j += 1;
    }
    false
}

/// The chunks of the window along `axis`, each as its first and last line,
/// from the first chunk to the last.
pub fn find_continuous_chunks_along_axis(
    a: &GridView,
    axis: usize,
    nodata_value: i64,
) -> (chunks: Vec<(usize, usize)>)
    requires
        a.wf(),
        axis < 2,
    ensures
        forall|k: int| 0 <= k < chunks.len() ==>
            is_chunk(a@, nodata_value, axis as int, #[trigger] chunks[k].0 as int, chunks[k].1 as int),
        forall|b: int, e: int| #[trigger] is_chunk(a@, nodata_value, axis as int, b, e) ==>
            exists|k: int| 0 <= k < chunks.len()
                && #[trigger] chunks[k] == (b as usize, e as usize),
        forall|k: int, l: int| 0 <= k < l < chunks.len() ==>
            (#[trigger] chunks[k]).1 < (#[trigger] chunks[l]).0,
{
    let ghost m = a@;
    let ghost ax = axis as int;
    let n = if axis == 0 { a.rows } else { a.cols };
    let mut chunks: Vec<(usize, usize)> = Vec::new();
    let mut current_chunk_start: Option<usize> = None;
    let mut i: usize = 0;
    while i < n
        invariant
            a.wf(),
            axis < 2,
            m == a@,
            ax == axis as int,
            n == (if axis == 0 { a.rows } else { a.cols }),
            i <= n,
            forall|k: int| 0 <= k < chunks.len() ==>
                is_chunk(m, nodata_value, ax, #[trigger] chunks[k].0 as int, chunks[k].1 as int),
            forall|k: int, l: int| 0 <= k < l < chunks.len() ==>
                (#[trigger] chunks[k]).1 < (#[trigger] chunks[l]).0,
            current_chunk_start matches Some(begin) ==> {
                &&& begin < i
                &&& forall|j: int| begin <= j < i ==>
                    #[trigger] line_has_data(m, nodata_value, ax, j)
                &&& (begin == 0 || !line_has_data(m, nodata_value, ax, begin - 1))
                &&& forall|k: int| 0 <= k < chunks.len() ==> (#[trigger] chunks[k]).1 < begin
                &&& forall|j: int| 0 <= j < begin && line_has_data(m, nodata_value, ax, j) ==>
                    exists|k: int| 0 <= k < chunks.len()
                        && (#[trigger] chunks[k]).0 <= j <= chunks[k].1
            },
            current_chunk_start is None ==> {
                &&& (i == 0 || !line_has_data(m, nodata_value, ax, i - 1))
                &&& forall|k: int| 0 <= k < chunks.len() ==> (#[trigger] chunks[k]).1 < i
                &&& forall|j: int| 0 <= j < i && line_has_data(m, nodata_value, ax, j) ==>
                    exists|k: int| 0 <= k < chunks.len()
                        && (#[trigger] chunks[k]).0 <= j <= chunks[k].1
            },
        decreases n - i,
    {
        if line_holds_data(a, axis, i, nodata_value) {
            if current_chunk_start.is_none() {
                current_chunk_start = Some(i);
            }
        } else if let Some(begin) = current_chunk_start {
            let ghost before = chunks@;
            chunks.push((begin, i - 1));
            current_chunk_start = None;
            proof {
                let last = before.len() as int;
                assert(forall|k: int| 0 <= k < last ==> chunks[k] == before[k]);
                assert(chunks[last] == (begin, (i - 1) as usize));
                assert(line_has_data(m, nodata_value, ax, begin as int));
                assert(axis_len(m, ax) == n);
                assert(is_chunk(m, nodata_value, ax, begin as int, i - 1));
                assert forall|j: int| 0 <= j < i + 1 && line_has_data(m, nodata_value, ax, j)
                    implies exists|k: int| 0 <= k < chunks.len()
                        && (#[trigger] chunks[k]).0 <= j <= chunks[k].1 by {
                    if j < begin {
                        let k = choose|k: int| 0 <= k < before.len()
                            && (#[trigger] before[k]).0 <= j <= before[k].1;
                        assert(chunks[k].0 <= j <= chunks[k].1);
                    } else {
                        assert(chunks[last].0 <= j <= chunks[last].1);
                    }
                }
            }
        }
        i += 1;
    }
    if let Some(begin) = current_chunk_start {
        let ghost before = chunks@;
        chunks.push((begin, n - 1));
        proof {
            let last = before.len() as int;
            assert(forall|k: int| 0 <= k < last ==> chunks[k] == before[k]);
            assert(chunks[last] == (begin, (n - 1) as usize));
            assert(line_has_data(m, nodata_value, ax, begin as int));
            assert(axis_len(m, ax) == n);
            assert forall|j: int| 0 <= j < n && line_has_data(m, nodata_value, ax, j)
                implies exists|k: int| 0 <= k < chunks.len()
                    && (#[trigger] chunks[k]).0 <= j <= chunks[k].1 by {
                if j < begin {
                    let k = choose|k: int| 0 <= k < before.len()
                        && (#[trigger] before[k]).0 <= j <= before[k].1;
                    assert(chunks[k].0 <= j <= chunks[k].1);
                } else {
                    assert(chunks[last].0 <= j <= chunks[last].1);
                }
            }
        }
    }
    proof {
        assert forall|b: int, e: int| #[trigger] is_chunk(m, nodata_value, ax, b, e)
            implies exists|k: int| 0 <= k < chunks.len()
                && #[trigger] chunks[k] == (b as usize, e as usize) by {
            assert(line_has_data(m, nodata_value, ax, b));
            assert(axis_len(m, ax) <= n);
            let k = choose|k: int| 0 <= k < chunks.len()
                && (#[trigger] chunks[k]).0 <= b <= chunks[k].1;
            lemma_chunks_meet(m, nodata_value, ax, b, e, chunks[k].0 as int, chunks[k].1 as int, b);
        }
    }
    chunks
}

/// One of the first `n` chunks starts at column `y`.
spec fn starts_some_chunk(chunks: Seq<(usize, usize)>, n: int, y: usize) -> bool {
    exists|c: int| 0 <= c < n && (#[trigger] chunks[c]).0 == y
}

/// `rect` is a box of the band of rows of one of the first `n` chunks.
spec fn box_of_some_chunk(
    m: Seq<Seq<i64>>,
    nodata: i64,
    chunks: Seq<(usize, usize)>,
    n: int,
    rect: Rect<usize>,
) -> bool {
    exists|c: int| 0 <= c < n
        && is_box_of_rows(m, nodata, (#[trigger] chunks[c]).0 as int, chunks[c].1 as int, rect)
}

/// The box of the rows `b2..=e2` of a block, where the block starts at row
/// `b0` of the grid and is made of the columns `b1..=e1`.
spec fn block_box(b0: usize, b1: usize, e1: usize, b2: int, e2: int) -> Rect<usize> {
    Rect {
        min: Coordinate { x: (b2 + b0) as usize, y: b1 },
        max: Coordinate { x: (e2 + b0) as usize, y: e1 },
    }
}

/// The boxes of one block: `band` is a band of rows that starts at row
/// `b0` of the grid, and the block is made of its columns `b1..=e1`. Each
/// chunk of rows of the block gives one box, in grid positions.
fn boxes_of_block(
    band: &GridView,
    b0: usize,
    b1: usize,
    e1: usize,
    nodata_value: i64,
) -> (out: Vec<Rect<usize>>)
    requires
        band.wf(),
        b1 <= e1 < band.cols,
        b0 + band.rows <= usize::MAX,
    ensures
        forall|k: int| 0 <= k < out.len() ==> {
            &&& (#[trigger] out[k]).min.y == b1
            &&& out[k].max.y == e1
            &&& b0 <= out[k].min.x
            &&& is_chunk(sub_matrix(band@, 0, band.rows as int, b1 as int, e1 - b1 + 1), nodata_value, 0, out[k].min.x - b0, out[k].max.x - b0)
        },
        forall|b2: int, e2: int| #[trigger] is_chunk(sub_matrix(band@, 0, band.rows as int, b1 as int, e1 - b1 + 1), nodata_value, 0, b2, e2)
            ==> exists|k: int| 0 <= k < out.len()
                && #[trigger] out[k] ==
                    block_box(b0, b1, e1, b2, e2),
        forall|k: int, l: int| 0 <= k < l < out.len() ==>
            (#[trigger] out[k]).min.x < (#[trigger] out[l]).min.x,
{
    let block = band.slice(0, band.rows, b1, e1 - b1 + 1);
    let ghost bm = block@;
    let chunks = find_continuous_chunks_along_axis(&block, 0, nodata_value);
    let mut out: Vec<Rect<usize>> = Vec::new();
    let mut i: usize = 0;
    while i < chunks.len()
        invariant
            i <= chunks.len(),
            out.len() == i,
            bm == sub_matrix(band@, 0, band.rows as int, b1 as int, e1 - b1 + 1),
            axis_len(bm, 0) == band.rows,
            b0 + band.rows <= usize::MAX,
            b1 <= e1,
            forall|k: int| 0 <= k < chunks.len() ==>
                is_chunk(bm, nodata_value, 0, #[trigger] chunks[k].0 as int, chunks[k].1 as int),
            forall|k: int, l: int| 0 <= k < l < chunks.len() ==>
                (#[trigger] chunks[k]).1 < (#[trigger] chunks[l]).0,
            forall|k: int| 0 <= k < i ==>
                (#[trigger] out[k]) ==
                    block_box(b0, b1, e1, chunks[k].0 as int, chunks[k].1 as int),
        decreases chunks.len() - i,
    {
        let chunk = chunks[i];
        assert(is_chunk(bm, nodata_value, 0, chunks[i as int].0 as int, chunks[i as int].1 as int));
        let rect = Rect::<usize>::new(
            Coordinate { x: chunk.0 + b0, y: b1 },
            Coordinate { x: chunk.1 + b0, y: e1 },
        );
        out.push(rect);
        i += 1;
    }
    proof {
        assert forall|k: int| 0 <= k < out.len() implies {
            &&& (#[trigger] out[k]).min.y == b1
            &&& out[k].max.y == e1
            &&& b0 <= out[k].min.x
            &&& is_chunk(bm, nodata_value, 0, out[k].min.x - b0, out[k].max.x - b0)
        } by {
            assert(is_chunk(bm, nodata_value, 0, chunks[k].0 as int, chunks[k].1 as int));
        }
        assert forall|b2: int, e2: int| #[trigger] is_chunk(bm, nodata_value, 0, b2, e2)
            implies exists|k: int|
            0 <= k < out.len()
                && #[trigger] out[k] ==
                    block_box(b0, b1, e1, b2, e2) by {
            let k = choose|k: int| 0 <= k < chunks.len()
                && #[trigger] chunks[k] == (b2 as usize, e2 as usize);
            assert(out[k] ==
                block_box(b0, b1, e1, b2, e2));
        }
        assert forall|k: int, l: int| 0 <= k < l < out.len()
            implies (#[trigger] out[k]).min.x < (#[trigger] out[l]).min.x by {
            assert(is_chunk(bm, nodata_value, 0, chunks[k].0 as int, chunks[k].1 as int));
            assert(is_chunk(bm, nodata_value, 0, chunks[l].0 as int, chunks[l].1 as int));
            assert(chunks[k].1 < chunks[l].0);
        }
    }
    out
}

/// The boxes of the band of rows `b0..=e0` of the window.
fn boxes_of_rows(a: &GridView, b0: usize, e0: usize, nodata_value: i64) -> (out: Vec<Rect<usize>>)
    requires
        a.wf(),
        is_chunk(a@, nodata_value, 0, b0 as int, e0 as int),
    ensures
        forall|k: int| 0 <= k < out.len() ==>
            is_box_of_rows(a@, nodata_value, b0 as int, e0 as int, #[trigger] out[k]),
        forall|rect: Rect<usize>| #[trigger] is_box_of_rows(a@, nodata_value, b0 as int, e0 as int, rect) ==>
            exists|k: int| 0 <= k < out.len() && #[trigger] out[k] == rect,
        forall|k: int, l: int| 0 <= k < l < out.len() ==> #[trigger] out[k] != #[trigger] out[l],
{
    let ghost m = a@;
    let band = a.slice(b0, e0 - b0 + 1, 0, a.cols);
    let ghost bandm = band@;
    assert(axis_len(m, 1) == a.cols);
    let chunks = find_continuous_chunks_along_axis(&band, 1, nodata_value);
    let mut out: Vec<Rect<usize>> = Vec::new();
    let mut i: usize = 0;
    while i < chunks.len()
        invariant
            i <= chunks.len(),
            band.wf(),
            m == a@,
            bandm == band@,
            band.rows == e0 - b0 + 1,
            band.cols == a.cols,
            b0 + band.rows <= usize::MAX,
            bandm == sub_matrix(m, b0 as int, e0 - b0 + 1, 0, axis_len(m, 1)),
            is_chunk(m, nodata_value, 0, b0 as int, e0 as int),
            forall|k: int| 0 <= k < chunks.len() ==>
                is_chunk(bandm, nodata_value, 1, #[trigger] chunks[k].0 as int, chunks[k].1 as int),
            forall|k: int, l: int| 0 <= k < l < chunks.len() ==>
                (#[trigger] chunks[k]).1 < (#[trigger] chunks[l]).0,
            forall|k: int| 0 <= k < out.len() ==>
                is_box_of_rows(m, nodata_value, b0 as int, e0 as int, #[trigger] out[k]),
            forall|k: int| 0 <= k < out.len() ==>
                starts_some_chunk(chunks@, i as int, (#[trigger] out[k]).min.y),
            forall|c: int, rect: Rect<usize>| 0 <= c < i
                && (#[trigger] chunks[c]) == (rect.min.y, rect.max.y)
                    && #[trigger] is_box_of_rows(m, nodata_value, b0 as int, e0 as int, rect)
                ==> exists|k: int| 0 <= k < out.len() && #[trigger] out[k] == rect,
            forall|k: int, l: int| 0 <= k < l < out.len() ==>
                #[trigger] out[k] != #[trigger] out[l],
        decreases chunks.len() - i,
    {
        let (b1, e1) = chunks[i];
        assert(is_chunk(bandm, nodata_value, 1, chunks[i as int].0 as int, chunks[i as int].1 as int));
        let mut inner = boxes_of_block(&band, b0, b1, e1, nodata_value);
        let ghost before = out@;
        let ghost added = inner@;
        out.append(&mut inner);
        proof {
            let blockm = sub_matrix(bandm, 0, band.rows as int, b1 as int, e1 - b1 + 1);
            assert(blockm =~~= sub_matrix(m, b0 as int, e0 - b0 + 1, b1 as int, e1 - b1 + 1));
            assert(out@ == before + added);
            assert forall|k: int| 0 <= k < out.len()
                implies is_box_of_rows(m, nodata_value, b0 as int, e0 as int, #[trigger] out[k]) by {
                if k >= before.len() {
                    assert(out[k] == added[k - before.len()]);
                } else {
                    assert(out[k] == before[k]);
                }
            }
            assert forall|k: int| 0 <= k < out.len()
                implies starts_some_chunk(chunks@, i + 1, (#[trigger] out[k]).min.y) by {
                if k >= before.len() {
                    assert(out[k] == added[k - before.len()]);
                    assert(chunks[i as int].0 == out[k].min.y);
                } else {
                    assert(out[k] == before[k]);
                    assert(starts_some_chunk(chunks@, i as int, before[k].min.y));
                    let c = choose|c: int| 0 <= c < i
                        && (#[trigger] chunks@[c]).0 == before[k].min.y;
                    assert(chunks@[c].0 == out[k].min.y);
                }
            }
            assert forall|c: int, rect: Rect<usize>| 0 <= c < i + 1
                && (#[trigger] chunks[c]) == (rect.min.y, rect.max.y)
                    && #[trigger] is_box_of_rows(m, nodata_value, b0 as int, e0 as int, rect)
                implies exists|k: int| 0 <= k < out.len() && #[trigger] out[k] == rect by {
                if c < i {
                    let k = choose|k: int| 0 <= k < before.len() && #[trigger] before[k] == rect;
                    assert(out[k] == rect);
                } else {
                    let b2 = rect.min.x - b0;
                    let e2 = rect.max.x - b0;
                    assert(is_chunk(blockm, nodata_value, 0, b2, e2));
                    let k = choose|k: int| 0 <= k < added.len()
                        && #[trigger] added[k] ==
                            block_box(b0, b1, e1, b2, e2);
                    assert(out[before.len() + k] == added[k]);
                    assert(added[k] == rect);
                }
            }
            assert forall|k: int, l: int| 0 <= k < l < out.len()
                implies #[trigger] out[k] != #[trigger] out[l] by {
                if l < before.len() {
                    assert(out[k] == before[k] && out[l] == before[l]);
                } else if k >= before.len() {
                    assert(out[k] == added[k - before.len()]);
                    assert(out[l] == added[l - before.len()]);
                    assert(added[k - before.len()].min.x < added[l - before.len()].min.x);
                } else {
                    assert(out[k] == before[k]);
                    assert(out[l] == added[l - before.len()]);
                    assert(starts_some_chunk(chunks@, i as int, before[k].min.y));
                    let c = choose|c: int| 0 <= c < i
                        && (#[trigger] chunks@[c]).0 == before[k].min.y;
                    assert(chunks[c].1 < chunks[i as int].0);
                    assert(is_chunk(bandm, nodata_value, 1, chunks[c].0 as int, chunks[c].1 as int));
                }
            }
        }
        i += 1;
    }
    proof {
        assert forall|rect: Rect<usize>| #[trigger] is_box_of_rows(m, nodata_value, b0 as int, e0 as int, rect)
            implies exists|k: int| 0 <= k < out.len() && #[trigger] out[k] == rect by {
            assert(is_chunk(bandm, nodata_value, 1, rect.min.y as int, rect.max.y as int));
            let c = choose|c: int| 0 <= c < chunks.len()
                && #[trigger] chunks[c] == (rect.min.y as int as usize, rect.max.y as int as usize);
            assert(chunks[c] == (rect.min.y, rect.max.y));
        }
    }
    out
}

/// Finds the boxes of a grid: rectangles of grid positions that together
/// hold every value other than `nodata_value`. In a box, `x` counts rows
/// and `y` counts columns.
///
/// The result is exactly the set of boxes of the grid, each once; a grid
/// without data has none. Boxes are found from rows and columns that are
/// empty as a whole, so a box may hold no-data values too.
pub fn find_boxes_containing_data(a: &Grid, nodata_value: i64) -> (boxes: Vec<Rect<usize>>)
    ensures
        forall|k: int| 0 <= k < boxes.len() ==> is_data_box(a@, nodata_value, #[trigger] boxes[k]),
        forall|rect: Rect<usize>| #[trigger] is_data_box(a@, nodata_value, rect) ==>
            exists|k: int| 0 <= k < boxes.len() && #[trigger] boxes[k] == rect,
        forall|k: int, l: int| 0 <= k < l < boxes.len() ==>
            #[trigger] boxes[k] != #[trigger] boxes[l],
        forall|r: int, c: int| 0 <= r < grid_rows(*a) && 0 <= c < grid_cols(*a)
            && #[trigger] a@[r][c] != nodata_value
            ==> exists|k: int| 0 <= k < boxes.len() && (#[trigger] boxes[k]).contains(r, c),
        forall|k: int| 0 <= k < boxes.len() ==>
            (#[trigger] boxes[k]).wf() && boxes[k].max.x < grid_rows(*a)
                && boxes[k].max.y < grid_cols(*a),
        forall|k: int| 0 <= k < boxes.len() ==> holds_data(a@, nodata_value, #[trigger] boxes[k]),
        (forall|r: int, c: int|
            0 <= r < grid_rows(*a) && 0 <= c < grid_cols(*a) ==> #[trigger] a@[r][c] == nodata_value)
            ==> boxes.len() == 0,
{
    let full = a.view_all();
    let ghost m = a@;
    let chunks = find_continuous_chunks_along_axis(&full, 0, nodata_value);
    let mut boxes: Vec<Rect<usize>> = Vec::new();
    let mut i: usize = 0;
    while i < chunks.len()
        invariant
            i <= chunks.len(),
            full.wf(),
            m == a@,
            m == full@,
            forall|k: int| 0 <= k < chunks.len() ==>
                is_chunk(m, nodata_value, 0, #[trigger] chunks[k].0 as int, chunks[k].1 as int),
            forall|k: int, l: int| 0 <= k < l < chunks.len() ==>
                (#[trigger] chunks[k]).1 < (#[trigger] chunks[l]).0,
            forall|k: int| 0 <= k < boxes.len() ==>
                box_of_some_chunk(m, nodata_value, chunks@, i as int, #[trigger] boxes[k]),
            forall|c: int, rect: Rect<usize>| 0 <= c < i
                && #[trigger] is_box_of_rows(m, nodata_value, (#[trigger] chunks[c]).0 as int, chunks[c].1 as int, rect)
                ==> exists|k: int| 0 <= k < boxes.len() && #[trigger] boxes[k] == rect,
            forall|k: int, l: int| 0 <= k < l < boxes.len() ==>
                #[trigger] boxes[k] != #[trigger] boxes[l],
        decreases chunks.len() - i,
    {
        let (b0, e0) = chunks[i];
        assert(is_chunk(m, nodata_value, 0, chunks[i as int].0 as int, chunks[i as int].1 as int));
        let mut inner = boxes_of_rows(&full, b0, e0, nodata_value);
        let ghost before = boxes@;
        let ghost added = inner@;
        boxes.append(&mut inner);
        proof {
            assert(boxes@ == before + added);
            assert forall|k: int| 0 <= k < boxes.len()
                implies box_of_some_chunk(m, nodata_value, chunks@, i + 1, #[trigger] boxes[k]) by {
                if k >= before.len() {
                    assert(boxes[k] == added[k - before.len()]);
                    assert(is_box_of_rows(m, nodata_value, chunks[i as int].0 as int, chunks[i as int].1 as int, boxes[k]));
                } else {
                    assert(boxes[k] == before[k]);
                    assert(box_of_some_chunk(m, nodata_value, chunks@, i as int, before[k]));
                    let c = choose|c: int| 0 <= c < i
                        && is_box_of_rows(m, nodata_value, (#[trigger] chunks@[c]).0 as int, chunks@[c].1 as int, before[k]);
                    assert(is_box_of_rows(m, nodata_value, chunks@[c].0 as int, chunks@[c].1 as int, boxes[k]));
                }
            }
            assert forall|c: int, rect: Rect<usize>| 0 <= c < i + 1
                && #[trigger] is_box_of_rows(m, nodata_value, (#[trigger] chunks[c]).0 as int, chunks[c].1 as int, rect)
                implies exists|k: int| 0 <= k < boxes.len() && #[trigger] boxes[k] == rect by {
                if c < i {
                    let k = choose|k: int| 0 <= k < before.len() && #[trigger] before[k] == rect;
                    assert(boxes[k] == rect);
                } else {
                    let k = choose|k: int| 0 <= k < added.len() && #[trigger] added[k] == rect;
                    assert(boxes[before.len() + k] == rect);
                }
            }
            assert forall|k: int, l: int| 0 <= k < l < boxes.len()
                implies #[trigger] boxes[k] != #[trigger] boxes[l] by {
                if l < before.len() {
                    assert(boxes[k] == before[k] && boxes[l] == before[l]);
                } else if k >= before.len() {
                    assert(boxes[k] == added[k - before.len()]);
                    assert(boxes[l] == added[l - before.len()]);
                } else {
                    assert(boxes[k] == before[k]);
                    assert(boxes[l] == added[l - before.len()]);
                    assert(box_of_some_chunk(m, nodata_value, chunks@, i as int, before[k]));
                    let c = choose|c: int| 0 <= c < i
                        && is_box_of_rows(m, nodata_value, (#[trigger] chunks@[c]).0 as int, chunks@[c].1 as int, before[k]);
                    assert(chunks[c].1 < chunks[i as int].0);
                    assert(is_box_of_rows(m, nodata_value, chunks[i as int].0 as int, chunks[i as int].1 as int, boxes[l]));
                }
            }
        }
        i += 1;
    }
    let rows = a.nrows();
    let cols = a.ncols();
    proof {
        assert forall|k: int| 0 <= k < boxes.len()
            implies is_data_box(m, nodata_value, #[trigger] boxes[k]) by {
            assert(box_of_some_chunk(m, nodata_value, chunks@, i as int, boxes[k]));
            let c = choose|c: int| 0 <= c < i
                && is_box_of_rows(m, nodata_value, (#[trigger] chunks@[c]).0 as int, chunks@[c].1 as int, boxes[k]);
            assert(is_box_of_rows(m, nodata_value, chunks@[c].0 as int, chunks@[c].1 as int, boxes[k]));
        }
        assert forall|rect: Rect<usize>| #[trigger] is_data_box(m, nodata_value, rect)
            implies exists|k: int| 0 <= k < boxes.len() && #[trigger] boxes[k] == rect by {
            let (b0, e0) = choose|b0: int, e0: int| #[trigger] is_box_of_rows(m, nodata_value, b0, e0, rect);
            let c = choose|c: int| 0 <= c < chunks.len()
                && #[trigger] chunks[c] == (b0 as usize, e0 as usize);
            assert(is_box_of_rows(m, nodata_value, chunks[c].0 as int, chunks[c].1 as int, rect));
        }
        assert(is_matrix(m));
        assert forall|r: int, c: int| 0 <= r < grid_rows(*a) && 0 <= c < grid_cols(*a)
            && #[trigger] m[r][c] != nodata_value
            implies exists|k: int| 0 <= k < boxes.len() && (#[trigger] boxes[k]).contains(r, c) by {
            let rect = lemma_data_is_boxed(m, nodata_value, r, c);
            let k = choose|k: int| 0 <= k < boxes.len() && #[trigger] boxes[k] == rect;
            assert(boxes[k].contains(r, c));
        }
        assert forall|k: int| 0 <= k < boxes.len()
            implies (#[trigger] boxes[k]).wf() && boxes[k].max.x < grid_rows(*a)
                && boxes[k].max.y < grid_cols(*a) && holds_data(m, nodata_value, boxes[k]) by {
            let rc = lemma_data_box_holds_data(m, nodata_value, boxes[k]);
            assert(boxes[k].contains(rc.0, rc.1) && m[rc.0][rc.1] != nodata_value);
        }
        if boxes.len() > 0 {
            let rc = lemma_data_box_holds_data(m, nodata_value, boxes[0]);
            assert(m[rc.0][rc.1] != nodata_value);
        }
    }
    boxes
}

} // verus!
