//! A static spatial index over a column of bounding rectangles.
//!
//! A column has one entry for each row: the bounding rectangle of the row's
//! cell, or nothing where the row is null or its cell has no rectangle. The
//! index is built over the rows that have a rectangle, and answers with
//! masks over all rows of the column.

use vstd::prelude::*;
use crate::error::AccelError;
use crate::geometry::{Coordinate, Rect};
use crate::rtree::{
    build_error_message, builder_add, builder_boxes, builder_build, builder_capacity, builder_new,
    tree_bounds, tree_boxes, tree_query, tree_visit_neighbors, RectTree,
};

verus! {

/// Row `r` of the column has a rectangle, with its corners in order.
pub open spec fn has_rect(column: Seq<Option<Rect<i32>>>, r: int) -> bool {
    0 <= r < column.len() && column[r] is Some && column[r]->0.wf()
}

/// `bounds` is the smallest rectangle that holds the rectangle of every
/// row of the column.
pub open spec fn is_column_bounds(bounds: Rect<i32>, column: Seq<Option<Rect<i32>>>) -> bool {
    &&& forall|r: int| #[trigger]
        has_rect(column, r) ==> {
            &&& bounds.min.x <= column[r]->0.min.x
            &&& bounds.min.y <= column[r]->0.min.y
            &&& column[r]->0.max.x <= bounds.max.x
            &&& column[r]->0.max.y <= bounds.max.y
        }
    &&& exists|r: int| #[trigger] has_rect(column, r) && column[r]->0.min.x == bounds.min.x
    &&& exists|r: int| #[trigger] has_rect(column, r) && column[r]->0.min.y == bounds.min.y
    &&& exists|r: int| #[trigger] has_rect(column, r) && column[r]->0.max.x == bounds.max.x
    &&& exists|r: int| #[trigger] has_rect(column, r) && column[r]->0.max.y == bounds.max.y
}

/// Row `r` is the row of one of the tree positions in `found`.
pub open spec fn is_marked(found: Seq<usize>, positions: Seq<usize>, r: int) -> bool {
    exists|k: int| 0 <= k < found.len() && positions[(#[trigger] found[k]) as int] == r
}

/// Collects the boxes that lie within a squared distance of a point.
pub struct Visitor {
    pub found: Vec<usize>,
    pub distance: u64,
}

impl Visitor {
    /// Takes the box at `index_pos`, whose squared distance to the point is
    /// `dist_squared`: the box is kept and the search goes on where it lies
    /// within the distance; else the search is told to stop.
    pub fn visit(&mut self, index_pos: usize, dist_squared: i128) -> (r: Result<(), ()>)
        ensures
            final(self).distance == old(self).distance,
            dist_squared <= old(self).distance ==>
                r is Ok && final(self).found@ == old(self).found@.push(index_pos),
            dist_squared > old(self).distance ==>
                r is Err && final(self).found@ == old(self).found@,
    {
        if dist_squared <= self.distance as i128 {
            self.found.push(index_pos);
            Ok(())
        } else {
            Err(())
        }
    }
}

/// A spatial index by the packed Hilbert R-tree algorithm, built once over
/// a column and never changed.
pub struct PackedHilbertRTreeIndex {
    index: Option<RectTree>,
    chunked_array: Vec<Option<Rect<i32>>>,
    /// For each position in the tree, the row of the column that its box
    /// belongs to.
    positions_in_chunked_array: Vec<usize>,
}

/// Columns over which a packed Hilbert R-tree index can be built.
pub trait BuildPackedHilbertRTreeIndex {
    /// The entries of the column.
    spec fn rows(&self) -> Seq<Option<Rect<i32>>>;

    /// Builds the index over the rows that have a rectangle.
    fn packed_hilbert_rtree_index(&self) -> (r: Result<PackedHilbertRTreeIndex, AccelError>)
        ensures
            r matches Ok(index) && index.column() == self.rows(),
    ;
}

/// The positions `0..n` of a tree belong, in order, to the rows with a
/// rectangle among the first `upto` rows of the column.
spec fn positions_match(column: Seq<Option<Rect<i32>>>, positions: Seq<usize>, upto: int) -> bool {
    &&& forall|i: int| 0 <= i < positions.len() ==>
        (#[trigger] positions[i]) < upto && has_rect(column, positions[i] as int)
    &&& forall|i: int, j: int| 0 <= i < j < positions.len() ==>
        (#[trigger] positions[i]) < (#[trigger] positions[j])
    &&& forall|r: int| 0 <= r < upto && #[trigger] has_rect(column, r) ==>
        exists|i: int| 0 <= i < positions.len() && (#[trigger] positions[i]) == r
}

/// A mask of `len` rows, none of them set.
fn negative_mask(len: usize) -> (mask: Vec<bool>)
    ensures
        mask@.len() == len,
        forall|r: int| 0 <= r < len ==> !(#[trigger] mask@[r]),
{
    let mut mask: Vec<bool> = Vec::new();
    let mut i: usize = 0;
    while i < len
        invariant
            i <= len,
            mask@.len() == i,
            forall|r: int| 0 <= r < i ==> !(#[trigger] mask@[r]),
        decreases len - i,
    {
        mask.push(false);
        i += 1;
    }
    mask
}

/// Sets in `mask` the row of each tree position in `found`. The tree knows
/// its boxes by their position in the tree; `positions` gives the row of
/// the column for each.
fn set_rows(mask: &mut Vec<bool>, found: &Vec<usize>, positions: &Vec<usize>)
    requires
        forall|k: int| 0 <= k < found@.len() ==> (#[trigger] found@[k]) < positions@.len(),
        forall|i: int| 0 <= i < positions@.len() ==> (#[trigger] positions@[i]) < old(mask)@.len(),
        forall|r: int| 0 <= r < old(mask)@.len() ==> !(#[trigger] old(mask)@[r]),
    ensures
        final(mask)@.len() == old(mask)@.len(),
        forall|r: int| 0 <= r < final(mask)@.len() ==>
            (#[trigger] final(mask)@[r]) == is_marked(found@, positions@, r),
{
    let mut k: usize = 0;
    while k < found.len()
        invariant
            k <= found@.len(),
            mask@.len() == old(mask)@.len(),
            forall|j: int| 0 <= j < found@.len() ==> (#[trigger] found@[j]) < positions@.len(),
            forall|i: int| 0 <= i < positions@.len() ==> (#[trigger] positions@[i]) < mask@.len(),
            forall|r: int| 0 <= r < mask@.len() ==>
                (#[trigger] mask@[r]) == is_marked(found@.take(k as int), positions@, r),
        decreases found@.len() - k,
    {
        let index_position = found[k];
        let row = positions[index_position];
        let ghost before = mask@;
        mask.set(row, true);
        proof {
            let seen = found@.take(k as int);
            let next = found@.take(k + 1);
            assert(next[k as int] == found@[k as int]);
            assert forall|r: int| 0 <= r < mask@.len()
                implies (#[trigger] mask@[r]) == is_marked(next, positions@, r) by {
                if r == row {
                    assert(positions@[next[k as int] as int] == r);
                } else if before[r] {
                    let j = choose|j: int| 0 <= j < seen.len()
                        && positions@[(#[trigger] seen[j]) as int] == r;
                    assert(next[j] == seen[j]);
                } else if is_marked(next, positions@, r) {
                    let j = choose|j: int| 0 <= j < next.len()
                        && positions@[(#[trigger] next[j]) as int] == r;
                    assert(j < k);
                    assert(seen[j] == next[j]);
                }
            }
        }
        k += 1;
    }
    proof {
        assert(found@.take(found@.len() as int) == found@);
    }
}

impl BuildPackedHilbertRTreeIndex for Vec<Option<Rect<i32>>> {
    open spec fn rows(&self) -> Seq<Option<Rect<i32>>> {
        self@
    }

    fn packed_hilbert_rtree_index(&self) -> (r: Result<PackedHilbertRTreeIndex, AccelError>) {
        let mut chunked_array: Vec<Option<Rect<i32>>> = Vec::new();
        let mut positions_in_chunked_array: Vec<usize> = Vec::new();
        let mut rects: Vec<Rect<i32>> = Vec::new();
        let mut pos: usize = 0;
        while pos < self.len()
            invariant
                pos <= self@.len(),
                chunked_array@ == self@.take(pos as int),
                rects@.len() == positions_in_chunked_array@.len(),
                positions_match(self@, positions_in_chunked_array@, pos as int),
                forall|i: int| 0 <= i < rects@.len() ==>
                    Some(#[trigger] rects@[i]) == self@[positions_in_chunked_array@[i] as int],
            decreases self@.len() - pos,
        {
            let entry: Option<Rect<i32>> = self[pos];
            let ghost before = positions_in_chunked_array@;
            chunked_array.push(entry);
            if let Some(rect) = entry {
                if rect.is_valid() {
                    positions_in_chunked_array.push(pos);
                    rects.push(rect);
                }
            }
            proof {
                assert(chunked_array@ == self@.take(pos + 1));
                let after = positions_in_chunked_array@;
                assert(forall|i: int| 0 <= i < before.len() ==> after[i] == before[i]);
                assert forall|r: int| 0 <= r < pos + 1 && #[trigger] has_rect(self@, r)
                    implies exists|i: int| 0 <= i < after.len() && (#[trigger] after[i]) == r by {
                    if r < pos {
                        let i = choose|i: int| 0 <= i < before.len() && (#[trigger] before[i]) == r;
                        assert(after[i] == r);
                    } else {
                        assert(after[after.len() - 1] == r);
                    }
                }
            }
            pos += 1;
        }
        proof {
            assert(self@.take(self@.len() as int) == self@);
        }
        let index = if positions_in_chunked_array.len() > 0 {
            let mut builder = builder_new(positions_in_chunked_array.len());
            let mut i: usize = 0;
            while i < rects.len()
                invariant
                    i <= rects@.len(),
                    rects@.len() == positions_in_chunked_array@.len(),
                    builder_capacity(builder) == rects@.len(),
                    builder_boxes(builder) == rects@.take(i as int),
                    positions_match(self@, positions_in_chunked_array@, self@.len() as int),
                    forall|k: int| 0 <= k < rects@.len() ==>
                        Some(#[trigger] rects@[k]) == self@[positions_in_chunked_array@[k] as int],
                decreases rects@.len() - i,
            {
                let rect = rects[i];
                assert(has_rect(self@, positions_in_chunked_array@[i as int] as int));
                builder_add(&mut builder, rect);
                proof {
                    assert(rects@.take(i as int).push(rect) == rects@.take(i + 1));
                }
                i += 1;
            }
            proof {
                assert(rects@.take(rects@.len() as int) == rects@);
            }
            match builder_build(builder) {
                Ok(tree) => Some(tree),
                Err(e) => {
                    return Err(AccelError::SpatialIndex(build_error_message(&e)));
                },
            }
        } else {
            None
        };
        Ok(PackedHilbertRTreeIndex { index, chunked_array, positions_in_chunked_array })
    }
}

impl PackedHilbertRTreeIndex {
    /// The column that the index was built over.
    pub closed spec fn column(&self) -> Seq<Option<Rect<i32>>> {
        self.chunked_array@
    }

    #[verifier::type_invariant]
    spec fn inv(&self) -> bool {
        &&& positions_match(self.chunked_array@, self.positions_in_chunked_array@, self.chunked_array@.len() as int)
        &&& match self.index {
            None => self.positions_in_chunked_array@.len() == 0,
            Some(tree) => {
                &&& tree_boxes(tree).len() == self.positions_in_chunked_array@.len()
                &&& tree_boxes(tree).len() > 0
                &&& forall|i: int| 0 <= i < tree_boxes(tree).len() ==>
                    Some(#[trigger] tree_boxes(tree)[i]) ==
                        self.chunked_array@[self.positions_in_chunked_array@[i] as int]
            },
        }
    }

    /// The column that the index was built over.
    pub fn h3indexchunked(&self) -> (column: &Vec<Option<Rect<i32>>>)
        ensures
            column@ == self.column(),
    {
        &self.chunked_array
    }

    /// The rows whose rectangle shares a point with `rect`, as a mask over
    /// the rows of the column. Rows without a rectangle are never set.
    pub fn envelopes_intersect_impl(&self, rect: &Rect<i32>) -> (mask: Vec<bool>)
        ensures
            mask@.len() == self.column().len(),
            forall|r: int| 0 <= r < mask@.len() ==>
                (#[trigger] mask@[r]) == (has_rect(self.column(), r)
                    && self.column()[r]->0.intersects(*rect)),
    {
        proof {
            use_type_invariant(self);
        }
        let mut mask = negative_mask(self.chunked_array.len());
        let ghost column = self.chunked_array@;
        let ghost positions = self.positions_in_chunked_array@;
        match &self.index {
            Some(index) => {
                let found = tree_query(index, rect);
                set_rows(&mut mask, &found, &self.positions_in_chunked_array);
                proof {
                    let boxes = tree_boxes(*index);
                    assert forall|r: int| 0 <= r < mask@.len()
                        implies (#[trigger] mask@[r]) == (has_rect(column, r)
                            && column[r]->0.intersects(*rect)) by {
                        if mask@[r] {
                            let k = choose|k: int| 0 <= k < found@.len()
                                && positions[(#[trigger] found@[k]) as int] == r;
                            assert(Some(boxes[found@[k] as int]) == column[r]);
                        }
                        if has_rect(column, r) && column[r]->0.intersects(*rect) {
                            let i = choose|i: int| 0 <= i < positions.len()
                                && (#[trigger] positions[i]) == r;
                            assert(Some(boxes[i]) == column[r]);
                            let k = choose|k: int| 0 <= k < found@.len()
                                && #[trigger] found@[k] == i;
                            assert(positions[found@[k] as int] == r);
                        }
                    }
                }
            },
            None => {
                proof {
                    assert forall|r: int| 0 <= r < mask@.len() implies !has_rect(column, r) by {
                        if has_rect(column, r) {
                            let i = choose|i: int| 0 <= i < positions.len()
                                && (#[trigger] positions[i]) == r;
                        }
                    }
                }
            },
        }
        mask
    }

    /// The rows whose rectangle lies within the squared distance `distance`
    /// of the point `coord`, as a mask over the rows of the column. The
    /// distance to a rectangle is that to its nearest point.
    pub fn envelopes_within_distance(
        &self,
        coord: Coordinate<i32>,
        distance: u64,
    ) -> (mask: Vec<bool>)
        ensures
            mask@.len() == self.column().len(),
            forall|r: int| 0 <= r < mask@.len() ==>
                (#[trigger] mask@[r]) == (has_rect(self.column(), r)
                    && self.column()[r]->0.dist_squared(coord) <= distance),
    {
        proof {
            use_type_invariant(self);
        }
        let mut mask = negative_mask(self.chunked_array.len());
        let ghost column = self.chunked_array@;
        let ghost positions = self.positions_in_chunked_array@;
        match &self.index {
            Some(index) => {
                let mut visitor = Visitor { found: Vec::new(), distance };
                tree_visit_neighbors(index, coord, &mut visitor);
                let found = visitor.found;
                set_rows(&mut mask, &found, &self.positions_in_chunked_array);
                proof {
                    let boxes = tree_boxes(*index);
                    assert forall|r: int| 0 <= r < mask@.len()
                        implies (#[trigger] mask@[r]) == (has_rect(column, r)
                            && column[r]->0.dist_squared(coord) <= distance) by {
                        if mask@[r] {
                            let k = choose|k: int| 0 <= k < found@.len()
                                && positions[(#[trigger] found@[k]) as int] == r;
                            assert(Some(boxes[found@[k] as int]) == column[r]);
                        }
                        if has_rect(column, r) && column[r]->0.dist_squared(coord) <= distance {
                            let i = choose|i: int| 0 <= i < positions.len()
                                && (#[trigger] positions[i]) == r;
                            assert(Some(boxes[i]) == column[r]);
                            let k = choose|k: int| 0 <= k < found@.len()
                                && #[trigger] found@[k] == i;
                            assert(positions[found@[k] as int] == r);
                        }
                    }
                }
            },
            None => {
                proof {
                    assert forall|r: int| 0 <= r < mask@.len() implies !has_rect(column, r) by {
                        if has_rect(column, r) {
                            let i = choose|i: int| 0 <= i < positions.len()
                                && (#[trigger] positions[i]) == r;
                        }
                    }
                }
            },
        }
        mask
    }

    /// The smallest rectangle that holds the rectangles of all rows;
    /// nothing where no row has a rectangle.
    pub fn bounding_rect(&self) -> (r: Result<Option<Rect<i32>>, AccelError>)
        ensures
            r is Ok,
            (r->Ok_0 is Some) == (exists|row: int| has_rect(self.column(), row)),
            r->Ok_0 matches Some(rect) ==> is_column_bounds(rect, self.column()),
    {
        proof {
            use_type_invariant(self);
        }
        let ghost column = self.chunked_array@;
        let ghost positions = self.positions_in_chunked_array@;
        match &self.index {
            Some(index) => {
                let bounds = tree_bounds(index);
                proof {
                    let boxes = tree_boxes(*index);
                    let rect = bounds->0;
                    assert(has_rect(column, positions[0] as int));
                    assert forall|r: int| #[trigger] has_rect(column, r) implies {
                        &&& rect.min.x <= column[r]->0.min.x
                        &&& rect.min.y <= column[r]->0.min.y
                        &&& column[r]->0.max.x <= rect.max.x
                        &&& column[r]->0.max.y <= rect.max.y
                    } by {
                        let i = choose|i: int| 0 <= i < positions.len()
                            && (#[trigger] positions[i]) == r;
                        assert(Some(boxes[i]) == column[r]);
                    }
                    let i1 = choose|i: int| 0 <= i < boxes.len()
                        && (#[trigger] boxes[i]).min.x == rect.min.x;
                    assert(Some(boxes[i1]) == column[positions[i1] as int]);
                    assert(has_rect(column, positions[i1] as int)
                        && column[positions[i1] as int]->0.min.x == rect.min.x);
                    let i2 = choose|i: int| 0 <= i < boxes.len()
                        && (#[trigger] boxes[i]).min.y == rect.min.y;
                    assert(Some(boxes[i2]) == column[positions[i2] as int]);
                    assert(has_rect(column, positions[i2] as int)
                        && column[positions[i2] as int]->0.min.y == rect.min.y);
                    let i3 = choose|i: int| 0 <= i < boxes.len()
                        && (#[trigger] boxes[i]).max.x == rect.max.x;
                    assert(Some(boxes[i3]) == column[positions[i3] as int]);
                    assert(has_rect(column, positions[i3] as int)
                        && column[positions[i3] as int]->0.max.x == rect.max.x);
                    let i4 = choose|i: int| 0 <= i < boxes.len()
                        && (#[trigger] boxes[i]).max.y == rect.max.y;
                    assert(Some(boxes[i4]) == column[positions[i4] as int]);
                    assert(has_rect(column, positions[i4] as int)
                        && column[positions[i4] as int]->0.max.y == rect.max.y);
                    assert(self.column() == column);
                    assert(bounds is Some);
                    assert(exists|row: int| has_rect(self.column(), row));
                }
                Ok(bounds)
            },
            None => {
                proof {
                    assert forall|r: int| !has_rect(column, r) by {
                        if has_rect(column, r) {
                            let i = choose|i: int| 0 <= i < positions.len()
                                && (#[trigger] positions[i]) == r;
                        }
                    }
                    assert(!(exists|row: int| has_rect(self.column(), row)));
                }
                Ok(None)
            },
        }
    }
}

} // verus!
