//! The packed Hilbert R-tree of the crate `static_aabb2d_index`, over boxes
//! with integer coordinates.
//!
//! Everything in this file is trusted: the verifier does not look into the
//! tree and takes the contracts below for granted. The tree holds its
//! coordinates as `i128`, so that no square of a distance between two `i32`
//! positions overflows.

use vstd::prelude::*;
use static_aabb2d_index::{StaticAABB2DIndex, StaticAABB2DIndexBuildError, StaticAABB2DIndexBuilder};
use crate::geometry::{Coordinate, Rect};
use crate::spatial_index::Visitor;

verus! {

#[verifier::external_type_specification]
#[verifier::external_body]
pub struct ExBuildError(StaticAABB2DIndexBuildError);

/// A tree over a fixed sequence of boxes; it finds boxes by their position
/// in that sequence.
#[verifier::external_body]
pub struct RectTree {
    inner: StaticAABB2DIndex<i128>,
}

/// A tree that is being filled: made for a fixed number of boxes, which are
/// then added one by one.
#[verifier::external_body]
pub struct RectTreeBuilder {
    inner: StaticAABB2DIndexBuilder<i128>,
}

/// The boxes of a tree, in the order in which they were added.
pub uninterp spec fn tree_boxes(tree: RectTree) -> Seq<Rect<i32>>;

/// The boxes added to a builder so far, in order.
pub uninterp spec fn builder_boxes(builder: RectTreeBuilder) -> Seq<Rect<i32>>;

/// The number of boxes that a builder was made for.
pub uninterp spec fn builder_capacity(builder: RectTreeBuilder) -> nat;

/// Calls `StaticAABB2DIndexBuilder::new`: a builder for exactly `count`
/// boxes, none added yet.
#[verifier::external_body]
pub(crate) fn builder_new(count: usize) -> (builder: RectTreeBuilder)
    ensures
        builder_boxes(builder) == Seq::<Rect<i32>>::empty(),
        builder_capacity(builder) == count,
{
    RectTreeBuilder { inner: StaticAABB2DIndexBuilder::new(count) }
}

/// Calls `StaticAABB2DIndexBuilder::add`, which stores the box behind those
/// added before. A box with its corners out of order may make the builder
/// panic, and a box beyond the builder's number is not stored.
#[verifier::external_body]
pub(crate) fn builder_add(builder: &mut RectTreeBuilder, rect: Rect<i32>)
    requires
        rect.wf(),
        builder_boxes(*old(builder)).len() < builder_capacity(*old(builder)),
    ensures
        builder_boxes(*final(builder)) == builder_boxes(*old(builder)).push(rect),
        builder_capacity(*final(builder)) == builder_capacity(*old(builder)),
{
    builder.inner.add(
        i128::from(rect.min.x),
        i128::from(rect.min.y),
        i128::from(rect.max.x),
        i128::from(rect.max.y),
    );
}

/// Calls `StaticAABB2DIndexBuilder::build`. It fails where the number of
/// boxes added is not the number that the builder was made for, or where a
/// coordinate cannot be cast to a float, which no integer fails to do.
#[verifier::external_body]
pub(crate) fn builder_build(
    builder: RectTreeBuilder,
) -> (r: Result<RectTree, StaticAABB2DIndexBuildError>)
    ensures
        r is Ok <==> builder_boxes(builder).len() == builder_capacity(builder),
        r matches Ok(tree) ==> tree_boxes(tree) == builder_boxes(builder),
{
    builder.inner.build().map(|inner| RectTree { inner })
}

/// The text of an error of `StaticAABB2DIndexBuilder::build`.
#[verifier::external_body]
pub(crate) fn build_error_message(error: &StaticAABB2DIndexBuildError) -> (message: String)
{
    error.to_string()
}

/// Calls `StaticAABB2DIndex::query`: the positions of all boxes that share
/// a point with `rect`, each once, in no stated order.
#[verifier::external_body]
pub(crate) fn tree_query(tree: &RectTree, rect: &Rect<i32>) -> (found: Vec<usize>)
    ensures
        forall|k: int|
            0 <= k < found@.len() ==> {
                &&& (#[trigger] found@[k]) < tree_boxes(*tree).len()
                &&& tree_boxes(*tree)[found@[k] as int].intersects(*rect)
            },
        forall|i: int|
            0 <= i < tree_boxes(*tree).len() && (#[trigger] tree_boxes(*tree)[i]).intersects(*rect)
                ==> exists|k: int| 0 <= k < found@.len() && #[trigger] found@[k] == i,
{
    tree.inner.query(
        i128::from(rect.min.x),
        i128::from(rect.min.y),
        i128::from(rect.max.x),
        i128::from(rect.max.y),
    )
}

/// Calls `StaticAABB2DIndex::visit_neighbors` with `Visitor::visit` as the
/// visitor. The tree hands over its boxes from the nearest to the farthest,
/// each once with its squared distance to the point, until the visitor tells
/// it to stop. So the visitor ends up with the positions of exactly the
/// boxes within its distance.
#[verifier::external_body]
pub(crate) fn tree_visit_neighbors(tree: &RectTree, coord: Coordinate<i32>, visitor: &mut Visitor)
    requires
        old(visitor).found@.len() == 0,
    ensures
        final(visitor).distance == old(visitor).distance,
        forall|k: int|
            0 <= k < final(visitor).found@.len() ==> {
                &&& (#[trigger] final(visitor).found@[k]) < tree_boxes(*tree).len()
                &&& tree_boxes(*tree)[final(visitor).found@[k] as int].dist_squared(coord)
                    <= old(visitor).distance
            },
        forall|i: int|
            0 <= i < tree_boxes(*tree).len() && (#[trigger] tree_boxes(*tree)[i]).dist_squared(coord)
                <= old(visitor).distance ==> exists|k: int|
                0 <= k < final(visitor).found@.len() && #[trigger] final(visitor).found@[k] == i,
{
    let _ = tree.inner.visit_neighbors(
        i128::from(coord.x),
        i128::from(coord.y),
        &mut |index_pos: usize, dist_squared: i128| visitor.visit(index_pos, dist_squared),
    );
}

/// Calls `StaticAABB2DIndex::bounds`: the smallest rectangle that holds all
/// boxes of the tree, and nothing for a tree without boxes.
#[verifier::external_body]
pub(crate) fn tree_bounds(tree: &RectTree) -> (bounds: Option<Rect<i32>>)
    ensures
        bounds is Some <==> tree_boxes(*tree).len() > 0,
        bounds matches Some(rect) ==> rect.is_bounds_of(tree_boxes(*tree)),
{
    tree.inner.bounds().map(|aabb| Rect {
        min: Coordinate { x: aabb.min_x as i32, y: aabb.min_y as i32 },
        max: Coordinate { x: aabb.max_x as i32, y: aabb.max_y as i32 },
    })
}

} // verus!
