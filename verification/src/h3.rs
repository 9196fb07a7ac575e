//! The grid system, as far as this library calls it: decoding the ends of a
//! directed edge, compressed blocks of edges, and sets of cells. Cells and
//! edges are handled as their 64-bit identifiers.
//!
//! Everything in this file is trusted: the verifier takes the contracts
//! below for granted.

use vstd::prelude::*;
use h3ron::collections::{H3Treemap, IndexBlock};
use h3ron::{H3Cell, H3DirectedEdge, Index};

verus! {

#[verifier::external_type_specification]
#[verifier::external_body]
pub struct ExH3Error(h3ron::Error);

#[verifier::external_type_specification]
#[verifier::external_body]
pub struct ExH3Cell(H3Cell);

#[verifier::external_type_specification]
#[verifier::external_body]
pub struct ExH3DirectedEdge(H3DirectedEdge);

#[verifier::external_type_specification]
#[verifier::external_body]
#[verifier::reject_recursive_types(T)]
pub struct ExIndexBlock<T>(IndexBlock<T>);

#[verifier::external_type_specification]
#[verifier::external_body]
#[verifier::reject_recursive_types(T)]
pub struct ExH3Treemap<T>(H3Treemap<T>);

/// The cell at which the edge `edge` starts. An identifier is decoded as an
/// edge when its four mode bits hold 2; the origin is the same identifier
/// with the mode of a cell, 1, and with the three bits of the edge's
/// direction cleared.
pub open spec fn edge_origin_cell(edge: u64) -> Option<u64> {
    if (edge & 0x7800_0000_0000_0000u64) >> 59u64 == 2u64 {
        Some((edge & !0x7f00_0000_0000_0000u64) | 0x0800_0000_0000_0000u64)
    } else {
        None
    }
}

/// The cell at which the edge `edge` ends, where the grid system can tell.
pub uninterp spec fn edge_destination_cell(edge: u64) -> Option<u64>;

/// The identifier `cell` is that of a cell of the grid.
pub uninterp spec fn cell_valid(cell: u64) -> bool;

/// The edges that a block decompresses to, in order; no edges where the
/// block is damaged and cannot be decompressed.
pub uninterp spec fn block_edges(block: IndexBlock<H3DirectedEdge>) -> Seq<u64>;

/// The cells that a set of cells holds.
pub uninterp spec fn treemap_cells(cells: H3Treemap<H3Cell>) -> Set<u64>;

/// Calls `H3DirectedEdge::origin_cell`, which fails unless the identifier
/// has the mode of a directed edge, and else gives the identifier with the
/// mode of a cell and without the direction.
#[verifier::external_body]
pub(crate) fn edge_origin(edge: u64) -> (r: Result<u64, h3ron::Error>)
    ensures
        r is Ok <==> edge_origin_cell(edge) is Some,
        r matches Ok(cell) ==> edge_origin_cell(edge) == Some(cell),
{
    H3DirectedEdge::new(edge).origin_cell().map(|cell| cell.h3index())
}

/// Calls `H3DirectedEdge::destination_cell`. The result depends on the
/// identifier alone and is named `edge_destination_cell`. The grid system
/// decodes the origin first, so no edge has a destination without having an
/// origin.
#[verifier::external_body]
pub(crate) fn edge_destination(edge: u64) -> (r: Result<u64, h3ron::Error>)
    ensures
        r is Ok <==> edge_destination_cell(edge) is Some,
        r matches Ok(cell) ==> edge_destination_cell(edge) == Some(cell),
        r is Ok ==> edge_origin_cell(edge) is Some,
{
    H3DirectedEdge::new(edge).destination_cell().map(|cell| cell.h3index())
}

/// Calls `H3Cell::is_valid`, by which the grid system tells whether an
/// identifier is that of a cell. The answer depends on the identifier alone
/// and is named `cell_valid`.
#[verifier::external_body]
pub(crate) fn cell_is_valid(cell: u64) -> (r: bool)
    ensures
        r == cell_valid(cell),
{
    H3Cell::new(cell).is_valid()
}

/// Compresses edges into an `IndexBlock`, through its `FromIterator`. The
/// block keeps the order of the edges, and decompressing it gives them back.
#[verifier::external_body]
pub(crate) fn compress_edges(edges: &Vec<u64>) -> (block: IndexBlock<H3DirectedEdge>)
    ensures
        block_edges(block) == edges@,
{
    edges.iter().map(|edge| H3DirectedEdge::new(*edge)).collect()
}

/// Calls `IndexBlock::len`, the number of edges that the block was made of.
/// Nothing is said of a damaged block.
#[verifier::external_body]
pub(crate) fn block_len(block: &IndexBlock<H3DirectedEdge>) -> (n: usize)
    ensures
        block_edges(*block).len() > 0 ==> n == block_edges(*block).len(),
{
    block.len()
}

/// Calls `IndexBlock::iter_uncompressed` and collects the edges. It fails
/// only on a damaged block, which holds no edges.
#[verifier::external_body]
pub(crate) fn decompress_edges(
    block: &IndexBlock<H3DirectedEdge>,
) -> (r: Result<Vec<u64>, h3ron::Error>)
    ensures
        r matches Ok(edges) ==> edges@ == block_edges(*block),
        r is Err ==> block_edges(*block).len() == 0,
{
    block.iter_uncompressed().map(|edges| edges.map(|edge| edge.h3index()).collect())
}

/// Collects cells into an `H3Treemap`, which inserts them one by one into
/// a set of 64-bit numbers.
#[verifier::external_body]
pub(crate) fn treemap_of_cells(cells: &Vec<u64>) -> (set: H3Treemap<H3Cell>)
    ensures
        treemap_cells(set) == cells@.to_set(),
{
    cells.iter().map(|cell| H3Cell::new(*cell)).collect()
}

/// Calls `H3Treemap::is_disjoint`: whether the two sets share no cell.
#[verifier::external_body]
pub(crate) fn treemap_is_disjoint(a: &H3Treemap<H3Cell>, b: &H3Treemap<H3Cell>) -> (r: bool)
    ensures
        r == treemap_cells(*a).disjoint(treemap_cells(*b)),
{
    a.is_disjoint(b)
}

} // verus!
