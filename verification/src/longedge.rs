//! Long edges: a path of directed edges, compressed into one edge.

use vstd::prelude::*;
use vstd::pervasive::unreached;
use h3ron::collections::{H3Treemap, IndexBlock};
use h3ron::{H3Cell, H3DirectedEdge};
use crate::error::AccelError;
use crate::h3::{
    block_edges, block_len, compress_edges, decompress_edges, edge_destination,
    edge_destination_cell, edge_origin, edge_origin_cell, treemap_cells, treemap_is_disjoint,
    treemap_of_cells,
};

verus! {

/// `s` without each element that equals the element before it.
pub open spec fn dedup(s: Seq<u64>) -> Seq<u64>
    decreases s.len(),
{
    if s.len() <= 1 {
        s
    } else if s[s.len() - 1] == s[s.len() - 2] {
        dedup(s.drop_last())
    } else {
        dedup(s.drop_last()).push(s.last())
    }
}

/// No element of `s` equals the element before it.
pub open spec fn no_equal_neighbours(s: Seq<u64>) -> bool {
    forall|i: int| 0 <= i < s.len() - 1 ==> s[i] != #[trigger] s[i + 1]
}

/// The cells that a path of edges visits: the origin of its first edge, then
/// the destination of each edge. There is no such path where one of these
/// cells cannot be decoded.
pub open spec fn cell_path(edges: Seq<u64>) -> Option<Seq<u64>> {
    if edges.len() == 0 {
        Some(Seq::empty())
    } else if edge_origin_cell(edges[0]) is Some && (forall|i: int|
        0 <= i < edges.len() ==> (#[trigger] edge_destination_cell(edges[i])) is Some) {
        Some(
            Seq::new(
                edges.len() + 1,
                |i: int|
                    if i == 0 {
                        edge_origin_cell(edges[0])->0
                    } else {
                        edge_destination_cell(edges[i - 1])->0
                    },
            ),
        )
    } else {
        None
    }
}

/// Each edge of the path starts at the cell at which the edge before it ends.
pub open spec fn is_contiguous(edges: Seq<u64>) -> bool {
    forall|i: int|
        0 <= i < edges.len() - 1 ==> #[trigger] edge_destination_cell(edges[i]) == edge_origin_cell(
            edges[i + 1],
        )
}

/// Deduplicating keeps the first and the last element, and leaves no two
/// equal neighbours.
pub proof fn lemma_dedup(s: Seq<u64>)
    ensures
        dedup(s).len() <= s.len(),
        s.len() > 0 ==> dedup(s).len() > 0 && dedup(s).last() == s.last() && dedup(s)[0] == s[0],
        no_equal_neighbours(dedup(s)),
    decreases s.len(),
{
    if s.len() > 1 {
        lemma_dedup(s.drop_last());
    }
}

/// A long edge gives back what it was made of: where a long edge holds the
/// deduplicated edges of `input`, where `decompressed` is its path as
/// decompressed and `len` its number of edges, the decompressed path is the
/// deduplicated input, it visits the same cells, and `len` is its length.
pub proof fn lemma_long_edge_round_trip(
    input: Seq<u64>,
    long_edge: LongEdge,
    decompressed: Seq<u64>,
    len: nat,
)
    requires
        long_edge.wf(),
        long_edge.edges() == dedup(input),
        decompressed == long_edge.edges(),
        len == long_edge.edges().len(),
    ensures
        decompressed == dedup(input),
        len == decompressed.len(),
        cell_path(decompressed) == cell_path(dedup(input)),
        cell_path(decompressed) is Some,
        long_edge.cells() == cell_path(decompressed)->0.to_set(),
        no_equal_neighbours(decompressed),
{
}

/// A cell lies on the path of a long edge exactly if it is the origin of
/// the first edge or the destination of one of the edges.
pub proof fn lemma_long_edge_cells(long_edge: LongEdge, cell: u64)
    requires
        long_edge.wf(),
    ensures
        long_edge.cells().contains(cell) <==> (edge_origin_cell(long_edge.edges()[0]) == Some(cell)
            || exists|i: int| 0 <= i < long_edge.edges().len()
                && #[trigger] edge_destination_cell(long_edge.edges()[i]) == Some(cell)),
{
    let edges = long_edge.edges();
    let path = cell_path(edges)->0;
    if long_edge.cells().contains(cell) {
        let k = choose|k: int| 0 <= k < path.len() && path[k] == cell;
        if k > 0 {
            assert(edge_destination_cell(edges[k - 1]) == Some(cell));
        }
    }
    if edge_origin_cell(edges[0]) == Some(cell) {
        assert(path[0] == cell);
    }
    if exists|i: int| 0 <= i < edges.len()
        && #[trigger] edge_destination_cell(edges[i]) == Some(cell) {
        let i = choose|i: int| 0 <= i < edges.len()
            && #[trigger] edge_destination_cell(edges[i]) == Some(cell);
        assert(path[i + 1] == cell);
    }
}

/// Removes each element that equals the element before it.
pub fn dedup_consecutive(v: &Vec<u64>) -> (out: Vec<u64>)
    ensures
        out@ == dedup(v@),
{
    let mut out: Vec<u64> = Vec::new();
    let mut i: usize = 0;
    while i < v.len()
        invariant
            i <= v.len(),
            out@ == dedup(v@.take(i as int)),
        decreases v.len() - i,
    {
        proof {
            assert(v@.take(i + 1).drop_last() == v@.take(i as int));
        }
        if i == 0 || v[i] != v[i - 1] {
            out.push(v[i]);
        }
        i += 1;
    }
    proof {
        assert(v@.take(v.len() as int) == v@);
    }
    out
}

/// The cells that a path of edges visits: the origin of the first edge,
/// then the destination of every edge. Fails where a cell cannot be decoded.
pub fn h3edge_path_to_h3cell_path(h3edge_path: &Vec<u64>) -> (r: Result<Vec<u64>, AccelError>)
    ensures
        cell_path(h3edge_path@) matches Some(cells) ==> (r matches Ok(v) && v@ == cells),
        cell_path(h3edge_path@) is None ==> r matches Err(AccelError::EdgeEndpointInvalid),
{
    let mut out_vec: Vec<u64> = Vec::new();
    if h3edge_path.len() == 0 {
        assert(out_vec@ == Seq::<u64>::empty());
        return Ok(out_vec);
    }
    match edge_origin(h3edge_path[0]) {
        Ok(cell) => out_vec.push(cell),
        Err(_) => {
            return Err(AccelError::EdgeEndpointInvalid);
        },
    }
    let ghost edges = h3edge_path@;
    let mut i: usize = 0;
    while i < h3edge_path.len()
        invariant
            i <= h3edge_path.len(),
            edges == h3edge_path@,
            edges.len() > 0,
            edge_origin_cell(edges[0]) is Some,
            out_vec.len() == i + 1,
            out_vec[0] == edge_origin_cell(edges[0])->0,
            forall|k: int| 0 <= k < i ==> (#[trigger] edge_destination_cell(edges[k])) is Some,
            forall|k: int| 1 <= k <= i ==>
                #[trigger] out_vec[k] == edge_destination_cell(edges[k - 1])->0,
        decreases h3edge_path.len() - i,
    {
        match edge_destination(h3edge_path[i]) {
            Ok(cell) => out_vec.push(cell),
            Err(_) => {
                assert(edge_destination_cell(edges[i as int]) is None);
                return Err(AccelError::EdgeEndpointInvalid);
            },
        }
        i += 1;
    }
    proof {
        assert(out_vec@ =~= cell_path(edges)->0);
    }
    Ok(out_vec)
}

/// A path of directed edges that follow one another, held as one edge.
///
/// A long edge stands for at least two edges. It keeps its first and its
/// last edge, the whole path in compressed form, and the set of the cells
/// that the path visits.
pub struct LongEdge {
    in_edge: u64,
    out_edge: u64,
    edge_path: IndexBlock<H3DirectedEdge>,
    cell_lookup: H3Treemap<H3Cell>,
}

impl LongEdge {
    /// The edges of the path, in order.
    pub closed spec fn edges(&self) -> Seq<u64> {
        block_edges(self.edge_path)
    }

    /// The cells that the path visits.
    pub closed spec fn cells(&self) -> Set<u64> {
        treemap_cells(self.cell_lookup)
    }

    /// What holds of every long edge.
    pub open spec fn wf(&self) -> bool {
        &&& self.edges().len() >= 2
        &&& no_equal_neighbours(self.edges())
        &&& cell_path(self.edges()) is Some
        &&& self.cells() == cell_path(self.edges())->0.to_set()
    }

    #[verifier::type_invariant]
    spec fn inv(&self) -> bool {
        &&& self.wf()
        &&& self.in_edge == self.edges()[0]
        &&& self.out_edge == self.edges().last()
    }

    /// Builds a long edge from the edges of a path, given in the order of
    /// the path. Edges that repeat the edge before them are dropped first;
    /// at least two edges must be left.
    pub fn try_from(h3edges: Vec<u64>) -> (r: Result<LongEdge, AccelError>)
        ensures
            dedup(h3edges@).len() < 2 ==> r matches Err(AccelError::InsufficientNumberOfEdges),
            dedup(h3edges@).len() >= 2 && cell_path(dedup(h3edges@)) is None ==> r matches Err(
                AccelError::EdgeEndpointInvalid,
            ),
            dedup(h3edges@).len() >= 2 && cell_path(dedup(h3edges@)) is Some ==> (r matches Ok(
                long_edge,
            ) && long_edge.wf() && long_edge.edges() == dedup(h3edges@)),
    {
        proof {
            lemma_dedup(h3edges@);
        }
        let h3edges = dedup_consecutive(&h3edges);
        if h3edges.len() >= 2 {
            let cells = match h3edge_path_to_h3cell_path(&h3edges) {
                Ok(cells) => cells,
                Err(e) => {
                    return Err(e);
                },
            };
            let cell_lookup = treemap_of_cells(&cells);
            let in_edge = h3edges[0];
            let out_edge = h3edges[h3edges.len() - 1];
            let edge_path = compress_edges(&h3edges);
            Ok(LongEdge { in_edge, out_edge, edge_path, cell_lookup })
        } else {
            Err(AccelError::InsufficientNumberOfEdges)
        }
    }

    /// The first edge of the path.
    pub fn in_edge(&self) -> (edge: u64)
        ensures
            edge == self.edges()[0],
    {
        proof {
            use_type_invariant(self);
        }
        self.in_edge
    }

    /// The last edge of the path.
    pub fn out_edge(&self) -> (edge: u64)
        ensures
            edge == self.edges().last(),
    {
        proof {
            use_type_invariant(self);
        }
        self.out_edge
    }

    /// The cell at which the path ends.
    pub fn destination_cell(&self) -> (r: Result<u64, AccelError>)
        ensures
            self.wf(),
            r matches Ok(cell) && Some(cell) == edge_destination_cell(self.edges().last()),
    {
        proof {
            use_type_invariant(self);
        }
        match edge_destination(self.out_edge) {
            Ok(cell) => Ok(cell),
            Err(_) => {
                assert(edge_destination_cell(self.edges()[self.edges().len() - 1]) is Some);
                unreached()
            },
        }
    }

    /// The cell at which the path starts.
    pub fn origin_cell(&self) -> (r: Result<u64, AccelError>)
        ensures
            self.wf(),
            r matches Ok(cell) && Some(cell) == edge_origin_cell(self.edges()[0]),
    {
        proof {
            use_type_invariant(self);
        }
        match edge_origin(self.in_edge) {
            Ok(cell) => Ok(cell),
            Err(_) => unreached(),
        }
    }

    /// Whether the path visits none of the cells of `celltreemap`.
    pub fn is_disjoint(&self, celltreemap: &H3Treemap<H3Cell>) -> (r: bool)
        ensures
            self.wf(),
            r == self.cells().disjoint(treemap_cells(*celltreemap)),
    {
        proof {
            use_type_invariant(self);
        }
        treemap_is_disjoint(&self.cell_lookup, celltreemap)
    }

    /// The number of edges of the path.
    pub fn h3edges_len(&self) -> (n: usize)
        ensures
            self.wf(),
            n == self.edges().len(),
    {
        proof {
            use_type_invariant(self);
        }
        block_len(&self.edge_path)
    }

    /// The edges of the path, in order.
    pub fn h3edge_path(&self) -> (r: Result<Vec<u64>, AccelError>)
        ensures
            self.wf(),
            r matches Ok(edges) && edges@ == self.edges(),
    {
        proof {
            use_type_invariant(self);
        }
        match decompress_edges(&self.edge_path) {
            Ok(edges) => Ok(edges),
            Err(_) => unreached(),
        }
    }

    /// The path as a line: the cells through whose centres the line runs,
    /// in order. Fails where the edges do not follow one another, so that
    /// they give more than one line.
    pub fn to_linestring(&self) -> (r: Result<Vec<u64>, AccelError>)
        ensures
            self.wf(),
            is_contiguous(self.edges()) ==> (r matches Ok(cells) && Some(cells@) == cell_path(
                self.edges(),
            )),
            !is_contiguous(self.edges()) ==> r matches Err(AccelError::SegmentedPath),
    {
        proof {
            use_type_invariant(self);
        }
        let edges = match decompress_edges(&self.edge_path) {
            Ok(edges) => edges,
            Err(_) => unreached(),
        };
        let mut i: usize = 1;
        while i < edges.len()
            invariant
                1 <= i <= edges.len(),
                self.wf(),
                edges@ == self.edges(),
                cell_path(edges@) is Some,
                forall|k: int| 0 <= k < i - 1 ==>
                    #[trigger] edge_destination_cell(edges[k]) == edge_origin_cell(edges[k + 1]),
            decreases edges.len() - i,
        {
            assert(edge_destination_cell(edges[i - 1]) is Some);
            assert(edge_destination_cell(edges[i as int]) is Some);
            let end = match edge_destination(edges[i - 1]) {
                Ok(cell) => cell,
                Err(_) => unreached(),
            };
            let next = match edge_destination(edges[i]) {
                Ok(_) => match edge_origin(edges[i]) {
                    Ok(cell) => cell,
                    Err(_) => unreached(),
                },
                Err(_) => unreached(),
            };
            if end != next {
                assert(edge_destination_cell(edges[i - 1]) != edge_origin_cell(edges[i - 1 + 1]));
                return Err(AccelError::SegmentedPath);
            }
            i += 1;
        }
        match h3edge_path_to_h3cell_path(&edges) {
            Ok(cells) => Ok(cells),
            Err(_) => unreached(),
        }
    }
}

} // verus!
