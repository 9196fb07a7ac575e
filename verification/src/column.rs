//! Columns of cells: one entry for each row, with nothing in a null row.

use vstd::prelude::*;
use crate::error::AccelError;
use crate::h3::{cell_is_valid, cell_valid};

verus! {

/// The first `n` rows of the column went through: `lists` holds nothing for
/// a null row, and for each other row what `map_fn` gave for its cell.
pub open spec fn rows_mapped<F: Fn(u64) -> Result<Vec<u64>, AccelError>>(
    cc: Seq<Option<u64>>,
    map_fn: F,
    lists: Seq<Option<Vec<u64>>>,
    n: int,
) -> bool {
    forall|i: int|
        0 <= i < n ==> match cc[i] {
            None => (#[trigger] lists[i]) is None,
            Some(cell) => cell_valid(cell) && lists[i] is Some && map_fn.ensures(
                (cell,),
                Ok(lists[i]->0),
            ),
        }
}

/// Row `i` of the column stopped the mapping with the error `e`: its
/// identifier is no cell, or `map_fn` failed on it.
pub open spec fn row_failed<F: Fn(u64) -> Result<Vec<u64>, AccelError>>(
    cc: Seq<Option<u64>>,
    map_fn: F,
    i: int,
    e: AccelError,
) -> bool {
    0 <= i < cc.len() && cc[i] is Some && if cell_valid(cc[i]->0) {
        map_fn.ensures((cc[i]->0,), Err(e))
    } else {
        e == AccelError::CellInvalid
    }
}

/// None of the first `n` rows of the column stops the mapping: each is null
/// or holds a cell for which `map_fn` can give a list.
pub open spec fn rows_passed<F: Fn(u64) -> Result<Vec<u64>, AccelError>>(
    cc: Seq<Option<u64>>,
    map_fn: F,
    n: int,
) -> bool {
    forall|i: int|
        0 <= i < n ==> ((#[trigger] cc[i]) matches Some(cell) ==> cell_valid(cell) && exists|
            list: Vec<u64>,
        |
            map_fn.ensures((cell,), Ok(list)))
}

/// Maps each cell of a column to a list of cells. A null row gives nothing.
/// The rows are taken in order, and the first row whose identifier is no
/// cell, or on which `map_fn` fails, ends the mapping with its error.
pub fn list_map_cells<F: Fn(u64) -> Result<Vec<u64>, AccelError>>(
    cc: &Vec<Option<u64>>,
    map_fn: F,
) -> (r: Result<Vec<Option<Vec<u64>>>, AccelError>)
    requires
        forall|cell: u64| #[trigger] map_fn.requires((cell,)),
    ensures
        r matches Ok(lists) ==>
            lists@.len() == cc@.len() && rows_mapped(cc@, map_fn, lists@, cc@.len() as int),
        r matches Err(e) ==>
            exists|i: int| #[trigger] row_failed(cc@, map_fn, i, e) && rows_passed(cc@, map_fn, i),
        (forall|i: int, e: AccelError| !#[trigger] row_failed(cc@, map_fn, i, e)) ==> r is Ok,
{
    let mut lists: Vec<Option<Vec<u64>>> = Vec::new();
    let mut i: usize = 0;
    while i < cc.len()
        invariant
            i <= cc@.len(),
            lists@.len() == i,
            forall|cell: u64| #[trigger] map_fn.requires((cell,)),
            rows_mapped(cc@, map_fn, lists@, i as int),
            rows_passed(cc@, map_fn, i as int),
        decreases cc@.len() - i,
    {
        let ghost before = lists@;
        match cc[i] {
            None => {
                lists.push(None);
            },
            Some(cell) => {
                if !cell_is_valid(cell) {
                    assert(row_failed(cc@, map_fn, i as int, AccelError::CellInvalid));
                    return Err(AccelError::CellInvalid);
                }
                match map_fn(cell) {
                    Ok(list) => {
                        assert(map_fn.ensures((cell,), Ok(list)));
                        lists.push(Some(list));
                    },
                    Err(e) => {
                        assert(row_failed(cc@, map_fn, i as int, e));
                        return Err(e);
                    },
                }
            },
        }
        proof {
            assert(forall|k: int| 0 <= k < i ==> lists@[k] == before[k]);
        }
        i += 1;
    }
    Ok(lists)
}

} // verus!
