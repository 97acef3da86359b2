//! Read-only row views produced while iterating a SELECT's projection.
use std::rc::Rc;

use vstd::prelude::*;
use crate::error::ErrorV;
use crate::error::QueryExecutionError;
use crate::semantics::CellsV;
use crate::semantics::find_key_idx;
use crate::semantics::has_key;
use crate::semantics::key_value;
use crate::semantics::lemma_find_key_idx;
use crate::table::ColumnInfo;
use crate::table::views_of_cells;
use crate::value::ColumnV;
use crate::value::Value;

verus! {

/// Mathematical model of a [`Row`] view: the row's id, the projected
/// schema it was produced under, and the cells it exposes.
#[verifier::ext_equal]
pub struct RowV {
    pub id: int,
    pub columns: Seq<ColumnV>,
    pub cells: CellsV,
}

/// A transient, read-only view of one stored row, exposing only the
/// projected column subset. It carries the row id and a handle to the
/// projected schema shared by every view of the same projection.
#[derive(Debug)]
pub struct Row {
    id: usize,
    columns: Rc<ColumnInfo>,
    data: Vec<(String, Value)>,
}

impl View for Row {
    type V = RowV;

    closed spec fn view(&self) -> RowV {
        RowV { id: self.id as int, columns: self.columns@, cells: views_of_cells(self.data@) }
    }
}

impl Row {
    pub fn new(columns: Rc<ColumnInfo>, id: usize, data: Vec<(String, Value)>) -> (r: Row)
        ensures
            r@ == (RowV { id: id as int, columns: columns@, cells: views_of_cells(data@) }),
    {
        Row { id, columns, data }
    }

    /// The projected schema this view was produced under.
    pub fn columns(&self) -> (r: &ColumnInfo)
        ensures
            r@ == self@.columns,
    {
        &self.columns
    }

    /// The id of the stored row this view exposes.
    pub fn id(&self) -> (r: usize)
        ensures
            r as int == self@.id,
    {
        self.id
    }

    /// A copy of the cell under `column`. The column must be present in
    /// this view: asking for an absent one is the trusted-caller shortcut
    /// and does not return.
    pub fn get(&self, column: &String) -> (v: Value)
        requires
            has_key(self@.cells, column@),
        ensures
            v@ == key_value(self@.cells, column@),
    {
        self.try_get(column).unwrap()
    }

    /// A copy of the cell under `column`, or `ColumnDoesNotExist` if this
    /// view exposes no such column.
    pub fn try_get(&self, column: &String) -> (r: Result<Value, QueryExecutionError>)
        ensures
            has_key(self@.cells, column@) ==> r is Ok && r->Ok_0@ == key_value(
                self@.cells,
                column@,
            ),
            !has_key(self@.cells, column@) ==> (r matches Err(e) && e@
                == ErrorV::ColumnDoesNotExist(column@)),
    {
        proof {
            lemma_find_key_idx(self@.cells, column@);
        }
        let n = self.data.len();
        let mut i: usize = 0;
        while i < n
            invariant
                i <= n,
                n == self.data.len(),
                forall|j: int| 0 <= j < i ==> self@.cells[j].0 != column@,
            decreases n - i,
        {
            let cell = &self.data[i];
            if cell.0 == *column {
                proof {
                    lemma_find_key_idx(self@.cells, column@);
                    assert(self@.cells[i as int] == (cell.0@, cell.1@));
                    assert(has_key(self@.cells, column@)) by {
                        if find_key_idx(self@.cells, column@) == self@.cells.len() {
                            assert(self@.cells[i as int].0 != column@);
                        }
                    }
                }
                return Ok(cell.1.clone());
            }
            proof {
                assert(self@.cells[i as int] == (cell.0@, cell.1@));
            }
            i += 1;
        }
        Err(QueryExecutionError::ColumnDoesNotExist(column.clone()))
    }
}

} // verus!
