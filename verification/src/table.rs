//! Tables: a fixed column schema plus an ordered row store.
use std::rc::Rc;

use vstd::prelude::*;
use crate::error::ErrorV;
use crate::error::QueryExecutionError;
use crate::row::Row;
use crate::row::RowV;
use crate::semantics::CellsV;
use crate::semantics::TableV;
use crate::semantics::find_col_idx;
use crate::semantics::has_col;
use crate::semantics::lemma_find_col_idx;
use crate::semantics::lemma_select_cols_prefix;
use crate::semantics::lemma_typed_row_prefix;
use crate::semantics::project_row;
use crate::semantics::select_cols;
use crate::semantics::typed_row;
use crate::value::Column;
use crate::value::ColumnV;
use crate::value::Value;
use crate::value::ValueV;
use crate::value::value_has_type;
use crate::value::value_matches_type;
use crate::value::views_of_columns;
use crate::value::views_of_names;
use crate::value::views_of_values;

verus! {

/// An ordered, immutable list of columns: a table's schema, or the
/// projected schema a SELECT requested.
#[derive(Debug)]
pub struct ColumnInfo {
    columns: Vec<Column>,
}

impl View for ColumnInfo {
    type V = Seq<ColumnV>;

    closed spec fn view(&self) -> Seq<ColumnV> {
        views_of_columns(self.columns@)
    }
}

impl ColumnInfo {
    /// Wraps a column list as a schema, keeping its order.
    pub fn new(columns: Vec<Column>) -> (r: ColumnInfo)
        ensures
            r@ == views_of_columns(columns@),
    {
        ColumnInfo { columns }
    }

    /// The columns of this schema, in order.
    pub fn iter(&self) -> (r: &Vec<Column>)
        ensures
            views_of_columns(r@) == self@,
    {
        &self.columns
    }

    /// Linear scan for the first column named `column_name`.
    pub fn find_column(&self, column_name: &String) -> (r: Result<
        &Column,
        QueryExecutionError,
    >)
        ensures
            has_col(self@, column_name@) ==> r is Ok && r->Ok_0@ == self@[find_col_idx(
                self@,
                column_name@,
            )],
            !has_col(self@, column_name@) ==> (r matches Err(e) && e@
                == ErrorV::ColumnDoesNotExist(column_name@)),
    {
        proof {
            lemma_find_col_idx(self@, column_name@);
        }
        let n = self.columns.len();
        let mut i: usize = 0;
        while i < n
            invariant
                i <= n,
                n == self.columns.len(),
                forall|j: int| 0 <= j < i ==> self@[j].name != column_name@,
            decreases n - i,
        {
            if self.columns[i].name == *column_name {
                proof {
                    lemma_find_col_idx(self@, column_name@);
                    assert(self@[i as int] == self.columns@[i as int]@);
                    assert(has_col(self@, column_name@)) by {
                        if find_col_idx(self@, column_name@) == self@.len() {
                            assert(self@[i as int].name != column_name@);
                        }
                    }
                }
                return Ok(&self.columns[i]);
            }
            i += 1;
        }
        Err(QueryExecutionError::ColumnDoesNotExist(column_name.clone()))
    }
}

impl Clone for ColumnInfo {
    fn clone(&self) -> (r: ColumnInfo)
        ensures
            r@ == self@,
    {
        let n = self.columns.len();
        let mut columns: Vec<Column> = Vec::new();
        let mut i: usize = 0;
        while i < n
            invariant
                i <= n,
                n == self.columns.len(),
                columns@.len() == i,
                forall|j: int| 0 <= j < i ==> columns@[j]@ == self.columns@[j]@,
            decreases n - i,
        {
            columns.push(self.columns[i].clone());
            i += 1;
        }
        let r = ColumnInfo { columns };
        proof {
            assert(r@ =~= self@);
        }
        r
    }
}

/// The models of a sequence of cells.
pub open spec fn views_of_cells(cs: Seq<(String, Value)>) -> CellsV {
    cs.map_values(|p: (String, Value)| (p.0@, p.1@))
}

/// One persisted row: its cells as column-name/value pairs, in the order
/// the insert paired them with the schema.
#[derive(Debug)]
pub struct StoredRow {
    pub(crate) data: Vec<(String, Value)>,
}

impl View for StoredRow {
    type V = CellsV;

    closed spec fn view(&self) -> CellsV {
        views_of_cells(self.data@)
    }
}

impl Clone for StoredRow {
    fn clone(&self) -> (r: StoredRow)
        ensures
            r@ == self@,
    {
        let n = self.data.len();
        let mut data: Vec<(String, Value)> = Vec::new();
        let mut i: usize = 0;
        while i < n
            invariant
                i <= n,
                n == self.data.len(),
                data@.len() == i,
                forall|j: int| 0 <= j < i ==> data@[j].0@ == self.data@[j].0@ && data@[j].1@
                    == self.data@[j].1@,
            decreases n - i,
        {
            let cell = &self.data[i];
            data.push((cell.0.clone(), cell.1.clone()));
            i += 1;
        }
        let r = StoredRow { data };
        proof {
            assert(r@ =~= self@);
        }
        r
    }
}

/// Relies on std's `Rc::clone`: the returned handle refers to the same
/// shared schema value; nothing is copied.
#[verifier::external_body]
pub(crate) fn share_columns(columns: &Rc<ColumnInfo>) -> (r: Rc<ColumnInfo>)
    ensures
        r == *columns,
{
    Rc::clone(columns)
}

/// The models of a sequence of stored rows.
pub open spec fn views_of_rows(rs: Seq<StoredRow>) -> Seq<CellsV> {
    rs.map_values(|r: StoredRow| r@)
}

/// A named table's state: a fixed schema and the rows inserted so far,
/// in insertion order. The row stored at position `i` has row id `i`:
/// ids start at zero, each successful insert takes the next one, and no
/// row is ever removed.
#[derive(Debug)]
pub(crate) struct Table {
    rows: Vec<StoredRow>,
    columns: ColumnInfo,
}

impl View for Table {
    type V = TableV;

    closed spec fn view(&self) -> TableV {
        TableV { columns: self.columns@, rows: views_of_rows(self.rows@) }
    }
}

impl Table {
    /// An empty table with the given schema. Column names are taken as the
    /// caller supplies them; uniqueness is the caller's concern.
    pub fn new(columns: Vec<Column>) -> (t: Table)
        ensures
            t@ == (TableV { columns: views_of_columns(columns@), rows: Seq::empty() }),
    {
        let t = Table { rows: Vec::new(), columns: ColumnInfo::new(columns) };
        proof {
            assert(t@.rows =~= Seq::<CellsV>::empty());
            assert(t@ =~= (TableV { columns: views_of_columns(columns@), rows: Seq::empty() }));
        }
        t
    }

    /// Type-checked insertion. Values are paired positionally with the
    /// schema, stopping at the shorter side; the first tag mismatch aborts
    /// the whole insert with nothing stored; on success the row is stored
    /// under the next row id.
    pub fn insert(&mut self, values: Vec<Value>) -> (r: Result<(), QueryExecutionError>)
        ensures
            (match typed_row(old(self)@.columns, views_of_values(values@)) {
                Ok(row) => r is Ok && final(self)@ == (TableV {
                    columns: old(self)@.columns,
                    rows: old(self)@.rows.push(row),
                }),
                Err(tv) => (r matches Err(e) && e@ == ErrorV::InsertTypeMismatch(tv.0, tv.1))
                    && final(self)@ == old(self)@,
            }),
    {
        let ghost colsv = self@.columns;
        let ghost valsv = views_of_values(values@);
        let ncols = self.columns.iter().len();
        let n: usize = if values.len() < ncols {
            values.len()
        } else {
            ncols
        };
        let mut data: Vec<(String, Value)> = Vec::new();
        let mut i: usize = 0;
        while i < n
            invariant
                i <= n,
                *self == *old(self),
                colsv == self@.columns,
                valsv == views_of_values(values@),
                n as int == vstd::math::min(colsv.len() as int, valsv.len() as int),
                data@.len() == i,
                forall|j: int| 0 <= j < i ==> value_has_type(valsv[j], colsv[j].type_info),
                forall|j: int| 0 <= j < i ==> (#[trigger] views_of_cells(data@)[j]) == (
                    colsv[j].name,
                    valsv[j],
                ),
            decreases n - i,
        {
            let column = &self.columns.columns[i];
            let value = &values[i];
            proof {
                assert(colsv[i as int] == self.columns.columns@[i as int]@);
                assert(valsv[i as int] == values@[i as int]@);
            }
            if !value_matches_type(value, column.type_info) {
                proof {
                    lemma_typed_row_prefix(colsv, valsv, i as int);
                }
                return Err(
                    QueryExecutionError::InsertTypeMismatch(column.type_info, value.clone()),
                );
            }
            let ghost prev = data@;
            data.push((column.name.clone(), value.clone()));
            proof {
                assert forall|j: int| 0 <= j < i + 1 implies (#[trigger] views_of_cells(
                    data@,
                )[j]) == (colsv[j].name, valsv[j]) by {
                    assert(data@[j] == prev.push(data@[i as int])[j]);
                    if j < i {
                        assert(views_of_cells(data@)[j] == views_of_cells(prev)[j]);
                    } else {
                        assert(data@[j].0@ == colsv[i as int].name);
                        assert(data@[j].1@ == valsv[i as int]);
                    }
                }
            }
            i += 1;
        }
        proof {
            lemma_typed_row_prefix(colsv, valsv, n as int);
            assert(views_of_cells(data@) =~~= Seq::new(
                n as nat,
                |j: int| (colsv[j].name, valsv[j]),
            ));
        }
        let row = StoredRow { data };
        self.rows.push(row);
        proof {
            assert(self@ =~~= (TableV {
                columns: old(self)@.columns,
                rows: old(self)@.rows.push(typed_row(colsv, valsv)->Ok_0),
            }));
        }
        Ok(())
    }

    /// Resolves the requested column names, in the caller's order, and on
    /// success returns a lazy projection over the whole row store. The
    /// first unresolved name fails the call with nothing produced.
    pub fn select(&self, columns: Vec<String>) -> (r: Result<TableIter, QueryExecutionError>)
        ensures
            (match select_cols(self@.columns, views_of_names(columns@)) {
                Ok(pcols) => r is Ok && r->Ok_0@ == (TableIterV {
                    rows: self@.rows,
                    pos: 0,
                    columns: pcols,
                }),
                Err(f) => r matches Err(e) && e@ == ErrorV::ColumnDoesNotExist(f),
            }),
    {
        let nf = columns.len();
        let mut selected: Vec<Column> = Vec::new();
        let mut i: usize = 0;
        while i < nf
            invariant
                i <= nf,
                nf == columns.len(),
                selected@.len() == i,
                forall|j: int| 0 <= j < i ==> has_col(self@.columns, views_of_names(columns@)[j]),
                forall|j: int| 0 <= j < i ==> selected@[j]@ == self@.columns[find_col_idx(
                    self@.columns,
                    views_of_names(columns@)[j],
                )],
            decreases nf - i,
        {
            proof {
                assert(views_of_names(columns@)[i as int] == columns@[i as int]@);
            }
            match self.columns.find_column(&columns[i]) {
                Ok(column) => {
                    selected.push(column.clone());
                },
                Err(e) => {
                    proof {
                        lemma_select_cols_prefix(
                            self@.columns,
                            views_of_names(columns@),
                            i as int,
                        );
                    }
                    return Err(e);
                },
            }
            i += 1;
        }
        proof {
            lemma_select_cols_prefix(self@.columns, views_of_names(columns@), nf as int);
            assert(views_of_columns(selected@) =~~= select_cols(
                self@.columns,
                views_of_names(columns@),
            )->Ok_0);
        }
        let column_info = Rc::new(ColumnInfo::new(selected));
        Ok(TableIter::new(self.clone_rows(), column_info))
    }

    /// A projection over the full schema, walking every stored row: what
    /// iterating the table directly yields.
    pub fn iter(&self) -> (r: TableIter)
        ensures
            r@ == (TableIterV { rows: self@.rows, pos: 0, columns: self@.columns }),
    {
        let column_info = Rc::new(self.columns.clone());
        TableIter::new(self.clone_rows(), column_info)
    }

    /// An owned copy of the row store, for a projection to walk.
    fn clone_rows(&self) -> (r: Vec<StoredRow>)
        ensures
            views_of_rows(r@) == self@.rows,
    {
        let n = self.rows.len();
        let mut rows: Vec<StoredRow> = Vec::new();
        let mut i: usize = 0;
        while i < n
            invariant
                i <= n,
                n == self.rows.len(),
                rows@.len() == i,
                forall|j: int| 0 <= j < i ==> rows@[j]@ == self.rows@[j]@,
            decreases n - i,
        {
            rows.push(self.rows[i].clone());
            i += 1;
        }
        proof {
            assert(views_of_rows(rows@) =~= self@.rows);
        }
        rows
    }
}

/// The projected schema and row walk a successful SELECT hands back.
#[derive(Debug)]
pub struct SelectResponse {
    pub column_info: Rc<ColumnInfo>,
    pub rows: TableIter,
}

/// Mathematical model of a [`TableIter`]: the rows it walks, how far it
/// has come, and the projected schema it applies to each row.
#[verifier::ext_equal]
pub struct TableIterV {
    pub rows: Seq<CellsV>,
    pub pos: int,
    pub columns: Seq<ColumnV>,
}

/// A lazy, finite, non-restartable walk over a table's rows, yielding one
/// read-only [`Row`] view per stored row. All views it produces share one
/// schema handle, captured when the projection was built.
#[derive(Debug)]
pub struct TableIter {
    rows: Vec<StoredRow>,
    pos: usize,
    pub columns: Rc<ColumnInfo>,
}

impl View for TableIter {
    type V = TableIterV;

    closed spec fn view(&self) -> TableIterV {
        TableIterV {
            rows: views_of_rows(self.rows@),
            pos: self.pos as int,
            columns: self.columns@,
        }
    }
}

impl TableIter {
    pub(crate) fn new(rows: Vec<StoredRow>, columns: Rc<ColumnInfo>) -> (r: TableIter)
        ensures
            r@ == (TableIterV { rows: views_of_rows(rows@), pos: 0, columns: columns@ }),
    {
        TableIter { rows, pos: 0, columns }
    }

    /// The next row view, or `None` once every row at the projection's
    /// creation has been yielded. Each yielded view carries the row's id,
    /// the shared projected schema, and exactly those cells of the stored
    /// row whose name resolves against that schema.
    pub fn next(&mut self) -> (r: Option<Row>)
        ensures
            old(self)@.pos >= old(self)@.rows.len() ==> r is None && *final(self) == *old(self),
            old(self)@.pos < old(self)@.rows.len() ==> {
                &&& final(self)@ == (TableIterV {
                    rows: old(self)@.rows,
                    pos: old(self)@.pos + 1,
                    columns: old(self)@.columns,
                })
                &&& r matches Some(row) && row@ == (RowV {
                    id: old(self)@.pos,
                    columns: old(self)@.columns,
                    cells: project_row(old(self)@.rows[old(self)@.pos], old(self)@.columns),
                })
            },
    {
        if self.pos >= self.rows.len() {
            return None;
        }
        let stored = self.rows[self.pos].clone();
        let ghost storedv = old(self)@.rows[old(self)@.pos];
        let ghost colsv = old(self)@.columns;
        let n = stored.data.len();
        let mut data: Vec<(String, Value)> = Vec::new();
        let mut i: usize = 0;
        proof {
            assert(stored@.skip(0) =~= stored@);
            assert(views_of_cells(data@) + project_row(stored@, colsv) =~= project_row(
                stored@,
                colsv,
            ));
        }
        while i < n
            invariant
                i <= n,
                *self == *old(self),
                stored@ == storedv,
                colsv == self@.columns,
                n == stored.data.len(),
                views_of_cells(data@) + project_row(stored@.skip(i as int), colsv)
                    == project_row(stored@, colsv),
            decreases n - i,
        {
            let ghost prev = data@;
            let cell = &stored.data[i];
            proof {
                assert(stored@[i as int] == (cell.0@, cell.1@));
                assert(stored@.skip(i as int)[0] == stored@[i as int]);
                assert(stored@.skip(i as int).drop_first() =~= stored@.skip(i as int + 1));
                assert(stored@.skip(i as int).len() == n - i);
            }
            let keep = match self.columns.find_column(&cell.0) {
                Ok(_) => true,
                Err(_) => false,
            };
            proof {
                assert(keep == has_col(colsv, stored@[i as int].0));
                if keep {
                    assert(project_row(stored@.skip(i as int), colsv) == seq![
                        stored@[i as int],
                    ] + project_row(stored@.skip(i as int + 1), colsv));
                } else {
                    assert(project_row(stored@.skip(i as int), colsv) == project_row(
                        stored@.skip(i as int + 1),
                        colsv,
                    ));
                }
            }
            if keep {
                data.push((cell.0.clone(), cell.1.clone()));
                proof {
                    assert(views_of_cells(data@) =~= views_of_cells(prev).push(
                        stored@[i as int],
                    ));
                    assert(views_of_cells(data@) + project_row(
                        stored@.skip(i as int + 1),
                        colsv,
                    ) =~= project_row(stored@, colsv));
                }
            }
            i += 1;
        }
        proof {
            assert(stored@.skip(n as int) =~= Seq::<(Seq<char>, ValueV)>::empty());
            assert(project_row(stored@.skip(n as int), colsv) == Seq::<
                (Seq<char>, ValueV),
            >::empty());
            assert(views_of_cells(data@) + project_row(stored@.skip(n as int), colsv)
                =~= views_of_cells(data@));
            assert(views_of_cells(data@) == project_row(storedv, colsv));
        }
        let columns = share_columns(&self.columns);
        let id = self.pos;
        self.pos = self.pos + 1;
        Some(Row::new(columns, id, data))
    }
}

} // verus!
