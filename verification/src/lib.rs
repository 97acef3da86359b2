//! Execution core of a minimal in-process relational store.
//!
//! The crate keeps a registry of named tables, each with a fixed column
//! schema, and executes three statement kinds against it: `CREATE TABLE`,
//! `INSERT`, and `SELECT` with column projection. Raw statement text is
//! turned into typed statements by the `parser` module; execution is
//! routed through [`Execution::run`], whose behaviour is pinned down by
//! the ghost transition function [`semantics::apply_query`].
use vstd::prelude::*;

mod ast;
mod error;
mod laws;
mod parser;
mod row;
mod semantics;
mod table;
mod value;

pub use ast::CreateQuery;
pub use ast::InsertQuery;
pub use ast::QueryV;
pub use ast::SelectQuery;
pub use ast::SqlQuery;
pub use error::ErrorV;
pub use error::ParseError;
pub use error::QueryExecutionError;
pub use error::SQLError;
pub use parser::TokenV;
pub use parser::parse_multiple_queries;
pub use parser::parse_sql_query;
pub use parser::spec_parse_batch;
pub use parser::spec_parse_queries;
pub use parser::spec_parse_query;
pub use parser::spec_parse_statement;
pub use parser::spec_tokenize;
pub use row::Row;
pub use row::RowV;
pub use table::ColumnInfo;
pub use table::SelectResponse;
pub use table::StoredRow;
pub use table::TableIter;
pub use table::TableIterV;
pub use value::Column;
pub use value::ColumnV;
pub use value::SqlTypeInfo;
pub use value::Value;
pub use value::ValueV;

use crate::ast::views_of_queries;
use crate::semantics::RespV;
use crate::semantics::TableV;
use crate::semantics::TablesV;
use crate::semantics::apply_batch;
use crate::semantics::apply_query;
use crate::semantics::find_key_idx;
use crate::semantics::has_key;
use crate::semantics::key_value;
use crate::semantics::lemma_find_key_idx;
use crate::semantics::update_key;
use crate::table::Table;

verus! {

/// What a successfully executed statement hands back: for a SELECT, the
/// lazy projection to pull rows from; nothing for INSERT and CREATE.
#[derive(Debug)]
pub enum ExecResponse {
    Select(TableIter),
    Insert,
    Create,
}

/// Whether the executable outcome `r` is the outcome the model calls for.
pub open spec fn resp_matches(
    r: Result<ExecResponse, QueryExecutionError>,
    m: Result<RespV, ErrorV>,
) -> bool {
    match (r, m) {
        (Ok(ExecResponse::Select(it)), Ok(RespV::Select { columns, rows })) => it@
            == (TableIterV { rows, pos: 0, columns }),
        (Ok(ExecResponse::Insert), Ok(RespV::Insert)) => true,
        (Ok(ExecResponse::Create), Ok(RespV::Create)) => true,
        (Err(e), Err(ev)) => e@ == ev,
        _ => false,
    }
}

/// The models of the registry's name/table pairs.
pub(crate) closed spec fn views_of_tables(ts: Seq<(String, Table)>) -> TablesV {
    ts.map_values(|p: (String, Table)| (p.0@, p.1@))
}

/// The statement executor: exclusively owns the registry of named tables.
/// Created empty; tables are added only by a successful CREATE and never
/// removed.
#[derive(Debug)]
pub struct Execution {
    tables: Vec<(String, Table)>,
}

impl View for Execution {
    type V = TablesV;

    closed spec fn view(&self) -> TablesV {
        views_of_tables(self.tables@)
    }
}

impl Execution {
    /// An executor with an empty registry.
    pub fn new() -> (r: Execution)
        ensures
            r@ == Seq::<(Seq<char>, TableV)>::empty(),
    {
        let r = Execution { tables: Vec::new() };
        proof {
            assert(r@ =~= Seq::<(Seq<char>, TableV)>::empty());
        }
        r
    }

    /// Index of the registry entry for `name`, if one exists.
    fn find_table(&self, name: &String) -> (r: Option<usize>)
        ensures
            match r {
                Some(i) => has_key(self@, name@) && i as int == find_key_idx(self@, name@),
                None => !has_key(self@, name@),
            },
    {
        let n = self.tables.len();
        let mut i: usize = 0;
        while i < n
            invariant
                i <= n,
                n == self.tables.len(),
                forall|j: int| 0 <= j < i ==> self@[j].0 != name@,
            decreases n - i,
        {
            if self.tables[i].0 == *name {
                proof {
                    lemma_find_key_idx(self@, name@);
                    let entry = self.tables@[i as int];
                    assert(self@[i as int] == (entry.0@, entry.1@));
                    assert(has_key(self@, name@)) by {
                        if find_key_idx(self@, name@) == self@.len() {
                            assert(self@[i as int].0 != name@);
                        }
                    }
                }
                return Some(i);
            }
            proof {
                assert(self@[i as int] == (self.tables@[i as int].0@, self.tables@[i as int].1@));
            }
            i += 1;
        }
        proof {
            lemma_find_key_idx(self@, name@);
        }
        None
    }

    /// Routes one typed statement to the owning table's operation, exactly
    /// as the ghost transition function [`apply_query`] describes.
    pub fn run(&mut self, query: SqlQuery) -> (r: Result<ExecResponse, QueryExecutionError>)
        ensures
            final(self)@ == apply_query(old(self)@, query@).0,
            resp_matches(r, apply_query(old(self)@, query@).1),
    {
        match query {
            SqlQuery::Select(select) => {
                match self.find_table(&select.table) {
                    None => Err(QueryExecutionError::TableNotFound(select.table)),
                    Some(i) => {
                        let table = &self.tables[i].1;
                        proof {
                            let entry = self.tables@[i as int];
                            assert(self@[i as int] == (entry.0@, entry.1@));
                            assert(table@ == key_value(self@, select.table@));
                        }
                        match table.select(select.fields) {
                            Ok(it) => Ok(ExecResponse::Select(it)),
                            Err(e) => Err(e),
                        }
                    },
                }
            },
            SqlQuery::Insert(insert) => {
                match self.find_table(&insert.table) {
                    None => Err(QueryExecutionError::TableNotFound(insert.table)),
                    Some(i) => {
                        proof {
                            lemma_find_key_idx(old(self)@, insert.table@);
                            let entry = self.tables@[i as int];
                            assert(self@[i as int] == (entry.0@, entry.1@));
                        }
                        let ghost pre = self@;
                        let (name, mut table) = self.tables.remove(i);
                        proof {
                            assert(table@ == key_value(pre, insert.table@));
                            assert(name@ == insert.table@);
                        }
                        let res = table.insert(insert.values);
                        let ghost tv = table@;
                        self.tables.insert(i, (name, table));
                        proof {
                            assert(self@ =~~= pre.update(i as int, (insert.table@, tv)));
                        }
                        match res {
                            Ok(_) => {
                                proof {
                                    assert(self@ =~~= update_key(pre, insert.table@, tv));
                                }
                                Ok(ExecResponse::Insert)
                            },
                            Err(e) => {
                                proof {
                                    assert(self@ =~~= pre);
                                }
                                Err(e)
                            },
                        }
                    },
                }
            },
            SqlQuery::Create(create) => {
                let table = Table::new(create.columns);
                match self.find_table(&create.table) {
                    Some(_) => Err(QueryExecutionError::TableAlreadyExists(create.table)),
                    None => {
                        let ghost pre = self@;
                        let ghost tv = table@;
                        self.tables.push((create.table, table));
                        proof {
                            assert(self@ =~~= pre.push((create.table@, tv)));
                        }
                        Ok(ExecResponse::Create)
                    },
                }
            },
        }
    }

    /// Runs a non-empty batch of statements strictly in order, with no
    /// rollback: every statement before the first failure stays applied,
    /// a failure aborts the rest of the batch, and a fully successful
    /// batch answers with the last statement's response.
    pub fn run_batch(&mut self, queries: Vec<SqlQuery>) -> (r: Result<
        ExecResponse,
        QueryExecutionError,
    >)
        requires
            queries@.len() >= 1,
        ensures
            final(self)@ == apply_batch(old(self)@, views_of_queries(queries@)).0,
            resp_matches(r, apply_batch(old(self)@, views_of_queries(queries@)).1),
    {
        let mut qs = queries;
        let ghost qsv = views_of_queries(qs@);
        let ghost init = self@;
        while qs.len() > 1
            invariant
                qs@.len() >= 1,
                init == old(self)@,
                qsv == views_of_queries(queries@),
                apply_batch(init, qsv) == apply_batch(self@, views_of_queries(qs@)),
            decreases qs@.len(),
        {
            let ghost pre_self = self@;
            let ghost pre_qs = views_of_queries(qs@);
            let q = qs.remove(0);
            proof {
                assert(pre_qs[0] == q@);
                assert(views_of_queries(qs@) =~= pre_qs.drop_first());
            }
            let res = self.run(q);
            proof {
                assert(apply_batch(pre_self, pre_qs) == if apply_query(pre_self, pre_qs[0]).1
                    is Err {
                    apply_query(pre_self, pre_qs[0])
                } else {
                    apply_batch(apply_query(pre_self, pre_qs[0]).0, pre_qs.drop_first())
                });
            }
            match res {
                Ok(_) => {},
                Err(e) => {
                    return Err(e);
                },
            }
        }
        let ghost pre_self = self@;
        let ghost pre_qs = views_of_queries(qs@);
        let q = qs.remove(0);
        proof {
            assert(pre_qs[0] == q@);
            assert(pre_qs.len() == 1);
        }
        let res = self.run(q);
        proof {
            assert(apply_batch(pre_self, pre_qs) == apply_query(pre_self, pre_qs[0]));
        }
        res
    }
}

/// Like [`resp_matches`], for the combined error surface: an execution
/// failure must come out wrapped as `SQLError::QueryExecutionError`.
pub open spec fn sql_resp_matches(
    r: Result<ExecResponse, SQLError>,
    m: Result<RespV, ErrorV>,
) -> bool {
    match (r, m) {
        (Ok(ExecResponse::Select(it)), Ok(RespV::Select { columns, rows })) => it@
            == (TableIterV { rows, pos: 0, columns }),
        (Ok(ExecResponse::Insert), Ok(RespV::Insert)) => true,
        (Ok(ExecResponse::Create), Ok(RespV::Create)) => true,
        (Err(SQLError::QueryExecutionError(e)), Err(ev)) => e@ == ev,
        _ => false,
    }
}

impl Execution {
    /// Parses one statement and runs it: exactly what [`spec_parse_query`]
    /// says the text denotes, with [`Execution::run`]'s semantics applied
    /// to it. A parse failure comes back as `ParsingError`, carrying the
    /// offending offset, with the registry untouched.
    pub fn parse_and_run(&mut self, query: &str) -> (r: Result<ExecResponse, SQLError>)
        ensures
            (match spec_parse_query(query@) {
                Err(p) => (r matches Err(SQLError::ParsingError(e)) && e.pos as int == p)
                    && final(self)@ == old(self)@,
                Ok(q) => final(self)@ == apply_query(old(self)@, q).0 && sql_resp_matches(
                    r,
                    apply_query(old(self)@, q).1,
                ),
            }),
    {
        match parse_sql_query(query) {
            Err(e) => Err(SQLError::ParsingError(e)),
            Ok(q) => {
                match self.run(q) {
                    Ok(resp) => Ok(resp),
                    Err(e) => Err(SQLError::QueryExecutionError(e)),
                }
            },
        }
    }

    /// Parses a non-empty batch of statements — exactly what
    /// [`spec_parse_queries`] says the text denotes — and runs it as
    /// [`Execution::run_batch`] does: strictly in order, no rollback, the
    /// last statement's response on full success, the first failure
    /// wrapped. A parse failure comes back as `ParsingError`, carrying
    /// the offending offset, with the registry untouched.
    pub fn parse_multiple_and_run(&mut self, query: &str) -> (r: Result<ExecResponse, SQLError>)
        ensures
            (match spec_parse_queries(query@) {
                Err(p) => (r matches Err(SQLError::ParsingError(e)) && e.pos as int == p)
                    && final(self)@ == old(self)@,
                Ok(qs) => final(self)@ == apply_batch(old(self)@, qs).0 && sql_resp_matches(
                    r,
                    apply_batch(old(self)@, qs).1,
                ),
            }),
    {
        match parse_multiple_queries(query) {
            Err(e) => Err(SQLError::ParsingError(e)),
            Ok(queries) => {
                match self.run_batch(queries) {
                    Ok(resp) => Ok(resp),
                    Err(e) => Err(SQLError::QueryExecutionError(e)),
                }
            },
        }
    }
}

impl Default for Execution {
    /// The same empty executor [`Execution::new`] builds.
    fn default() -> (r: Execution)
        ensures
            r@ == Seq::<(Seq<char>, TableV)>::empty(),
    {
        Execution::new()
    }
}

} // verus!
