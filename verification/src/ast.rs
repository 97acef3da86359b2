//! Typed statements, the form in which the registry receives work.
use vstd::prelude::*;
use crate::value::Column;
use crate::value::ColumnV;
use crate::value::Value;
use crate::value::ValueV;
use crate::value::views_of_columns;
use crate::value::views_of_names;
use crate::value::views_of_values;

verus! {

/// A `SELECT fields FROM table` statement.
#[derive(Debug)]
pub struct SelectQuery {
    pub table: String,
    pub fields: Vec<String>,
}

/// An `INSERT INTO table VALUES (..)` statement.
#[derive(Debug)]
pub struct InsertQuery {
    pub table: String,
    pub values: Vec<Value>,
}

/// A `CREATE TABLE table (..)` statement.
#[derive(Debug)]
pub struct CreateQuery {
    pub table: String,
    pub columns: Vec<Column>,
}

/// One parsed statement of any of the three kinds.
#[derive(Debug)]
pub enum SqlQuery {
    Select(SelectQuery),
    Insert(InsertQuery),
    Create(CreateQuery),
}

/// Mathematical model of a [`SqlQuery`].
#[verifier::ext_equal]
pub enum QueryV {
    Select { table: Seq<char>, fields: Seq<Seq<char>> },
    Insert { table: Seq<char>, values: Seq<ValueV> },
    Create { table: Seq<char>, columns: Seq<ColumnV> },
}

impl View for SqlQuery {
    type V = QueryV;

    open spec fn view(&self) -> QueryV {
        match self {
            SqlQuery::Select(q) => QueryV::Select {
                table: q.table@,
                fields: views_of_names(q.fields@),
            },
            SqlQuery::Insert(q) => QueryV::Insert {
                table: q.table@,
                values: views_of_values(q.values@),
            },
            SqlQuery::Create(q) => QueryV::Create {
                table: q.table@,
                columns: views_of_columns(q.columns@),
            },
        }
    }
}

/// The models of a sequence of statements.
pub open spec fn views_of_queries(qs: Seq<SqlQuery>) -> Seq<QueryV> {
    qs.map_values(|q: SqlQuery| q@)
}

} // verus!
