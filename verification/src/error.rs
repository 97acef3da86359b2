//! The error taxonomy of the execution core.
use vstd::prelude::*;
use crate::value::SqlTypeInfo;
use crate::value::Value;
use crate::value::ValueV;

verus! {

/// An error raised while executing a statement against the registry.
#[derive(Debug, PartialEq)]
pub enum QueryExecutionError {
    /// SELECT or INSERT referenced a table name that is not registered.
    TableNotFound(String),
    /// CREATE referenced a table name that is already registered.
    TableAlreadyExists(String),
    /// SELECT requested, or a row view was asked for, a column absent from
    /// the relevant schema.
    ColumnDoesNotExist(String),
    /// A value's type tag did not match its column's declared type.
    InsertTypeMismatch(SqlTypeInfo, Value),
}

/// Mathematical model of a [`QueryExecutionError`].
#[verifier::ext_equal]
pub enum ErrorV {
    TableNotFound(Seq<char>),
    TableAlreadyExists(Seq<char>),
    ColumnDoesNotExist(Seq<char>),
    InsertTypeMismatch(SqlTypeInfo, ValueV),
}

impl View for QueryExecutionError {
    type V = ErrorV;

    open spec fn view(&self) -> ErrorV {
        match self {
            QueryExecutionError::TableNotFound(n) => ErrorV::TableNotFound(n@),
            QueryExecutionError::TableAlreadyExists(n) => ErrorV::TableAlreadyExists(n@),
            QueryExecutionError::ColumnDoesNotExist(n) => ErrorV::ColumnDoesNotExist(n@),
            QueryExecutionError::InsertTypeMismatch(t, v) => ErrorV::InsertTypeMismatch(
                *t,
                v@,
            ),
        }
    }
}

/// A failure to turn statement text into a statement, with the character
/// offset at which the input stopped making sense.
#[derive(Debug, Clone, Copy, PartialEq, Eq, Structural)]
pub struct ParseError {
    /// Character offset into the input at which the error was detected.
    pub pos: usize,
}

/// Either kind of failure a combined parse-and-execute call can produce.
#[derive(Debug, PartialEq)]
pub enum SQLError {
    QueryExecutionError(QueryExecutionError),
    ParsingError(ParseError),
}

} // verus!
