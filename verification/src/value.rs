//! Cell values, column types, and columns.
use vstd::prelude::*;

verus! {

/// The type tag a column declares for its cells.
#[derive(Debug, Clone, Copy, PartialEq, Eq, Structural)]
pub enum SqlTypeInfo {
    Text,
    Integer,
}

/// A single cell value: a piece of text or a whole number.
#[derive(Debug, PartialEq)]
pub enum Value {
    Text(String),
    Integer(i64),
}

/// Mathematical model of a [`Value`].
#[verifier::ext_equal]
pub enum ValueV {
    Text(Seq<char>),
    Integer(int),
}

impl View for Value {
    type V = ValueV;

    open spec fn view(&self) -> ValueV {
        match self {
            Value::Text(s) => ValueV::Text(s@),
            Value::Integer(n) => ValueV::Integer(*n as int),
        }
    }
}

/// Whether a value's tag matches a column's declared type.
pub open spec fn value_has_type(v: ValueV, t: SqlTypeInfo) -> bool {
    match (v, t) {
        (ValueV::Text(_), SqlTypeInfo::Text) => true,
        (ValueV::Integer(_), SqlTypeInfo::Integer) => true,
        _ => false,
    }
}

impl Value {
    /// The type tag of this value.
    pub fn type_info(&self) -> (t: SqlTypeInfo)
        ensures
            value_has_type(self@, t),
            forall|u: SqlTypeInfo| value_has_type(self@, u) ==> u == t,
    {
        match self {
            Value::Text(_) => SqlTypeInfo::Text,
            Value::Integer(_) => SqlTypeInfo::Integer,
        }
    }
}

impl Clone for Value {
    fn clone(&self) -> (r: Value)
        ensures
            r@ == self@,
    {
        match self {
            Value::Text(s) => Value::Text(s.clone()),
            Value::Integer(n) => Value::Integer(*n),
        }
    }
}

/// Executable check that a value's tag matches a declared column type.
pub fn value_matches_type(v: &Value, t: SqlTypeInfo) -> (r: bool)
    ensures
        r == value_has_type(v@, t),
{
    match (v, t) {
        (Value::Text(_), SqlTypeInfo::Text) => true,
        (Value::Integer(_), SqlTypeInfo::Integer) => true,
        _ => false,
    }
}

/// The models of a sequence of values.
pub open spec fn views_of_values(vs: Seq<Value>) -> Seq<ValueV> {
    vs.map_values(|v: Value| v@)
}

/// The models of a sequence of column names.
pub open spec fn views_of_names(ns: Seq<String>) -> Seq<Seq<char>> {
    ns.map_values(|n: String| n@)
}

/// One schema entry: a column name together with its declared type.
#[derive(Debug)]
pub struct Column {
    pub name: String,
    pub type_info: SqlTypeInfo,
}

/// Mathematical model of a [`Column`].
#[verifier::ext_equal]
pub struct ColumnV {
    pub name: Seq<char>,
    pub type_info: SqlTypeInfo,
}

impl View for Column {
    type V = ColumnV;

    open spec fn view(&self) -> ColumnV {
        ColumnV { name: self.name@, type_info: self.type_info }
    }
}

/// The models of a sequence of columns.
pub open spec fn views_of_columns(cs: Seq<Column>) -> Seq<ColumnV> {
    cs.map_values(|c: Column| c@)
}

impl Clone for Column {
    fn clone(&self) -> (r: Column)
        ensures
            r@ == self@,
    {
        Column { name: self.name.clone(), type_info: self.type_info }
    }
}

} // verus!
