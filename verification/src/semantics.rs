//! The mathematical semantics of statement execution.
//!
//! Everything here is ghost: a registry is modelled as a sequence of
//! name/table pairs, a table as a schema plus a sequence of stored rows,
//! and [`apply_query`] says what one statement does to a registry. The
//! executable code in the rest of the crate is proved to follow this model.
use vstd::prelude::*;
use crate::value::ColumnV;
use crate::value::SqlTypeInfo;
use crate::value::ValueV;
use crate::value::value_has_type;
use crate::error::ErrorV;
use crate::ast::QueryV;

verus! {

/// Model of one stored row: its cells as name/value pairs, in the order the
/// insert paired them with the schema.
pub type CellsV = Seq<(Seq<char>, ValueV)>;

/// Model of one table: its fixed schema and its rows in insertion order.
/// The row at index `i` is the row with id `i`: ids are assigned as
/// `max(existing ids) + 1` starting from zero and rows are never removed,
/// so ids and positions coincide.
#[verifier::ext_equal]
pub struct TableV {
    pub columns: Seq<ColumnV>,
    pub rows: Seq<CellsV>,
}

/// Model of the registry: name/table pairs in registration order.
pub type TablesV = Seq<(Seq<char>, TableV)>;

/// Model of a successful response.
#[verifier::ext_equal]
pub enum RespV {
    /// The projected schema and the rows the projection will walk.
    Select { columns: Seq<ColumnV>, rows: Seq<CellsV> },
    Insert,
    Create,
}

// ---------------------------------------------------------------------------
// First-match lookup over name-keyed sequences.
// ---------------------------------------------------------------------------

/// Index of the first pair whose key is `name`, or `s.len()` if none is.
pub open spec fn find_key_idx<V>(s: Seq<(Seq<char>, V)>, name: Seq<char>) -> int
    decreases s.len(),
{
    if s.len() == 0 {
        0
    } else if s[0].0 == name {
        0
    } else {
        1 + find_key_idx(s.drop_first(), name)
    }
}

/// Whether some pair of `s` has key `name`.
pub open spec fn has_key<V>(s: Seq<(Seq<char>, V)>, name: Seq<char>) -> bool {
    find_key_idx(s, name) < s.len()
}

/// The value of the first pair whose key is `name`.
pub open spec fn key_value<V>(s: Seq<(Seq<char>, V)>, name: Seq<char>) -> V
    recommends
        has_key(s, name),
{
    s[find_key_idx(s, name)].1
}

/// `s` with the value of the first pair keyed `name` replaced by `v`.
pub open spec fn update_key<V>(s: Seq<(Seq<char>, V)>, name: Seq<char>, v: V) -> Seq<
    (Seq<char>, V),
>
    recommends
        has_key(s, name),
{
    s.update(find_key_idx(s, name), (name, v))
}

/// `find_key_idx` points at the first match: it is in bounds exactly when a
/// match exists, the pair there matches, and no earlier pair does.
pub proof fn lemma_find_key_idx<V>(s: Seq<(Seq<char>, V)>, name: Seq<char>)
    ensures
        0 <= find_key_idx(s, name) <= s.len(),
        find_key_idx(s, name) < s.len() ==> s[find_key_idx(s, name)].0 == name,
        forall|j: int| 0 <= j < find_key_idx(s, name) ==> s[j].0 != name,
    decreases s.len(),
{
    if s.len() != 0 && s[0].0 != name {
        lemma_find_key_idx(s.drop_first(), name);
        assert forall|j: int| 0 <= j < find_key_idx(s, name) implies s[j].0 != name by {
            if j > 0 {
                assert(s.drop_first()[j - 1] == s[j]);
            }
        }
    }
}

/// Two sequences with the same keys in the same order agree on where any
/// name first occurs.
pub proof fn lemma_find_key_idx_same_keys<V>(
    s1: Seq<(Seq<char>, V)>,
    s2: Seq<(Seq<char>, V)>,
    name: Seq<char>,
)
    requires
        s1.len() == s2.len(),
        forall|i: int| 0 <= i < s1.len() ==> s1[i].0 == s2[i].0,
    ensures
        find_key_idx(s1, name) == find_key_idx(s2, name),
    decreases s1.len(),
{
    if s1.len() != 0 && s1[0].0 != name {
        assert(forall|i: int|
            0 <= i < s1.drop_first().len() ==> s1.drop_first()[i].0 == s2.drop_first()[i].0);
        lemma_find_key_idx_same_keys(s1.drop_first(), s2.drop_first(), name);
    }
}

// ---------------------------------------------------------------------------
// First-match lookup over schemas.
// ---------------------------------------------------------------------------

/// Index of the first column named `name`, or `cols.len()` if none is.
pub open spec fn find_col_idx(cols: Seq<ColumnV>, name: Seq<char>) -> int
    decreases cols.len(),
{
    if cols.len() == 0 {
        0
    } else if cols[0].name == name {
        0
    } else {
        1 + find_col_idx(cols.drop_first(), name)
    }
}

/// Whether the schema `cols` has a column named `name`.
pub open spec fn has_col(cols: Seq<ColumnV>, name: Seq<char>) -> bool {
    find_col_idx(cols, name) < cols.len()
}

/// `find_col_idx` points at the first column of that name.
pub proof fn lemma_find_col_idx(cols: Seq<ColumnV>, name: Seq<char>)
    ensures
        0 <= find_col_idx(cols, name) <= cols.len(),
        find_col_idx(cols, name) < cols.len() ==> cols[find_col_idx(cols, name)].name == name,
        forall|j: int| 0 <= j < find_col_idx(cols, name) ==> cols[j].name != name,
    decreases cols.len(),
{
    if cols.len() != 0 && cols[0].name != name {
        lemma_find_col_idx(cols.drop_first(), name);
        assert forall|j: int| 0 <= j < find_col_idx(cols, name) implies cols[j].name != name by {
            if j > 0 {
                assert(cols.drop_first()[j - 1] == cols[j]);
            }
        }
    }
}

// ---------------------------------------------------------------------------
// Insert: pairing values with the schema.
// ---------------------------------------------------------------------------

/// Pairs `vals` positionally with `cols`, stopping at the shorter of the
/// two. Returns the stored row's cells, or, for the first value whose tag
/// does not match its column's declared type, the declared type and that
/// value.
pub open spec fn typed_row(cols: Seq<ColumnV>, vals: Seq<ValueV>) -> Result<
    CellsV,
    (SqlTypeInfo, ValueV),
>
    decreases vals.len(),
{
    if cols.len() == 0 || vals.len() == 0 {
        Ok(Seq::empty())
    } else if value_has_type(vals[0], cols[0].type_info) {
        match typed_row(cols.drop_first(), vals.drop_first()) {
            Ok(rest) => Ok(seq![(cols[0].name, vals[0])] + rest),
            Err(e) => Err(e),
        }
    } else {
        Err((cols[0].type_info, vals[0]))
    }
}

/// What `typed_row` returns, read off a checked prefix: if every pair
/// before `i` matches and the pair at `i` does not, the result is that
/// mismatch; if every pair matches, the result is the positional pairing
/// of the whole common prefix.
pub proof fn lemma_typed_row_prefix(cols: Seq<ColumnV>, vals: Seq<ValueV>, i: int)
    requires
        0 <= i <= vstd::math::min(cols.len() as int, vals.len() as int),
        forall|j: int| 0 <= j < i ==> value_has_type(vals[j], cols[j].type_info),
    ensures
        i < vstd::math::min(cols.len() as int, vals.len() as int) && !value_has_type(
            vals[i],
            cols[i].type_info,
        ) ==> typed_row(cols, vals) == Err::<CellsV, (SqlTypeInfo, ValueV)>(
            (cols[i].type_info, vals[i]),
        ),
        i == vstd::math::min(cols.len() as int, vals.len() as int) ==> typed_row(cols, vals)
            == Ok::<CellsV, (SqlTypeInfo, ValueV)>(
            Seq::new(i as nat, |j: int| (cols[j].name, vals[j])),
        ),
    decreases i,
{
    let n = vstd::math::min(cols.len() as int, vals.len() as int);
    if i == 0 {
        if n == 0 {
            assert(typed_row(cols, vals) == Ok::<CellsV, (SqlTypeInfo, ValueV)>(Seq::empty()));
            assert(Seq::new(0, |j: int| (cols[j].name, vals[j])) =~= Seq::<
                (Seq<char>, ValueV),
            >::empty());
        }
    } else {
        let ctail = cols.drop_first();
        let vtail = vals.drop_first();
        assert(forall|j: int|
            0 <= j < i - 1 ==> value_has_type(vtail[j], ctail[j].type_info));
        lemma_typed_row_prefix(ctail, vtail, i - 1);
        if i < n && !value_has_type(vals[i], cols[i].type_info) {
            assert(!value_has_type(vtail[i - 1], ctail[i - 1].type_info));
        } else if i == n {
            let whole = Seq::new(i as nat, |j: int| (cols[j].name, vals[j]));
            let rest = Seq::new((i - 1) as nat, |j: int| (ctail[j].name, vtail[j]));
            assert(whole =~= seq![(cols[0].name, vals[0])] + rest);
        }
    }
}

// ---------------------------------------------------------------------------
// Select: resolving the requested columns.
// ---------------------------------------------------------------------------

/// Resolves each requested field name against the schema, in the caller's
/// order. Returns the projected schema, or the first name that no column
/// carries.
pub open spec fn select_cols(cols: Seq<ColumnV>, fields: Seq<Seq<char>>) -> Result<
    Seq<ColumnV>,
    Seq<char>,
>
    decreases fields.len(),
{
    if fields.len() == 0 {
        Ok(Seq::empty())
    } else if has_col(cols, fields[0]) {
        match select_cols(cols, fields.drop_first()) {
            Ok(rest) => Ok(seq![cols[find_col_idx(cols, fields[0])]] + rest),
            Err(e) => Err(e),
        }
    } else {
        Err(fields[0])
    }
}

/// What `select_cols` returns, read off a checked prefix, in the manner of
/// [`lemma_typed_row_prefix`].
pub proof fn lemma_select_cols_prefix(cols: Seq<ColumnV>, fields: Seq<Seq<char>>, i: int)
    requires
        0 <= i <= fields.len(),
        forall|j: int| 0 <= j < i ==> has_col(cols, fields[j]),
    ensures
        i < fields.len() && !has_col(cols, fields[i]) ==> select_cols(cols, fields) == Err::<
            Seq<ColumnV>,
            Seq<char>,
        >(fields[i]),
        i == fields.len() ==> select_cols(cols, fields) == Ok::<Seq<ColumnV>, Seq<char>>(
            Seq::new(i as nat, |j: int| cols[find_col_idx(cols, fields[j])]),
        ),
    decreases i,
{
    if i == 0 {
        if fields.len() == 0 {
            assert(Seq::new(0, |j: int| cols[find_col_idx(cols, fields[j])]) =~= Seq::<
                ColumnV,
            >::empty());
        }
    } else {
        let ftail = fields.drop_first();
        assert(forall|j: int| 0 <= j < i - 1 ==> has_col(cols, ftail[j]));
        lemma_select_cols_prefix(cols, ftail, i - 1);
        if i < fields.len() && !has_col(cols, fields[i]) {
            assert(!has_col(cols, ftail[i - 1]));
        } else if i == fields.len() {
            let whole = Seq::new(i as nat, |j: int| cols[find_col_idx(cols, fields[j])]);
            let rest = Seq::new((i - 1) as nat, |j: int| cols[find_col_idx(cols, ftail[j])]);
            assert(whole =~= seq![cols[find_col_idx(cols, fields[0])]] + rest);
        }
    }
}

// ---------------------------------------------------------------------------
// Projection of one stored row.
// ---------------------------------------------------------------------------

/// The cells of `row` whose name resolves against the projected schema, in
/// the row's own order. A cell absent from the row is simply not produced.
pub open spec fn project_row(row: CellsV, cols: Seq<ColumnV>) -> CellsV
    decreases row.len(),
{
    if row.len() == 0 {
        Seq::empty()
    } else if has_col(cols, row[0].0) {
        seq![row[0]] + project_row(row.drop_first(), cols)
    } else {
        project_row(row.drop_first(), cols)
    }
}

// ---------------------------------------------------------------------------
// The transition function.
// ---------------------------------------------------------------------------

/// What one statement does: the registry after it, and its result.
pub open spec fn apply_query(ts: TablesV, q: QueryV) -> (TablesV, Result<RespV, ErrorV>) {
    match q {
        QueryV::Select { table, fields } => if !has_key(ts, table) {
            (ts, Err(ErrorV::TableNotFound(table)))
        } else {
            let tv = key_value(ts, table);
            match select_cols(tv.columns, fields) {
                Ok(pcols) => (ts, Ok(RespV::Select { columns: pcols, rows: tv.rows })),
                Err(f) => (ts, Err(ErrorV::ColumnDoesNotExist(f))),
            }
        },
        QueryV::Insert { table, values } => if !has_key(ts, table) {
            (ts, Err(ErrorV::TableNotFound(table)))
        } else {
            let tv = key_value(ts, table);
            match typed_row(tv.columns, values) {
                Ok(row) => (
                    update_key(ts, table, TableV { columns: tv.columns, rows: tv.rows.push(row) }),
                    Ok(RespV::Insert),
                ),
                Err((t, v)) => (ts, Err(ErrorV::InsertTypeMismatch(t, v))),
            }
        },
        QueryV::Create { table, columns } => if has_key(ts, table) {
            (ts, Err(ErrorV::TableAlreadyExists(table)))
        } else {
            (ts.push((table, TableV { columns, rows: Seq::empty() })), Ok(RespV::Create))
        },
    }
}

/// What a non-empty batch does: every statement runs in order; the first
/// failure stops the batch but keeps the effects of the statements already
/// run; the result is the last statement's result.
pub open spec fn apply_batch(ts: TablesV, qs: Seq<QueryV>) -> (TablesV, Result<RespV, ErrorV>)
    recommends
        qs.len() >= 1,
    decreases qs.len(),
{
    let stepped = apply_query(ts, qs[0]);
    if qs.len() <= 1 || stepped.1 is Err {
        stepped
    } else {
        apply_batch(stepped.0, qs.drop_first())
    }
}

} // verus!
