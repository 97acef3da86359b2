//! Laws of the execution semantics, stated and proved once and for all
//! over the ghost model in [`crate::semantics`]. The executable entry
//! points are proved to follow that model, so each law carries over to
//! them.
use vstd::prelude::*;
use crate::ast::QueryV;
use crate::error::ErrorV;
use crate::semantics::CellsV;
use crate::semantics::RespV;
use crate::semantics::TableV;
use crate::semantics::TablesV;
use crate::semantics::apply_query;
use crate::semantics::find_key_idx;
use crate::semantics::has_col;
use crate::semantics::has_key;
use crate::semantics::key_value;
use crate::semantics::lemma_find_key_idx;
use crate::semantics::lemma_find_key_idx_same_keys;
use crate::semantics::project_row;
use crate::semantics::select_cols;
use crate::semantics::typed_row;
use crate::semantics::update_key;
use crate::value::ColumnV;
use crate::value::ValueV;

verus! {

/// The registry after running every statement of `qs` in order,
/// whatever each statement answered.
pub open spec fn apply_queries(ts: TablesV, qs: Seq<QueryV>) -> TablesV
    decreases qs.len(),
{
    if qs.len() == 0 {
        ts
    } else {
        apply_queries(apply_query(ts, qs[0]).0, qs.drop_first())
    }
}

/// One INSERT statement per value list, all aimed at `name`.
pub open spec fn insert_queries(name: Seq<char>, valss: Seq<Seq<ValueV>>) -> Seq<QueryV> {
    Seq::new(valss.len(), |i: int| QueryV::Insert { table: name, values: valss[i] })
}

/// A fresh key pushed onto the registry is found, at the end.
proof fn lemma_has_key_push(ts: TablesV, name: Seq<char>, tv: TableV)
    ensures
        has_key(ts.push((name, tv)), name),
        key_value(ts.push((name, tv)), name) == tv || has_key(ts, name),
{
    let ts2 = ts.push((name, tv));
    lemma_find_key_idx(ts2, name);
    if find_key_idx(ts2, name) == ts2.len() {
        assert(ts2[ts.len() as int].0 != name);
        assert(ts2[ts.len() as int] == (name, tv));
    }
    if !has_key(ts, name) {
        lemma_find_key_idx(ts, name);
        if find_key_idx(ts2, name) < ts.len() {
            assert(ts2[find_key_idx(ts2, name)] == ts[find_key_idx(ts2, name)]);
            assert(false);
        }
        assert(ts2[find_key_idx(ts2, name)] == (name, tv));
    }
}

/// Updating the table under `name` leaves every key where it was: the
/// entry is still found, now holding the new table, and the registry
/// keeps its length.
pub proof fn lemma_update_key_found(ts: TablesV, name: Seq<char>, tv: TableV)
    requires
        has_key(ts, name),
    ensures
        update_key(ts, name, tv).len() == ts.len(),
        has_key(update_key(ts, name, tv), name),
        key_value(update_key(ts, name, tv), name) == tv,
{
    let ts2 = update_key(ts, name, tv);
    lemma_find_key_idx(ts, name);
    assert(forall|i: int| 0 <= i < ts.len() ==> ts2[i].0 == ts[i].0);
    lemma_find_key_idx_same_keys(ts, ts2, name);
    assert(ts2[find_key_idx(ts, name)] == (name, tv));
}

/// A second CREATE under a name that a first CREATE just registered
/// fails with `TableAlreadyExists`, and the whole registry — the new
/// table's contents included — is left exactly as the first CREATE made
/// it.
pub proof fn lemma_create_twice(
    ts: TablesV,
    name: Seq<char>,
    cols1: Seq<ColumnV>,
    cols2: Seq<ColumnV>,
)
    requires
        !has_key(ts, name),
    ensures
        ({
            let first = apply_query(ts, QueryV::Create { table: name, columns: cols1 });
            let second = apply_query(first.0, QueryV::Create { table: name, columns: cols2 });
            first.1 == Ok::<RespV, ErrorV>(RespV::Create) && second.0 == first.0 && second.1
                == Err::<RespV, ErrorV>(ErrorV::TableAlreadyExists(name))
        }),
{
    lemma_has_key_push(ts, name, TableV { columns: cols1, rows: Seq::empty() });
}

/// An INSERT aimed at a name the registry does not hold fails with
/// `TableNotFound` and leaves the registry untouched.
pub proof fn lemma_insert_unknown_table(ts: TablesV, name: Seq<char>, values: Seq<ValueV>)
    requires
        !has_key(ts, name),
    ensures
        apply_query(ts, QueryV::Insert { table: name, values }) == (
            ts,
            Err::<RespV, ErrorV>(ErrorV::TableNotFound(name)),
        ),
{
}

/// An INSERT whose value list fails the type check against the table's
/// schema fails with `InsertTypeMismatch` carrying the declared type and
/// the offending value, and stores nothing: the whole registry, so in
/// particular the table's row count, is unchanged.
pub proof fn lemma_insert_mismatch_stores_nothing(
    ts: TablesV,
    name: Seq<char>,
    values: Seq<ValueV>,
)
    requires
        has_key(ts, name),
        typed_row(key_value(ts, name).columns, values) is Err,
    ensures
        ({
            let bad = typed_row(key_value(ts, name).columns, values)->Err_0;
            apply_query(ts, QueryV::Insert { table: name, values }) == (
                ts,
                Err::<RespV, ErrorV>(ErrorV::InsertTypeMismatch(bad.0, bad.1)),
            )
        }),
{
}

/// A SELECT naming a column absent from the table's schema fails with
/// `ColumnDoesNotExist` for the first such name, and the registry is
/// unmutated.
pub proof fn lemma_select_missing_column(ts: TablesV, name: Seq<char>, fields: Seq<Seq<char>>)
    requires
        has_key(ts, name),
        select_cols(key_value(ts, name).columns, fields) is Err,
    ensures
        apply_query(ts, QueryV::Select { table: name, fields }) == (
            ts,
            Err::<RespV, ErrorV>(
                ErrorV::ColumnDoesNotExist(select_cols(key_value(ts, name).columns, fields)->Err_0),
            ),
        ),
{
}

/// Row ids are the positions of the rows, assigned in insertion order:
/// after a run of type-correct INSERTs into `name`, the table holds its
/// old rows unchanged at their old positions, followed by one row per
/// insert, in order — so starting from an empty table the stored ids
/// are exactly `0, 1, ..., N-1`. A failed insert changes nothing
/// (see `lemma_insert_mismatch_stores_nothing`), so failures never
/// consume an id.
pub proof fn lemma_sequential_insert_ids(ts: TablesV, name: Seq<char>, valss: Seq<Seq<ValueV>>)
    requires
        has_key(ts, name),
        forall|i: int| 0 <= i < valss.len() ==> typed_row(
            key_value(ts, name).columns,
            valss[i],
        ) is Ok,
    ensures
        ({
            let tv = key_value(ts, name);
            let ts2 = apply_queries(ts, insert_queries(name, valss));
            let tv2 = key_value(ts2, name);
            &&& has_key(ts2, name)
            &&& tv2.columns == tv.columns
            &&& tv2.rows.len() == tv.rows.len() + valss.len()
            &&& forall|i: int| 0 <= i < tv.rows.len() ==> tv2.rows[i] == tv.rows[i]
            &&& forall|i: int| 0 <= i < valss.len() ==> tv2.rows[tv.rows.len() + i] == typed_row(
                tv.columns,
                valss[i],
            )->Ok_0
        }),
    decreases valss.len(),
{
    let tv = key_value(ts, name);
    let qs = insert_queries(name, valss);
    if valss.len() == 0 {
        assert(apply_queries(ts, qs) == ts);
    } else {
        let row0 = typed_row(tv.columns, valss[0])->Ok_0;
        let tv1 = TableV { columns: tv.columns, rows: tv.rows.push(row0) };
        let ts1 = apply_query(ts, qs[0]).0;
        assert(ts1 == update_key(ts, name, tv1));
        lemma_update_key_found(ts, name, tv1);
        let rest = valss.drop_first();
        assert(forall|i: int| 0 <= i < rest.len() ==> rest[i] == valss[i + 1]);
        lemma_sequential_insert_ids(ts1, name, rest);
        assert(qs.drop_first() =~= insert_queries(name, rest));
        assert(apply_queries(ts, qs) == apply_queries(ts1, insert_queries(name, rest)));
        let ts2 = apply_queries(ts1, insert_queries(name, rest));
        let tv2 = key_value(ts2, name);
        assert(tv2.rows.len() == tv1.rows.len() + rest.len());
        assert forall|i: int| 0 <= i < valss.len() implies tv2.rows[tv.rows.len() + i]
            == typed_row(tv.columns, valss[i])->Ok_0 by {
            if i == 0 {
                assert(tv2.rows[tv.rows.len() as int] == tv1.rows[tv.rows.len() as int]);
                assert(tv1.rows[tv.rows.len() as int] == row0);
            } else {
                assert(tv2.rows[tv1.rows.len() + (i - 1)] == typed_row(
                    tv.columns,
                    rest[i - 1],
                )->Ok_0);
            }
        }
    }
}

/// What a projection exposes, exactly: a name resolves in a projected
/// row if and only if it resolves both in the stored row and in the
/// projected schema — a requested column absent from the stored row is
/// simply omitted — and every exposed cell carries the stored value.
/// Cells keep the stored row's order.
pub proof fn lemma_projection_exposes_subset(row: CellsV, cols: Seq<ColumnV>)
    ensures
        forall|name: Seq<char>| #[trigger] has_key(project_row(row, cols), name) <==> (has_key(
            row,
            name,
        ) && has_col(cols, name)),
        forall|name: Seq<char>| #[trigger] has_key(project_row(row, cols), name) ==> key_value(
            project_row(row, cols),
            name,
        ) == key_value(row, name),
    decreases row.len(),
{
    if row.len() == 0 {
        assert forall|name: Seq<char>| !(#[trigger] has_key(project_row(row, cols), name)) by {
            lemma_find_key_idx(project_row(row, cols), name);
        }
        assert forall|name: Seq<char>| !(#[trigger] has_key(row, name)) by {
            lemma_find_key_idx(row, name);
        }
    } else {
        let tail = row.drop_first();
        let p = project_row(row, cols);
        let ptail = project_row(tail, cols);
        lemma_projection_exposes_subset(tail, cols);
        assert forall|name: Seq<char>|
            (#[trigger] has_key(p, name) <==> (has_key(row, name) && has_col(cols, name)))
                && (has_key(p, name) ==> key_value(p, name) == key_value(row, name)) by {
            lemma_find_key_idx(row, name);
            lemma_find_key_idx(tail, name);
            lemma_find_key_idx(p, name);
            lemma_find_key_idx(ptail, name);
            if row[0].0 == name {
                if has_col(cols, name) {
                    assert(p == seq![row[0]] + ptail);
                    assert(p[0] == row[0]);
                    assert(find_key_idx(p, name) == 0);
                    assert(find_key_idx(row, name) == 0);
                    assert(has_key(p, name) && has_key(row, name));
                    assert(key_value(p, name) == row[0].1 && key_value(row, name) == row[0].1);
                } else {
                    assert(p == ptail);
                    assert(!(has_key(tail, name) && has_col(cols, name)));
                    assert(!has_key(p, name));
                }
            } else {
                assert(find_key_idx(row, name) == 1 + find_key_idx(tail, name));
                assert(has_key(row, name) == has_key(tail, name));
                if has_key(row, name) {
                    assert(key_value(row, name) == tail[find_key_idx(tail, name)].1);
                    assert(key_value(row, name) == key_value(tail, name));
                }
                if has_col(cols, row[0].0) {
                    assert(p == seq![row[0]] + ptail);
                    assert(p[0].0 != name);
                    assert(p.drop_first() =~= ptail);
                    assert(find_key_idx(p, name) == 1 + find_key_idx(ptail, name));
                    assert(has_key(p, name) == has_key(ptail, name));
                    if has_key(p, name) {
                        assert(key_value(p, name) == ptail[find_key_idx(ptail, name)].1);
                        assert(key_value(p, name) == key_value(ptail, name));
                    }
                } else {
                    assert(p == ptail);
                }
            }
        }
    }
}

} // verus!
