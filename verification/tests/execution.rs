use minisql::Column;
use minisql::ExecResponse;
use minisql::Execution;
use minisql::CreateQuery;
use minisql::InsertQuery;
use minisql::QueryExecutionError;
use minisql::Row;
use minisql::SelectQuery;
use minisql::SqlQuery;
use minisql::SqlTypeInfo;
use minisql::Value;

fn col(name: &str, type_info: SqlTypeInfo) -> Column {
    Column { name: name.to_string(), type_info }
}

fn create(table: &str, columns: Vec<Column>) -> SqlQuery {
    SqlQuery::Create(CreateQuery { table: table.to_string(), columns })
}

fn insert(table: &str, values: Vec<Value>) -> SqlQuery {
    SqlQuery::Insert(InsertQuery { table: table.to_string(), values })
}

fn select(table: &str, fields: &[&str]) -> SqlQuery {
    SqlQuery::Select(SelectQuery {
        table: table.to_string(),
        fields: fields.iter().map(|f| f.to_string()).collect(),
    })
}

fn people_schema() -> Vec<Column> {
    vec![col("name", SqlTypeInfo::Text), col("age", SqlTypeInfo::Integer)]
}

fn rows_of(exec: &mut Execution, table: &str, fields: &[&str]) -> Vec<Row> {
    let resp = exec.run(select(table, fields)).expect("select should succeed");
    let mut out = Vec::new();
    match resp {
        ExecResponse::Select(mut iter) => {
            while let Some(row) = iter.next() {
                out.push(row);
            }
        },
        _ => panic!("a select answers with a projection"),
    }
    out
}

#[test]
fn create_registers_a_table() {
    let mut exec = Execution::new();
    let resp = exec.run(create("t", people_schema()));
    assert!(matches!(resp, Ok(ExecResponse::Create)));
    assert_eq!(rows_of(&mut exec, "t", &["name"]).len(), 0);
}

#[test]
fn create_twice_fails_and_keeps_contents() {
    let mut exec = Execution::new();
    exec.run(create("t", people_schema())).unwrap();
    exec.run(insert("t", vec![Value::Text("Alice".to_string()), Value::Integer(30)]))
        .unwrap();
    let again = exec.run(create("t", vec![col("other", SqlTypeInfo::Text)]));
    assert_eq!(again.unwrap_err(), QueryExecutionError::TableAlreadyExists("t".to_string()));
    let rows = rows_of(&mut exec, "t", &["name", "age"]);
    assert_eq!(rows.len(), 1);
    assert_eq!(rows[0].get(&"name".to_string()), Value::Text("Alice".to_string()));
    assert_eq!(rows[0].get(&"age".to_string()), Value::Integer(30));
}

#[test]
fn insert_into_unknown_table_fails() {
    let mut exec = Execution::new();
    let res = exec.run(insert("ghost", vec![Value::Integer(1)]));
    assert_eq!(res.unwrap_err(), QueryExecutionError::TableNotFound("ghost".to_string()));
    // The registry is unaffected: the name is still free for CREATE.
    assert!(matches!(exec.run(create("ghost", people_schema())), Ok(ExecResponse::Create)));
}

#[test]
fn insert_type_mismatch_stores_no_partial_row() {
    let mut exec = Execution::new();
    exec.run(create("t", people_schema())).unwrap();
    let res = exec.run(insert(
        "t",
        vec![Value::Text("Carl".to_string()), Value::Text("notanumber".to_string())],
    ));
    assert_eq!(
        res.unwrap_err(),
        QueryExecutionError::InsertTypeMismatch(
            SqlTypeInfo::Integer,
            Value::Text("notanumber".to_string())
        )
    );
    assert_eq!(rows_of(&mut exec, "t", &["name"]).len(), 0);
}

#[test]
fn insert_mismatch_reports_first_offending_pair() {
    let mut exec = Execution::new();
    exec.run(create("t", people_schema())).unwrap();
    let res = exec.run(insert("t", vec![Value::Integer(1), Value::Text("x".to_string())]));
    assert_eq!(
        res.unwrap_err(),
        QueryExecutionError::InsertTypeMismatch(SqlTypeInfo::Text, Value::Integer(1))
    );
}

#[test]
fn row_ids_count_up_from_zero_in_insertion_order() {
    let mut exec = Execution::new();
    exec.run(create("t", people_schema())).unwrap();
    for i in 0..5i64 {
        let name = format!("p{}", i);
        exec.run(insert("t", vec![Value::Text(name), Value::Integer(i)])).unwrap();
    }
    let rows = rows_of(&mut exec, "t", &["name", "age"]);
    assert_eq!(rows.len(), 5);
    for (i, row) in rows.iter().enumerate() {
        assert_eq!(row.id(), i);
        assert_eq!(row.get(&"age".to_string()), Value::Integer(i as i64));
    }
}

#[test]
fn failed_insert_consumes_no_id() {
    let mut exec = Execution::new();
    exec.run(create("t", people_schema())).unwrap();
    exec.run(insert("t", vec![Value::Text("a".to_string()), Value::Integer(0)])).unwrap();
    exec.run(insert("t", vec![Value::Integer(13)])).unwrap_err();
    exec.run(insert("t", vec![Value::Text("b".to_string()), Value::Integer(1)])).unwrap();
    let rows = rows_of(&mut exec, "t", &["name"]);
    assert_eq!(rows.len(), 2);
    assert_eq!(rows[0].id(), 0);
    assert_eq!(rows[1].id(), 1);
}

#[test]
fn select_unknown_column_fails_and_mutates_nothing() {
    let mut exec = Execution::new();
    exec.run(create("t", people_schema())).unwrap();
    exec.run(insert("t", vec![Value::Text("a".to_string()), Value::Integer(0)])).unwrap();
    let res = exec.run(select("t", &["name", "nope"]));
    assert_eq!(res.unwrap_err(), QueryExecutionError::ColumnDoesNotExist("nope".to_string()));
    assert_eq!(rows_of(&mut exec, "t", &["name"]).len(), 1);
}

#[test]
fn select_unknown_table_fails() {
    let mut exec = Execution::new();
    let res = exec.run(select("nowhere", &["x"]));
    assert_eq!(res.unwrap_err(), QueryExecutionError::TableNotFound("nowhere".to_string()));
}

#[test]
fn projection_exposes_exactly_the_requested_subset() {
    let mut exec = Execution::new();
    exec.run(create("t", people_schema())).unwrap();
    exec.run(insert("t", vec![Value::Text("a".to_string()), Value::Integer(1)])).unwrap();
    let rows = rows_of(&mut exec, "t", &["age"]);
    assert_eq!(rows.len(), 1);
    assert_eq!(rows[0].get(&"age".to_string()), Value::Integer(1));
    assert_eq!(
        rows[0].try_get(&"name".to_string()).unwrap_err(),
        QueryExecutionError::ColumnDoesNotExist("name".to_string())
    );
}

#[test]
fn projected_schema_follows_the_requested_order() {
    let mut exec = Execution::new();
    exec.run(create("t", people_schema())).unwrap();
    exec.run(insert("t", vec![Value::Text("a".to_string()), Value::Integer(1)])).unwrap();
    let rows = rows_of(&mut exec, "t", &["age", "name"]);
    let columns = rows[0].columns().iter();
    assert_eq!(columns.len(), 2);
    assert_eq!(columns[0].name, "age".to_string());
    assert_eq!(columns[0].type_info, SqlTypeInfo::Integer);
    assert_eq!(columns[1].name, "name".to_string());
    assert_eq!(columns[1].type_info, SqlTypeInfo::Text);
}

#[test]
fn short_insert_leaves_missing_columns_out_of_the_row() {
    let mut exec = Execution::new();
    exec.run(create("t", people_schema())).unwrap();
    exec.run(insert("t", vec![Value::Text("only-name".to_string())])).unwrap();
    let rows = rows_of(&mut exec, "t", &["name", "age"]);
    assert_eq!(rows.len(), 1);
    assert_eq!(rows[0].get(&"name".to_string()), Value::Text("only-name".to_string()));
    assert_eq!(
        rows[0].try_get(&"age".to_string()).unwrap_err(),
        QueryExecutionError::ColumnDoesNotExist("age".to_string())
    );
}

#[test]
fn long_insert_discards_extra_values() {
    let mut exec = Execution::new();
    exec.run(create("t", vec![col("name", SqlTypeInfo::Text)])).unwrap();
    let res = exec.run(insert(
        "t",
        vec![Value::Text("kept".to_string()), Value::Integer(99)],
    ));
    assert!(res.is_ok());
    let rows = rows_of(&mut exec, "t", &["name"]);
    assert_eq!(rows.len(), 1);
    assert_eq!(rows[0].get(&"name".to_string()), Value::Text("kept".to_string()));
}

#[test]
fn projection_is_finite_and_not_restartable() {
    let mut exec = Execution::new();
    exec.run(create("t", people_schema())).unwrap();
    exec.run(insert("t", vec![Value::Text("a".to_string()), Value::Integer(1)])).unwrap();
    let resp = exec.run(select("t", &["name"])).unwrap();
    match resp {
        ExecResponse::Select(mut iter) => {
            assert!(iter.next().is_some());
            assert!(iter.next().is_none());
            assert!(iter.next().is_none());
        },
        _ => panic!("a select answers with a projection"),
    }
}

#[test]
fn run_batch_applies_prefix_and_returns_last_response() {
    let mut exec = Execution::new();
    let batch = vec![
        create("t", people_schema()),
        insert("t", vec![Value::Text("a".to_string()), Value::Integer(7)]),
        select("t", &["age"]),
    ];
    let resp = exec.run_batch(batch).unwrap();
    match resp {
        ExecResponse::Select(mut iter) => {
            let row = iter.next().unwrap();
            assert_eq!(row.get(&"age".to_string()), Value::Integer(7));
            assert!(iter.next().is_none());
        },
        _ => panic!("the batch ends in a select"),
    }
}

#[test]
fn run_batch_failure_keeps_earlier_effects() {
    let mut exec = Execution::new();
    let batch = vec![
        create("t", people_schema()),
        insert("t", vec![Value::Text("a".to_string()), Value::Integer(7)]),
        insert("t", vec![Value::Integer(3)]),
        insert("t", vec![Value::Text("never".to_string()), Value::Integer(1)]),
    ];
    let res = exec.run_batch(batch);
    assert_eq!(
        res.unwrap_err(),
        QueryExecutionError::InsertTypeMismatch(SqlTypeInfo::Text, Value::Integer(3))
    );
    let rows = rows_of(&mut exec, "t", &["name"]);
    assert_eq!(rows.len(), 1);
    assert_eq!(rows[0].get(&"name".to_string()), Value::Text("a".to_string()));
}

#[test]
fn empty_insert_stores_a_row_with_no_cells() {
    let mut exec = Execution::new();
    exec.run(create("t", people_schema())).unwrap();
    exec.run(insert("t", vec![])).unwrap();
    let rows = rows_of(&mut exec, "t", &["name", "age"]);
    assert_eq!(rows.len(), 1);
    assert_eq!(rows[0].id(), 0);
    assert!(rows[0].try_get(&"name".to_string()).is_err());
    assert!(rows[0].try_get(&"age".to_string()).is_err());
}

#[test]
fn find_column_scans_by_name() {
    let info = minisql::ColumnInfo::new(people_schema());
    let found = info.find_column(&"age".to_string()).unwrap();
    assert_eq!(found.name, "age".to_string());
    assert_eq!(found.type_info, SqlTypeInfo::Integer);
    assert_eq!(
        info.find_column(&"missing".to_string()).unwrap_err(),
        QueryExecutionError::ColumnDoesNotExist("missing".to_string())
    );
}

#[test]
fn row_view_exposes_its_parts() {
    let info = std::rc::Rc::new(minisql::ColumnInfo::new(vec![col("name", SqlTypeInfo::Text)]));
    let row = Row::new(
        info,
        3,
        vec![("name".to_string(), Value::Text("x".to_string()))],
    );
    assert_eq!(row.id(), 3);
    assert_eq!(row.columns().iter().len(), 1);
    assert_eq!(row.get(&"name".to_string()), Value::Text("x".to_string()));
}

#[test]
fn value_type_tags() {
    assert_eq!(Value::Text("x".to_string()).type_info(), SqlTypeInfo::Text);
    assert_eq!(Value::Integer(4).type_info(), SqlTypeInfo::Integer);
}
