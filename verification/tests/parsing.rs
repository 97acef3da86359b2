use minisql::ExecResponse;
use minisql::Execution;
use minisql::ParseError;
use minisql::QueryExecutionError;
use minisql::SQLError;
use minisql::SqlQuery;
use minisql::SqlTypeInfo;
use minisql::Value;
use minisql::parse_multiple_queries;
use minisql::parse_sql_query;

fn drain_names(resp: ExecResponse) -> Vec<Value> {
    match resp {
        ExecResponse::Select(mut iter) => {
            let mut out = Vec::new();
            while let Some(row) = iter.next() {
                out.push(row.get(&"name".to_string()));
            }
            out
        },
        _ => panic!("expected a select response"),
    }
}

#[test]
fn parse_single_create() {
    let q = parse_sql_query("CREATE TABLE t(name Text, age Integer)").unwrap();
    match q {
        SqlQuery::Create(c) => {
            assert_eq!(c.table, "t".to_string());
            assert_eq!(c.columns.len(), 2);
            assert_eq!(c.columns[0].name, "name".to_string());
            assert_eq!(c.columns[0].type_info, SqlTypeInfo::Text);
            assert_eq!(c.columns[1].name, "age".to_string());
            assert_eq!(c.columns[1].type_info, SqlTypeInfo::Integer);
        },
        _ => panic!("expected a create statement"),
    }
}

#[test]
fn parse_single_insert() {
    let q = parse_sql_query("INSERT INTO t VALUES (\"Alice\", 30)").unwrap();
    match q {
        SqlQuery::Insert(i) => {
            assert_eq!(i.table, "t".to_string());
            assert_eq!(
                i.values,
                vec![Value::Text("Alice".to_string()), Value::Integer(30)]
            );
        },
        _ => panic!("expected an insert statement"),
    }
}

#[test]
fn parse_single_select() {
    let q = parse_sql_query("SELECT name, age FROM t;").unwrap();
    match q {
        SqlQuery::Select(s) => {
            assert_eq!(s.table, "t".to_string());
            assert_eq!(s.fields, vec!["name".to_string(), "age".to_string()]);
        },
        _ => panic!("expected a select statement"),
    }
}

#[test]
fn parse_rejects_malformed_text() {
    assert!(parse_sql_query("").is_err());
    assert!(parse_sql_query("DELETE FROM t").is_err());
    assert!(parse_sql_query("CREATE TABLE t(").is_err());
    assert!(parse_sql_query("SELECT FROM t").is_err());
    assert!(parse_sql_query("INSERT INTO t VALUES ()").is_err());
    assert!(parse_sql_query("CREATE TABLE t(a Text) garbage").is_err());
}

#[test]
fn parse_error_carries_the_offset() {
    // The star is the first character that fits no token.
    let err = parse_sql_query("SELECT * FROM t").unwrap_err();
    assert_eq!(err, ParseError { pos: 7 });
}

#[test]
fn parse_rejects_unterminated_string() {
    let err = parse_sql_query("INSERT INTO t VALUES (\"oops)").unwrap_err();
    assert_eq!(err.pos, 22);
}

#[test]
fn parse_rejects_oversized_integer() {
    assert!(parse_sql_query("INSERT INTO t VALUES (9223372036854775807)").is_ok());
    assert!(parse_sql_query("INSERT INTO t VALUES (9223372036854775808)").is_err());
}

#[test]
fn parse_multiple_needs_at_least_one_statement() {
    assert!(parse_multiple_queries("").is_err());
    assert!(parse_multiple_queries("   ").is_err());
    let qs = parse_multiple_queries("CREATE TABLE t(a Text);").unwrap();
    assert_eq!(qs.len(), 1);
}

#[test]
fn parse_multiple_splits_on_semicolons() {
    let qs = parse_multiple_queries(
        "CREATE TABLE t(a Text); INSERT INTO t VALUES (\"x\"); SELECT a FROM t;",
    )
    .unwrap();
    assert_eq!(qs.len(), 3);
}

#[test]
fn end_to_end_select_names_in_insertion_order() {
    let mut exec = Execution::new();
    exec.parse_and_run("CREATE TABLE t(name Text, age Integer)").unwrap();
    exec.parse_and_run("INSERT INTO t VALUES (\"Alice\", 30)").unwrap();
    exec.parse_and_run("INSERT INTO t VALUES (\"Bob\", 25)").unwrap();
    let resp = exec.parse_and_run("SELECT name FROM t").unwrap();
    let names = drain_names(resp);
    assert_eq!(
        names,
        vec![Value::Text("Alice".to_string()), Value::Text("Bob".to_string())]
    );
}

#[test]
fn end_to_end_type_mismatch_leaves_two_rows() {
    let mut exec = Execution::new();
    exec.parse_and_run("CREATE TABLE t(name Text, age Integer)").unwrap();
    exec.parse_and_run("INSERT INTO t VALUES (\"Alice\", 30)").unwrap();
    exec.parse_and_run("INSERT INTO t VALUES (\"Bob\", 25)").unwrap();
    let res = exec.parse_and_run("INSERT INTO t VALUES (\"Carl\", \"notanumber\")");
    match res {
        Err(SQLError::QueryExecutionError(e)) => {
            assert_eq!(
                e,
                QueryExecutionError::InsertTypeMismatch(
                    SqlTypeInfo::Integer,
                    Value::Text("notanumber".to_string())
                )
            );
        },
        _ => panic!("expected an execution error"),
    }
    let resp = exec.parse_and_run("SELECT name FROM t").unwrap();
    assert_eq!(drain_names(resp).len(), 2);
}

#[test]
fn parse_and_run_wraps_parse_failures() {
    let mut exec = Execution::new();
    let res = exec.parse_and_run("CREATE TABLE !");
    assert!(matches!(res, Err(SQLError::ParsingError(_))));
    let res = exec.parse_and_run("SELECT name FROM t");
    assert!(matches!(
        res,
        Err(SQLError::QueryExecutionError(QueryExecutionError::TableNotFound(_)))
    ));
}

#[test]
fn batched_text_returns_last_response_and_keeps_effects() {
    let mut exec = Execution::new();
    let resp = exec
        .parse_multiple_and_run(
            "CREATE TABLE t(name Text, age Integer); \
             INSERT INTO t VALUES (\"Alice\", 30); \
             SELECT name FROM t;",
        )
        .unwrap();
    assert_eq!(drain_names(resp), vec![Value::Text("Alice".to_string())]);
    // The CREATE and INSERT stay applied for later statements.
    let resp = exec.parse_and_run("SELECT name FROM t").unwrap();
    assert_eq!(drain_names(resp), vec![Value::Text("Alice".to_string())]);
}

#[test]
fn batched_text_failure_keeps_earlier_statements_applied() {
    let mut exec = Execution::new();
    let res = exec.parse_multiple_and_run(
        "CREATE TABLE t(name Text); INSERT INTO t VALUES (\"kept\"); INSERT INTO t VALUES (5);",
    );
    assert!(matches!(res, Err(SQLError::QueryExecutionError(_))));
    let resp = exec.parse_and_run("SELECT name FROM t").unwrap();
    assert_eq!(drain_names(resp), vec![Value::Text("kept".to_string())]);
}
