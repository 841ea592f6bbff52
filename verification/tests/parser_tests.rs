//! Parsing SQL text.

use arbor::error::ArborError;
use arbor::parser::ast::{SelectItem, SetExpr, SqlExpr, Statement, Value};
use arbor::parser::parse_sql;

#[test]
fn parses_valid_select() {
    let stmt = parse_sql("SELECT a, b FROM t").expect("parse");
    assert!(matches!(stmt, Statement::Query(_)));
}

#[test]
fn insert_errors() {
    let err = parse_sql("INSERT INTO t VALUES (1)").unwrap_err();
    match err {
        ArborError::Parse(msg) => assert!(msg.contains("Only SELECT")),
        _ => panic!("expected Parse error"),
    }
}

#[test]
fn empty_string_errors() {
    assert!(parse_sql("").is_err());
    assert!(parse_sql("   ").is_err());
}

#[test]
fn text_without_statement_says_so() {
    let err = parse_sql("").unwrap_err();
    assert_eq!(err.message(), "parse error: no statements in SQL");
}

#[test]
fn malformed_sql_is_a_parse_error() {
    let err = parse_sql("SELECT FROM WHERE").unwrap_err();
    assert!(matches!(err, ArborError::Parse(_)));
    assert!(err.message().starts_with("parse error: sql parser error"));
}

#[test]
fn tree_holds_what_the_text_says() {
    let stmt = parse_sql("SELECT x.a AS n, 1.5 FROM t AS x WHERE a > 10 ORDER BY n DESC LIMIT 3").unwrap();
    let Statement::Query(query) = stmt else {
        panic!("expected a query");
    };
    assert!(!query.with);
    assert_eq!(query.order_by.len(), 1);
    assert_eq!(query.order_by[0].asc, Some(false));
    match &query.limit {
        Some(SqlExpr::Value(Value::Number(n))) => assert_eq!(n, "3"),
        _ => panic!("expected a number"),
    }
    let SetExpr::Select(select) = &query.body else {
        panic!("expected a select");
    };
    assert_eq!(select.from.len(), 1);
    assert!(select.selection.is_some());
    assert!(!select.distinct);
    match &select.projection[0] {
        SelectItem::ExprWithAlias { expr: SqlExpr::CompoundIdentifier(parts), alias } => {
            assert_eq!(parts, &vec!["x".to_string(), "a".to_string()]);
            assert_eq!(alias, "n");
        }
        _ => panic!("expected a labelled column"),
    }
    match &select.projection[1] {
        SelectItem::UnnamedExpr(SqlExpr::Value(Value::Number(n))) => assert_eq!(n, "1.5"),
        _ => panic!("expected a number"),
    }
}

#[test]
fn texts_that_the_parser_would_stop_on_are_refused() {
    for sql in [
        "REPLACE INTO t VALUES (1)",
        "SELECT a FROM t; REPLACE INTO",
        "EXPLAIN REPLACE",
        "PREPARE p AS REPLACE INTO t",
        "SELECT TOP 1.5 a FROM t",
        "GRANT SELECT ON t TO x GRANTED BY 1",
        "FLUSH RELAY LOGS FOR CHANNEL x.",
        "CREATE TABLE t (a INT) AUTO_INCREMENT 1.5",
    ] {
        assert_eq!(
            parse_sql(sql).unwrap_err().message(),
            "parse error: unsupported statement or clause",
            "{sql}"
        );
    }
}

#[test]
fn texts_that_only_look_alike_are_parsed() {
    for sql in [
        "SELECT describe, replace FROM t",
        "EXPLAIN SELECT replace FROM t",
        "SELECT a AS replace FROM t; SELECT b FROM t",
        "SELECT TOP 5 a FROM t",
    ] {
        match parse_sql(sql) {
            Ok(stmt) => assert!(matches!(stmt, Statement::Query(_)), "{sql}"),
            Err(e) => assert!(e.message().contains("Only SELECT"), "{sql}"),
        }
    }
    for sql in ["GRANT SELECT ON t TO x GRANTED BY y", "FLUSH RELAY LOGS FOR CHANNEL x"] {
        assert!(parse_sql(sql).unwrap_err().message().contains("Only SELECT"), "{sql}");
    }
}
