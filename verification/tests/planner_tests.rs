//! From parsed queries to logical plans.

use arbor::error::ArborError;
use arbor::parser::ast::{Statement, SqlExpr};
use arbor::parser::parse_sql;
use arbor::planner::expressions::{default_output_name, infer_expr_type, object_name_last};
use arbor::planner::logical_plan::{column_key, indent_fmt};
use arbor::planner::query::{parse_qualified_column, qualified_field_belongs};
use arbor::planner::{convert_expr, plan_query, AggFunc, BinaryOp, Expr, LogicalPlan};
use arbor::types::{Catalog, DataType, Field, ScalarValue, Schema};

fn test_catalog() -> Catalog {
    let schema = Schema {
        fields: vec![
            Field { name: "a".into(), data_type: DataType::Int64 },
            Field { name: "b".into(), data_type: DataType::Int64 },
        ],
    };
    let mut c = Catalog::new();
    c.insert("t".into(), schema);
    c
}

#[test]
fn plan_simple_select_where() {
    let cat = test_catalog();
    let stmt = parse_sql("SELECT a, b FROM t WHERE a > 10").unwrap();
    let plan = plan_query(&stmt, &cat).unwrap();
    assert!(matches!(plan, LogicalPlan::Filter { .. }));
    if let LogicalPlan::Filter { input, .. } = &plan {
        match input.as_ref() {
            LogicalPlan::Projection { input: inner, .. } => {
                assert!(matches!(inner.as_ref(), LogicalPlan::Scan { .. }));
            }
            _ => panic!("expected projection under filter"),
        }
    }
}

#[test]
fn plan_aggregate_group_by() {
    let mut cat = Catalog::new();
    cat.insert(
        "t".into(),
        Schema { fields: vec![Field { name: "city".into(), data_type: DataType::Utf8 }] },
    );
    let stmt = parse_sql("SELECT city, COUNT(*) FROM t GROUP BY city").unwrap();
    let plan = plan_query(&stmt, &cat).unwrap();
    assert!(matches!(plan, LogicalPlan::Aggregate { .. }));
}

fn shop() -> Catalog {
    let field = |n: &str, t: DataType| Field { name: n.into(), data_type: t };
    let mut c = test_catalog();
    c.insert(
        "users".into(),
        Schema {
            fields: vec![
                field("id", DataType::Int64),
                field("name", DataType::Utf8),
                field("rate", DataType::Float64),
            ],
        },
    );
    c.insert(
        "orders".into(),
        Schema { fields: vec![field("id", DataType::Int64), field("user_id", DataType::Int64)] },
    );
    c
}

fn plan(sql: &str) -> LogicalPlan {
    plan_query(&parse_sql(sql).unwrap(), &shop()).unwrap()
}

fn plan_fails(sql: &str) -> String {
    match plan_query(&parse_sql(sql).unwrap(), &shop()) {
        Err(ArborError::Plan(s)) => s,
        Err(e) => panic!("expected a plan error, got {}", e.message()),
        Ok(p) => panic!("expected a plan error, got {}", p.describe()),
    }
}

#[test]
fn a_plan_is_written_line_by_line() {
    assert_eq!(
        plan("SELECT a, b + 1 AS c FROM t WHERE a > 10 ORDER BY a DESC LIMIT 5").describe(),
        "Limit(5)\n  Sort(a DESC)\n    Filter((a > 10))\n      Projection(a, (b + 1))\n        \
         Scan(table=t, cols=2, projection=None)\n"
    );
}

#[test]
fn a_join_is_written_with_its_keys() {
    assert_eq!(
        plan("SELECT u.name FROM users u JOIN orders o ON u.id = o.user_id").describe(),
        "Projection(u.name)\n  Join(Inner, on=u.id = o.user_id)\n    \
         Scan(table=users, cols=3, projection=None)\n    \
         Scan(table=orders, cols=2, projection=None)\n"
    );
}

#[test]
fn an_aggregation_is_written_with_its_groups() {
    assert_eq!(
        plan("SELECT a, SUM(b), COUNT(*) FROM t GROUP BY a").describe(),
        "Aggregate(groups=a, aggr=SUM(b), COUNT(*))\n  Scan(table=t, cols=2, projection=None)\n"
    );
}

#[test]
fn wildcards_select_every_column() {
    let p = plan("SELECT * FROM users");
    let names: Vec<&str> = p.schema().fields.iter().map(|f| f.name.as_str()).collect();
    assert_eq!(names, vec!["id", "name", "rate"]);
    let p = plan("SELECT o.* FROM users u JOIN orders o ON u.id = o.user_id");
    let names: Vec<&str> = p.schema().fields.iter().map(|f| f.name.as_str()).collect();
    assert_eq!(names.len(), 2);
}

#[test]
fn function_names_are_read_in_any_case() {
    let p = plan("SELECT cOuNt(*) FROM t");
    match p {
        LogicalPlan::Aggregate { aggr_exprs, .. } => assert!(matches!(
            aggr_exprs[0],
            Expr::AggregateFunc { func: AggFunc::Count, .. }
        )),
        _ => panic!("expected an aggregation"),
    }
}

#[test]
fn literals_become_scalars() {
    let where_of = |sql: &str| match plan(sql) {
        LogicalPlan::Filter { predicate: Expr::BinaryExpr { right, .. }, .. } => *right,
        _ => panic!("expected a comparison"),
    };
    assert!(matches!(
        where_of("SELECT a FROM t WHERE a = 7"),
        Expr::Literal(ScalarValue::Int64(7))
    ));
    match where_of("SELECT rate FROM users WHERE rate = 2.5") {
        Expr::Literal(ScalarValue::Float64(v)) => assert_eq!(v, 2.5f64.to_bits()),
        _ => panic!("expected a float"),
    }
    match where_of("SELECT name FROM users WHERE name = 'x'") {
        Expr::Literal(ScalarValue::Utf8(s)) => assert_eq!(s, "x"),
        _ => panic!("expected a text"),
    }
    assert!(matches!(
        where_of("SELECT a FROM t WHERE a = NULL"),
        Expr::Literal(ScalarValue::Null)
    ));
    assert!(matches!(
        where_of("SELECT a FROM t WHERE a = TRUE"),
        Expr::Literal(ScalarValue::Boolean(true))
    ));
}

#[test]
fn unknown_names_are_plan_errors() {
    assert_eq!(plan_fails("SELECT a FROM nowhere"), "unknown table 'nowhere'");
    assert_eq!(plan_fails("SELECT z FROM t"), "unknown column 'z'");
    assert_eq!(plan_fails("SELECT x.z FROM t"), "unknown column x.z");
    assert_eq!(
        plan_fails("SELECT id FROM users u JOIN orders o ON u.id = o.user_id"),
        "ambiguous column 'id'"
    );
    assert_eq!(plan_fails("SELECT nosuch(a) FROM t"), "unsupported function 'NOSUCH'");
}

#[test]
fn unsupported_clauses_are_plan_errors() {
    assert_eq!(plan_fails("WITH x AS (SELECT a FROM t) SELECT a FROM x"), "WITH / CTE is not supported");
    assert_eq!(
        plan_fails("SELECT a FROM t UNION SELECT b FROM t"),
        "only simple SELECT bodies are supported"
    );
    assert_eq!(plan_fails("SELECT DISTINCT a FROM t"), "DISTINCT is not supported");
    assert_eq!(
        plan_fails("SELECT a, COUNT(*) FROM t GROUP BY a HAVING a > 1"),
        "HAVING is not supported"
    );
    assert_eq!(plan_fails("SELECT a FROM t, users"), "exactly one FROM item is required");
    assert_eq!(plan_fails("SELECT 1"), "exactly one FROM item is required");
    assert_eq!(plan_fails("SELECT a INTO b FROM t"), "INTO is not supported");
    assert_eq!(
        plan_fails("SELECT a FROM (SELECT a FROM t) x"),
        "unsupported table factor (subquery, TVF, etc.)"
    );
    assert_eq!(plan_fails("SELECT CAST(a AS TEXT) FROM t"), "CAST is not supported in planner");
}

#[test]
fn joins_need_aliases_and_equalities() {
    assert_eq!(
        plan_fails("SELECT users.id FROM users JOIN orders o ON users.id = o.user_id"),
        "table alias is required in JOIN chains"
    );
    assert_eq!(
        plan_fails("SELECT u.id FROM users u JOIN orders o ON u.id > o.user_id"),
        "only equi-join AND conjunctions are supported"
    );
    assert_eq!(
        plan_fails("SELECT u.id FROM users u RIGHT JOIN orders o ON u.id = o.user_id"),
        "only INNER/LEFT JOIN ... ON supported"
    );
    assert_eq!(
        plan_fails("SELECT u.id FROM users u LEFT SEMI JOIN orders o ON u.id = o.user_id"),
        "unsupported JOIN form"
    );
    assert_eq!(
        plan_fails("SELECT u.id FROM users u JOIN orders o USING (id)"),
        "only INNER/LEFT JOIN ... ON supported"
    );
}

#[test]
fn limits_are_numbers() {
    assert_eq!(plan_fails("SELECT a FROM t LIMIT 'x'"), "LIMIT must be a numeric literal");
    assert_eq!(plan_fails("SELECT a FROM t LIMIT 1 + 1"), "LIMIT must be a simple literal");
    assert_eq!(plan_fails("SELECT a FROM t LIMIT 1.5"), "invalid LIMIT value '1.5'");
    assert!(matches!(plan("SELECT a FROM t LIMIT 0"), LogicalPlan::Limit { n: 0, .. }));
}

#[test]
fn groups_are_listed_exactly() {
    assert_eq!(
        plan_fails("SELECT a, b, COUNT(*) FROM t GROUP BY a"),
        "SELECT must list exactly the GROUP BY columns (non-aggregate)"
    );
    assert_eq!(plan_fails("SELECT a, *, COUNT(*) FROM t GROUP BY a"), "wildcard not allowed with GROUP BY");
    assert_eq!(
        plan_fails("SELECT a FROM t GROUP BY a"),
        "aggregation query requires at least one aggregate function"
    );
    assert_eq!(
        plan_fails("SELECT a, a, COUNT(*) FROM t GROUP BY a"),
        "duplicate GROUP BY column in SELECT"
    );
}

#[test]
fn statements_other_than_queries_are_not_planned() {
    match plan_query(&Statement::Other, &shop()) {
        Err(ArborError::Plan(s)) => assert_eq!(s, "expected SELECT statement"),
        _ => panic!("expected a plan error"),
    }
}

#[test]
fn qualified_names_belong_to_their_relation() {
    assert!(qualified_field_belongs("u.id", "u"));
    assert!(!qualified_field_belongs("ux.id", "u"));
    match parse_qualified_column("u.id", "u").unwrap() {
        Expr::Column { name, relation } => {
            assert_eq!(name, "id");
            assert_eq!(relation.unwrap(), "u");
        }
        _ => panic!("expected a column"),
    }
    match parse_qualified_column("id", "u") {
        Err(e) => assert_eq!(e.message(), "plan error: expected column 'id' to start with 'u.'"),
        Ok(_) => panic!("expected a plan error"),
    }
}

#[test]
fn keys_and_names_of_expressions() {
    assert_eq!(column_key("id", None), "id");
    assert_eq!(column_key("id", Some(&"u".to_string())), "u.id");
    assert_eq!(indent_fmt(2), "    ");
    assert_eq!(object_name_last(&vec!["s".to_string(), "t".to_string()]), "t");
    let a = Expr::Column { name: "a".into(), relation: None };
    assert_eq!(default_output_name(&a), "a");
    let sum = Expr::AggregateFunc { func: AggFunc::Sum, arg: Box::new(a.clone()) };
    assert_eq!(default_output_name(&sum), "sum");
    let schema = shop().get("t").unwrap().clone();
    assert!(infer_expr_type(&sum, &schema).unwrap() == DataType::Int64);
    let avg = Expr::AggregateFunc { func: AggFunc::Avg, arg: Box::new(a.clone()) };
    assert!(infer_expr_type(&avg, &schema).unwrap() == DataType::Float64);
    let less = Expr::BinaryExpr {
        left: Box::new(a.clone()),
        op: BinaryOp::Lt,
        right: Box::new(a),
    };
    assert!(infer_expr_type(&less, &schema).unwrap() == DataType::Boolean);
}

#[test]
fn expressions_are_converted_over_a_schema() {
    let schema = shop().get("t").unwrap().clone();
    match convert_expr(&SqlExpr::Identifier("b".to_string()), &schema).unwrap() {
        Expr::Column { name, relation } => {
            assert_eq!(name, "b");
            assert!(relation.is_none());
        }
        _ => panic!("expected a column"),
    }
    assert!(convert_expr(&SqlExpr::Identifier("z".to_string()), &schema).is_err());
}

#[test]
fn joined_columns_have_names_of_their_own() {
    let p = plan("SELECT * FROM t x JOIN t x ON x.a = x.b");
    let names: Vec<&str> = p.schema().fields.iter().map(|f| f.name.as_str()).collect();
    assert_eq!(names, vec!["x.a", "x.b", "x.a_dup", "x.b_dup"]);
    assert_eq!(
        plan_fails("SELECT * FROM t x JOIN t x ON x.a = x.b JOIN t x ON x.a = x.b"),
        "duplicate column names in JOIN; rename in SQL"
    );
}
