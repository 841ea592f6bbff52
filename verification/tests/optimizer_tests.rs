//! The rewrite rules of the logical optimizer.

use arbor::optimizer::{collect_columns, optimize};
use arbor::planner::{BinaryOp, Expr, LogicalPlan};
use arbor::types::{DataType, Field, ScalarValue, Schema};

fn column(name: &str) -> Expr {
    Expr::Column { name: name.into(), relation: None }
}

fn field(name: &str) -> Field {
    Field { name: name.into(), data_type: DataType::Int64 }
}

fn scan5(name: &str) -> LogicalPlan {
    let fields: Vec<Field> = (0..5).map(|i| field(&format!("c{i}"))).collect();
    LogicalPlan::Scan { table_name: name.to_string(), schema: Schema { fields }, projection: None }
}

#[test]
fn filter_pushed_below_projection() {
    let s = scan5("t");
    let proj = LogicalPlan::Projection {
        exprs: vec![column("c0"), column("c1")],
        schema: Schema { fields: vec![field("c0"), field("c1")] },
        input: Box::new(s),
    };
    let pred = Expr::BinaryExpr {
        left: Box::new(column("c0")),
        op: BinaryOp::Gt,
        right: Box::new(Expr::Literal(ScalarValue::Int64(0))),
    };
    let plan = LogicalPlan::Filter { predicate: pred, input: Box::new(proj) };
    let out = optimize(plan).unwrap();
    assert!(
        matches!(out, LogicalPlan::Projection { .. }),
        "expected Projection root, got {}",
        out.describe()
    );
    let LogicalPlan::Projection { input, .. } = out else {
        unreachable!();
    };
    assert!(
        matches!(input.as_ref(), LogicalPlan::Filter { .. }),
        "expected Filter under Projection"
    );
}

#[test]
fn projection_prunes_scan_columns() {
    let scan = scan5("t");
    let proj = LogicalPlan::Projection {
        exprs: vec![column("c0"), column("c4")],
        schema: Schema { fields: vec![field("c0"), field("c4")] },
        input: Box::new(scan),
    };
    let plan = optimize(proj).unwrap();
    match plan {
        LogicalPlan::Projection { input, .. } => match input.as_ref() {
            LogicalPlan::Scan { projection, .. } => {
                assert_eq!(projection.as_ref(), Some(&vec![0, 4]));
            }
            _ => panic!("expected scan child"),
        },
        _ => panic!("expected projection root"),
    }
}

#[test]
fn constant_filter_removed() {
    let scan = scan5("t");
    let pred = Expr::BinaryExpr {
        left: Box::new(Expr::Literal(ScalarValue::Int64(1))),
        op: BinaryOp::Eq,
        right: Box::new(Expr::Literal(ScalarValue::Int64(1))),
    };
    let plan = LogicalPlan::Filter { predicate: pred, input: Box::new(scan) };
    let out = optimize(plan).unwrap();
    assert!(
        matches!(out, LogicalPlan::Scan { .. }),
        "expected Filter removed, got {}",
        out.describe()
    );
}

#[test]
fn collect_columns_qualified() {
    let e = Expr::Column { name: "id".into(), relation: Some("u".into()) };
    let c = collect_columns(&e);
    assert!(c.contains("u.id"));
}
