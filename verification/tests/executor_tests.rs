//! Expressions and operators over batches in memory.

use arbor::executor::batch::Batch;
use arbor::executor::{evaluate_expr, Column};
use arbor::planner::{BinaryOp, Expr};
use arbor::types::{DataType, Field, ScalarValue, Schema};

fn field(name: &str, data_type: DataType) -> Field {
    Field { name: name.into(), data_type }
}

fn texts(values: &[&str]) -> Column {
    Column::of_texts(values.iter().map(|s| Some(s.to_string())).collect()).unwrap()
}

fn test_batch() -> Batch {
    let schema =
        Schema { fields: vec![field("age", DataType::Int64), field("city", DataType::Utf8)] };
    let columns = vec![
        Column::of_ints(vec![Some(20), Some(30), Some(40)]),
        texts(&["NYC", "LA", "NYC"]),
    ];
    Batch::try_new(&schema, &columns, None).unwrap()
}

#[test]
fn col_and_predicates() {
    let b = test_batch();
    let age =
        evaluate_expr(&Expr::Column { name: "age".into(), relation: None }, &b).unwrap();
    assert_eq!(age.len(), 3);
    let pred = evaluate_expr(
        &Expr::BinaryExpr {
            left: Box::new(Expr::Column { name: "age".into(), relation: None }),
            op: BinaryOp::Gt,
            right: Box::new(Expr::Literal(ScalarValue::Int64(25))),
        },
        &b,
    )
    .unwrap();
    assert!(pred.data_type() == DataType::Boolean);
    assert!(pred.scalar(0) == Some(ScalarValue::Boolean(false)));
    assert!(pred.scalar(1) == Some(ScalarValue::Boolean(true)));
}
