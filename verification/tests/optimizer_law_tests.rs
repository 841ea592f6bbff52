//! What the optimizer keeps, on concrete plans.

use arbor::optimizer::constant_folding::{fold_expr, try_fold_binary, ConstantFolding};
use arbor::optimizer::predicate_pushdown::PredicatePushdown;
use arbor::optimizer::projection_pruning::ProjectionPruning;
use arbor::optimizer::{collect_columns, optimize, OptimizerRule};
use arbor::error::ArborError;
use arbor::parser::parse_sql;
use arbor::planner::{plan_query, BinaryOp, Expr, LogicalPlan};
use arbor::types::{Catalog, DataType, Field, ScalarValue, Schema};

fn catalog() -> Catalog {
    let field = |n: &str, t: DataType| Field { name: n.into(), data_type: t };
    let mut c = Catalog::new();
    c.insert(
        "users".into(),
        Schema {
            fields: vec![
                field("id", DataType::Int64),
                field("name", DataType::Utf8),
                field("age", DataType::Int64),
            ],
        },
    );
    c.insert(
        "orders".into(),
        Schema {
            fields: vec![
                field("oid", DataType::Int64),
                field("user_id", DataType::Int64),
                field("amount", DataType::Float64),
            ],
        },
    );
    c
}

fn plan(sql: &str) -> LogicalPlan {
    plan_query(&parse_sql(sql).unwrap(), &catalog()).unwrap()
}

fn optimized(sql: &str) -> String {
    optimize(plan(sql)).unwrap().describe()
}

fn lit(v: ScalarValue) -> Expr {
    Expr::Literal(v)
}

fn whole(v: i64) -> Expr {
    lit(ScalarValue::Int64(v))
}

fn fraction(v: f64) -> Expr {
    lit(ScalarValue::Float64(v.to_bits()))
}

fn binary(left: Expr, op: BinaryOp, right: Expr) -> Expr {
    Expr::BinaryExpr { left: Box::new(left), op, right: Box::new(right) }
}

fn project(e: Expr) -> LogicalPlan {
    LogicalPlan::Projection {
        exprs: vec![e],
        schema: Schema { fields: vec![Field { name: "x".into(), data_type: DataType::Int64 }] },
        input: Box::new(LogicalPlan::Empty { schema: Schema { fields: vec![] } }),
    }
}

fn folded(e: Expr) -> Expr {
    match ConstantFolding.optimize(project(e)).unwrap() {
        LogicalPlan::Projection { exprs, .. } => exprs.into_iter().next().unwrap(),
        _ => panic!("expected a projection"),
    }
}

#[test]
fn filters_move_below_a_projection() {
    assert_eq!(
        optimized(
            "SELECT u.name, u.age, o.amount FROM users u JOIN orders o ON u.id = o.user_id \
             WHERE o.amount > 1.5 AND u.age < 30"
        ),
        "Projection(u.name, u.age, o.amount)\n  Filter(((o.amount > 1.5) AND (u.age < 30)))\n    \
         Join(Inner, on=u.id = o.user_id)\n      Scan(table=users, cols=3, projection=None)\n      \
         Scan(table=orders, cols=3, projection=Some([1, 2]))\n"
    );
}

#[test]
fn filters_move_to_their_side_of_a_join() {
    let join = match plan("SELECT u.id FROM users u JOIN orders o ON u.id = o.user_id") {
        LogicalPlan::Projection { input, .. } => input,
        _ => panic!("expected a projection"),
    };
    let column = |r: &str, n: &str| Expr::Column { name: n.into(), relation: Some(r.into()) };
    let predicate = binary(
        binary(
            binary(column("o", "amount"), BinaryOp::Gt, fraction(1.5)),
            BinaryOp::And,
            binary(column("u", "age"), BinaryOp::Lt, whole(30)),
        ),
        BinaryOp::And,
        binary(column("u", "age"), BinaryOp::Lt, column("o", "oid")),
    );
    let pushed = PredicatePushdown
        .optimize(LogicalPlan::Filter { predicate, input: join })
        .unwrap();
    assert_eq!(
        pushed.describe(),
        "Filter((u.age < o.oid))\n  Join(Inner, on=u.id = o.user_id)\n    \
         Filter((u.age < 30))\n      Scan(table=users, cols=3, projection=None)\n    \
         Filter((o.amount > 1.5))\n      Scan(table=orders, cols=3, projection=None)\n"
    );
}

#[test]
fn nested_filters_merge() {
    let scan = match plan("SELECT id FROM users") {
        LogicalPlan::Projection { input, .. } => input,
        _ => panic!("expected a projection"),
    };
    let id = Expr::Column { name: "id".into(), relation: None };
    let low = LogicalPlan::Filter {
        predicate: binary(id.clone(), BinaryOp::Gt, whole(1)),
        input: scan,
    };
    let both = LogicalPlan::Filter {
        predicate: binary(id, BinaryOp::Lt, whole(5)),
        input: Box::new(low),
    };
    assert_eq!(
        PredicatePushdown.optimize(both).unwrap().describe(),
        "Filter(((id < 5) AND (id > 1)))\n  Scan(table=users, cols=3, projection=None)\n"
    );
}

#[test]
fn scans_read_what_is_needed() {
    assert_eq!(
        optimized("SELECT age FROM users"),
        "Projection(age)\n  Scan(table=users, cols=3, projection=Some([2]))\n"
    );
    assert_eq!(
        optimized("SELECT COUNT(*) FROM users"),
        "Aggregate(groups=, aggr=COUNT(*))\n  Scan(table=users, cols=3, projection=Some([]))\n"
    );
}

#[test]
fn always_false_filters_leave_an_empty_plan() {
    let p = optimize(plan("SELECT id, age FROM users WHERE 1 > 2")).unwrap();
    assert!(p.describe().contains("Empty(cols="));
    let names: Vec<&str> = p.schema().fields.iter().map(|f| f.name.as_str()).collect();
    assert_eq!(names, vec!["id", "age"]);
}

#[test]
fn integer_constants_fold() {
    for (op, want) in [
        (BinaryOp::Plus, 9i64),
        (BinaryOp::Minus, 5),
        (BinaryOp::Mul, 14),
        (BinaryOp::Div, 3),
    ] {
        match folded(binary(whole(7), op, whole(2))) {
            Expr::Literal(ScalarValue::Int64(v)) => assert_eq!(v, want),
            _ => panic!("expected an integer"),
        }
    }
    for (op, want) in [
        (BinaryOp::Eq, false),
        (BinaryOp::Neq, true),
        (BinaryOp::Lt, false),
        (BinaryOp::Gt, true),
        (BinaryOp::LtEq, false),
        (BinaryOp::GtEq, true),
    ] {
        match folded(binary(whole(7), op, whole(2))) {
            Expr::Literal(ScalarValue::Boolean(v)) => assert_eq!(v, want),
            _ => panic!("expected a truth value"),
        }
    }
}

#[test]
fn float_constants_fold() {
    for (op, want) in [
        (BinaryOp::Plus, 2.0f64),
        (BinaryOp::Minus, 1.0),
        (BinaryOp::Mul, 0.75),
        (BinaryOp::Div, 3.0),
    ] {
        match folded(binary(fraction(1.5), op, fraction(0.5))) {
            Expr::Literal(ScalarValue::Float64(v)) => assert_eq!(f64::from_bits(v), want),
            _ => panic!("expected a float"),
        }
    }
}

#[test]
fn folding_twice_is_folding_once() {
    let a = Expr::Column { name: "a".into(), relation: None };
    let e = binary(binary(whole(1), BinaryOp::Plus, whole(2)), BinaryOp::Mul, a);
    let once = folded(e);
    assert_eq!(once.describe(), "(3 * a)");
    assert_eq!(folded(once).describe(), "(3 * a)");
}

#[test]
fn arithmetic_without_a_result_is_not_folded() {
    let over = binary(whole(i64::MAX), BinaryOp::Plus, whole(1));
    assert_eq!(folded(over).describe(), "(9223372036854775807 + 1)");
    let none = binary(whole(1), BinaryOp::Div, whole(0));
    assert_eq!(fold_expr(&none).describe(), "(1 / 0)");
    assert_eq!(
        optimized("SELECT id FROM users WHERE id > 1 / 0"),
        "Projection(id)\n  Filter((id > (1 / 0)))\n    \
         Scan(table=users, cols=3, projection=Some([0]))\n"
    );
    match folded(binary(fraction(1.0), BinaryOp::Div, fraction(0.0))) {
        Expr::Literal(ScalarValue::Float64(v)) => assert_eq!(f64::from_bits(v), f64::INFINITY),
        _ => panic!("expected a float"),
    }
}

#[test]
fn comparisons_fold_to_what_evaluation_gives() {
    let null = || ScalarValue::Null;
    let one = ScalarValue::Int64(1);
    let truth = |v: bool| ScalarValue::Boolean(v);
    let float = |v: f64| ScalarValue::Float64(v.to_bits());
    assert!(try_fold_binary(&null(), BinaryOp::Eq, &null()).is_none());
    assert!(try_fold_binary(&one, BinaryOp::Eq, &null()).is_none());
    assert!(try_fold_binary(&one, BinaryOp::And, &truth(true)).is_none());
    assert!(try_fold_binary(&truth(true), BinaryOp::And, &null()).is_none());
    assert!(matches!(
        try_fold_binary(&truth(true), BinaryOp::And, &truth(false)),
        Some(ScalarValue::Boolean(false))
    ));
    assert!(matches!(
        try_fold_binary(&truth(true), BinaryOp::Or, &truth(false)),
        Some(ScalarValue::Boolean(true))
    ));
    assert!(matches!(
        try_fold_binary(&float(-0.0), BinaryOp::Eq, &float(0.0)),
        Some(ScalarValue::Boolean(false))
    ));
    assert!(matches!(
        try_fold_binary(&float(-0.0), BinaryOp::Lt, &float(0.0)),
        Some(ScalarValue::Boolean(true))
    ));
}

#[test]
fn a_projection_that_renames_stays() {
    assert_eq!(
        optimized("SELECT id AS x FROM users"),
        "Projection(id)\n  Scan(table=users, cols=3, projection=Some([0]))\n"
    );
    let p = optimize(plan("SELECT id AS a, name AS b, age AS c FROM users")).unwrap();
    let names: Vec<&str> = p.schema().fields.iter().map(|f| f.name.as_str()).collect();
    assert_eq!(names, vec!["a", "b", "c"]);
    assert!(matches!(p, LogicalPlan::Projection { .. }));
    assert!(matches!(
        optimize(plan("SELECT * FROM users")).unwrap(),
        LogicalPlan::Scan { .. }
    ));
    assert!(matches!(
        optimize(plan("SELECT id, age, name FROM users")).unwrap(),
        LogicalPlan::Projection { .. }
    ));
}

#[test]
fn an_alias_names_the_columns_of_a_table() {
    assert_eq!(
        optimized("SELECT u.id FROM users u"),
        "Projection(u.id)\n  Scan(table=users, cols=3, projection=Some([0]))\n"
    );
}

#[test]
fn right_conditions_stay_above_a_left_join() {
    let join = match plan("SELECT u.id FROM users u LEFT JOIN orders o ON u.id = o.user_id") {
        LogicalPlan::Projection { input, .. } => input,
        _ => panic!("expected a projection"),
    };
    let column = |r: &str, n: &str| Expr::Column { name: n.into(), relation: Some(r.into()) };
    let predicate = binary(
        binary(column("o", "amount"), BinaryOp::Gt, fraction(1.5)),
        BinaryOp::And,
        binary(column("u", "age"), BinaryOp::Lt, whole(30)),
    );
    let pushed = PredicatePushdown
        .optimize(LogicalPlan::Filter { predicate, input: join })
        .unwrap();
    assert_eq!(
        pushed.describe(),
        "Filter((o.amount > 1.5))\n  Join(Left, on=u.id = o.user_id)\n    \
         Filter((u.age < 30))\n      Scan(table=users, cols=3, projection=None)\n    \
         Scan(table=orders, cols=3, projection=None)\n"
    );
}

#[test]
fn join_keys_are_turned_to_their_sides() {
    let p = plan("SELECT u.id FROM users u JOIN orders o ON o.user_id = u.id");
    assert!(p.describe().contains("Join(Inner, on=u.id = o.user_id)"));
}

#[test]
fn rules_have_names() {
    assert_eq!(PredicatePushdown.name(), "predicate_pushdown");
    assert_eq!(ProjectionPruning.name(), "projection_pruning");
    assert_eq!(ConstantFolding.name(), "constant_folding");
}

struct DropLimits;

impl OptimizerRule for DropLimits {
    fn name(&self) -> &str {
        "drop_limits"
    }

    fn optimize(&self, plan: LogicalPlan) -> Result<LogicalPlan, ArborError> {
        match plan {
            LogicalPlan::Limit { input, .. } => Ok(*input),
            other => Ok(other),
        }
    }
}

#[test]
fn rules_can_be_written_outside_the_library() {
    let out = DropLimits.optimize(plan("SELECT id FROM users LIMIT 3")).unwrap();
    assert!(matches!(out, LogicalPlan::Projection { .. }));
}

#[test]
fn columns_of_an_expression_are_collected_once() {
    let a = Expr::Column { name: "a".into(), relation: None };
    let ub = Expr::Column { name: "b".into(), relation: Some("u".into()) };
    let e = binary(binary(a.clone(), BinaryOp::Plus, ub), BinaryOp::Lt, a);
    let c = collect_columns(&e);
    assert_eq!(c.len(), 2);
    assert!(c.contains("a"));
    assert!(c.contains("u.b"));
}
