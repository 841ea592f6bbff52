//! Evaluate constant expressions and drop always-true filters.

use vstd::prelude::*;
use crate::error::ArborError;
use crate::float::{
    float_difference, float_minus, float_of_int, float_over, float_plus, float_product,
    float_quotient, float_sum, float_times, int_to_float, settle, settled, total_below,
};
use crate::optimizer::OptimizerRule;
use crate::executor::batch::kernels::{order_meets, value_order};
use crate::executor::batch::Cell;
use crate::order::{compare_scalars, Order};
use crate::planner::logical_plan::{
    BinaryOp, Expr, ExprView, LogicalPlan, PlanView, SortExpr, SortView,
};
use crate::types::{views, ScalarValue, ScalarView};

verus! {

/// The operator computes a number.
pub open spec fn is_arithmetic(op: BinaryOp) -> bool {
    op == BinaryOp::Plus || op == BinaryOp::Minus || op == BinaryOp::Mul || op == BinaryOp::Div
}

/// The quotient of two integers, rounded toward zero.
pub open spec fn truncated_quotient(x: int, y: int) -> int {
    let a = if x < 0 { -x } else { x };
    let b = if y < 0 { -y } else { y };
    if (x < 0) == (y < 0) { a / b } else { -(a / b) }
}

/// What an arithmetic operator makes of two integers.
pub open spec fn int_result(op: BinaryOp, x: int, y: int) -> int {
    match op {
        BinaryOp::Plus => x + y,
        BinaryOp::Minus => x - y,
        BinaryOp::Mul => x * y,
        _ => truncated_quotient(x, y),
    }
}

/// The operator has a 64-bit result on these integers.
pub open spec fn int_defined(op: BinaryOp, x: i64, y: i64) -> bool {
    !(op == BinaryOp::Div && y == 0) && i64::MIN <= int_result(op, x as int, y as int) <= i64::MAX
}

/// What an arithmetic operator makes of two floats.
pub open spec fn float_result(op: BinaryOp, x: u64, y: u64) -> u64 {
    match op {
        BinaryOp::Plus => float_sum(x, y),
        BinaryOp::Minus => float_difference(x, y),
        BinaryOp::Mul => float_product(x, y),
        _ => float_quotient(x, y),
    }
}

/// What an arithmetic operator makes of two constants, an integer counting as a float beside one.
/// Without a 64-bit result, integers are left for execution to report.
pub open spec fn folded_number(a: ScalarView, op: BinaryOp, b: ScalarView) -> Option<ScalarView> {
    match (a, b) {
        (ScalarView::Int64(x), ScalarView::Int64(y)) => if int_defined(op, x, y) {
            Some(ScalarView::Int64(int_result(op, x as int, y as int) as i64))
        } else {
            None
        },
        (ScalarView::Float64(x), ScalarView::Float64(y)) => Some(
            ScalarView::Float64(settled(float_result(op, x, y))),
        ),
        (ScalarView::Int64(x), ScalarView::Float64(y)) => Some(
            ScalarView::Float64(settled(float_result(op, float_of_int(x), y))),
        ),
        (ScalarView::Float64(x), ScalarView::Int64(y)) => Some(
            ScalarView::Float64(settled(float_result(op, x, float_of_int(y)))),
        ),
        _ => None,
    }
}

/// What an operator makes of two constants, where it can be told beforehand: what it makes of them
/// in every row.
pub open spec fn folded(a: ScalarView, op: BinaryOp, b: ScalarView) -> Option<ScalarView> {
    if op == BinaryOp::And || op == BinaryOp::Or {
        match (a, b) {
            (ScalarView::Boolean(x), ScalarView::Boolean(y)) => Some(
                ScalarView::Boolean(if op == BinaryOp::And { x && y } else { x || y }),
            ),
            _ => None,
        }
    } else if is_arithmetic(op) {
        folded_number(a, op, b)
    } else {
        match value_order(Cell::Scalar(a), Cell::Scalar(b)) {
            Some(o) => Some(ScalarView::Boolean(order_meets(op, o))),
            None => None,
        }
    }
}

/// The expression with its constant parts evaluated.
pub open spec fn fold(e: ExprView) -> ExprView
    decreases e,
{
    match e {
        ExprView::Binary { left, op, right } => {
            let l = fold(*left);
            let r = fold(*right);
            let same = ExprView::Binary { left: Box::new(l), op, right: Box::new(r) };
            match (l, r) {
                (ExprView::Literal(a), ExprView::Literal(b)) => match folded(a, op, b) {
                    Some(v) => ExprView::Literal(v),
                    None => same,
                },
                _ => same,
            }
        },
        ExprView::Aggregate { func, arg } => ExprView::Aggregate {
            func,
            arg: Box::new(fold(*arg)),
        },
        ExprView::Alias { expr, name } => ExprView::Alias { expr: Box::new(fold(*expr)), name },
        _ => e,
    }
}

/// The expressions, each folded.
pub open spec fn fold_all(es: Seq<ExprView>) -> Seq<ExprView> {
    Seq::new(es.len(), |i: int| fold(es[i]))
}

/// The sort keys, each folded.
pub open spec fn fold_sorts(es: Seq<SortView>) -> Seq<SortView> {
    Seq::new(es.len(), |i: int| SortView { expr: fold(es[i].expr), asc: es[i].asc })
}

/// The join keys, each folded.
pub open spec fn fold_pairs(on: Seq<(ExprView, ExprView)>) -> Seq<(ExprView, ExprView)> {
    Seq::new(on.len(), |i: int| (fold(on[i].0), fold(on[i].1)))
}

/// A filter that folds to a constant is dropped, or leaves nothing.
pub open spec fn fold_filter(predicate: ExprView, input: PlanView) -> PlanView {
    if predicate == ExprView::Literal(ScalarView::Boolean(true)) {
        input
    } else if predicate == ExprView::Literal(ScalarView::Boolean(false)) {
        PlanView::Empty { schema: input.schema() }
    } else {
        PlanView::Filter { predicate, input: Box::new(input) }
    }
}

/// The plan with its expressions folded and its constant filters resolved.
pub open spec fn fold_down(p: PlanView) -> PlanView
    decreases p,
{
    match p {
        PlanView::Filter { predicate, input } => fold_filter(fold(predicate), fold_down(*input)),
        PlanView::Projection { exprs, schema, input } => PlanView::Projection {
            exprs: fold_all(exprs),
            schema,
            input: Box::new(fold_down(*input)),
        },
        PlanView::Aggregate { group_by, aggr_exprs, schema, input } => PlanView::Aggregate {
            group_by: fold_all(group_by),
            aggr_exprs: fold_all(aggr_exprs),
            schema,
            input: Box::new(fold_down(*input)),
        },
        PlanView::Sort { exprs, input } => PlanView::Sort {
            exprs: fold_sorts(exprs),
            input: Box::new(fold_down(*input)),
        },
        PlanView::Join { left, right, on, join_type, schema } => PlanView::Join {
            left: Box::new(fold_down(*left)),
            right: Box::new(fold_down(*right)),
            on: fold_pairs(on),
            join_type,
            schema,
        },
        PlanView::Limit { n, input } => PlanView::Limit { n, input: Box::new(fold_down(*input)) },
        _ => p,
    }
}

/// Applies an arithmetic operator to two integers, where it has a 64-bit result.
fn int_arith_checked(op: BinaryOp, x: i64, y: i64) -> (r: Option<i64>)
    requires
        is_arithmetic(op),
    ensures
        match r {
            Some(v) => int_defined(op, x, y) && v == int_result(op, x as int, y as int),
            None => !int_defined(op, x, y),
        },
{
    match op {
        BinaryOp::Plus => x.checked_add(y),
        BinaryOp::Minus => x.checked_sub(y),
        BinaryOp::Mul => x.checked_mul(y),
        _ => {
            if y == 0 {
                return None;
            }
            if x == i64::MIN && y == -1 {
                proof {
                    assert(truncated_quotient(x as int, y as int) == 0x8000_0000_0000_0000);
                }
                return None;
            }
            proof {
                lemma_quotient_fits(x, y);
            }
            Some(int_arith(op, x, y))
        },
    }
}

/// The quotient of two 64-bit integers fits in 64 bits, but for one pair.
pub proof fn lemma_quotient_fits(x: i64, y: i64)
    requires
        y != 0,
        !(x == i64::MIN && y == -1),
    ensures
        i64::MIN <= truncated_quotient(x as int, y as int) <= i64::MAX,
{
    let a = if x < 0 { -(x as int) } else { x as int };
    let b = if y < 0 { -(y as int) } else { y as int };
    assert(0 <= a / b <= a) by (nonlinear_arith)
        requires
            a >= 0,
            b >= 1,
    ;
    if x == i64::MIN && y < 0 {
        assert(b >= 2);
        assert(a / b <= a / 2) by (nonlinear_arith)
            requires
                a >= 0,
                b >= 2,
        ;
    }
}

/// Folds constant sub-expressions and removes trivial filters.
pub struct ConstantFolding;

impl OptimizerRule for ConstantFolding {
    open spec fn rewrites(&self, plan: PlanView, out: PlanView) -> bool {
        out == fold_down(plan)
    }

    fn name(&self) -> (r: &str)
        ensures
            r@ == "constant_folding"@,
    {
        "constant_folding"
    }

    fn optimize(&self, plan: LogicalPlan) -> (r: Result<LogicalPlan, ArborError>)
        ensures
            r is Ok,
    {
        Ok(fold_plan(plan))
    }
}

fn fold_exprs(es: &Vec<Expr>) -> (r: Vec<Expr>)
    ensures
        views(r@) == fold_all(views(es@)),
{
    let mut out: Vec<Expr> = Vec::new();
    let mut i: usize = 0;
    while i < es.len()
        invariant
            i <= es.len(),
            out.len() == i,
            forall|k: int| 0 <= k < i ==> (#[trigger] out[k])@ == fold(es[k]@),
        decreases es.len() - i,
    {
        out.push(fold_expr(&es[i]));
        i = i + 1;
    }
    proof {
        assert(views(out@) =~= fold_all(views(es@)));
    }
    out
}

fn fold_sort_exprs(es: &Vec<SortExpr>) -> (r: Vec<SortExpr>)
    ensures
        views(r@) == fold_sorts(views(es@)),
{
    let mut out: Vec<SortExpr> = Vec::new();
    let mut i: usize = 0;
    while i < es.len()
        invariant
            i <= es.len(),
            out.len() == i,
            forall|k: int| 0 <= k < i ==> (#[trigger] out[k])@ == fold_sorts(views(es@))[k],
        decreases es.len() - i,
    {
        out.push(SortExpr { expr: fold_expr(&es[i].expr), asc: es[i].asc });
        i = i + 1;
    }
    proof {
        assert(views(out@) =~= fold_sorts(views(es@)));
    }
    out
}

fn fold_join_keys(on: &Vec<(Expr, Expr)>) -> (r: Vec<(Expr, Expr)>)
    ensures
        views(r@) == fold_pairs(views(on@)),
{
    let mut out: Vec<(Expr, Expr)> = Vec::new();
    let mut i: usize = 0;
    while i < on.len()
        invariant
            i <= on.len(),
            out.len() == i,
            forall|k: int| 0 <= k < i ==> (#[trigger] out[k])@ == fold_pairs(views(on@))[k],
        decreases on.len() - i,
    {
        out.push((fold_expr(&on[i].0), fold_expr(&on[i].1)));
        i = i + 1;
    }
    proof {
        assert(views(out@) =~= fold_pairs(views(on@)));
    }
    out
}

fn fold_plan(plan: LogicalPlan) -> (r: LogicalPlan)
    ensures
        r@ == fold_down(plan@),
    decreases plan,
{
    match plan {
        LogicalPlan::Filter { predicate, input } => {
            let input = fold_plan(*input);
            let p = fold_expr(&predicate);
            match p {
                Expr::Literal(ScalarValue::Boolean(true)) => input,
                Expr::Literal(ScalarValue::Boolean(false)) => LogicalPlan::Empty {
                    schema: input.schema().clone(),
                },
                other => LogicalPlan::Filter { predicate: other, input: Box::new(input) },
            }
        },
        LogicalPlan::Projection { exprs, schema, input } => LogicalPlan::Projection {
            exprs: fold_exprs(&exprs),
            schema,
            input: Box::new(fold_plan(*input)),
        },
        LogicalPlan::Aggregate { group_by, aggr_exprs, schema, input } => LogicalPlan::Aggregate {
            group_by: fold_exprs(&group_by),
            aggr_exprs: fold_exprs(&aggr_exprs),
            schema,
            input: Box::new(fold_plan(*input)),
        },
        LogicalPlan::Sort { exprs, input } => LogicalPlan::Sort {
            exprs: fold_sort_exprs(&exprs),
            input: Box::new(fold_plan(*input)),
        },
        LogicalPlan::Join { left, right, on, join_type, schema } => LogicalPlan::Join {
            left: Box::new(fold_plan(*left)),
            right: Box::new(fold_plan(*right)),
            on: fold_join_keys(&on),
            join_type,
            schema,
        },
        LogicalPlan::Limit { n, input } => LogicalPlan::Limit {
            n,
            input: Box::new(fold_plan(*input)),
        },
        other => other,
    }
}

/// Folds the constant parts of an expression.
pub fn fold_expr(expr: &Expr) -> (r: Expr)
    ensures
        r@ == fold(expr@),
    decreases expr,
{
    match expr {
        Expr::BinaryExpr { left, op, right } => {
            let l = fold_expr(left);
            let r = fold_expr(right);
            if let (Expr::Literal(a), Expr::Literal(b)) = (&l, &r) {
                if let Some(v) = try_fold_binary(a, *op, b) {
                    return Expr::Literal(v);
                }
            }
            Expr::BinaryExpr { left: Box::new(l), op: *op, right: Box::new(r) }
        },
        Expr::AggregateFunc { func, arg } => Expr::AggregateFunc {
            func: *func,
            arg: Box::new(fold_expr(arg)),
        },
        Expr::Alias { name, expr } => Expr::Alias {
            expr: Box::new(fold_expr(expr)),
            name: name.clone(),
        },
        other => other.clone(),
    }
}

/// How two constants compare in a column.
fn compare_constants(a: &ScalarValue, b: &ScalarValue) -> (r: Option<Order>)
    ensures
        r == value_order(Cell::Scalar(a@), Cell::Scalar(b@)),
{
    match (a, b) {
        (ScalarValue::Float64(x), ScalarValue::Float64(y)) => {
            if total_below(*x, *y) {
                Some(Order::Less)
            } else if total_below(*y, *x) {
                Some(Order::Greater)
            } else {
                Some(Order::Equal)
            }
        },
        _ => compare_scalars(a, b),
    }
}

/// Whether the comparison holds between values that stand so.
fn is_met(op: BinaryOp, o: Order) -> (r: bool)
    ensures
        r == order_meets(op, o),
{
    match op {
        BinaryOp::Eq => o == Order::Equal,
        BinaryOp::Neq => !(o == Order::Equal),
        BinaryOp::Lt => o == Order::Less,
        BinaryOp::Gt => o == Order::Greater,
        BinaryOp::LtEq => !(o == Order::Greater),
        BinaryOp::GtEq => !(o == Order::Less),
        _ => false,
    }
}

/// Applies an operator to two constants, where its result can be told beforehand.
pub fn try_fold_binary(a: &ScalarValue, op: BinaryOp, b: &ScalarValue) -> (r: Option<ScalarValue>)
    ensures
        match r {
            Some(v) => folded(a@, op, b@) == Some(v@),
            None => folded(a@, op, b@) is None,
        },
{
    match op {
        BinaryOp::And => match (scalar_as_bool(a), scalar_as_bool(b)) {
            (Some(x), Some(y)) => Some(ScalarValue::Boolean(x && y)),
            _ => None,
        },
        BinaryOp::Or => match (scalar_as_bool(a), scalar_as_bool(b)) {
            (Some(x), Some(y)) => Some(ScalarValue::Boolean(x || y)),
            _ => None,
        },
        BinaryOp::Plus | BinaryOp::Minus | BinaryOp::Mul | BinaryOp::Div => fold_arith(a, op, b),
        _ => match compare_constants(a, b) {
            Some(o) => Some(ScalarValue::Boolean(is_met(op, o))),
            None => None,
        },
    }
}

fn scalar_as_bool(s: &ScalarValue) -> (r: Option<bool>)
    ensures
        match s@ {
            ScalarView::Boolean(b) => r == Some(b),
            _ => r is None,
        },
{
    match s {
        ScalarValue::Boolean(b) => Some(*b),
        _ => None,
    }
}

/// The absolute value of a 64-bit integer.
fn absolute(x: i64) -> (r: u64)
    ensures
        r == if x < 0 { -(x as int) } else { x as int },
{
    if x < 0 { (-(x + 1)) as u64 + 1 } else { x as u64 }
}

/// Applies an arithmetic operator to two integers.
fn int_arith(op: BinaryOp, x: i64, y: i64) -> (r: i64)
    requires
        is_arithmetic(op),
        int_defined(op, x, y),
    ensures
        r == int_result(op, x as int, y as int),
{
    match op {
        BinaryOp::Plus => x + y,
        BinaryOp::Minus => x - y,
        BinaryOp::Mul => x * y,
        _ => {
            let q: u64 = absolute(x) / absolute(y);
            if (x < 0) == (y < 0) {
                q as i64
            } else if q == 0x8000_0000_0000_0000 {
                i64::MIN
            } else {
                -(q as i64)
            }
        },
    }
}

/// Applies an arithmetic operator to two floats.
fn float_arith(op: BinaryOp, x: u64, y: u64) -> (r: u64)
    requires
        is_arithmetic(op),
    ensures
        r == settled(float_result(op, x, y)),
{
    let raw: u64 = match op {
        BinaryOp::Plus => float_plus(x, y),
        BinaryOp::Minus => float_minus(x, y),
        BinaryOp::Mul => float_times(x, y),
        _ => float_over(x, y),
    };
    settle(raw)
}

fn fold_arith(a: &ScalarValue, op: BinaryOp, b: &ScalarValue) -> (r: Option<ScalarValue>)
    requires
        is_arithmetic(op),
    ensures
        match r {
            Some(v) => folded_number(a@, op, b@) == Some(v@),
            None => folded_number(a@, op, b@) is None,
        },
{
    match (a, b) {
        (ScalarValue::Int64(x), ScalarValue::Int64(y)) => match int_arith_checked(op, *x, *y) {
            Some(v) => Some(ScalarValue::Int64(v)),
            None => None,
        },
        (ScalarValue::Float64(x), ScalarValue::Float64(y)) => {
            Some(ScalarValue::Float64(float_arith(op, *x, *y)))
        },
        (ScalarValue::Int64(x), ScalarValue::Float64(y)) => {
            Some(ScalarValue::Float64(float_arith(op, int_to_float(*x), *y)))
        },
        (ScalarValue::Float64(x), ScalarValue::Int64(y)) => {
            Some(ScalarValue::Float64(float_arith(op, *x, int_to_float(*y))))
        },
        _ => None,
    }
}

} // verus!
