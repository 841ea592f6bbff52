//! Logical query plan and expression tree.

use vstd::prelude::*;
use crate::float::{float_to_text, text_of_float};
use crate::text::{decimal, decimal_text, digits, digits_text, join2, join3};
use crate::types::{views, FieldView, ScalarValue, ScalarView, Schema};

verus! {

/// Top-level logical operator tree.
#[allow(inconsistent_fields)]
#[derive(Debug)]
pub enum LogicalPlan {
    /// Scan a named table (Parquet file stem).
    Scan {
        /// Table/catalog name.
        table_name: String,
        /// Output row layout (file column names, possibly prefixed).
        schema: Schema,
        /// Optional column indices projection (subset of file columns).
        projection: Option<Vec<usize>>,
    },
    /// Filter rows matching a boolean expression.
    Filter {
        /// Predicate expression.
        predicate: Expr,
        /// Child plan.
        input: Box<LogicalPlan>,
    },
    /// Project expressions with explicit output schema.
    Projection {
        /// Expressions to evaluate.
        exprs: Vec<Expr>,
        /// Result schema (names and types for output columns).
        schema: Schema,
        /// Child plan.
        input: Box<LogicalPlan>,
    },
    /// Hash aggregate: grouping expressions and aggregate expressions.
    Aggregate {
        /// GROUP BY expressions.
        group_by: Vec<Expr>,
        /// Aggregate expressions (e.g. SUM, COUNT).
        aggr_exprs: Vec<Expr>,
        /// Output schema (group keys then aggregates).
        schema: Schema,
        /// Input plan (pre-aggregation rows).
        input: Box<LogicalPlan>,
    },
    /// Sort by sort keys.
    Sort {
        /// Sort key expressions (with ASC/DESC).
        exprs: Vec<SortExpr>,
        /// Child plan.
        input: Box<LogicalPlan>,
    },
    /// Join two plans on equi predicates.
    Join {
        /// Left input.
        left: Box<LogicalPlan>,
        /// Right input.
        right: Box<LogicalPlan>,
        /// Equi-join pairs (left key, right key).
        on: Vec<(Expr, Expr)>,
        /// Join kind.
        join_type: JoinType,
        /// Output schema (concatenated columns).
        schema: Schema,
    },
    /// Limit row count.
    Limit {
        /// Maximum rows to emit.
        n: usize,
        /// Child plan.
        input: Box<LogicalPlan>,
    },
    /// Produces zero rows (e.g. constant-false predicate).
    Empty {
        /// Column layout (types only; no data).
        schema: Schema,
    },
}

/// Scalar / boolean expression in the logical plan.
#[derive(Debug, Hash)]
pub enum Expr {
    /// Column reference (optional qualifier from SQL).
    Column {
        /// Column base name (not including qualifier).
        name: String,
        /// Table/alias qualifier from SQL, if any.
        relation: Option<String>,
    },
    /// Constant value.
    Literal(ScalarValue),
    /// Binary operation.
    BinaryExpr {
        /// Left sub-expression.
        left: Box<Expr>,
        /// Operator.
        op: BinaryOp,
        /// Right sub-expression.
        right: Box<Expr>,
    },
    /// Aggregate function over an argument expression.
    AggregateFunc {
        /// Which aggregate.
        func: AggFunc,
        /// Argument (`Wildcard` used for `COUNT(*)`).
        arg: Box<Expr>,
    },
    /// Rename expression (output label).
    Alias {
        /// Inner expression.
        expr: Box<Expr>,
        /// Output name.
        name: String,
    },
    /// `*` in `COUNT(*)` or projection wildcard.
    Wildcard,
}

/// Binary operators supported by Arbor.
#[derive(Debug, Clone, Copy, PartialEq, Eq, Hash, Structural)]
pub enum BinaryOp {
    /// Equality.
    Eq,
    /// Inequality.
    Neq,
    /// Less than.
    Lt,
    /// Greater than.
    Gt,
    /// Less than or equal.
    LtEq,
    /// Greater than or equal.
    GtEq,
    /// Logical AND.
    And,
    /// Logical OR.
    Or,
    /// Addition.
    Plus,
    /// Subtraction.
    Minus,
    /// Multiplication.
    Mul,
    /// Division.
    Div,
}

/// Built-in aggregate functions.
#[derive(Debug, Clone, Copy, PartialEq, Eq, Hash, Structural)]
pub enum AggFunc {
    /// SUM.
    Sum,
    /// COUNT.
    Count,
    /// AVG.
    Avg,
    /// MIN.
    Min,
    /// MAX.
    Max,
}

/// JOIN kind (minimal set).
#[derive(Debug, Clone, Copy, PartialEq, Eq, Hash, Structural)]
pub enum JoinType {
    /// Inner join.
    Inner,
    /// Left outer join.
    Left,
}

/// One ORDER BY key.
#[derive(Debug, Hash)]
pub struct SortExpr {
    /// Key expression.
    pub expr: Expr,
    /// Ascending if true.
    pub asc: bool,
}

/// The value of an [`Expr`].
pub enum ExprView {
    Column { name: Seq<char>, relation: Option<Seq<char>> },
    Literal(ScalarView),
    Binary { left: Box<ExprView>, op: BinaryOp, right: Box<ExprView> },
    Aggregate { func: AggFunc, arg: Box<ExprView> },
    Alias { expr: Box<ExprView>, name: Seq<char> },
    Wildcard,
}

/// The value of a [`SortExpr`].
pub struct SortView {
    pub expr: ExprView,
    pub asc: bool,
}

/// The value of a [`LogicalPlan`].
#[allow(inconsistent_fields)]
pub enum PlanView {
    Scan { table: Seq<char>, schema: Seq<FieldView>, projection: Option<Seq<usize>> },
    Filter { predicate: ExprView, input: Box<PlanView> },
    Projection { exprs: Seq<ExprView>, schema: Seq<FieldView>, input: Box<PlanView> },
    Aggregate {
        group_by: Seq<ExprView>,
        aggr_exprs: Seq<ExprView>,
        schema: Seq<FieldView>,
        input: Box<PlanView>,
    },
    Sort { exprs: Seq<SortView>, input: Box<PlanView> },
    Join {
        left: Box<PlanView>,
        right: Box<PlanView>,
        on: Seq<(ExprView, ExprView)>,
        join_type: JoinType,
        schema: Seq<FieldView>,
    },
    Limit { n: usize, input: Box<PlanView> },
    Empty { schema: Seq<FieldView> },
}

/// The text of an optional name.
pub open spec fn opt_view(s: Option<String>) -> Option<Seq<char>> {
    match s {
        Some(t) => Some(t@),
        None => None,
    }
}

impl View for Expr {
    type V = ExprView;

    open spec fn view(&self) -> ExprView
        decreases self,
    {
        match self {
            Expr::Column { name, relation } => ExprView::Column {
                name: name@,
                relation: opt_view(*relation),
            },
            Expr::Literal(s) => ExprView::Literal(s@),
            Expr::BinaryExpr { left, op, right } => ExprView::Binary {
                left: Box::new((**left).view()),
                op: *op,
                right: Box::new((**right).view()),
            },
            Expr::AggregateFunc { func, arg } => ExprView::Aggregate {
                func: *func,
                arg: Box::new((**arg).view()),
            },
            Expr::Alias { expr, name } => ExprView::Alias {
                expr: Box::new((**expr).view()),
                name: name@,
            },
            Expr::Wildcard => ExprView::Wildcard,
        }
    }
}

impl View for SortExpr {
    type V = SortView;

    open spec fn view(&self) -> SortView {
        SortView { expr: self.expr@, asc: self.asc }
    }
}

impl View for LogicalPlan {
    type V = PlanView;

    open spec fn view(&self) -> PlanView
        decreases self,
    {
        match self {
            LogicalPlan::Scan { table_name, schema, projection } => PlanView::Scan {
                table: table_name@,
                schema: schema@,
                projection: match projection {
                    Some(p) => Some(p@),
                    None => None,
                },
            },
            LogicalPlan::Filter { predicate, input } => PlanView::Filter {
                predicate: predicate@,
                input: Box::new((**input).view()),
            },
            LogicalPlan::Projection { exprs, schema, input } => PlanView::Projection {
                exprs: views(exprs@),
                schema: schema@,
                input: Box::new((**input).view()),
            },
            LogicalPlan::Aggregate { group_by, aggr_exprs, schema, input } => PlanView::Aggregate {
                group_by: views(group_by@),
                aggr_exprs: views(aggr_exprs@),
                schema: schema@,
                input: Box::new((**input).view()),
            },
            LogicalPlan::Sort { exprs, input } => PlanView::Sort {
                exprs: views(exprs@),
                input: Box::new((**input).view()),
            },
            LogicalPlan::Join { left, right, on, join_type, schema } => PlanView::Join {
                left: Box::new((**left).view()),
                right: Box::new((**right).view()),
                on: views(on@),
                join_type: *join_type,
                schema: schema@,
            },
            LogicalPlan::Limit { n, input } => PlanView::Limit {
                n: *n,
                input: Box::new((**input).view()),
            },
            LogicalPlan::Empty { schema } => PlanView::Empty { schema: schema@ },
        }
    }
}

impl Clone for Expr {
    fn clone(&self) -> (r: Expr)
        ensures
            r == *self,
        decreases self,
    {
        match self {
            Expr::Column { name, relation } => Expr::Column {
                name: name.clone(),
                relation: match relation {
                    Some(q) => Some(q.clone()),
                    None => None,
                },
            },
            Expr::Literal(s) => Expr::Literal(s.clone()),
            Expr::BinaryExpr { left, op, right } => Expr::BinaryExpr {
                left: Box::new((**left).clone()),
                op: *op,
                right: Box::new((**right).clone()),
            },
            Expr::AggregateFunc { func, arg } => Expr::AggregateFunc {
                func: *func,
                arg: Box::new((**arg).clone()),
            },
            Expr::Alias { expr, name } => Expr::Alias {
                expr: Box::new((**expr).clone()),
                name: name.clone(),
            },
            Expr::Wildcard => Expr::Wildcard,
        }
    }
}

impl PartialEq for Expr {
    fn eq(&self, other: &Expr) -> (r: bool)
        decreases self,
    {
        match (self, other) {
            (Expr::Column { name: a, relation: r }, Expr::Column { name: b, relation: s }) => {
                *a == *b && match (r, s) {
                    (Some(x), Some(y)) => *x == *y,
                    (None, None) => true,
                    _ => false,
                }
            },
            (Expr::Literal(a), Expr::Literal(b)) => *a == *b,
            (
                Expr::BinaryExpr { left: a, op: o, right: b },
                Expr::BinaryExpr { left: c, op: p, right: d },
            ) => *o == *p && (**a).eq(&**c) && (**b).eq(&**d),
            (
                Expr::AggregateFunc { func: f, arg: a },
                Expr::AggregateFunc { func: g, arg: b },
            ) => *f == *g && (**a).eq(&**b),
            (Expr::Alias { expr: a, name: m }, Expr::Alias { expr: b, name: n }) => {
                *m == *n && (**a).eq(&**b)
            },
            (Expr::Wildcard, Expr::Wildcard) => true,
            _ => false,
        }
    }
}

impl vstd::std_specs::cmp::PartialEqSpecImpl for Expr {
    open spec fn obeys_eq_spec() -> bool {
        true
    }

    open spec fn eq_spec(&self, other: &Expr) -> bool {
        self@ == other@
    }
}

impl Eq for Expr {}

impl Clone for SortExpr {
    fn clone(&self) -> (r: SortExpr)
        ensures
            r == *self,
    {
        SortExpr { expr: self.expr.clone(), asc: self.asc }
    }
}

impl PartialEq for SortExpr {
    fn eq(&self, other: &SortExpr) -> (r: bool) {
        self.expr == other.expr && self.asc == other.asc
    }
}

impl vstd::std_specs::cmp::PartialEqSpecImpl for SortExpr {
    open spec fn obeys_eq_spec() -> bool {
        true
    }

    open spec fn eq_spec(&self, other: &SortExpr) -> bool {
        self@ == other@
    }
}

impl Eq for SortExpr {}

impl PlanView {
    /// The schema of the rows that the operator produces.
    pub open spec fn schema(self) -> Seq<FieldView>
        decreases self,
    {
        match self {
            PlanView::Scan { schema, .. } => schema,
            PlanView::Filter { input, .. } => input.schema(),
            PlanView::Projection { schema, .. } => schema,
            PlanView::Aggregate { schema, .. } => schema,
            PlanView::Sort { input, .. } => input.schema(),
            PlanView::Join { schema, .. } => schema,
            PlanView::Limit { input, .. } => input.schema(),
            PlanView::Empty { schema } => schema,
        }
    }
}

impl LogicalPlan {
    /// Returns the schema of rows produced by this operator.
    pub fn schema(&self) -> (r: &Schema)
        ensures
            r@ == self@.schema(),
        decreases self,
    {
        match self {
            LogicalPlan::Scan { schema, .. } => schema,
            LogicalPlan::Filter { input, .. } => input.schema(),
            LogicalPlan::Projection { schema, .. } => schema,
            LogicalPlan::Aggregate { schema, .. } => schema,
            LogicalPlan::Sort { input, .. } => input.schema(),
            LogicalPlan::Join { schema, .. } => schema,
            LogicalPlan::Limit { input, .. } => input.schema(),
            LogicalPlan::Empty { schema } => schema,
        }
    }
}

impl Clone for LogicalPlan {
    fn clone(&self) -> (r: LogicalPlan)
        ensures
            r@ == self@,
        decreases self,
    {
        match self {
            LogicalPlan::Scan { table_name, schema, projection } => {
                let p: Option<Vec<usize>> = match projection {
                    Some(v) => Some(v.clone()),
                    None => None,
                };
                proof {
                    if projection is Some {
                        assert(p->Some_0@ =~= projection->Some_0@);
                    }
                }
                LogicalPlan::Scan {
                    table_name: table_name.clone(),
                    schema: schema.clone(),
                    projection: p,
                }
            },
            LogicalPlan::Filter { predicate, input } => LogicalPlan::Filter {
                predicate: predicate.clone(),
                input: Box::new((**input).clone()),
            },
            LogicalPlan::Projection { exprs, schema, input } => {
                let es = exprs.clone();
                proof {
                    assert(views(es@) =~= views(exprs@));
                }
                LogicalPlan::Projection {
                    exprs: es,
                    schema: schema.clone(),
                    input: Box::new((**input).clone()),
                }
            },
            LogicalPlan::Aggregate { group_by, aggr_exprs, schema, input } => {
                let gs = group_by.clone();
                let es = aggr_exprs.clone();
                proof {
                    assert(views(gs@) =~= views(group_by@));
                    assert(views(es@) =~= views(aggr_exprs@));
                }
                LogicalPlan::Aggregate {
                    group_by: gs,
                    aggr_exprs: es,
                    schema: schema.clone(),
                    input: Box::new((**input).clone()),
                }
            },
            LogicalPlan::Sort { exprs, input } => {
                let es = exprs.clone();
                proof {
                    assert(views(es@) =~= views(exprs@));
                }
                LogicalPlan::Sort { exprs: es, input: Box::new((**input).clone()) }
            },
            LogicalPlan::Join { left, right, on, join_type, schema } => {
                let mut pairs: Vec<(Expr, Expr)> = Vec::new();
                let mut i: usize = 0;
                while i < on.len()
                    invariant
                        i <= on.len(),
                        pairs.len() == i,
                        forall|k: int| 0 <= k < i ==> #[trigger] pairs[k] == on[k],
                    decreases on.len() - i,
                {
                    let a = on[i].0.clone();
                    let b = on[i].1.clone();
                    pairs.push((a, b));
                    i = i + 1;
                }
                proof {
                    assert(views(pairs@) =~= views(on@));
                }
                LogicalPlan::Join {
                    left: Box::new((**left).clone()),
                    right: Box::new((**right).clone()),
                    on: pairs,
                    join_type: *join_type,
                    schema: schema.clone(),
                }
            },
            LogicalPlan::Limit { n, input } => LogicalPlan::Limit {
                n: *n,
                input: Box::new((**input).clone()),
            },
            LogicalPlan::Empty { schema } => LogicalPlan::Empty { schema: schema.clone() },
        }
    }
}

/// The text of a scalar, as a query would write it.
pub open spec fn scalar_text(s: ScalarView) -> Seq<char> {
    match s {
        ScalarView::Int64(v) => decimal(v as int),
        ScalarView::Float64(v) => text_of_float(v),
        ScalarView::Utf8(v) => "'"@ + v + "'"@,
        ScalarView::Boolean(v) => if v { "true"@ } else { "false"@ },
        ScalarView::Null => "NULL"@,
    }
}

/// The sign of an operator.
pub open spec fn op_text(op: BinaryOp) -> Seq<char> {
    match op {
        BinaryOp::Eq => "="@,
        BinaryOp::Neq => "!="@,
        BinaryOp::Lt => "<"@,
        BinaryOp::Gt => ">"@,
        BinaryOp::LtEq => "<="@,
        BinaryOp::GtEq => ">="@,
        BinaryOp::And => "AND"@,
        BinaryOp::Or => "OR"@,
        BinaryOp::Plus => "+"@,
        BinaryOp::Minus => "-"@,
        BinaryOp::Mul => "*"@,
        BinaryOp::Div => "/"@,
    }
}

/// The name of an aggregate function.
pub open spec fn func_text(f: AggFunc) -> Seq<char> {
    match f {
        AggFunc::Sum => "SUM"@,
        AggFunc::Count => "COUNT"@,
        AggFunc::Avg => "AVG"@,
        AggFunc::Min => "MIN"@,
        AggFunc::Max => "MAX"@,
    }
}

/// The key of a column: `qual.name`, or `name`.
pub open spec fn key_of(name: Seq<char>, relation: Option<Seq<char>>) -> Seq<char> {
    match relation {
        Some(q) => q + "."@ + name,
        None => name,
    }
}

/// The text of an expression.
pub open spec fn expr_text(e: ExprView) -> Seq<char>
    decreases e,
{
    match e {
        ExprView::Column { name, relation } => key_of(name, relation),
        ExprView::Literal(s) => scalar_text(s),
        ExprView::Binary { left, op, right } => "("@ + expr_text(*left) + " "@ + op_text(op) + " "@
            + expr_text(*right) + ")"@,
        ExprView::Aggregate { func, arg } => func_text(func) + "("@ + expr_text(*arg) + ")"@,
        ExprView::Alias { expr, name } => expr_text(*expr) + " AS "@ + name,
        ExprView::Wildcard => "*"@,
    }
}

/// Texts one after the other, with `sep` between two.
pub open spec fn separated(parts: Seq<Seq<char>>, sep: Seq<char>) -> Seq<char>
    decreases parts.len(),
{
    if parts.len() == 0 {
        Seq::empty()
    } else if parts.len() == 1 {
        parts[0]
    } else {
        separated(parts.drop_last(), sep) + sep + parts.last()
    }
}

/// The texts of expressions.
pub open spec fn expr_texts(es: Seq<ExprView>) -> Seq<Seq<char>> {
    Seq::new(es.len(), |i: int| expr_text(es[i]))
}

/// The texts of sort keys.
pub open spec fn sort_texts(es: Seq<SortView>) -> Seq<Seq<char>> {
    Seq::new(
        es.len(),
        |i: int| expr_text(es[i].expr) + " "@ + if es[i].asc { "ASC"@ } else { "DESC"@ },
    )
}

/// The texts of join equalities.
pub open spec fn on_texts(on: Seq<(ExprView, ExprView)>) -> Seq<Seq<char>> {
    Seq::new(on.len(), |i: int| expr_text(on[i].0) + " = "@ + expr_text(on[i].1))
}

/// The numerals of column indices.
pub open spec fn index_texts(v: Seq<usize>) -> Seq<Seq<char>> {
    Seq::new(v.len(), |i: int| digits(v[i] as nat))
}

/// The text of a scan's projection.
pub open spec fn projection_text(p: Option<Seq<usize>>) -> Seq<char> {
    match p {
        Some(v) => "Some(["@ + separated(index_texts(v), ", "@) + "])"@,
        None => "None"@,
    }
}

/// Two blanks for each level of depth.
pub open spec fn indent(depth: nat) -> Seq<char>
    decreases depth,
{
    if depth == 0 { Seq::empty() } else { indent((depth - 1) as nat) + "  "@ }
}

/// What a plan node says of itself, without its inputs.
pub open spec fn node_text(p: PlanView) -> Seq<char> {
    match p {
        PlanView::Scan { table, schema, projection } => "Scan(table="@ + table + ", cols="@
            + digits(schema.len()) + ", projection="@ + projection_text(projection) + ")"@,
        PlanView::Filter { predicate, .. } => "Filter("@ + expr_text(predicate) + ")"@,
        PlanView::Projection { exprs, .. } => "Projection("@ + separated(expr_texts(exprs), ", "@)
            + ")"@,
        PlanView::Aggregate { group_by, aggr_exprs, .. } => "Aggregate(groups="@
            + separated(expr_texts(group_by), ", "@) + ", aggr="@
            + separated(expr_texts(aggr_exprs), ", "@) + ")"@,
        PlanView::Sort { exprs, .. } => "Sort("@ + separated(sort_texts(exprs), ", "@) + ")"@,
        PlanView::Join { on, join_type, .. } => "Join("@ + (match join_type {
            JoinType::Inner => "Inner"@,
            JoinType::Left => "Left"@,
        }) + ", on="@ + separated(on_texts(on), " AND "@) + ")"@,
        PlanView::Limit { n, .. } => "Limit("@ + digits(n as nat) + ")"@,
        PlanView::Empty { schema } => "Empty(cols="@ + digits(schema.len()) + ")"@,
    }
}

/// The text of a plan: one line for each node, inputs below and two blanks deeper.
pub open spec fn plan_text(p: PlanView, depth: nat) -> Seq<char>
    decreases p,
{
    let line = indent(depth) + node_text(p) + "\n"@;
    match p {
        PlanView::Scan { .. } => line,
        PlanView::Filter { input, .. } => line + plan_text(*input, depth + 1),
        PlanView::Projection { input, .. } => line + plan_text(*input, depth + 1),
        PlanView::Aggregate { input, .. } => line + plan_text(*input, depth + 1),
        PlanView::Sort { input, .. } => line + plan_text(*input, depth + 1),
        PlanView::Join { left, right, .. } => line + plan_text(*left, depth + 1)
            + plan_text(*right, depth + 1),
        PlanView::Limit { input, .. } => line + plan_text(*input, depth + 1),
        PlanView::Empty { .. } => line,
    }
}

/// Texts with `sep` between two.
fn join_parts(parts: &Vec<String>, sep: &str) -> (r: String)
    ensures
        r@ == separated(views(parts@), sep@),
{
    let mut out = String::new();
    let mut i: usize = 0;
    proof {
        assert(out@ =~= separated(views(parts@).take(0), sep@));
    }
    while i < parts.len()
        invariant
            i <= parts.len(),
            out@ == separated(views(parts@).take(i as int), sep@),
        decreases parts.len() - i,
    {
        proof {
            let t = views(parts@).take(i + 1);
            assert(t.drop_last() =~= views(parts@).take(i as int));
            assert(t.last() == parts[i as int]@);
            if i == 0 {
                assert(out@ + parts[0]@ =~= parts[0]@);
            }
        }
        if i > 0 {
            out.append(sep);
        }
        out.append(parts[i].as_str());
        i = i + 1;
    }
    proof {
        assert(views(parts@).take(parts.len() as int) =~= views(parts@));
    }
    out
}

fn joined_exprs(es: &Vec<Expr>) -> (r: String)
    ensures
        r@ == separated(expr_texts(views(es@)), ", "@),
{
    let mut parts: Vec<String> = Vec::new();
    let mut i: usize = 0;
    while i < es.len()
        invariant
            i <= es.len(),
            parts.len() == i,
            forall|k: int| 0 <= k < i ==> (#[trigger] parts[k])@ == expr_text(es[k]@),
        decreases es.len() - i,
    {
        parts.push(es[i].describe());
        i = i + 1;
    }
    proof {
        assert(views(parts@) =~= expr_texts(views(es@)));
    }
    join_parts(&parts, ", ")
}

fn joined_sorts(es: &Vec<SortExpr>) -> (r: String)
    ensures
        r@ == separated(sort_texts(views(es@)), ", "@),
{
    let mut parts: Vec<String> = Vec::new();
    let mut i: usize = 0;
    while i < es.len()
        invariant
            i <= es.len(),
            parts.len() == i,
            forall|k: int| 0 <= k < i ==> (#[trigger] parts[k])@ == sort_texts(views(es@))[k],
        decreases es.len() - i,
    {
        let way = if es[i].asc { "ASC" } else { "DESC" };
        parts.push(join3(es[i].expr.describe().as_str(), " ", way));
        i = i + 1;
    }
    proof {
        assert(views(parts@) =~= sort_texts(views(es@)));
    }
    join_parts(&parts, ", ")
}

fn joined_pairs(on: &Vec<(Expr, Expr)>) -> (r: String)
    ensures
        r@ == separated(on_texts(views(on@)), " AND "@),
{
    let mut parts: Vec<String> = Vec::new();
    let mut i: usize = 0;
    while i < on.len()
        invariant
            i <= on.len(),
            parts.len() == i,
            forall|k: int| 0 <= k < i ==> (#[trigger] parts[k])@ == on_texts(views(on@))[k],
        decreases on.len() - i,
    {
        parts.push(join3(on[i].0.describe().as_str(), " = ", on[i].1.describe().as_str()));
        i = i + 1;
    }
    proof {
        assert(views(parts@) =~= on_texts(views(on@)));
    }
    join_parts(&parts, " AND ")
}

fn projection_words(p: &Option<Vec<usize>>) -> (r: String)
    ensures
        r@ == projection_text(match *p { Some(v) => Some(v@), None => None }),
{
    match p {
        None => "None".to_string(),
        Some(v) => {
            let mut parts: Vec<String> = Vec::new();
            let mut i: usize = 0;
            while i < v.len()
                invariant
                    i <= v.len(),
                    parts.len() == i,
                    forall|k: int| 0 <= k < i ==> (#[trigger] parts[k])@ == digits(v[k] as nat),
                decreases v.len() - i,
            {
                parts.push(digits_text(v[i] as u64));
                i = i + 1;
            }
            proof {
                assert(views(parts@) =~= index_texts(v@));
            }
            join3("Some([", join_parts(&parts, ", ").as_str(), "])")
        },
    }
}

/// Two blanks for each level of depth.
pub fn indent_fmt(depth: usize) -> (r: String)
    ensures
        r@ == indent(depth as nat),
{
    let mut out = String::new();
    let mut i: usize = 0;
    proof {
        assert(out@ =~= indent(0));
    }
    while i < depth
        invariant
            i <= depth,
            out@ == indent(i as nat),
        decreases depth - i,
    {
        out.append("  ");
        i = i + 1;
    }
    out
}

impl ScalarValue {
    /// The text of this scalar, as a query would write it.
    pub fn describe(&self) -> (r: String)
        ensures
            r@ == scalar_text(self@),
    {
        match self {
            ScalarValue::Int64(v) => decimal_text(*v),
            ScalarValue::Float64(v) => float_to_text(*v),
            ScalarValue::Utf8(v) => join3("'", v.as_str(), "'"),
            ScalarValue::Boolean(v) => if *v { "true".to_string() } else { "false".to_string() },
            ScalarValue::Null => "NULL".to_string(),
        }
    }
}

/// Canonical logical column name (`qual.name` or `name`).
pub fn column_key(name: &str, relation: Option<&String>) -> (r: String)
    ensures
        r@ == key_of(name@, match relation { Some(q) => Some(q@), None => None }),
{
    match relation {
        Some(q) => join3(q.as_str(), ".", name),
        None => name.to_string(),
    }
}

impl Expr {
    /// The text of this expression.
    pub fn describe(&self) -> (r: String)
        ensures
            r@ == expr_text(self@),
        decreases self,
    {
        match self {
            Expr::Column { name, relation } => column_key(name.as_str(), relation.as_ref()),
            Expr::Literal(v) => v.describe(),
            Expr::BinaryExpr { left, op, right } => {
                let sop = match op {
                    BinaryOp::Eq => "=",
                    BinaryOp::Neq => "!=",
                    BinaryOp::Lt => "<",
                    BinaryOp::Gt => ">",
                    BinaryOp::LtEq => "<=",
                    BinaryOp::GtEq => ">=",
                    BinaryOp::And => "AND",
                    BinaryOp::Or => "OR",
                    BinaryOp::Plus => "+",
                    BinaryOp::Minus => "-",
                    BinaryOp::Mul => "*",
                    BinaryOp::Div => "/",
                };
                let l = (**left).describe();
                let r = (**right).describe();
                let head = join3("(", l.as_str(), " ");
                let middle = join3(head.as_str(), sop, " ");
                join3(middle.as_str(), r.as_str(), ")")
            },
            Expr::AggregateFunc { func, arg } => {
                let name = match func {
                    AggFunc::Sum => "SUM",
                    AggFunc::Count => "COUNT",
                    AggFunc::Avg => "AVG",
                    AggFunc::Min => "MIN",
                    AggFunc::Max => "MAX",
                };
                let a = (**arg).describe();
                join3(join2(name, "(").as_str(), a.as_str(), ")")
            },
            Expr::Alias { expr, name } => {
                let e = (**expr).describe();
                join3(e.as_str(), " AS ", name.as_str())
            },
            Expr::Wildcard => "*".to_string(),
        }
    }
}

impl LogicalPlan {
    /// What this node says of itself, without its inputs.
    fn node_words(&self) -> (r: String)
        ensures
            r@ == node_text(self@),
    {
        match self {
            LogicalPlan::Scan { table_name, schema, projection } => {
                let a = join3("Scan(table=", table_name.as_str(), ", cols=");
                let b = join3(
                    a.as_str(),
                    digits_text(schema.fields.len() as u64).as_str(),
                    ", projection=",
                );
                join3(b.as_str(), projection_words(projection).as_str(), ")")
            },
            LogicalPlan::Filter { predicate, .. } => {
                join3("Filter(", predicate.describe().as_str(), ")")
            },
            LogicalPlan::Projection { exprs, .. } => {
                join3("Projection(", joined_exprs(exprs).as_str(), ")")
            },
            LogicalPlan::Aggregate { group_by, aggr_exprs, .. } => {
                let a = join3("Aggregate(groups=", joined_exprs(group_by).as_str(), ", aggr=");
                join3(a.as_str(), joined_exprs(aggr_exprs).as_str(), ")")
            },
            LogicalPlan::Sort { exprs, .. } => {
                join3("Sort(", joined_sorts(exprs).as_str(), ")")
            },
            LogicalPlan::Join { on, join_type, .. } => {
                let jt = match join_type {
                    JoinType::Inner => "Inner",
                    JoinType::Left => "Left",
                };
                let a = join3("Join(", jt, ", on=");
                join3(a.as_str(), joined_pairs(on).as_str(), ")")
            },
            LogicalPlan::Limit { n, .. } => {
                join3("Limit(", digits_text(*n as u64).as_str(), ")")
            },
            LogicalPlan::Empty { schema } => {
                join3("Empty(cols=", digits_text(schema.fields.len() as u64).as_str(), ")")
            },
        }
    }

    /// The text of this plan at some depth, `pad` being that depth's indentation.
    fn walk(&self, pad: &str, Ghost(depth): Ghost<nat>) -> (r: String)
        requires
            pad@ == indent(depth),
        ensures
            r@ == plan_text(self@, depth),
        decreases self,
    {
        let words = self.node_words();
        let line = join3(pad, words.as_str(), "\n");
        let step = indent_fmt(1);
        let deeper = join2(pad, step.as_str());
        proof {
            reveal_with_fuel(indent, 2);
            assert(Seq::<char>::empty() + "  "@ =~= "  "@);
        }
        let below = deeper.as_str();
        match self {
            LogicalPlan::Scan { .. } => line,
            LogicalPlan::Filter { input, .. } => {
                line.concat((**input).walk(below, Ghost(depth + 1)).as_str())
            },
            LogicalPlan::Projection { input, .. } => {
                line.concat((**input).walk(below, Ghost(depth + 1)).as_str())
            },
            LogicalPlan::Aggregate { input, .. } => {
                line.concat((**input).walk(below, Ghost(depth + 1)).as_str())
            },
            LogicalPlan::Sort { input, .. } => {
                line.concat((**input).walk(below, Ghost(depth + 1)).as_str())
            },
            LogicalPlan::Join { left, right, .. } => {
                let first = (**left).walk(below, Ghost(depth + 1));
                let second = (**right).walk(below, Ghost(depth + 1));
                line.concat(first.as_str()).concat(second.as_str())
            },
            LogicalPlan::Limit { input, .. } => {
                line.concat((**input).walk(below, Ghost(depth + 1)).as_str())
            },
            LogicalPlan::Empty { .. } => line,
        }
    }

    /// The plan as text: one line for each node, inputs below and two blanks deeper.
    pub fn describe(&self) -> (r: String)
        ensures
            r@ == plan_text(self@, 0),
    {
        let pad = indent_fmt(0);
        self.walk(pad.as_str(), Ghost(0))
    }
}

} // verus!
