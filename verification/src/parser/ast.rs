//! The syntax tree of a query: what the planner reads of a parsed statement.

use vstd::prelude::*;
use crate::planner::logical_plan::opt_view;
use crate::types::views;

verus! {

/// A parsed statement.
#[derive(Debug)]
pub enum Statement {
    /// A query.
    Query(Query),
    /// Any other statement.
    Other,
}

/// A query.
#[derive(Debug)]
pub struct Query {
    /// Whether there is a WITH clause.
    pub with: bool,
    /// What is selected.
    pub body: SetExpr,
    /// ORDER BY keys.
    pub order_by: Vec<OrderByExpr>,
    /// LIMIT.
    pub limit: Option<SqlExpr>,
}

/// The body of a query.
#[derive(Debug)]
pub enum SetExpr {
    /// A plain SELECT.
    Select(Select),
    /// Any other body (UNION, VALUES, ...).
    Other,
}

/// A plain SELECT. The counts are those of the clauses' parts.
#[derive(Debug)]
pub struct Select {
    /// Whether there is an INTO clause.
    pub into: bool,
    /// Whether there is a DISTINCT clause.
    pub distinct: bool,
    /// Whether there is a HAVING clause.
    pub having: bool,
    /// The number of LATERAL VIEW clauses.
    pub lateral_views: usize,
    /// The number of CLUSTER BY keys.
    pub cluster_by: usize,
    /// The number of DISTRIBUTE BY keys.
    pub distribute_by: usize,
    /// The number of SORT BY keys.
    pub sort_by: usize,
    /// The number of named windows.
    pub named_window: usize,
    /// Whether there is a QUALIFY clause.
    pub qualify: bool,
    /// Whether there is a TOP clause.
    pub top: bool,
    /// What is selected.
    pub projection: Vec<SelectItem>,
    /// FROM items.
    pub from: Vec<TableWithJoins>,
    /// WHERE.
    pub selection: Option<SqlExpr>,
    /// GROUP BY.
    pub group_by: GroupByExpr,
}

/// GROUP BY.
#[derive(Debug)]
pub enum GroupByExpr {
    /// GROUP BY ALL.
    All,
    /// The keys.
    Expressions(Vec<SqlExpr>),
}

/// One item of a SELECT list.
#[derive(Debug)]
pub enum SelectItem {
    /// An expression.
    UnnamedExpr(SqlExpr),
    /// An expression with a label.
    ExprWithAlias {
        /// The expression.
        expr: SqlExpr,
        /// The label.
        alias: String,
    },
    /// `a.*`, by the parts of the name before the star.
    QualifiedWildcard(Vec<String>),
    /// `*`.
    Wildcard,
}

/// One FROM item.
#[derive(Debug)]
pub struct TableWithJoins {
    /// The first table.
    pub relation: TableFactor,
    /// What it is joined with, in order.
    pub joins: Vec<Join>,
}

/// A table in FROM.
#[derive(Debug)]
pub enum TableFactor {
    /// A table by name.
    Table {
        /// The parts of the name.
        name: Vec<String>,
        /// The alias.
        alias: Option<String>,
        /// Whether there are arguments, as for a table function.
        args: bool,
    },
    /// Any other factor (subquery, ...).
    Other,
}

/// One JOIN.
#[derive(Debug)]
pub struct Join {
    /// The joined table.
    pub relation: TableFactor,
    /// How it is joined.
    pub join_operator: JoinOperator,
}

/// How a table is joined.
#[derive(Debug)]
pub enum JoinOperator {
    /// INNER JOIN.
    Inner(JoinConstraint),
    /// LEFT OUTER JOIN.
    LeftOuter(JoinConstraint),
    /// RIGHT OUTER JOIN.
    RightOuter,
    /// FULL OUTER JOIN.
    FullOuter,
    /// CROSS JOIN.
    CrossJoin,
    /// Any other form.
    Other,
}

/// The condition of a JOIN.
#[derive(Debug)]
pub enum JoinConstraint {
    /// ON.
    On(SqlExpr),
    /// USING, NATURAL or nothing.
    Other,
}

/// One ORDER BY key.
#[derive(Debug)]
pub struct OrderByExpr {
    /// The key.
    pub expr: SqlExpr,
    /// ASC or DESC, where written.
    pub asc: Option<bool>,
}

/// An expression.
#[derive(Debug)]
pub enum SqlExpr {
    /// A name.
    Identifier(String),
    /// A dotted name, by its parts.
    CompoundIdentifier(Vec<String>),
    /// A literal.
    Value(Value),
    /// A unary operation, by the operator's text.
    UnaryOp(String),
    /// A binary operation.
    BinaryOp {
        /// Left operand.
        left: Box<SqlExpr>,
        /// Operator.
        op: BinaryOperator,
        /// Right operand.
        right: Box<SqlExpr>,
    },
    /// A parenthesised expression.
    Nested(Box<SqlExpr>),
    /// A function call.
    Function(Function),
    /// A cast of the expression.
    Cast(Box<SqlExpr>),
    /// Any other expression, by its debugging text.
    Other(String),
}

/// A function call.
#[derive(Debug)]
pub struct Function {
    /// The parts of the name.
    pub name: Vec<String>,
    /// The arguments.
    pub args: Vec<FunctionArg>,
}

/// An argument of a function.
#[derive(Debug)]
pub enum FunctionArg {
    /// `*`.
    Wildcard,
    /// An expression.
    Expr(SqlExpr),
    /// Any other argument (named, qualified wildcard).
    Other,
}

/// A binary operator.
#[derive(Debug)]
pub enum BinaryOperator {
    /// `=`.
    Eq,
    /// `<>`.
    NotEq,
    /// `<`.
    Lt,
    /// `>`.
    Gt,
    /// `<=`.
    LtEq,
    /// `>=`.
    GtEq,
    /// `AND`.
    And,
    /// `OR`.
    Or,
    /// `+`.
    Plus,
    /// `-`.
    Minus,
    /// `*`.
    Multiply,
    /// `/`.
    Divide,
    /// Any other operator, by its text.
    Other(String),
}

/// A literal.
#[derive(Debug)]
pub enum Value {
    /// A number, as written.
    Number(String),
    /// A text in single quotes.
    SingleQuotedString(String),
    /// A text in double quotes.
    DoubleQuotedString(String),
    /// TRUE or FALSE.
    Boolean(bool),
    /// NULL.
    Null,
    /// Any other literal, by its text.
    Other(String),
}

/// The value of a [`Statement`].
pub enum StatementView {
    Query(QueryView),
    Other,
}

/// The value of a [`Query`].
pub struct QueryView {
    pub with: bool,
    pub body: SetExprView,
    pub order_by: Seq<OrderByView>,
    pub limit: Option<SqlView>,
}

/// The value of a [`SetExpr`].
pub enum SetExprView {
    Select(SelectView),
    Other,
}

/// The value of a [`Select`].
pub struct SelectView {
    pub into: bool,
    pub distinct: bool,
    pub having: bool,
    pub lateral_views: nat,
    pub cluster_by: nat,
    pub distribute_by: nat,
    pub sort_by: nat,
    pub named_window: nat,
    pub qualify: bool,
    pub top: bool,
    pub projection: Seq<ItemView>,
    pub from: Seq<FromView>,
    pub selection: Option<SqlView>,
    pub group_by: GroupByView,
}

/// The value of a [`GroupByExpr`].
pub enum GroupByView {
    All,
    Expressions(Seq<SqlView>),
}

/// The value of a [`SelectItem`].
pub enum ItemView {
    Unnamed(SqlView),
    Aliased { expr: SqlView, alias: Seq<char> },
    QualifiedWildcard(Seq<Seq<char>>),
    Wildcard,
}

/// The value of a [`TableWithJoins`].
pub struct FromView {
    pub relation: FactorView,
    pub joins: Seq<JoinView>,
}

/// The value of a [`TableFactor`].
pub enum FactorView {
    Table { name: Seq<Seq<char>>, alias: Option<Seq<char>>, args: bool },
    Other,
}

/// The value of a [`Join`].
pub struct JoinView {
    pub relation: FactorView,
    pub operator: JoinOpView,
}

/// The value of a [`JoinOperator`].
pub enum JoinOpView {
    Inner(ConstraintView),
    LeftOuter(ConstraintView),
    RightOuter,
    FullOuter,
    CrossJoin,
    Other,
}

/// The value of a [`JoinConstraint`].
pub enum ConstraintView {
    On(SqlView),
    Other,
}

/// The value of an [`OrderByExpr`].
pub struct OrderByView {
    pub expr: SqlView,
    pub asc: Option<bool>,
}

/// The value of a [`SqlExpr`].
pub enum SqlView {
    Identifier(Seq<char>),
    Compound(Seq<Seq<char>>),
    Value(ValueView),
    Unary(Seq<char>),
    Binary { left: Box<SqlView>, op: OpView, right: Box<SqlView> },
    Nested(Box<SqlView>),
    Function { name: Seq<Seq<char>>, args: Seq<ArgView> },
    Cast(Box<SqlView>),
    Other(Seq<char>),
}

/// The value of a [`FunctionArg`].
pub enum ArgView {
    Wildcard,
    Expr(SqlView),
    Other,
}

/// The value of a [`BinaryOperator`].
pub enum OpView {
    Eq,
    NotEq,
    Lt,
    Gt,
    LtEq,
    GtEq,
    And,
    Or,
    Plus,
    Minus,
    Multiply,
    Divide,
    Other(Seq<char>),
}

/// The value of a [`Value`].
pub enum ValueView {
    Number(Seq<char>),
    SingleQuoted(Seq<char>),
    DoubleQuoted(Seq<char>),
    Boolean(bool),
    Null,
    Other(Seq<char>),
}

impl View for Value {
    type V = ValueView;

    open spec fn view(&self) -> ValueView {
        match self {
            Value::Number(s) => ValueView::Number(s@),
            Value::SingleQuotedString(s) => ValueView::SingleQuoted(s@),
            Value::DoubleQuotedString(s) => ValueView::DoubleQuoted(s@),
            Value::Boolean(b) => ValueView::Boolean(*b),
            Value::Null => ValueView::Null,
            Value::Other(s) => ValueView::Other(s@),
        }
    }
}

impl View for BinaryOperator {
    type V = OpView;

    open spec fn view(&self) -> OpView {
        match self {
            BinaryOperator::Eq => OpView::Eq,
            BinaryOperator::NotEq => OpView::NotEq,
            BinaryOperator::Lt => OpView::Lt,
            BinaryOperator::Gt => OpView::Gt,
            BinaryOperator::LtEq => OpView::LtEq,
            BinaryOperator::GtEq => OpView::GtEq,
            BinaryOperator::And => OpView::And,
            BinaryOperator::Or => OpView::Or,
            BinaryOperator::Plus => OpView::Plus,
            BinaryOperator::Minus => OpView::Minus,
            BinaryOperator::Multiply => OpView::Multiply,
            BinaryOperator::Divide => OpView::Divide,
            BinaryOperator::Other(s) => OpView::Other(s@),
        }
    }
}

impl View for FunctionArg {
    type V = ArgView;

    open spec fn view(&self) -> ArgView
        decreases self,
    {
        match self {
            FunctionArg::Wildcard => ArgView::Wildcard,
            FunctionArg::Expr(e) => ArgView::Expr(e.view()),
            FunctionArg::Other => ArgView::Other,
        }
    }
}

impl View for SqlExpr {
    type V = SqlView;

    open spec fn view(&self) -> SqlView
        decreases self,
    {
        match self {
            SqlExpr::Identifier(s) => SqlView::Identifier(s@),
            SqlExpr::CompoundIdentifier(parts) => SqlView::Compound(views(parts@)),
            SqlExpr::Value(v) => SqlView::Value(v@),
            SqlExpr::UnaryOp(s) => SqlView::Unary(s@),
            SqlExpr::BinaryOp { left, op, right } => SqlView::Binary {
                left: Box::new((**left).view()),
                op: op@,
                right: Box::new((**right).view()),
            },
            SqlExpr::Nested(e) => SqlView::Nested(Box::new((**e).view())),
            SqlExpr::Function(f) => SqlView::Function {
                name: views(f.name@),
                args: Seq::new(
                    f.args.len() as nat,
                    |i: int|
                        if 0 <= i < f.args.len() {
                            f.args[i].view()
                        } else {
                            ArgView::Other
                        },
                ),
            },
            SqlExpr::Cast(e) => SqlView::Cast(Box::new((**e).view())),
            SqlExpr::Other(s) => SqlView::Other(s@),
        }
    }
}

impl View for OrderByExpr {
    type V = OrderByView;

    open spec fn view(&self) -> OrderByView {
        OrderByView { expr: self.expr@, asc: self.asc }
    }
}

impl View for JoinConstraint {
    type V = ConstraintView;

    open spec fn view(&self) -> ConstraintView {
        match self {
            JoinConstraint::On(e) => ConstraintView::On(e@),
            JoinConstraint::Other => ConstraintView::Other,
        }
    }
}

impl View for JoinOperator {
    type V = JoinOpView;

    open spec fn view(&self) -> JoinOpView {
        match self {
            JoinOperator::Inner(c) => JoinOpView::Inner(c@),
            JoinOperator::LeftOuter(c) => JoinOpView::LeftOuter(c@),
            JoinOperator::RightOuter => JoinOpView::RightOuter,
            JoinOperator::FullOuter => JoinOpView::FullOuter,
            JoinOperator::CrossJoin => JoinOpView::CrossJoin,
            JoinOperator::Other => JoinOpView::Other,
        }
    }
}

impl View for TableFactor {
    type V = FactorView;

    open spec fn view(&self) -> FactorView {
        match self {
            TableFactor::Table { name, alias, args } => FactorView::Table {
                name: views(name@),
                alias: opt_view(*alias),
                args: *args,
            },
            TableFactor::Other => FactorView::Other,
        }
    }
}

impl View for Join {
    type V = JoinView;

    open spec fn view(&self) -> JoinView {
        JoinView { relation: self.relation@, operator: self.join_operator@ }
    }
}

impl View for TableWithJoins {
    type V = FromView;

    open spec fn view(&self) -> FromView {
        FromView { relation: self.relation@, joins: views(self.joins@) }
    }
}

impl View for SelectItem {
    type V = ItemView;

    open spec fn view(&self) -> ItemView {
        match self {
            SelectItem::UnnamedExpr(e) => ItemView::Unnamed(e@),
            SelectItem::ExprWithAlias { expr, alias } => ItemView::Aliased {
                expr: expr@,
                alias: alias@,
            },
            SelectItem::QualifiedWildcard(parts) => ItemView::QualifiedWildcard(views(parts@)),
            SelectItem::Wildcard => ItemView::Wildcard,
        }
    }
}

impl View for GroupByExpr {
    type V = GroupByView;

    open spec fn view(&self) -> GroupByView {
        match self {
            GroupByExpr::All => GroupByView::All,
            GroupByExpr::Expressions(es) => GroupByView::Expressions(views(es@)),
        }
    }
}

/// The value of an optional expression.
pub open spec fn opt_sql_view(e: Option<SqlExpr>) -> Option<SqlView> {
    match e {
        Some(x) => Some(x@),
        None => None,
    }
}

impl View for Select {
    type V = SelectView;

    open spec fn view(&self) -> SelectView {
        SelectView {
            into: self.into,
            distinct: self.distinct,
            having: self.having,
            lateral_views: self.lateral_views as nat,
            cluster_by: self.cluster_by as nat,
            distribute_by: self.distribute_by as nat,
            sort_by: self.sort_by as nat,
            named_window: self.named_window as nat,
            qualify: self.qualify,
            top: self.top,
            projection: views(self.projection@),
            from: views(self.from@),
            selection: opt_sql_view(self.selection),
            group_by: self.group_by@,
        }
    }
}

impl View for SetExpr {
    type V = SetExprView;

    open spec fn view(&self) -> SetExprView {
        match self {
            SetExpr::Select(s) => SetExprView::Select(s@),
            SetExpr::Other => SetExprView::Other,
        }
    }
}

impl View for Query {
    type V = QueryView;

    open spec fn view(&self) -> QueryView {
        QueryView {
            with: self.with,
            body: self.body@,
            order_by: views(self.order_by@),
            limit: opt_sql_view(self.limit),
        }
    }
}

impl View for Statement {
    type V = StatementView;

    open spec fn view(&self) -> StatementView {
        match self {
            Statement::Query(q) => StatementView::Query(q@),
            Statement::Other => StatementView::Other,
        }
    }
}

} // verus!
