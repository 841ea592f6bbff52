//! The nodes of `sqlparser`'s syntax tree, opened one level at a time.
//!
//! Each opaque node has a value, named by a spec function, and each `open_` function says what the
//! node holds in terms of the values of the nodes below it.

use vstd::prelude::*;
use sqlparser::ast::BinaryOperator as AstOperator;
use sqlparser::ast::Expr as AstExpr;
use sqlparser::ast::FunctionArg as AstArg;
use sqlparser::ast::FunctionArgExpr as AstArgExpr;
use sqlparser::ast::GroupByExpr as AstGroupBy;
use sqlparser::ast::Ident as AstIdent;
use sqlparser::ast::Join as AstJoin;
use sqlparser::ast::JoinConstraint as AstConstraint;
use sqlparser::ast::JoinOperator as AstJoinOperator;
use sqlparser::ast::OrderByExpr as AstOrderBy;
use sqlparser::ast::Query as AstQuery;
use sqlparser::ast::Select as AstSelect;
use sqlparser::ast::SelectItem as AstItem;
use sqlparser::ast::SetExpr as AstSetExpr;
use sqlparser::ast::Statement as AstStatement;
use sqlparser::ast::TableFactor as AstFactor;
use sqlparser::ast::TableWithJoins as AstFrom;
use sqlparser::ast::Value as AstValue;
use sqlparser::dialect::GenericDialect;
use sqlparser::parser::Parser;
use sqlparser::parser::ParserError;
use crate::parser::parsable;
use crate::parser::ast::{
    ArgView, BinaryOperator, ConstraintView, FactorView, FromView, GroupByView, ItemView,
    JoinOpView, JoinView, OpView, OrderByView, QueryView, SelectView, SetExprView, SqlView,
    StatementView, Value, ValueView,
};

verus! {

/// A statement.
#[verifier::external_type_specification]
#[verifier::external_body]
pub struct ExAstStatement(AstStatement);

/// A query.
#[verifier::external_type_specification]
#[verifier::external_body]
pub struct ExAstQuery(AstQuery);

/// The body of a query.
#[verifier::external_type_specification]
#[verifier::external_body]
pub struct ExAstSetExpr(AstSetExpr);

/// A plain SELECT.
#[verifier::external_type_specification]
#[verifier::external_body]
pub struct ExAstSelect(AstSelect);

/// An item of a SELECT list.
#[verifier::external_type_specification]
#[verifier::external_body]
pub struct ExAstItem(AstItem);

/// GROUP BY.
#[verifier::external_type_specification]
#[verifier::external_body]
pub struct ExAstGroupBy(AstGroupBy);

/// A FROM item.
#[verifier::external_type_specification]
#[verifier::external_body]
pub struct ExAstFrom(AstFrom);

/// A table in FROM.
#[verifier::external_type_specification]
#[verifier::external_body]
pub struct ExAstFactor(AstFactor);

/// A JOIN.
#[verifier::external_type_specification]
#[verifier::external_body]
pub struct ExAstJoin(AstJoin);

/// How a table is joined.
#[verifier::external_type_specification]
#[verifier::external_body]
pub struct ExAstJoinOperator(AstJoinOperator);

/// The condition of a JOIN.
#[verifier::external_type_specification]
#[verifier::external_body]
pub struct ExAstConstraint(AstConstraint);

/// An ORDER BY key.
#[verifier::external_type_specification]
#[verifier::external_body]
pub struct ExAstOrderBy(AstOrderBy);

/// An expression.
#[verifier::external_type_specification]
#[verifier::external_body]
pub struct ExAstExpr(AstExpr);

/// An argument of a function.
#[verifier::external_type_specification]
#[verifier::external_body]
pub struct ExAstArg(AstArg);

/// A literal.
#[verifier::external_type_specification]
#[verifier::external_body]
pub struct ExAstValue(AstValue);

/// A binary operator.
#[verifier::external_type_specification]
#[verifier::external_body]
pub struct ExAstOperator(AstOperator);

/// A name.
#[verifier::external_type_specification]
#[verifier::external_body]
pub struct ExAstIdent(AstIdent);

/// Why a text could not be parsed.
#[verifier::external_type_specification]
#[verifier::external_body]
pub struct ExParserError(ParserError);

/// What a SQL text parses to: its statements, or the text of the error.
pub uninterp spec fn parsed(sql: Seq<char>) -> Result<Seq<StatementView>, Seq<char>>;

/// The text of a parser error.
pub uninterp spec fn error_text(e: ParserError) -> Seq<char>;

/// The value of a statement.
pub uninterp spec fn statement_tree(s: AstStatement) -> StatementView;

/// The value of a query.
pub uninterp spec fn query_tree(q: AstQuery) -> QueryView;

/// The value of a query's body.
pub uninterp spec fn set_tree(s: AstSetExpr) -> SetExprView;

/// The value of a plain SELECT.
pub uninterp spec fn select_tree(s: AstSelect) -> SelectView;

/// The value of a SELECT item.
pub uninterp spec fn item_tree(i: AstItem) -> ItemView;

/// The value of GROUP BY.
pub uninterp spec fn group_tree(g: AstGroupBy) -> GroupByView;

/// The value of a FROM item.
pub uninterp spec fn from_tree(f: AstFrom) -> FromView;

/// The value of a table in FROM.
pub uninterp spec fn factor_tree(f: AstFactor) -> FactorView;

/// The value of a JOIN.
pub uninterp spec fn join_tree(j: AstJoin) -> JoinView;

/// The value of a join's kind.
pub uninterp spec fn join_op_tree(o: AstJoinOperator) -> JoinOpView;

/// The value of a join's condition.
pub uninterp spec fn constraint_tree(c: AstConstraint) -> ConstraintView;

/// The value of an ORDER BY key.
pub uninterp spec fn order_tree(o: AstOrderBy) -> OrderByView;

/// The value of an expression.
pub uninterp spec fn sql_tree(e: AstExpr) -> SqlView;

/// The value of an argument.
pub uninterp spec fn arg_tree(a: AstArg) -> ArgView;

/// The value of a literal.
pub uninterp spec fn value_tree(v: AstValue) -> ValueView;

/// The value of an operator.
pub uninterp spec fn op_tree(o: AstOperator) -> OpView;

/// The text of a name, without quotes.
pub uninterp spec fn ident_text(i: AstIdent) -> Seq<char>;

/// The values of statements.
pub open spec fn statement_trees(s: Seq<AstStatement>) -> Seq<StatementView> {
    Seq::new(s.len(), |i: int| statement_tree(s[i]))
}

/// The texts of names.
pub open spec fn ident_texts(s: Seq<AstIdent>) -> Seq<Seq<char>> {
    Seq::new(s.len(), |i: int| ident_text(s[i]))
}

/// The values of expressions.
pub open spec fn sql_trees(s: Seq<AstExpr>) -> Seq<SqlView> {
    Seq::new(s.len(), |i: int| sql_tree(s[i]))
}

/// The values of arguments.
pub open spec fn arg_trees(s: Seq<AstArg>) -> Seq<ArgView> {
    Seq::new(s.len(), |i: int| arg_tree(s[i]))
}

/// The values of ORDER BY keys.
pub open spec fn order_trees(s: Seq<AstOrderBy>) -> Seq<OrderByView> {
    Seq::new(s.len(), |i: int| order_tree(s[i]))
}

/// The values of SELECT items.
pub open spec fn item_trees(s: Seq<AstItem>) -> Seq<ItemView> {
    Seq::new(s.len(), |i: int| item_tree(s[i]))
}

/// The values of FROM items.
pub open spec fn from_trees(s: Seq<AstFrom>) -> Seq<FromView> {
    Seq::new(s.len(), |i: int| from_tree(s[i]))
}

/// The values of JOINs.
pub open spec fn join_trees(s: Seq<AstJoin>) -> Seq<JoinView> {
    Seq::new(s.len(), |i: int| join_tree(s[i]))
}

/// The value of an optional expression.
pub open spec fn opt_tree(e: Option<AstExpr>) -> Option<SqlView> {
    match e {
        Some(x) => Some(sql_tree(x)),
        None => None,
    }
}

/// The text of an optional name.
pub open spec fn opt_ident(i: Option<&AstIdent>) -> Option<Seq<char>> {
    match i {
        Some(x) => Some(ident_text(*x)),
        None => None,
    }
}

/// An expression, opened.
pub(crate) enum ExprNode<'a> {
    Identifier(&'a AstIdent),
    CompoundIdentifier(&'a Vec<AstIdent>),
    Value(&'a AstValue),
    UnaryOp(String),
    BinaryOp(&'a AstExpr, &'a AstOperator, &'a AstExpr),
    Nested(&'a AstExpr),
    Function(&'a Vec<AstIdent>, &'a Vec<AstArg>),
    Cast(&'a AstExpr),
    Other(String),
}

/// An argument, opened.
pub(crate) enum ArgNode<'a> {
    Wildcard,
    Expr(&'a AstExpr),
    Other,
}

/// A JOIN's kind, opened.
pub(crate) enum JoinOpNode<'a> {
    Inner(&'a AstConstraint),
    LeftOuter(&'a AstConstraint),
    RightOuter,
    FullOuter,
    CrossJoin,
    Other,
}

/// A SELECT item, opened.
pub(crate) enum ItemNode<'a> {
    UnnamedExpr(&'a AstExpr),
    ExprWithAlias(&'a AstExpr, &'a AstIdent),
    QualifiedWildcard(&'a Vec<AstIdent>),
    Wildcard,
}

/// A query, opened.
pub(crate) struct QueryNode<'a> {
    pub with: bool,
    pub body: &'a AstSetExpr,
    pub order_by: &'a Vec<AstOrderBy>,
    pub limit: &'a Option<AstExpr>,
}

/// A plain SELECT, opened.
pub(crate) struct SelectNode<'a> {
    pub into: bool,
    pub distinct: bool,
    pub having: bool,
    pub lateral_views: usize,
    pub cluster_by: usize,
    pub distribute_by: usize,
    pub sort_by: usize,
    pub named_window: usize,
    pub qualify: bool,
    pub top: bool,
    pub projection: &'a Vec<AstItem>,
    pub from: &'a Vec<AstFrom>,
    pub selection: &'a Option<AstExpr>,
    pub group_by: &'a AstGroupBy,
}

/// `Parser::parse_sql` with the `GenericDialect`: the statements of a text, or why there are none.
/// The grammar itself is not spelled out. It panics on some malformed clauses, which the text must not
/// hold.
#[verifier::external_body]
pub(crate) fn parse_statements(sql: &str) -> (r: Result<Vec<AstStatement>, ParserError>)
    requires
        parsable(sql@),
    ensures
        match r {
            Ok(v) => parsed(sql@) == Ok::<_, Seq<char>>(statement_trees(v@)),
            Err(e) => parsed(sql@) == Err::<Seq<StatementView>, _>(error_text(e)),
        },
{
    Parser::parse_sql(&GenericDialect {}, sql)
}

/// `Display` of `ParserError`.
#[verifier::external_body]
pub(crate) fn parser_error_words(e: &ParserError) -> (r: String)
    ensures
        r@ == error_text(*e),
{
    e.to_string()
}

/// The query that a `Statement` is, or nothing where it is another statement.
#[verifier::external_body]
pub(crate) fn open_statement(s: &AstStatement) -> (r: Option<&AstQuery>)
    ensures
        match r {
            Some(q) => statement_tree(*s) == StatementView::Query(query_tree(*q)),
            None => statement_tree(*s) == StatementView::Other,
        },
{
    match s {
        AstStatement::Query(q) => Some(&**q),
        _ => None,
    }
}

/// The fields of a `Query` that a plan can depend on.
#[verifier::external_body]
pub(crate) fn open_query(q: &AstQuery) -> (r: QueryNode<'_>)
    ensures
        query_tree(*q) == (QueryView {
            with: r.with,
            body: set_tree(*r.body),
            order_by: order_trees(r.order_by@),
            limit: opt_tree(*r.limit),
        }),
{
    QueryNode {
        with: q.with.is_some(),
        body: &q.body,
        order_by: &q.order_by,
        limit: &q.limit,
    }
}

/// The SELECT that a `SetExpr` is, or nothing where it is another body.
#[verifier::external_body]
pub(crate) fn open_set(s: &AstSetExpr) -> (r: Option<&AstSelect>)
    ensures
        match r {
            Some(x) => set_tree(*s) == SetExprView::Select(select_tree(*x)),
            None => set_tree(*s) == SetExprView::Other,
        },
{
    match s {
        AstSetExpr::Select(x) => Some(&**x),
        _ => None,
    }
}

/// The fields of a `Select`; of clauses that no plan has, whether or how often they are there.
#[verifier::external_body]
pub(crate) fn open_select(s: &AstSelect) -> (r: SelectNode<'_>)
    ensures
        select_tree(*s) == (SelectView {
            into: r.into,
            distinct: r.distinct,
            having: r.having,
            lateral_views: r.lateral_views as nat,
            cluster_by: r.cluster_by as nat,
            distribute_by: r.distribute_by as nat,
            sort_by: r.sort_by as nat,
            named_window: r.named_window as nat,
            qualify: r.qualify,
            top: r.top,
            projection: item_trees(r.projection@),
            from: from_trees(r.from@),
            selection: opt_tree(*r.selection),
            group_by: group_tree(*r.group_by),
        }),
{
    SelectNode {
        into: s.into.is_some(), distinct: s.distinct.is_some(), having: s.having.is_some(),
        lateral_views: s.lateral_views.len(), cluster_by: s.cluster_by.len(),
        distribute_by: s.distribute_by.len(), sort_by: s.sort_by.len(),
        named_window: s.named_window.len(), qualify: s.qualify.is_some(), top: s.top.is_some(),
        projection: &s.projection, from: &s.from, selection: &s.selection, group_by: &s.group_by,
    }
}

/// The form of a `SelectItem`, and what it holds.
#[verifier::external_body]
pub(crate) fn open_item(i: &AstItem) -> (r: ItemNode<'_>)
    ensures
        item_tree(*i) == (match r {
            ItemNode::UnnamedExpr(e) => ItemView::Unnamed(sql_tree(*e)),
            ItemNode::ExprWithAlias(e, a) => ItemView::Aliased {
                expr: sql_tree(*e),
                alias: ident_text(*a),
            },
            ItemNode::QualifiedWildcard(n) => ItemView::QualifiedWildcard(ident_texts(n@)),
            ItemNode::Wildcard => ItemView::Wildcard,
        }),
{
    match i {
        AstItem::UnnamedExpr(e) => ItemNode::UnnamedExpr(e),
        AstItem::ExprWithAlias { expr, alias } => ItemNode::ExprWithAlias(expr, alias),
        AstItem::QualifiedWildcard(name, _) => ItemNode::QualifiedWildcard(&name.0),
        AstItem::Wildcard(_) => ItemNode::Wildcard,
    }
}

/// The keys of a `GroupByExpr`, or nothing for GROUP BY ALL.
#[verifier::external_body]
pub(crate) fn open_group(g: &AstGroupBy) -> (r: Option<&Vec<AstExpr>>)
    ensures
        group_tree(*g) == (match r {
            Some(es) => GroupByView::Expressions(sql_trees(es@)),
            None => GroupByView::All,
        }),
{
    match g {
        AstGroupBy::Expressions(es) => Some(es),
        AstGroupBy::All => None,
    }
}

/// The two fields of a `TableWithJoins`.
#[verifier::external_body]
pub(crate) fn open_from(f: &AstFrom) -> (r: (&AstFactor, &Vec<AstJoin>))
    ensures
        from_tree(*f) == (FromView { relation: factor_tree(*r.0), joins: join_trees(r.1@) }),
{
    (&f.relation, &f.joins)
}

/// The name, the alias and whether there are arguments, of a `TableFactor` that is a table.
#[verifier::external_body]
pub(crate) fn open_factor(f: &AstFactor) -> (r: Option<(&Vec<AstIdent>, Option<&AstIdent>, bool)>)
    ensures
        factor_tree(*f) == (match r {
            Some(t) => FactorView::Table {
                name: ident_texts(t.0@),
                alias: opt_ident(t.1),
                args: t.2,
            },
            None => FactorView::Other,
        }),
{
    match f {
        AstFactor::Table { name, alias, args, .. } => {
            Some((&name.0, alias.as_ref().map(|a| &a.name), args.is_some()))
        },
        _ => None,
    }
}

/// The two fields of a `Join`.
#[verifier::external_body]
pub(crate) fn open_join(j: &AstJoin) -> (r: (&AstFactor, &AstJoinOperator))
    ensures
        join_tree(*j) == (JoinView { relation: factor_tree(*r.0), operator: join_op_tree(*r.1) }),
{
    (&j.relation, &j.join_operator)
}

/// The form of a `JoinOperator`, and its condition where a plan can use it.
#[verifier::external_body]
pub(crate) fn open_join_op(o: &AstJoinOperator) -> (r: JoinOpNode<'_>)
    ensures
        join_op_tree(*o) == (match r {
            JoinOpNode::Inner(c) => JoinOpView::Inner(constraint_tree(*c)),
            JoinOpNode::LeftOuter(c) => JoinOpView::LeftOuter(constraint_tree(*c)),
            JoinOpNode::RightOuter => JoinOpView::RightOuter,
            JoinOpNode::FullOuter => JoinOpView::FullOuter,
            JoinOpNode::CrossJoin => JoinOpView::CrossJoin,
            JoinOpNode::Other => JoinOpView::Other,
        }),
{
    match o {
        AstJoinOperator::Inner(c) => JoinOpNode::Inner(c),
        AstJoinOperator::LeftOuter(c) => JoinOpNode::LeftOuter(c),
        AstJoinOperator::RightOuter(_) => JoinOpNode::RightOuter,
        AstJoinOperator::FullOuter(_) => JoinOpNode::FullOuter,
        AstJoinOperator::CrossJoin => JoinOpNode::CrossJoin,
        _ => JoinOpNode::Other,
    }
}

/// The expression of a `JoinConstraint` that is ON.
#[verifier::external_body]
pub(crate) fn open_constraint(c: &AstConstraint) -> (r: Option<&AstExpr>)
    ensures
        constraint_tree(*c) == (match r {
            Some(e) => ConstraintView::On(sql_tree(*e)),
            None => ConstraintView::Other,
        }),
{
    match c {
        AstConstraint::On(e) => Some(e),
        _ => None,
    }
}

/// The key and the direction of an `OrderByExpr`.
#[verifier::external_body]
pub(crate) fn open_order(o: &AstOrderBy) -> (r: (&AstExpr, Option<bool>))
    ensures
        order_tree(*o) == (OrderByView { expr: sql_tree(*r.0), asc: r.1 }),
{
    (&o.expr, o.asc)
}

/// The form of an `Expr`, and what it holds; of a form that no plan has, its debugging text.
#[verifier::external_body]
pub(crate) fn open_expr(e: &AstExpr) -> (r: ExprNode<'_>)
    ensures
        sql_tree(*e) == (match r {
            ExprNode::Identifier(i) => SqlView::Identifier(ident_text(*i)),
            ExprNode::CompoundIdentifier(v) => SqlView::Compound(ident_texts(v@)),
            ExprNode::Value(v) => SqlView::Value(value_tree(*v)),
            ExprNode::UnaryOp(s) => SqlView::Unary(s@),
            ExprNode::BinaryOp(l, o, x) => SqlView::Binary {
                left: Box::new(sql_tree(*l)),
                op: op_tree(*o),
                right: Box::new(sql_tree(*x)),
            },
            ExprNode::Nested(x) => SqlView::Nested(Box::new(sql_tree(*x))),
            ExprNode::Function(n, a) => SqlView::Function {
                name: ident_texts(n@),
                args: arg_trees(a@),
            },
            ExprNode::Cast(x) => SqlView::Cast(Box::new(sql_tree(*x))),
            ExprNode::Other(s) => SqlView::Other(s@),
        }),
{
    match e {
        AstExpr::Identifier(i) => ExprNode::Identifier(i),
        AstExpr::CompoundIdentifier(v) => ExprNode::CompoundIdentifier(v),
        AstExpr::Value(v) => ExprNode::Value(v),
        AstExpr::UnaryOp { op, .. } => ExprNode::UnaryOp(op.to_string()),
        AstExpr::BinaryOp { left, op, right } => ExprNode::BinaryOp(left, op, right),
        AstExpr::Nested(x) => ExprNode::Nested(x),
        AstExpr::Function(f) => ExprNode::Function(&f.name.0, &f.args),
        AstExpr::Cast { expr, .. } => ExprNode::Cast(expr),
        other => ExprNode::Other(format!("{other:?}")),
    }
}

/// The form of a `FunctionArg`, and its expression where it is an unnamed one.
#[verifier::external_body]
pub(crate) fn open_arg(a: &AstArg) -> (r: ArgNode<'_>)
    ensures
        arg_tree(*a) == (match r {
            ArgNode::Wildcard => ArgView::Wildcard,
            ArgNode::Expr(e) => ArgView::Expr(sql_tree(*e)),
            ArgNode::Other => ArgView::Other,
        }),
{
    match a {
        AstArg::Unnamed(AstArgExpr::Wildcard) => ArgNode::Wildcard,
        AstArg::Unnamed(AstArgExpr::Expr(e)) => ArgNode::Expr(e),
        _ => ArgNode::Other,
    }
}

/// A `Value` of sqlparser as a [`Value`]; of a form that no plan has, its text.
#[verifier::external_body]
pub(crate) fn open_value(v: &AstValue) -> (r: Value)
    ensures
        r@ == value_tree(*v),
{
    match v {
        AstValue::Number(s, _) => Value::Number(s.clone()),
        AstValue::SingleQuotedString(s) => Value::SingleQuotedString(s.clone()),
        AstValue::DoubleQuotedString(s) => Value::DoubleQuotedString(s.clone()),
        AstValue::Boolean(b) => Value::Boolean(*b),
        AstValue::Null => Value::Null,
        other => Value::Other(other.to_string()),
    }
}

/// A `BinaryOperator` of sqlparser as a [`BinaryOperator`]; of one that no plan has, its text.
#[verifier::external_body]
pub(crate) fn open_op(o: &AstOperator) -> (r: BinaryOperator)
    ensures
        r@ == op_tree(*o),
{
    match o {
        AstOperator::Eq => BinaryOperator::Eq, AstOperator::NotEq => BinaryOperator::NotEq,
        AstOperator::Lt => BinaryOperator::Lt, AstOperator::Gt => BinaryOperator::Gt,
        AstOperator::LtEq => BinaryOperator::LtEq, AstOperator::GtEq => BinaryOperator::GtEq,
        AstOperator::And => BinaryOperator::And, AstOperator::Or => BinaryOperator::Or,
        AstOperator::Plus => BinaryOperator::Plus, AstOperator::Minus => BinaryOperator::Minus,
        AstOperator::Multiply => BinaryOperator::Multiply,
        AstOperator::Divide => BinaryOperator::Divide,
        other => BinaryOperator::Other(other.to_string()),
    }
}

/// The text of an `Ident`.
#[verifier::external_body]
pub(crate) fn open_ident(i: &AstIdent) -> (r: String)
    ensures
        r@ == ident_text(*i),
{
    i.value.clone()
}

} // verus!
