//! SQL text to syntax tree (SELECT only).

pub mod ast;
pub mod nodes;
pub mod tokens;

use vstd::prelude::*;
use sqlparser::ast::Expr as AstExpr;
use sqlparser::ast::GroupByExpr as AstGroupBy;
use sqlparser::ast::Ident as AstIdent;
use sqlparser::ast::Join as AstJoin;
use sqlparser::ast::JoinConstraint as AstConstraint;
use sqlparser::ast::JoinOperator as AstJoinOperator;
use sqlparser::ast::OrderByExpr as AstOrderBy;
use sqlparser::ast::Query as AstQuery;
use sqlparser::ast::Select as AstSelect;
use sqlparser::ast::SelectItem as AstItem;
use sqlparser::ast::TableFactor as AstFactor;
use sqlparser::ast::TableWithJoins as AstFrom;
use crate::error::{result_view, ArborError, ErrorView};
use crate::types::views;
use ast::{
    opt_sql_view, ArgView, Function, FunctionArg, GroupByExpr, Join, JoinConstraint, JoinOperator,
    OrderByExpr, Query, Select, SelectItem, SetExpr, SqlExpr, SqlView, Statement, StatementView,
    TableFactor, TableWithJoins,
};
use tokens::{is_tame, read_tokens, tame, tokens_of};
use nodes::{
    arg_trees, constraint_tree, factor_tree, from_trees, group_tree, ident_texts, item_trees,
    join_op_tree, join_trees, open_arg, open_constraint, open_expr, open_factor, open_from,
    open_group, open_ident, open_item, open_join, open_join_op, open_op, open_order, open_query,
    open_select, open_set, open_statement, open_value, opt_tree, order_trees, parse_statements,
    parsed, parser_error_words, query_tree, select_tree, sql_tree, sql_trees, ArgNode, ExprNode,
    ItemNode, JoinOpNode,
};

verus! {

/// The statement that a parse gives: the first one, if it is a query.
pub open spec fn first_query(p: Result<Seq<StatementView>, Seq<char>>) -> Result<
    StatementView,
    ErrorView,
> {
    match p {
        Err(text) => Err(ErrorView::Parse(text)),
        Ok(statements) => if statements.len() == 0 {
            Err(ErrorView::Parse("no statements in SQL"@))
        } else if statements[0] is Query {
            Ok(statements[0])
        } else {
            Err(ErrorView::Parse("Only SELECT queries are supported"@))
        },
    }
}

fn lower_idents(parts: &Vec<AstIdent>) -> (r: Vec<String>)
    ensures
        views(r@) == ident_texts(parts@),
{
    let mut out: Vec<String> = Vec::new();
    let mut i: usize = 0;
    while i < parts.len()
        invariant
            i <= parts.len(),
            out.len() == i,
            forall|k: int| 0 <= k < i ==> (#[trigger] out[k])@ == ident_texts(parts@)[k],
        decreases parts.len() - i,
    {
        out.push(open_ident(&parts[i]));
        i = i + 1;
    }
    proof {
        assert(views(out@) =~= ident_texts(parts@));
    }
    out
}

fn lower_expr(e: &AstExpr) -> (r: SqlExpr)
    ensures
        r@ == sql_tree(*e),
    decreases sql_tree(*e),
{
    let ghost tree = sql_tree(*e);
    match open_expr(e) {
        ExprNode::Identifier(i) => SqlExpr::Identifier(open_ident(i)),
        ExprNode::CompoundIdentifier(v) => SqlExpr::CompoundIdentifier(lower_idents(v)),
        ExprNode::Value(v) => SqlExpr::Value(open_value(v)),
        ExprNode::UnaryOp(s) => SqlExpr::UnaryOp(s),
        ExprNode::BinaryOp(left, op, right) => {
            proof {
                assert(*tree->left == sql_tree(*left));
                assert(*tree->right == sql_tree(*right));
            }
            SqlExpr::BinaryOp {
                left: Box::new(lower_expr(left)),
                op: open_op(op),
                right: Box::new(lower_expr(right)),
            }
        },
        ExprNode::Nested(inner) => {
            proof {
                assert(*tree->Nested_0 == sql_tree(*inner));
            }
            SqlExpr::Nested(Box::new(lower_expr(inner)))
        },
        ExprNode::Function(name, args) => {
            let mut out: Vec<FunctionArg> = Vec::new();
            let ghost all = arg_trees(args@);
            let mut i: usize = 0;
            while i < args.len()
                invariant
                    i <= args.len(),
                    all == arg_trees(args@),
                    tree == sql_tree(*e),
                    tree == (SqlView::Function { name: ident_texts(name@), args: all }),
                    out.len() == i,
                    forall|k: int| 0 <= k < i ==> (#[trigger] out[k])@ == all[k],
                decreases args.len() - i,
            {
                let arg = match open_arg(&args[i]) {
                    ArgNode::Wildcard => FunctionArg::Wildcard,
                    ArgNode::Expr(x) => {
                        proof {
                            assert(all[i as int] == ArgView::Expr(sql_tree(*x)));
                            assert(tree->args == all);
                            assert(decreases_to!(all => all[i as int]));
                            assert(all[i as int]->Expr_0 == sql_tree(*x));
                        }
                        FunctionArg::Expr(lower_expr(x))
                    },
                    ArgNode::Other => FunctionArg::Other,
                };
                proof {
                    assert(arg@ == all[i as int]);
                }
                out.push(arg);
                i = i + 1;
            }
            let f = Function { name: lower_idents(name), args: out };
            let r = SqlExpr::Function(f);
            proof {
                assert(r@->args =~= all);
            }
            r
        },
        ExprNode::Cast(inner) => {
            proof {
                assert(*tree->Cast_0 == sql_tree(*inner));
            }
            SqlExpr::Cast(Box::new(lower_expr(inner)))
        },
        ExprNode::Other(s) => SqlExpr::Other(s),
    }
}

fn lower_exprs(es: &Vec<AstExpr>) -> (r: Vec<SqlExpr>)
    ensures
        views(r@) == sql_trees(es@),
{
    let mut out: Vec<SqlExpr> = Vec::new();
    let mut i: usize = 0;
    while i < es.len()
        invariant
            i <= es.len(),
            out.len() == i,
            forall|k: int| 0 <= k < i ==> (#[trigger] out[k])@ == sql_trees(es@)[k],
        decreases es.len() - i,
    {
        out.push(lower_expr(&es[i]));
        i = i + 1;
    }
    proof {
        assert(views(out@) =~= sql_trees(es@));
    }
    out
}

fn lower_opt(e: &Option<AstExpr>) -> (r: Option<SqlExpr>)
    ensures
        opt_sql_view(r) == opt_tree(*e),
{
    match e {
        Some(x) => Some(lower_expr(x)),
        None => None,
    }
}

fn lower_orders(os: &Vec<AstOrderBy>) -> (r: Vec<OrderByExpr>)
    ensures
        views(r@) == order_trees(os@),
{
    let mut out: Vec<OrderByExpr> = Vec::new();
    let mut i: usize = 0;
    while i < os.len()
        invariant
            i <= os.len(),
            out.len() == i,
            forall|k: int| 0 <= k < i ==> (#[trigger] out[k])@ == order_trees(os@)[k],
        decreases os.len() - i,
    {
        let (expr, asc) = open_order(&os[i]);
        out.push(OrderByExpr { expr: lower_expr(expr), asc });
        i = i + 1;
    }
    proof {
        assert(views(out@) =~= order_trees(os@));
    }
    out
}

fn lower_items(items: &Vec<AstItem>) -> (r: Vec<SelectItem>)
    ensures
        views(r@) == item_trees(items@),
{
    let mut out: Vec<SelectItem> = Vec::new();
    let mut i: usize = 0;
    while i < items.len()
        invariant
            i <= items.len(),
            out.len() == i,
            forall|k: int| 0 <= k < i ==> (#[trigger] out[k])@ == item_trees(items@)[k],
        decreases items.len() - i,
    {
        let item = match open_item(&items[i]) {
            ItemNode::UnnamedExpr(e) => SelectItem::UnnamedExpr(lower_expr(e)),
            ItemNode::ExprWithAlias(e, a) => SelectItem::ExprWithAlias {
                expr: lower_expr(e),
                alias: open_ident(a),
            },
            ItemNode::QualifiedWildcard(n) => SelectItem::QualifiedWildcard(lower_idents(n)),
            ItemNode::Wildcard => SelectItem::Wildcard,
        };
        out.push(item);
        i = i + 1;
    }
    proof {
        assert(views(out@) =~= item_trees(items@));
    }
    out
}

fn lower_factor(f: &AstFactor) -> (r: TableFactor)
    ensures
        r@ == factor_tree(*f),
{
    match open_factor(f) {
        Some((name, alias, args)) => TableFactor::Table {
            name: lower_idents(name),
            alias: match alias {
                Some(a) => Some(open_ident(a)),
                None => None,
            },
            args,
        },
        None => TableFactor::Other,
    }
}

fn lower_constraint(c: &AstConstraint) -> (r: JoinConstraint)
    ensures
        r@ == constraint_tree(*c),
{
    match open_constraint(c) {
        Some(e) => JoinConstraint::On(lower_expr(e)),
        None => JoinConstraint::Other,
    }
}

fn lower_join_op(o: &AstJoinOperator) -> (r: JoinOperator)
    ensures
        r@ == join_op_tree(*o),
{
    match open_join_op(o) {
        JoinOpNode::Inner(c) => JoinOperator::Inner(lower_constraint(c)),
        JoinOpNode::LeftOuter(c) => JoinOperator::LeftOuter(lower_constraint(c)),
        JoinOpNode::RightOuter => JoinOperator::RightOuter,
        JoinOpNode::FullOuter => JoinOperator::FullOuter,
        JoinOpNode::CrossJoin => JoinOperator::CrossJoin,
        JoinOpNode::Other => JoinOperator::Other,
    }
}

fn lower_joins(js: &Vec<AstJoin>) -> (r: Vec<Join>)
    ensures
        views(r@) == join_trees(js@),
{
    let mut out: Vec<Join> = Vec::new();
    let mut i: usize = 0;
    while i < js.len()
        invariant
            i <= js.len(),
            out.len() == i,
            forall|k: int| 0 <= k < i ==> (#[trigger] out[k])@ == join_trees(js@)[k],
        decreases js.len() - i,
    {
        let (relation, op) = open_join(&js[i]);
        out.push(Join { relation: lower_factor(relation), join_operator: lower_join_op(op) });
        i = i + 1;
    }
    proof {
        assert(views(out@) =~= join_trees(js@));
    }
    out
}

fn lower_froms(fs: &Vec<AstFrom>) -> (r: Vec<TableWithJoins>)
    ensures
        views(r@) == from_trees(fs@),
{
    let mut out: Vec<TableWithJoins> = Vec::new();
    let mut i: usize = 0;
    while i < fs.len()
        invariant
            i <= fs.len(),
            out.len() == i,
            forall|k: int| 0 <= k < i ==> (#[trigger] out[k])@ == from_trees(fs@)[k],
        decreases fs.len() - i,
    {
        let (relation, joins) = open_from(&fs[i]);
        out.push(TableWithJoins { relation: lower_factor(relation), joins: lower_joins(joins) });
        i = i + 1;
    }
    proof {
        assert(views(out@) =~= from_trees(fs@));
    }
    out
}

fn lower_group(g: &AstGroupBy) -> (r: GroupByExpr)
    ensures
        r@ == group_tree(*g),
{
    match open_group(g) {
        Some(es) => GroupByExpr::Expressions(lower_exprs(es)),
        None => GroupByExpr::All,
    }
}

fn lower_select(s: &AstSelect) -> (r: Select)
    ensures
        r@ == select_tree(*s),
{
    let node = open_select(s);
    Select {
        into: node.into,
        distinct: node.distinct,
        having: node.having,
        lateral_views: node.lateral_views,
        cluster_by: node.cluster_by,
        distribute_by: node.distribute_by,
        sort_by: node.sort_by,
        named_window: node.named_window,
        qualify: node.qualify,
        top: node.top,
        projection: lower_items(node.projection),
        from: lower_froms(node.from),
        selection: lower_opt(node.selection),
        group_by: lower_group(node.group_by),
    }
}

fn lower_query(q: &AstQuery) -> (r: Query)
    ensures
        r@ == query_tree(*q),
{
    let node = open_query(q);
    let body = match open_set(node.body) {
        Some(s) => SetExpr::Select(lower_select(s)),
        None => SetExpr::Other,
    };
    Query {
        with: node.with,
        body,
        order_by: lower_orders(node.order_by),
        limit: lower_opt(node.limit),
    }
}

/// The parser can be given the text.
pub open spec fn parsable(sql: Seq<char>) -> bool {
    match tokens_of(sql) {
        Some(ts) => tame(ts),
        None => true,
    }
}

/// Parses `sql` and returns the first statement if it is a `SELECT` query. Text that the parser
/// cannot be trusted with is refused.
pub fn parse_sql(sql: &str) -> (r: Result<Statement, ArborError>)
    ensures
        result_view(r) == if parsable(sql@) {
            first_query(parsed(sql@))
        } else {
            Err(ErrorView::Parse("unsupported statement or clause"@))
        },
{
    let tame = match read_tokens(sql) {
        Some(ts) => is_tame(&ts),
        None => true,
    };
    if !tame {
        return Err(ArborError::Parse("unsupported statement or clause".to_string()));
    }
    match parse_statements(sql) {
        Err(e) => Err(ArborError::Parse(parser_error_words(&e))),
        Ok(statements) => {
            if statements.len() == 0 {
                return Err(ArborError::Parse("no statements in SQL".to_string()));
            }
            match open_statement(&statements[0]) {
                Some(q) => Ok(Statement::Query(lower_query(q))),
                None => Err(
                    ArborError::Parse("Only SELECT queries are supported".to_string()),
                ),
            }
        },
    }
}

} // verus!
