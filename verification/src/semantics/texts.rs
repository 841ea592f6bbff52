//! What the texts of the engine hold: numerals, column keys, and the description of a plan.

use vstd::prelude::*;
use crate::error::ErrorView;
use crate::executor::expr_eval::column_at;
use crate::executor::scan::{key_column, key_name, key_relation, last_dot, lemma_last_dot};
use crate::parser::ast::{QueryView, StatementView};
use crate::parser::first_query;
use crate::planner::expressions::agg_func;
use crate::planner::logical_plan::{
    expr_text, expr_texts, func_text, indent, key_of, node_text, on_texts, op_text, plan_text,
    scalar_text, separated, sort_texts, AggFunc, BinaryOp, ExprView, JoinType, PlanView,
};
use crate::text::{all_digits, decimal, digits, is_digit, number, numeral};
use crate::types::{lemma_position, names, FieldView, ScalarView};

verus! {

/// Digits are digits, and stand for their number.
proof fn lemma_digits(n: nat)
    ensures
        all_digits(digits(n)),
        number(digits(n)) == n,
        digits(n)[0] != '+' && digits(n)[0] != '-',
    decreases n,
{
    let s = digits(n);
    if n >= 10 {
        lemma_digits(n / 10);
        assert(s.drop_last() =~= digits(n / 10));
        assert(s[0] == digits(n / 10)[0]);
        assert forall|i: int| 0 <= i < s.len() implies is_digit(#[trigger] s[i]) by {
            if i < s.len() - 1 {
                assert(s[i] == digits(n / 10)[i]);
            }
        }
    } else {
        assert(s.drop_last() =~= Seq::empty());
        assert(number(s.drop_last()) == 0);
    }
}

/// Law: a numeral that is written is read as the number that it was written for.
pub proof fn law_numerals_read_back(n: int)
    ensures
        numeral(decimal(n), true) == Some(n),
        n >= 0 ==> numeral(decimal(n), false) == Some(n),
{
    if n < 0 {
        lemma_digits((-n) as nat);
        let s = decimal(n);
        assert(s.skip(1) =~= digits((-n) as nat));
    } else {
        lemma_digits(n as nat);
    }
}

/// Law: the name under which an aggregate function is shown is the one by which a query calls it.
pub proof fn law_function_names_read_back(f: AggFunc)
    ensures
        agg_func(func_text(f)) == Some(f),
{
    reveal_strlit("SUM");
    reveal_strlit("COUNT");
    reveal_strlit("AVG");
    reveal_strlit("MIN");
    reveal_strlit("MAX");
    assert("SUM"@[0] == 'S' && "AVG"@[0] == 'A' && "MIN"@[0] == 'M' && "MAX"@[0] == 'M');
    assert("COUNT"@[0] == 'C' && "MIN"@[1] == 'I' && "MAX"@[1] == 'A');
}

/// Law: an operator is shown by the sign that a query writes it with; a negated or widened comparison
/// by the sign that is negated or widened.
pub proof fn law_signs_are_those_of_queries(op: BinaryOp)
    ensures
        match op {
            BinaryOp::Eq => op_text(op) == seq!['='],
            BinaryOp::Lt => op_text(op) == seq!['<'],
            BinaryOp::Gt => op_text(op) == seq!['>'],
            BinaryOp::Plus => op_text(op) == seq!['+'],
            BinaryOp::Minus => op_text(op) == seq!['-'],
            BinaryOp::Mul => op_text(op) == seq!['*'],
            BinaryOp::Div => op_text(op) == seq!['/'],
            BinaryOp::Neq => op_text(op) == seq!['!'] + op_text(BinaryOp::Eq),
            BinaryOp::LtEq => op_text(op) == op_text(BinaryOp::Lt) + op_text(BinaryOp::Eq),
            BinaryOp::GtEq => op_text(op) == op_text(BinaryOp::Gt) + op_text(BinaryOp::Eq),
            BinaryOp::And => op_text(op) == seq!['A', 'N', 'D'],
            BinaryOp::Or => op_text(op) == seq!['O', 'R'],
        },
{
    reveal_strlit("=");
    reveal_strlit("!=");
    reveal_strlit("<");
    reveal_strlit(">");
    reveal_strlit("<=");
    reveal_strlit(">=");
    reveal_strlit("AND");
    reveal_strlit("OR");
    reveal_strlit("+");
    reveal_strlit("-");
    reveal_strlit("*");
    reveal_strlit("/");
    assert("="@ =~= seq!['=']);
    assert("<"@ =~= seq!['<']);
    assert(">"@ =~= seq!['>']);
    assert("+"@ =~= seq!['+']);
    assert("-"@ =~= seq!['-']);
    assert("*"@ =~= seq!['*']);
    assert("/"@ =~= seq!['/']);
    assert("!="@ =~= seq!['!'] + "="@);
    assert("<="@ =~= "<"@ + "="@);
    assert(">="@ =~= ">"@ + "="@);
    assert("AND"@ =~= seq!['A', 'N', 'D']);
    assert("OR"@ =~= seq!['O', 'R']);
}

/// Law: an integer and a text are shown as a query writes them.
pub proof fn law_constants_are_shown_as_written(n: i64, s: Seq<char>)
    ensures
        numeral(scalar_text(ScalarView::Int64(n)), true) == Some(n as int),
        scalar_text(ScalarView::Utf8(s)) == seq!['\''] + s + seq!['\''],
{
    law_numerals_read_back(n as int);
    reveal_strlit("'");
    assert("'"@ =~= seq!['\'']);
}

/// The text stands in another.
pub open spec fn text_in(x: Seq<char>, y: Seq<char>) -> bool {
    exists|a: Seq<char>, b: Seq<char>| y == #[trigger] ((a + x) + b)
}

/// A text between two others stands in them.
proof fn lemma_between(a: Seq<char>, x: Seq<char>, b: Seq<char>)
    ensures
        text_in(x, a + x + b),
{
    assert(a + x + b == (a + x) + b);
}

/// What stands in a text stands in what that text stands in.
proof fn lemma_text_in(x: Seq<char>, y: Seq<char>, a: Seq<char>, b: Seq<char>)
    requires
        text_in(x, y),
    ensures
        text_in(x, a + y + b),
{
    let (p, q) = choose|p: Seq<char>, q: Seq<char>| y == #[trigger] ((p + x) + q);
    assert(a + y + b =~= ((a + p) + x) + (q + b));
}

/// Each of some texts stands in all of them, separated.
proof fn lemma_separated(parts: Seq<Seq<char>>, sep: Seq<char>, i: int)
    requires
        0 <= i < parts.len(),
    ensures
        text_in(parts[i], separated(parts, sep)),
    decreases parts.len(),
{
    let none = Seq::<char>::empty();
    if parts.len() == 1 {
        assert(separated(parts, sep) =~= (none + parts[0]) + none);
    } else if i == parts.len() - 1 {
        let head = separated(parts.drop_last(), sep) + sep;
        assert(separated(parts, sep) =~= (head + parts[i]) + none);
    } else {
        lemma_separated(parts.drop_last(), sep, i);
        assert(parts.drop_last()[i] == parts[i]);
        let head = separated(parts.drop_last(), sep);
        lemma_text_in(parts[i], head, none, sep + parts.last());
        assert(none + head + (sep + parts.last()) =~= separated(parts, sep));
    }
}

/// Law: the description of a plan shows every node: it begins, two blanks in for each level, with what
/// the node says of itself, and the descriptions of its inputs stand in it one level deeper.
pub proof fn law_descriptions_show_every_node(p: PlanView, depth: nat)
    ensures
        text_in(node_text(p), plan_text(p, depth)),
        indent(depth).len() == 2 * depth,
        match p {
            PlanView::Filter { input, .. } => text_in(
                plan_text(*input, depth + 1),
                plan_text(p, depth),
            ),
            PlanView::Projection { input, .. } => text_in(
                plan_text(*input, depth + 1),
                plan_text(p, depth),
            ),
            PlanView::Aggregate { input, .. } => text_in(
                plan_text(*input, depth + 1),
                plan_text(p, depth),
            ),
            PlanView::Sort { input, .. } => text_in(plan_text(*input, depth + 1), plan_text(p, depth)),
            PlanView::Join { left, right, .. } => text_in(
                plan_text(*left, depth + 1) + plan_text(*right, depth + 1),
                plan_text(p, depth),
            ),
            PlanView::Limit { input, .. } => text_in(
                plan_text(*input, depth + 1),
                plan_text(p, depth),
            ),
            _ => true,
        },
    decreases depth,
{
    lemma_indent(depth);
    let line = indent(depth) + node_text(p) + "\n"@;
    let none = Seq::<char>::empty();
    lemma_between(indent(depth), node_text(p), "\n"@);
    let below = match p {
        PlanView::Filter { input, .. } => plan_text(*input, depth + 1),
        PlanView::Projection { input, .. } => plan_text(*input, depth + 1),
        PlanView::Aggregate { input, .. } => plan_text(*input, depth + 1),
        PlanView::Sort { input, .. } => plan_text(*input, depth + 1),
        PlanView::Join { left, right, .. } => plan_text(*left, depth + 1) + plan_text(
            *right,
            depth + 1,
        ),
        PlanView::Limit { input, .. } => plan_text(*input, depth + 1),
        _ => none,
    };
    assert(plan_text(p, depth) =~= none + line + below);
    lemma_text_in(node_text(p), line, none, below);
    assert(plan_text(p, depth) =~= (line + below) + none);
}

/// Two blanks for each level.
proof fn lemma_indent(depth: nat)
    ensures
        indent(depth).len() == 2 * depth,
    decreases depth,
{
    reveal_strlit("  ");
    if depth > 0 {
        lemma_indent((depth - 1) as nat);
    }
}

/// Law: a node shows its expressions: the predicate of a filter, the expressions of a projection, the
/// groups and aggregates of an aggregation, the keys of a sort with their direction, the equalities
/// of a join with its kind, the number of a limit, the table of a scan.
pub proof fn law_nodes_show_their_expressions(p: PlanView, i: int)
    ensures
        match p {
            PlanView::Scan { table, .. } => text_in(table, node_text(p)),
            PlanView::Filter { predicate, .. } => text_in(expr_text(predicate), node_text(p)),
            PlanView::Projection { exprs, .. } => 0 <= i < exprs.len() ==> text_in(
                expr_text(exprs[i]),
                node_text(p),
            ),
            PlanView::Aggregate { group_by, aggr_exprs, .. } => {
                &&& 0 <= i < group_by.len() ==> text_in(expr_text(group_by[i]), node_text(p))
                &&& 0 <= i < aggr_exprs.len() ==> text_in(expr_text(aggr_exprs[i]), node_text(p))
            },
            PlanView::Sort { exprs, .. } => 0 <= i < exprs.len() ==> text_in(
                expr_text(exprs[i].expr) + (if exprs[i].asc { " ASC"@ } else { " DESC"@ }),
                node_text(p),
            ),
            PlanView::Join { on, join_type, .. } => {
                &&& text_in(if join_type == JoinType::Inner { "Inner"@ } else { "Left"@ }, node_text(p))
                &&& 0 <= i < on.len() ==> text_in(
                    expr_text(on[i].0) + " = "@ + expr_text(on[i].1),
                    node_text(p),
                )
            },
            PlanView::Limit { n, .. } => text_in(decimal(n as int), node_text(p)),
            PlanView::Empty { .. } => true,
        },
{
    let none = Seq::<char>::empty();
    match p {
        PlanView::Scan { table, .. } => {
            let a = "Scan(table="@;
            let b = node_text(p).skip((a + table).len() as int);
            assert(node_text(p) =~= a + table + b);
        },
        PlanView::Filter { predicate, .. } => {
            lemma_between("Filter("@, expr_text(predicate), ")"@);
        },
        PlanView::Projection { exprs, .. } => {
            if 0 <= i < exprs.len() {
                lemma_separated(expr_texts(exprs), ", "@, i);
                lemma_text_in(
                    expr_text(exprs[i]),
                    separated(expr_texts(exprs), ", "@),
                    "Projection("@,
                    ")"@,
                );
            }
        },
        PlanView::Aggregate { group_by, aggr_exprs, .. } => {
            let g = separated(expr_texts(group_by), ", "@);
            let x = separated(expr_texts(aggr_exprs), ", "@);
            if 0 <= i < group_by.len() {
                lemma_separated(expr_texts(group_by), ", "@, i);
                lemma_text_in(
                    expr_text(group_by[i]),
                    g,
                    "Aggregate(groups="@,
                    ", aggr="@ + x + ")"@,
                );
                assert(node_text(p) =~= "Aggregate(groups="@ + g + (", aggr="@ + x + ")"@));
            }
            if 0 <= i < aggr_exprs.len() {
                lemma_separated(expr_texts(aggr_exprs), ", "@, i);
                lemma_text_in(
                    expr_text(aggr_exprs[i]),
                    x,
                    "Aggregate(groups="@ + g + ", aggr="@,
                    ")"@,
                );
            }
        },
        PlanView::Sort { exprs, .. } => {
            if 0 <= i < exprs.len() {
                reveal_strlit(" ASC");
                reveal_strlit(" DESC");
                reveal_strlit(" ");
                reveal_strlit("ASC");
                reveal_strlit("DESC");
                assert(" ASC"@ =~= " "@ + "ASC"@);
                assert(" DESC"@ =~= " "@ + "DESC"@);
                let key = expr_text(exprs[i].expr) + (if exprs[i].asc { " ASC"@ } else { " DESC"@ });
                assert(sort_texts(exprs)[i] =~= key);
                lemma_separated(sort_texts(exprs), ", "@, i);
                lemma_text_in(key, separated(sort_texts(exprs), ", "@), "Sort("@, ")"@);
            }
        },
        PlanView::Join { on, join_type, .. } => {
            let kind = if join_type == JoinType::Inner { "Inner"@ } else { "Left"@ };
            let keys = separated(on_texts(on), " AND "@);
            assert(node_text(p) =~= "Join("@ + kind + (", on="@ + keys + ")"@));
            lemma_between("Join("@, kind, ", on="@ + keys + ")"@);
            if 0 <= i < on.len() {
                let pair = expr_text(on[i].0) + " = "@ + expr_text(on[i].1);
                assert(on_texts(on)[i] == pair);
                lemma_separated(on_texts(on), " AND "@, i);
                lemma_text_in(pair, keys, "Join("@ + kind + ", on="@, ")"@);
            }
        },
        PlanView::Limit { n, .. } => {
            lemma_between("Limit("@, digits(n as nat), ")"@);
        },
        PlanView::Empty { .. } => {},
    }
}

/// An operator between two texts.
pub open spec fn operator_between(l: Seq<char>, op: BinaryOp, r: Seq<char>) -> Seq<char> {
    l + seq![' '] + op_text(op) + seq![' '] + r
}

/// Law: an expression shows its parts: an operator its sign between its sides, an aggregate its
/// function before its argument, a label behind what it labels.
pub proof fn law_expressions_show_their_parts(e: ExprView)
    ensures
        match e {
            ExprView::Column { name, relation } => expr_text(e) == key_of(name, relation),
            ExprView::Literal(s) => expr_text(e) == scalar_text(s),
            ExprView::Binary { left, op, right } => text_in(
                operator_between(expr_text(*left), op, expr_text(*right)),
                expr_text(e),
            ),
            ExprView::Aggregate { func, arg } => expr_text(e) == func_text(func) + seq!['('] + expr_text(
                *arg,
            ) + seq![')'],
            ExprView::Alias { expr, name } => exists|between: Seq<char>| expr_text(e) == #[trigger] (
            (expr_text(*expr) + between) + name),
            ExprView::Wildcard => true,
        },
{
    reveal_strlit(" ");
    reveal_strlit("(");
    reveal_strlit(")");
    assert(" "@ =~= seq![' ']);
    assert("("@ =~= seq!['(']);
    assert(")"@ =~= seq![')']);
    match e {
        ExprView::Binary { left, op, right } => {
            let x = operator_between(expr_text(*left), op, expr_text(*right));
            assert(expr_text(e) =~= "("@ + x + ")"@);
            lemma_between("("@, x, ")"@);
        },
        ExprView::Alias { expr, name } => {
            assert(expr_text(e) == (expr_text(*expr) + " AS "@) + name);
        },
        ExprView::Aggregate { func, arg } => {
            assert(expr_text(e) == func_text(func) + seq!['('] + expr_text(*arg) + seq![')']);
        },
        _ => {},
    }
}

/// Law: a column key is split into the qualifier and the name of which it is made, so that putting
/// them together gives it back, and the name holds no dot.
pub proof fn law_keys_are_split(key: Seq<char>)
    ensures
        key_of(key_name(key), key_relation(key)) == key,
        !key_name(key).contains('.'),
    decreases key.len(),
{
    lemma_last_dot(key);
    lemma_after_last_dot(key);
    reveal_strlit(".");
    let d = last_dot(key);
    if d >= 0 {
        assert(key.take(d) + "."@ + key.skip(d + 1) =~= key);
    }
}

/// The last dot is a dot, and none follows it.
proof fn lemma_after_last_dot(s: Seq<char>)
    ensures
        last_dot(s) >= 0 ==> s[last_dot(s)] == '.',
        forall|i: int| last_dot(s) < i < s.len() ==> s[i] != '.',
    decreases s.len(),
{
    lemma_last_dot(s);
    if s.len() > 0 && s.last() != '.' {
        let t = s.drop_last();
        lemma_last_dot(t);
        lemma_after_last_dot(t);
        assert forall|i: int| last_dot(s) < i < s.len() implies s[i] != '.' by {
            if i < t.len() {
                assert(t[i] == s[i]);
            }
        }
    }
}

/// Law: the key of a column reference means the column that the reference means, where the name of
/// the column holds no dot or a field has the key for a name.
pub proof fn law_keys_mean_their_columns(
    fields: Seq<FieldView>,
    name: Seq<char>,
    relation: Option<Seq<char>>,
)
    requires
        !name.contains('.') || names(fields).contains(key_of(name, relation)),
    ensures
        key_column(fields, key_of(name, relation)) == column_at(fields, name, relation),
{
    let key = key_of(name, relation);
    if !name.contains('.') {
        lemma_key_parts(name, relation);
    } else {
        law_keys_are_split(key);
        lemma_position(names(fields), key);
    }
}

/// A key is split into the name without a dot and the qualifier of which it is made.
proof fn lemma_key_parts(name: Seq<char>, relation: Option<Seq<char>>)
    requires
        !name.contains('.'),
    ensures
        key_name(key_of(name, relation)) == name,
        key_relation(key_of(name, relation)) == relation,
{
    let key = key_of(name, relation);
    match relation {
        Some(q) => {
            reveal_strlit(".");
            let d = q.len() as int;
            assert(key[d] == '.');
            assert forall|i: int| d < i < key.len() implies key[i] != '.' by {
                assert(key[i] == name[i - d - 1]);
            }
            lemma_last_dot_is(key, d);
            assert(key.skip(d + 1) =~= name);
            assert(key.take(d) =~= q);
        },
        None => {
            assert forall|i: int| 0 <= i < key.len() implies key[i] != '.' by {
                assert(key[i] == name[i]);
            }
            lemma_last_dot_is(key, -1);
        },
    }
}

/// A dot that none follows is the last one.
proof fn lemma_last_dot_is(s: Seq<char>, d: int)
    requires
        -1 <= d < s.len(),
        d >= 0 ==> s[d] == '.',
        forall|i: int| d < i < s.len() ==> s[i] != '.',
    ensures
        last_dot(s) == d,
{
    lemma_last_dot(s);
    lemma_after_last_dot(s);
}

/// Law: of several statements the first one is taken, and only a query is.
pub proof fn law_the_first_query_is_taken(s: StatementView, more: Seq<StatementView>, q: QueryView)
    ensures
        first_query(Ok(seq![StatementView::Query(q)] + more)) == Ok::<StatementView, ErrorView>(
            StatementView::Query(q),
        ),
        !(s is Query) ==> first_query(Ok(seq![s] + more)) is Err,
        first_query(Ok(Seq::empty())) is Err,
{
}

/// Law: the words of an error end with its text, and begin with its kind: two errors of one text are
/// reported alike only if they are of one kind.
pub proof fn law_errors_say_their_kind(a: ErrorView, b: ErrorView, s: Seq<char>)
    requires
        a == ErrorView::Parse(s) || a == ErrorView::Plan(s) || a == ErrorView::Execution(s) || a
            == ErrorView::Storage(s) || a == ErrorView::Type(s),
        b == ErrorView::Parse(s) || b == ErrorView::Plan(s) || b == ErrorView::Execution(s) || b
            == ErrorView::Storage(s) || b == ErrorView::Type(s),
    ensures
        a.message().len() >= s.len() && a.message().skip(a.message().len() - s.len()) == s,
        a.message() == b.message() ==> a == b,
{
    reveal_strlit("parse error: ");
    reveal_strlit("plan error: ");
    reveal_strlit("execution error: ");
    reveal_strlit("storage error: ");
    reveal_strlit("type error: ");
    assert(a.message().skip(a.message().len() - s.len()) =~= s);
    assert(a.message()[0] == (match a {
        ErrorView::Parse(_) => 'p',
        ErrorView::Plan(_) => 'p',
        ErrorView::Execution(_) => 'e',
        ErrorView::Storage(_) => 's',
        ErrorView::Type(_) => 't',
    }));
    assert(b.message()[0] == (match b {
        ErrorView::Parse(_) => 'p',
        ErrorView::Plan(_) => 'p',
        ErrorView::Execution(_) => 'e',
        ErrorView::Storage(_) => 's',
        ErrorView::Type(_) => 't',
    }));
}

} // verus!
