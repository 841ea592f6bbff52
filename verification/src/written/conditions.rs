//! The planner's expressions have the values that the query writes.

use vstd::prelude::*;
use crate::executor::batch::kernels::value_order;
use crate::executor::batch::{fits, null_cell, Cell};
use crate::executor::expr_eval::column_at;
use crate::optimizer::constant_folding::{is_arithmetic, truncated_quotient};
use crate::order::{lemma_list_order, lemma_text_order, list_order, text_order, Order};
use crate::parser::ast::{OpView, SqlView};
use crate::planner::expressions::{convert, named_so, plan_op, split_field, suffix_matches};
use crate::planner::logical_plan::{key_of, ExprView};
use crate::semantics::{expr_type, holds, rows_where, value_in};
use crate::text::{first_index, lemma_first_index};
use crate::types::{lemma_position, lemma_position_is, names, DataType, FieldView, ScalarView};
use crate::written::{
    compares, comparison, computation, computes, connects, cuts_to, divides, field_named,
    first_named, has_field, is_true, list_before, names_field, qualifies, row_fits, text_before,
    type_of, value_before, value_of,
};

verus! {

/// The first field of a name stands at the name's position.
pub proof fn lemma_first_named(fields: Seq<FieldView>, name: Seq<char>, i: int)
    requires
        first_named(fields, name, i),
    ensures
        crate::types::position(names(fields), name) == Some(i),
        has_field(fields, name),
{
    assert forall|j: int| 0 <= j < i implies names(fields)[j] != name by {
        assert(fields[j].name != name);
    }
    assert(fields[i].name == name);
    lemma_position_is(names(fields), name, i);
}

/// A field of the name is there if its position is.
pub proof fn lemma_has_field(fields: Seq<FieldView>, name: Seq<char>)
    ensures
        has_field(fields, name) == names(fields).contains(name),
        match crate::types::position(names(fields), name) {
            Some(i) => has_field(fields, name) && first_named(fields, name, i),
            None => !has_field(fields, name),
        },
{
    lemma_position(names(fields), name);
    if has_field(fields, name) {
        let i = choose|i: int| 0 <= i < fields.len() && (#[trigger] fields[i]).name == name;
        assert(names(fields)[i] == name);
    }
    match crate::types::position(names(fields), name) {
        Some(i) => {
            assert(fields[i].name == name);
            assert forall|j: int| 0 <= j < i implies (#[trigger] fields[j]).name != name by {
                assert(names(fields)[j] != name);
            }
        },
        None => {},
    }
    if names(fields).contains(name) {
        let i = choose|i: int| 0 <= i < names(fields).len() && names(fields)[i] == name;
        assert(fields[i].name == name);
    }
}

/// A field has a name under a qualifier if it ends with a dot and the name.
pub proof fn lemma_qualifies(field: Seq<char>, name: Seq<char>)
    ensures
        qualifies(field, name) == crate::text::ends(field, "."@ + name),
{
    let p = "."@ + name;
    if crate::text::ends(field, p) {
        let q = field.take(field.len() - p.len());
        assert(field =~= q + field.skip(field.len() - p.len()));
        assert((q + "."@) + name =~= q + p);
        assert(field == (q + "."@) + name);
    }
    if qualifies(field, name) {
        let q = choose|q: Seq<char>| field == #[trigger] (q + "."@) + name;
        assert((q + "."@) + name =~= q + p);
        assert(field.skip(field.len() - p.len()) =~= p);
    }
}

/// The indices that match a name are those of the fields that have it, each once.
pub proof fn lemma_all_matches(list: Seq<Seq<char>>, name: Seq<char>)
    ensures
        forall|i: int|
            0 <= i < suffix_matches(list, name).len() ==> {
                let k = #[trigger] suffix_matches(list, name)[i];
                0 <= k < list.len() && named_so(list[k], name)
            },
        forall|k: int|
            0 <= k < list.len() && named_so(#[trigger] list[k], name) ==> suffix_matches(
                list,
                name,
            ).contains(k),
    decreases list.len(),
{
    if list.len() > 0 {
        let init = list.drop_last();
        let rest = suffix_matches(init, name);
        let all = suffix_matches(list, name);
        lemma_all_matches(init, name);
        assert forall|i: int| 0 <= i < all.len() implies {
            let k = #[trigger] all[i];
            0 <= k < list.len() && named_so(list[k], name)
        } by {
            if i < rest.len() {
                assert(init[rest[i]] == list[rest[i]]);
            }
        }
        assert forall|k: int| 0 <= k < list.len() && named_so(#[trigger] list[k], name) implies all.contains(
            k,
        ) by {
            if k < init.len() {
                assert(init[k] == list[k]);
                assert(rest.contains(k));
                let i = choose|i: int| 0 <= i < rest.len() && rest[i] == k;
                assert(all[i] == k);
            } else {
                assert(all[all.len() - 1] == k);
            }
        }
    }
}

/// The key of a field that is split at its first dot is the field.
proof fn lemma_split_key(field: Seq<char>, name: Seq<char>)
    requires
        field.contains('.'),
    ensures
        split_field(field, name) matches ExprView::Column { name: n, relation: r } && key_of(n, r)
            == field,
{
    reveal_strlit(".");
    let dot = first_index(field, '.');
    lemma_first_index(field, '.');
    assert(field.take(dot) + "."@ + field.skip(dot + 1) =~= field);
}

/// A name of the query is planned as the column of the field that it means.
pub proof fn lemma_named_column(e: SqlView, schema: Seq<FieldView>, f: Seq<FieldView>)
    requires
        e is Identifier || e is Compound,
        convert(e, schema) is Ok,
        names(f) == names(schema),
    ensures
        names_field(e, f, field_named(e, f)),
        0 <= field_named(e, f) < f.len(),
        convert(e, schema) matches Ok(ExprView::Column { name, relation }) && column_at(
            f,
            name,
            relation,
        ) == Some(field_named(e, f)) && (e is Identifier ==> key_of(name, relation) == f[field_named(
            e,
            f,
        )].name),
        forall|i: int| names_field(e, f, i) ==> i == field_named(e, f),
{
    let ns = names(f);
    match e {
        SqlView::Identifier(name) => {
            lemma_has_field(f, name);
            if has_field(f, name) {
                let i = crate::types::position(ns, name)->Some_0;
                assert(names_field(e, f, i));
                assert forall|j: int| names_field(e, f, j) implies j == i by {
                    lemma_first_named(f, name, j);
                }
            } else {
                let found = suffix_matches(ns, name);
                lemma_all_matches(ns, name);
                let k = found[0];
                assert(found.len() == 1);
                assert(ns[k] != name) by {
                    if ns[k] == name {
                        assert(ns.contains(name));
                    }
                }
                lemma_qualifies(ns[k], name);
                assert(f[k].name == ns[k]);
                assert(names_field(e, f, k));
                assert forall|j: int| names_field(e, f, j) implies j == k by {
                    lemma_qualifies(f[j].name, name);
                    assert(ns[j] == f[j].name);
                    assert(found.contains(j));
                }
                reveal_strlit(".");
                let field = ns[k];
                let q = choose|q: Seq<char>| field == #[trigger] (q + "."@) + name;
                assert(field[q.len() as int] == '.');
                lemma_split_key(field, name);
                assert forall|j: int| 0 <= j < k implies ns[j] != field by {
                    if ns[j] == field {
                        assert(found.contains(j));
                    }
                }
                lemma_position_is(ns, field, k);
            }
        },
        SqlView::Compound(parts) => {
            let whole = parts[0] + "."@ + parts[1];
            lemma_has_field(f, whole);
            lemma_has_field(f, parts[1]);
            let i = if has_field(f, whole) {
                crate::types::position(ns, whole)->Some_0
            } else {
                crate::types::position(ns, parts[1])->Some_0
            };
            assert(names_field(e, f, i));
            assert forall|j: int| names_field(e, f, j) implies j == i by {
                if has_field(f, whole) {
                    lemma_first_named(f, whole, j);
                } else {
                    lemma_first_named(f, parts[1], j);
                }
            }
        },
        _ => {},
    }
}

/// A text that begins another, or is the lesser at the first place in which they differ, comes first.
pub proof fn law_texts_are_ordered(a: Seq<char>, b: Seq<char>)
    ensures
        (text_order(a, b) == Order::Less) == text_before(a, b),
        (text_order(a, b) == Order::Greater) == text_before(b, a),
        (text_order(a, b) == Order::Equal) == (a == b),
{
    lemma_text_order(a, b);
    lemma_text_before(a, b);
    lemma_text_before(b, a);
}

proof fn lemma_text_before(a: Seq<char>, b: Seq<char>)
    ensures
        (text_order(a, b) == Order::Less) == text_before(a, b),
    decreases a.len(),
{
    if a.len() == 0 {
        if b.len() > 0 {
            assert(a.take(0) =~= b.take(0));
        }
    } else if b.len() > 0 {
        if a[0] == b[0] {
            let x = a.skip(1);
            let y = b.skip(1);
            lemma_text_before(x, y);
            if text_before(x, y) {
                let k = choose|k: int|
                    0 <= k <= x.len() && k < y.len() && #[trigger] x.take(k) == y.take(k) && (k
                        == x.len() || (x[k] as int) < y[k] as int);
                assert(a.take(k + 1) =~= seq![a[0]] + x.take(k));
                assert(b.take(k + 1) =~= seq![b[0]] + y.take(k));
                assert(a.take(k + 1) == b.take(k + 1));
            }
            if text_before(a, b) {
                let k = choose|k: int|
                    0 <= k <= a.len() && k < b.len() && #[trigger] a.take(k) == b.take(k) && (k
                        == a.len() || (a[k] as int) < b[k] as int);
                assert(k > 0);
                assert(x.take(k - 1) =~= a.take(k).skip(1));
                assert(y.take(k - 1) =~= b.take(k).skip(1));
                assert(x.take(k - 1) == y.take(k - 1));
            }
        } else {
            if a[0] < b[0] {
                assert(a.take(0) =~= b.take(0));
            }
            if text_before(a, b) {
                let k = choose|k: int|
                    0 <= k <= a.len() && k < b.len() && #[trigger] a.take(k) == b.take(k) && (k
                        == a.len() || (a[k] as int) < b[k] as int);
                if k > 0 {
                    assert(a.take(k)[0] == a[0]);
                    assert(b.take(k)[0] == b[0]);
                }
            }
        }
    }
}

proof fn lemma_list_before(a: Seq<int>, b: Seq<int>)
    ensures
        (list_order(a, b) == Order::Less) == list_before(a, b),
    decreases a.len(),
{
    if a.len() == 0 {
        if b.len() > 0 {
            assert(a.take(0) =~= b.take(0));
        }
    } else if b.len() > 0 {
        if a[0] == b[0] {
            let x = a.skip(1);
            let y = b.skip(1);
            lemma_list_before(x, y);
            if list_before(x, y) {
                let k = choose|k: int|
                    0 <= k <= x.len() && k < y.len() && #[trigger] x.take(k) == y.take(k) && (k
                        == x.len() || x[k] < y[k]);
                assert(a.take(k + 1) =~= seq![a[0]] + x.take(k));
                assert(b.take(k + 1) =~= seq![b[0]] + y.take(k));
                assert(a.take(k + 1) == b.take(k + 1));
            }
            if list_before(a, b) {
                let k = choose|k: int|
                    0 <= k <= a.len() && k < b.len() && #[trigger] a.take(k) == b.take(k) && (k
                        == a.len() || a[k] < b[k]);
                assert(k > 0);
                assert(x.take(k - 1) =~= a.take(k).skip(1));
                assert(y.take(k - 1) =~= b.take(k).skip(1));
                assert(x.take(k - 1) == y.take(k - 1));
            }
        } else {
            if a[0] < b[0] {
                assert(a.take(0) =~= b.take(0));
            }
            if list_before(a, b) {
                let k = choose|k: int|
                    0 <= k <= a.len() && k < b.len() && #[trigger] a.take(k) == b.take(k) && (k
                        == a.len() || a[k] < b[k]);
                if k > 0 {
                    assert(a.take(k)[0] == a[0]);
                    assert(b.take(k)[0] == b[0]);
                }
            }
        }
    }
}

/// Law: values of one type, neither of them NULL, are compared by where they stand: one of them is
/// before the other, or they are equal.
pub proof fn law_values_are_ordered(t: DataType, a: Cell, b: Cell)
    requires
        fits(t, a),
        fits(t, b),
        a != null_cell(),
        b != null_cell(),
    ensures
        value_order(a, b) is Some,
        (value_order(a, b) == Some(Order::Less)) == value_before(a, b),
        (value_order(a, b) == Some(Order::Greater)) == value_before(b, a),
        (value_order(a, b) == Some(Order::Equal)) == (a == b),
{
    match (a, b) {
        (Cell::Scalar(ScalarView::Utf8(x)), Cell::Scalar(ScalarView::Utf8(y))) => {
            law_texts_are_ordered(x, y);
        },
        (Cell::Opaque(x), Cell::Opaque(y)) => {
            lemma_list_order(x, y);
            lemma_list_before(x, y);
            lemma_list_before(y, x);
        },
        _ => {},
    }
}

/// Rounding a quotient toward zero cuts off the part behind the point, and nothing else does.
pub proof fn lemma_quotient(x: int, y: int)
    requires
        y != 0,
    ensures
        cuts_to(x, y, truncated_quotient(x, y)),
        forall|q: int| #[trigger] cuts_to(x, y, q) ==> q == truncated_quotient(x, y),
{
    let a = if x < 0 { -x } else { x };
    let b = if y < 0 { -y } else { y };
    let m = a / b;
    let r = a - m * b;
    assert(0 <= r < b) by (nonlinear_arith)
        requires
            b > 0,
            a >= 0,
            m == a / b,
            r == a - m * b,
    ;
    let t = truncated_quotient(x, y);
    assert(x - t * y == if x < 0 { -r } else { r }) by (nonlinear_arith)
        requires
            a == (if x < 0 { -x } else { x }),
            b == (if y < 0 { -y } else { y }),
            r == a - m * b,
            t == (if (x < 0) == (y < 0) { m } else { -m }),
    ;
    assert forall|q: int| #[trigger] cuts_to(x, y, q) implies q == t by {
        let s = x - q * y;
        let d = q - t;
        assert(-b < d * y < b) by (nonlinear_arith)
            requires
                s == x - q * y,
                d == q - t,
                -b < s < b,
                0 <= r < b,
                x - t * y == (if x < 0 { -r } else { r }),
                x >= 0 ==> s >= 0,
                x <= 0 ==> s <= 0,
        ;
        assert(d == 0) by (nonlinear_arith)
            requires
                -b < d * y < b,
                b == (if y < 0 { -y } else { y }),
                y != 0,
        ;
    }
}

/// An operator of the plan between values of one type makes of them what the written one does.
proof fn lemma_operator(op: OpView, t: DataType, a: Cell, b: Cell)
    requires
        plan_op(op) is Ok,
        fits(t, a),
        fits(t, b),
        connects(op) ==> t == DataType::Boolean,
        computes(op) ==> t == DataType::Int64 || t == DataType::Float64,
        op is Divide ==> b != Cell::Scalar(ScalarView::Int64(0)),
    ensures
        ({
            let v = crate::semantics::operator_value(plan_op(op)->Ok_0, t, a, t, b);
            if connects(op) {
                v == crate::written::connection(op, a, b) && fits(DataType::Boolean, v)
            } else if computes(op) {
                v == computation(op, a, b) && fits(t, v)
            } else {
                v == comparison(op, a, b) && fits(DataType::Boolean, v)
            }
        }),
        is_arithmetic(plan_op(op)->Ok_0) == computes(op),
{
    if computes(op) {
        match (a, b) {
            (Cell::Scalar(ScalarView::Int64(x)), Cell::Scalar(ScalarView::Int64(y))) => {
                if op is Divide {
                    lemma_quotient(x as int, y as int);
                    let q = choose|q: int| #[trigger] cuts_to(x as int, y as int, q);
                    assert(cuts_to(x as int, y as int, q));
                }
            },
            _ => {},
        }
    } else if compares(op) {
        if a != null_cell() && b != null_cell() {
            law_values_are_ordered(t, a, b);
            law_values_are_ordered(t, b, a);
        }
    }
}

/// Law: a condition or any other expression of columns, literals and operators is planned so that it
/// has, in every row, the value that is written: each name by the field that it means, each operator
/// by what it does to the two values beside it.
pub proof fn law_expressions_have_their_value(
    e: SqlView,
    schema: Seq<FieldView>,
    f: Seq<FieldView>,
    row: Seq<Cell>,
)
    requires
        convert(e, schema) is Ok,
        names(f) == names(schema),
        type_of(e, f) is Some,
        row_fits(f, row),
        divides(e, f, row),
    ensures
        value_in(convert(e, schema)->Ok_0, f, row) == value_of(e, f, row),
        expr_type(convert(e, schema)->Ok_0, f) == type_of(e, f)->Some_0,
        fits(type_of(e, f)->Some_0, value_of(e, f, row)),
    decreases e,
{
    match e {
        SqlView::Identifier(_) => { lemma_named_column(e, schema, f); },
        SqlView::Compound(_) => { lemma_named_column(e, schema, f); },
        SqlView::Value(_) => {},
        SqlView::Binary { left, op, right } => {
            law_expressions_have_their_value(*left, schema, f, row);
            law_expressions_have_their_value(*right, schema, f, row);
            let t = type_of(*left, f)->Some_0;
            lemma_operator(op, t, value_of(*left, f, row), value_of(*right, f, row));
        },
        SqlView::Nested(inner) => { law_expressions_have_their_value(*inner, schema, f, row); },
        _ => {},
    }
}

/// The condition can be decided in every one of the rows.
pub open spec fn decided(e: SqlView, f: Seq<FieldView>, rows: Seq<Seq<Cell>>) -> bool {
    &&& type_of(e, f) == Some(DataType::Boolean)
    &&& forall|i: int|
        0 <= i < rows.len() ==> row_fits(f, #[trigger] rows[i]) && divides(e, f, rows[i])
}

/// Law: a planned condition selects, in their order, the rows in which the written condition is TRUE.
pub proof fn law_where_selects(
    e: SqlView,
    schema: Seq<FieldView>,
    f: Seq<FieldView>,
    rows: Seq<Seq<Cell>>,
)
    requires
        convert(e, schema) is Ok,
        names(f) == names(schema),
        decided(e, f, rows),
    ensures
        rows_where(convert(e, schema)->Ok_0, f, rows) == rows.filter(
            |r: Seq<Cell>| is_true(e, f, r),
        ),
    decreases rows.len(),
{
    let p = |r: Seq<Cell>| is_true(e, f, r);
    reveal(Seq::filter);
    if rows.len() > 0 {
        let rest = rows.drop_last();
        assert(decided(e, f, rest)) by {
            assert forall|i: int| 0 <= i < rest.len() implies row_fits(f, #[trigger] rest[i]) && divides(
                e,
                f,
                rest[i],
            ) by {
                assert(rest[i] == rows[i]);
            }
        }
        law_where_selects(e, schema, f, rest);
        assert(row_fits(f, rows[rows.len() - 1]));
        law_expressions_have_their_value(e, schema, f, rows.last());
        let x = convert(e, schema)->Ok_0;
        assert(holds(x, f, rows.last()) == is_true(e, f, rows.last()));
    } else {
        assert(rows.filter(p) =~= Seq::empty());
    }
}

/// A planned expression has the type that is written.
pub proof fn lemma_written_type(e: SqlView, schema: Seq<FieldView>, f: Seq<FieldView>)
    requires
        convert(e, schema) is Ok,
        names(f) == names(schema),
        type_of(e, f) is Some,
    ensures
        expr_type(convert(e, schema)->Ok_0, f) == type_of(e, f)->Some_0,
    decreases e,
{
    match e {
        SqlView::Identifier(_) => { lemma_named_column(e, schema, f); },
        SqlView::Compound(_) => { lemma_named_column(e, schema, f); },
        SqlView::Binary { left, right, .. } => {
            lemma_written_type(*left, schema, f);
            lemma_written_type(*right, schema, f);
        },
        SqlView::Nested(inner) => { lemma_written_type(*inner, schema, f); },
        _ => {},
    }
}

} // verus!
