//! The value of an expression where its columns are bound, renamed, dropped or put beside others.

use vstd::prelude::*;
use crate::executor::batch::Cell;
use crate::executor::batch::kernels::{connected_cell, truth_in};
use crate::executor::expr_eval::column_at;
use crate::optimizer::columns::columns;
use crate::planner::logical_plan::{key_of, BinaryOp, ExprView};
use crate::semantics::{expr_type, holds, join_rows, matches_of, row_key, rows_where, value_in};
use crate::types::{lemma_position, lemma_position_is, names, position, FieldView};

verus! {

/// Two rows show the same value, of the same type, under a key.
pub open spec fn same_at(
    k: Seq<char>,
    f: Seq<FieldView>,
    x: Seq<Cell>,
    g: Seq<FieldView>,
    y: Seq<Cell>,
) -> bool {
    match (position(names(f), k), position(names(g), k)) {
        (Some(i), Some(j)) => x[i] == y[j] && f[i].data_type == g[j].data_type,
        _ => false,
    }
}

/// An expression has the same value, of the same type, in rows that show the same under every key
/// that it reads.
pub proof fn lemma_same_value(
    e: ExprView,
    f: Seq<FieldView>,
    x: Seq<Cell>,
    g: Seq<FieldView>,
    y: Seq<Cell>,
)
    requires
        forall|k: Seq<char>| #[trigger] columns(e).contains(k) ==> same_at(k, f, x, g, y),
    ensures
        value_in(e, f, x) == value_in(e, g, y),
        expr_type(e, f) == expr_type(e, g),
    decreases e,
{
    match e {
        ExprView::Column { name, relation } => {
            let k = key_of(name, relation);
            assert(columns(e).contains(k));
            assert(same_at(k, f, x, g, y));
        },
        ExprView::Binary { left, op, right } => {
            assert forall|k: Seq<char>| #[trigger] columns(*left).contains(k) implies same_at(
                k,
                f,
                x,
                g,
                y,
            ) by {
                assert(columns(e).contains(k));
            }
            assert forall|k: Seq<char>| #[trigger] columns(*right).contains(k) implies same_at(
                k,
                f,
                x,
                g,
                y,
            ) by {
                assert(columns(e).contains(k));
            }
            lemma_same_value(*left, f, x, g, y);
            lemma_same_value(*right, f, x, g, y);
        },
        ExprView::Alias { expr, .. } => {
            assert forall|k: Seq<char>| #[trigger] columns(*expr).contains(k) implies same_at(
                k,
                f,
                x,
                g,
                y,
            ) by {
                assert(columns(e).contains(k));
            }
            lemma_same_value(*expr, f, x, g, y);
        },
        _ => {},
    }
}

/// The expression reads only columns that the fields name.
pub open spec fn reads_within(e: ExprView, fields: Seq<FieldView>) -> bool {
    forall|k: Seq<char>| #[trigger] columns(e).contains(k) ==> names(fields).contains(k)
}

/// Every column that the expression reads is one of the fields: the one of its key, or else, under a
/// qualifier, the one of its bare name.
pub open spec fn found(e: ExprView, fields: Seq<FieldView>) -> bool
    decreases e,
{
    match e {
        ExprView::Column { name, relation } => column_at(fields, name, relation) is Some,
        ExprView::Binary { left, right, .. } => found(*left, fields) && found(*right, fields),
        ExprView::Aggregate { arg, .. } => found(*arg, fields),
        ExprView::Alias { expr, .. } => found(*expr, fields),
        _ => true,
    }
}

/// An expression that reads only columns that the fields name finds them.
pub proof fn lemma_reads_found(e: ExprView, fields: Seq<FieldView>)
    requires
        reads_within(e, fields),
    ensures
        found(e, fields),
    decreases e,
{
    match e {
        ExprView::Column { name, relation } => {
            assert(columns(e).contains(key_of(name, relation)));
            lemma_position(names(fields), key_of(name, relation));
        },
        ExprView::Binary { left, right, .. } => {
            assert forall|k: Seq<char>| #[trigger] columns(*left).contains(k) implies names(
                fields,
            ).contains(k) by {
                assert(columns(e).contains(k));
            }
            assert forall|k: Seq<char>| #[trigger] columns(*right).contains(k) implies names(
                fields,
            ).contains(k) by {
                assert(columns(e).contains(k));
            }
            lemma_reads_found(*left, fields);
            lemma_reads_found(*right, fields);
        },
        ExprView::Aggregate { arg, .. } => {
            assert(columns(e) == columns(*arg));
            lemma_reads_found(*arg, fields);
        },
        ExprView::Alias { expr, .. } => {
            assert(columns(e) == columns(*expr));
            lemma_reads_found(*expr, fields);
        },
        _ => {},
    }
}

/// The names of fields put one after the other.
pub proof fn lemma_names_concat(f: Seq<FieldView>, g: Seq<FieldView>)
    ensures
        names(f + g) == names(f) + names(g),
{
    assert(names(f + g) =~= names(f) + names(g));
}

/// A key of the left fields is found at the same place when others follow.
pub proof fn lemma_position_left(a: Seq<Seq<char>>, b: Seq<Seq<char>>, k: Seq<char>)
    requires
        a.contains(k),
    ensures
        position(a + b, k) == position(a, k),
        position(a, k) is Some,
{
    lemma_position(a, k);
    let i = position(a, k)->Some_0;
    assert((a + b)[i] == k);
    assert forall|j: int| 0 <= j < i implies (a + b)[j] != k by {
        assert(a[j] != k);
    }
    lemma_position_is(a + b, k, i);
}

/// A key of the right fields only is found behind the left ones.
pub proof fn lemma_position_right(a: Seq<Seq<char>>, b: Seq<Seq<char>>, k: Seq<char>)
    requires
        !a.contains(k),
        b.contains(k),
    ensures
        position(b, k) is Some,
        position(a + b, k) == Some(a.len() + position(b, k)->Some_0),
{
    lemma_position(b, k);
    let i = position(b, k)->Some_0;
    let s = a + b;
    assert(s[a.len() + i] == k);
    assert forall|j: int| 0 <= j < a.len() + i implies s[j] != k by {
        if j < a.len() {
            assert(a.contains(a[j]));
        } else {
            assert(b[j - a.len()] != k);
        }
    }
    lemma_position_is(s, k, a.len() + i);
}

/// An expression over the left fields has the same value beside other cells.
pub proof fn lemma_value_left(
    e: ExprView,
    f: Seq<FieldView>,
    x: Seq<Cell>,
    g: Seq<FieldView>,
    y: Seq<Cell>,
)
    requires
        reads_within(e, f),
        x.len() == f.len(),
    ensures
        value_in(e, f + g, x + y) == value_in(e, f, x),
        expr_type(e, f + g) == expr_type(e, f),
{
    lemma_names_concat(f, g);
    assert forall|k: Seq<char>| #[trigger] columns(e).contains(k) implies same_at(
        k,
        f + g,
        x + y,
        f,
        x,
    ) by {
        lemma_position_left(names(f), names(g), k);
        lemma_position(names(f), k);
    }
    lemma_same_value(e, f + g, x + y, f, x);
}

/// An expression over right fields that the left ones do not name has the same value beside them.
pub proof fn lemma_value_right(
    e: ExprView,
    f: Seq<FieldView>,
    x: Seq<Cell>,
    g: Seq<FieldView>,
    y: Seq<Cell>,
)
    requires
        reads_within(e, g),
        forall|k: Seq<char>| #[trigger] columns(e).contains(k) ==> !names(f).contains(k),
        x.len() == f.len(),
        y.len() == g.len(),
    ensures
        value_in(e, f + g, x + y) == value_in(e, g, y),
        expr_type(e, f + g) == expr_type(e, g),
{
    lemma_names_concat(f, g);
    assert forall|k: Seq<char>| #[trigger] columns(e).contains(k) implies same_at(
        k,
        f + g,
        x + y,
        g,
        y,
    ) by {
        lemma_position_right(names(f), names(g), k);
        lemma_position(names(g), k);
    }
    lemma_same_value(e, f + g, x + y, g, y);
}

/// A conjunction holds where both of its sides hold.
pub proof fn lemma_holds_and(l: ExprView, r: ExprView, f: Seq<FieldView>, x: Seq<Cell>)
    ensures
        holds(
            ExprView::Binary { left: Box::new(l), op: BinaryOp::And, right: Box::new(r) },
            f,
            x,
        ) == (holds(l, f, x) && holds(r, f, x)),
{
    let e = ExprView::Binary { left: Box::new(l), op: BinaryOp::And, right: Box::new(r) };
    let a = truth_in(expr_type(l, f), value_in(l, f, x));
    let b = truth_in(expr_type(r, f), value_in(r, f, x));
    assert(value_in(e, f, x) == connected_cell(BinaryOp::And, a, b));
}

/// Predicates that hold in the same rows select the same rows.
pub proof fn lemma_rows_where_same(
    d: ExprView,
    f: Seq<FieldView>,
    e: ExprView,
    g: Seq<FieldView>,
    rows: Seq<Seq<Cell>>,
)
    requires
        forall|i: int| 0 <= i < rows.len() ==> holds(d, f, #[trigger] rows[i]) == holds(e, g, rows[i]),
    ensures
        rows_where(d, f, rows) == rows_where(e, g, rows),
    decreases rows.len(),
{
    if rows.len() > 0 {
        let rest = rows.drop_last();
        assert forall|i: int| 0 <= i < rest.len() implies holds(d, f, #[trigger] rest[i]) == holds(
            e,
            g,
            rest[i],
        ) by {
            assert(rest[i] == rows[i]);
        }
        lemma_rows_where_same(d, f, e, g, rest);
        assert(holds(d, f, rows[rows.len() - 1]) == holds(e, g, rows[rows.len() - 1]));
    }
}

/// The rows that a predicate selects are rows of the table, and it holds in them.
pub proof fn lemma_rows_where_within(e: ExprView, f: Seq<FieldView>, rows: Seq<Seq<Cell>>)
    ensures
        rows_where(e, f, rows).len() <= rows.len(),
        forall|i: int|
            0 <= i < rows_where(e, f, rows).len() ==> rows.contains(
                #[trigger] rows_where(e, f, rows)[i],
            ) && holds(e, f, rows_where(e, f, rows)[i]),
    decreases rows.len(),
{
    if rows.len() > 0 {
        let rest = rows.drop_last();
        lemma_rows_where_within(e, f, rest);
        let kept = rows_where(e, f, rest);
        assert forall|i: int| 0 <= i < rows_where(e, f, rows).len() implies rows.contains(
            #[trigger] rows_where(e, f, rows)[i],
        ) && holds(e, f, rows_where(e, f, rows)[i]) by {
            if i < kept.len() {
                let r = kept[i];
                assert(rest.contains(r));
                let k = choose|k: int| 0 <= k < rest.len() && rest[k] == r;
                assert(rows[k] == r);
            } else {
                assert(rows[rows.len() - 1] == rows.last());
            }
        }
    }
}

/// Selecting by one predicate after another selects by both.
pub proof fn lemma_rows_where_twice(
    d: ExprView,
    e: ExprView,
    f: Seq<FieldView>,
    rows: Seq<Seq<Cell>>,
)
    ensures
        rows_where(d, f, rows_where(e, f, rows)) == rows_where(
            ExprView::Binary { left: Box::new(d), op: BinaryOp::And, right: Box::new(e) },
            f,
            rows,
        ),
    decreases rows.len(),
{
    if rows.len() > 0 {
        lemma_rows_where_twice(d, e, f, rows.drop_last());
        lemma_holds_and(d, e, f, rows.last());
        let kept = rows_where(e, f, rows.drop_last());
        if holds(e, f, rows.last()) {
            assert(kept.push(rows.last()).drop_last() =~= kept);
        }
    }
}

/// Without right rows nothing is joined.
pub proof fn lemma_join_without_right(
    lkeys: Seq<ExprView>,
    lf: Seq<FieldView>,
    lrows: Seq<Seq<Cell>>,
    rkeys: Seq<ExprView>,
    rf: Seq<FieldView>,
)
    ensures
        join_rows(lkeys, lf, lrows, rkeys, rf, Seq::empty()) == Seq::<Seq<Cell>>::empty(),
    decreases lrows.len(),
{
    if lrows.len() > 0 {
        lemma_join_without_right(lkeys, lf, lrows.drop_last(), rkeys, rf);
        assert(Seq::<Seq<Cell>>::empty() + Seq::<Seq<Cell>>::empty() =~= Seq::<Seq<Cell>>::empty());
    }
}

/// Right keys with the same values match the same rows.
proof fn lemma_matches_same(
    left: Seq<Cell>,
    key: Seq<Cell>,
    rk: Seq<ExprView>,
    rf: Seq<FieldView>,
    rk2: Seq<ExprView>,
    rf2: Seq<FieldView>,
    rows: Seq<Seq<Cell>>,
)
    requires
        forall|i: int|
            0 <= i < rows.len() ==> row_key(rk, rf, #[trigger] rows[i]) == row_key(
                rk2,
                rf2,
                rows[i],
            ),
    ensures
        matches_of(left, key, rk, rf, rows) == matches_of(left, key, rk2, rf2, rows),
    decreases rows.len(),
{
    if rows.len() > 0 {
        let rest = rows.drop_last();
        assert forall|i: int| 0 <= i < rest.len() implies row_key(rk, rf, #[trigger] rest[i])
            == row_key(rk2, rf2, rest[i]) by {
            assert(rest[i] == rows[i]);
        }
        lemma_matches_same(left, key, rk, rf, rk2, rf2, rest);
        assert(row_key(rk, rf, rows[rows.len() - 1]) == row_key(rk2, rf2, rows[rows.len() - 1]));
    }
}

/// Keys with the same values join the same rows.
pub proof fn lemma_join_same_keys(
    lk: Seq<ExprView>,
    lf: Seq<FieldView>,
    lk2: Seq<ExprView>,
    lf2: Seq<FieldView>,
    lrows: Seq<Seq<Cell>>,
    rk: Seq<ExprView>,
    rf: Seq<FieldView>,
    rk2: Seq<ExprView>,
    rf2: Seq<FieldView>,
    rrows: Seq<Seq<Cell>>,
)
    requires
        forall|i: int|
            0 <= i < lrows.len() ==> row_key(lk, lf, #[trigger] lrows[i]) == row_key(
                lk2,
                lf2,
                lrows[i],
            ),
        forall|i: int|
            0 <= i < rrows.len() ==> row_key(rk, rf, #[trigger] rrows[i]) == row_key(
                rk2,
                rf2,
                rrows[i],
            ),
    ensures
        join_rows(lk, lf, lrows, rk, rf, rrows) == join_rows(lk2, lf2, lrows, rk2, rf2, rrows),
    decreases lrows.len(),
{
    if lrows.len() > 0 {
        let rest = lrows.drop_last();
        assert forall|i: int| 0 <= i < rest.len() implies row_key(lk, lf, #[trigger] rest[i])
            == row_key(lk2, lf2, rest[i]) by {
            assert(rest[i] == lrows[i]);
        }
        lemma_join_same_keys(lk, lf, lk2, lf2, rest, rk, rf, rk2, rf2, rrows);
        let l = lrows[lrows.len() - 1];
        assert(row_key(lk, lf, l) == row_key(lk2, lf2, l));
        lemma_matches_same(l, row_key(lk, lf, l), rk, rf, rk2, rf2, rrows);
    }
}

} // verus!
