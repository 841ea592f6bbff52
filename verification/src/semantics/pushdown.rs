//! Predicate pushdown keeps what a plan means.

use vstd::prelude::*;
use crate::executor::batch::Cell;
use crate::executor::expr_eval::column_at;
use crate::optimizer::columns::{columns, sets_meet};
use crate::optimizer::predicate_pushdown::{
    bindings, conjunction, filtered, flatten, joins, lemma_push_down_keeps, names_after,
    names_before, nodes, on_side, push_down, push_filter, side_of, strip_alias, substitute, Side,
};
use crate::optimizer::projection_pruning::{left_keys, right_keys};
use crate::planner::logical_plan::{key_of, BinaryOp, ExprView, JoinType, PlanView};
use crate::semantics::sensible::{
    all_found, all_read_within, fitting, lemma_passes_all, lemma_passes_and, lemma_row_width,
    lemma_schema_names, lemma_sensible_inner, passes, seen, sensible,
};
use crate::semantics::values::{
    found, lemma_holds_and, lemma_names_concat, lemma_rows_where_twice, lemma_value_left,
    lemma_value_right, reads_within,
};
use crate::semantics::{
    expr_type, fields_of, holds, join_rows, matches_of, meaning, projected_row, projected_rows,
    row_key, rows_where, value_in,
};
use crate::executor::sums::Sums;
use crate::types::{lemma_position, names, position, FieldView, ScalarView};

verus! {

/// A projection binds the names of its outputs, each to an output of that name.
pub proof fn lemma_bindings(exprs: Seq<ExprView>, outputs: Seq<Seq<char>>, k: Seq<char>)
    requires
        exprs.len() <= outputs.len(),
    ensures
        bindings(exprs, outputs).dom().contains(k) <==> outputs.take(exprs.len() as int).contains(
            k,
        ),
        bindings(exprs, outputs).dom().contains(k) ==> exists|j: int|
            0 <= j < exprs.len() && #[trigger] outputs[j] == k && bindings(exprs, outputs)[k]
                == strip_alias(exprs[j]),
    decreases exprs.len(),
{
    if exprs.len() > 0 {
        let rest = exprs.drop_last();
        let n = rest.len() as int;
        let outs = outputs.take(exprs.len() as int);
        lemma_bindings(rest, outputs, k);
        if outputs[n] == k {
            assert(outs[n] == k);
            assert(strip_alias(exprs.last()) == strip_alias(exprs[n]));
        } else if bindings(rest, outputs).dom().contains(k) {
            let j = choose|j: int|
                0 <= j < rest.len() && #[trigger] outputs[j] == k && bindings(rest, outputs)[k]
                    == strip_alias(rest[j]);
            assert(rest[j] == exprs[j]);
            assert(outs[j] == k);
        } else if outs.contains(k) {
            let j = choose|j: int| 0 <= j < outs.len() && outs[j] == k;
            assert(outputs.take(n)[j] == k);
        }
    } else {
        assert(!outputs.take(0).contains(k));
    }
}

/// The fields of a projection.
pub open spec fn projection_fields(
    exprs: Seq<ExprView>,
    schema: Seq<FieldView>,
    f: Seq<FieldView>,
) -> Seq<FieldView> {
    Seq::new(
        schema.len(),
        |i: int|
            FieldView {
                name: schema[i].name,
                data_type: if i < exprs.len() {
                    expr_type(exprs[i], f)
                } else {
                    schema[i].data_type
                },
            },
    )
}

/// A predicate on projected rows has the value of the substituted predicate on the rows before.
proof fn lemma_substitute_value(
    e: ExprView,
    exprs: Seq<ExprView>,
    schema: Seq<FieldView>,
    f: Seq<FieldView>,
    row: Seq<Cell>,
)
    requires
        exprs.len() == schema.len(),
        seen(e, exprs, names(schema), f),
    ensures
        value_in(substitute(e, bindings(exprs, names(schema))), f, row) == value_in(
            e,
            projection_fields(exprs, schema, f),
            projected_row(exprs, f, row),
        ),
        expr_type(substitute(e, bindings(exprs, names(schema))), f) == expr_type(
            e,
            projection_fields(exprs, schema, f),
        ),
    decreases e,
{
    let outs = names(schema);
    let m = bindings(exprs, outs);
    let g = projection_fields(exprs, schema, f);
    assert(names(g) =~= outs);
    match e {
        ExprView::Column { name, relation } => {
            let k = key_of(name, relation);
            assert(outs.take(exprs.len() as int) =~= outs);
            lemma_bindings(exprs, outs, k);
            lemma_position(outs, k);
            lemma_position(outs, name);
            match position(outs, k) {
                Some(i) => {
                    assert(outs[i] == k);
                    assert(outs.contains(k));
                    let j = choose|j: int|
                        0 <= j < exprs.len() && #[trigger] outs[j] == k && m[k] == strip_alias(
                            exprs[j],
                        );
                    assert(outs[j] == outs[i]);
                    assert(column_at(g, name, relation) == Some(i));
                },
                None => {
                    let i = position(outs, name)->Some_0;
                    assert(column_at(g, name, relation) == Some(i));
                    assert(value_in(exprs[i], f, row) == value_in(strip_alias(exprs[i]), f, row));
                    assert(expr_type(exprs[i], f) == expr_type(strip_alias(exprs[i]), f));
                },
            }
        },
        ExprView::Binary { left, right, .. } => {
            lemma_substitute_value(*left, exprs, schema, f, row);
            lemma_substitute_value(*right, exprs, schema, f, row);
        },
        ExprView::Alias { expr, .. } => {
            lemma_substitute_value(*expr, exprs, schema, f, row);
        },
        _ => {},
    }
}

/// Filtering projected rows is projecting filtered rows.
proof fn lemma_filter_projection(
    e: ExprView,
    exprs: Seq<ExprView>,
    schema: Seq<FieldView>,
    f: Seq<FieldView>,
    rows: Seq<Seq<Cell>>,
)
    requires
        exprs.len() == schema.len(),
        seen(e, exprs, names(schema), f),
    ensures
        rows_where(e, projection_fields(exprs, schema, f), projected_rows(exprs, f, rows))
            == projected_rows(
            exprs,
            f,
            rows_where(substitute(e, bindings(exprs, names(schema))), f, rows),
        ),
    decreases rows.len(),
{
    let g = projection_fields(exprs, schema, f);
    let s = substitute(e, bindings(exprs, names(schema)));
    if rows.len() == 0 {
        assert(projected_rows(exprs, f, rows) =~= Seq::empty());
        assert(projected_rows(exprs, f, rows_where(s, f, rows)) =~= Seq::empty());
    } else {
        let rest = rows.drop_last();
        let last = rows.last();
        lemma_filter_projection(e, exprs, schema, f, rest);
        lemma_substitute_value(e, exprs, schema, f, last);
        assert(projected_rows(exprs, f, rows).drop_last() =~= projected_rows(exprs, f, rest));
        assert(projected_rows(exprs, f, rows).last() == projected_row(exprs, f, last));
        let kept = rows_where(s, f, rest);
        assert(projected_rows(exprs, f, kept.push(last)) =~= projected_rows(exprs, f, kept).push(
            projected_row(exprs, f, last),
        ));
    }
}

/// Every one of the expressions holds in the row.
pub open spec fn all_hold(es: Seq<ExprView>, f: Seq<FieldView>, row: Seq<Cell>) -> bool {
    forall|i: int| 0 <= i < es.len() ==> holds(#[trigger] es[i], f, row)
}

/// Law: a predicate holds where all of its conjuncts hold.
pub proof fn law_flatten_holds(e: ExprView, f: Seq<FieldView>, row: Seq<Cell>)
    ensures
        holds(e, f, row) == all_hold(flatten(e), f, row),
    decreases e,
{
    match e {
        ExprView::Binary { left, op: BinaryOp::And, right } => {
            law_flatten_holds(*left, f, row);
            law_flatten_holds(*right, f, row);
            lemma_holds_and(*left, *right, f, row);
            let a = flatten(*left);
            let b = flatten(*right);
            let c = flatten(e);
            if all_hold(c, f, row) {
                assert forall|i: int| 0 <= i < a.len() implies holds(#[trigger] a[i], f, row) by {
                    assert(c[i] == a[i]);
                }
                assert forall|i: int| 0 <= i < b.len() implies holds(#[trigger] b[i], f, row) by {
                    assert(c[a.len() + i] == b[i]);
                }
            }
            if all_hold(a, f, row) && all_hold(b, f, row) {
                assert forall|i: int| 0 <= i < c.len() implies holds(#[trigger] c[i], f, row) by {
                    if i < a.len() {
                        assert(c[i] == a[i]);
                    } else {
                        assert(c[i] == b[i - a.len()]);
                    }
                }
            }
        },
        _ => {
            let c = flatten(e);
            assert(c =~= seq![e]);
            if all_hold(c, f, row) {
                assert(holds(c[0], f, row));
            }
        },
    }
}

/// Law: the conjunction of some predicates holds where all of them hold.
pub proof fn law_conjunction_holds(es: Seq<ExprView>, f: Seq<FieldView>, row: Seq<Cell>)
    ensures
        holds(conjunction(es), f, row) == all_hold(es, f, row),
    decreases es.len(),
{
    if es.len() == 0 {
    } else if es.len() == 1 {
        if all_hold(es, f, row) {
            assert(holds(es[0], f, row));
        }
    } else {
        let rest = es.drop_last();
        law_conjunction_holds(rest, f, row);
        lemma_holds_and(conjunction(rest), es.last(), f, row);
        if all_hold(es, f, row) {
            assert forall|i: int| 0 <= i < rest.len() implies holds(#[trigger] rest[i], f, row) by {
                assert(rest[i] == es[i]);
            }
            assert(holds(es[es.len() - 1], f, row));
        }
        if all_hold(rest, f, row) && holds(es.last(), f, row) {
            assert forall|i: int| 0 <= i < es.len() implies holds(#[trigger] es[i], f, row) by {
                if i < rest.len() {
                    assert(rest[i] == es[i]);
                }
            }
        }
    }
}

/// The conjuncts of one side are conjuncts that go to that side.
pub proof fn lemma_on_side(cs: Seq<ExprView>, l: Set<Seq<char>>, r: Set<Seq<char>>, side: Side)
    ensures
        forall|i: int|
            0 <= i < on_side(cs, l, r, JoinType::Inner, side).len() ==> cs.contains(
                #[trigger] on_side(cs, l, r, JoinType::Inner, side)[i],
            ) && side_of(on_side(cs, l, r, JoinType::Inner, side)[i], l, r, JoinType::Inner) == side,
        forall|i: int|
            0 <= i < cs.len() && side_of(#[trigger] cs[i], l, r, JoinType::Inner) == side ==> on_side(
                cs,
                l,
                r, JoinType::Inner,
                side,
            ).contains(cs[i]),
    decreases cs.len(),
{
    if cs.len() > 0 {
        let rest = cs.drop_last();
        lemma_on_side(rest, l, r, side);
        let a = on_side(rest, l, r, JoinType::Inner, side);
        let b = on_side(cs, l, r, JoinType::Inner, side);
        assert forall|i: int| 0 <= i < b.len() implies cs.contains(#[trigger] b[i]) && side_of(
            b[i],
            l,
            r, JoinType::Inner,
        ) == side by {
            if i < a.len() {
                assert(rest.contains(a[i]));
                let k = choose|k: int| 0 <= k < rest.len() && rest[k] == a[i];
                assert(cs[k] == b[i]);
            } else {
                assert(cs[cs.len() - 1] == b[i]);
            }
        }
        assert forall|i: int| 0 <= i < cs.len() && side_of(#[trigger] cs[i], l, r, JoinType::Inner) == side implies b.contains(
            cs[i],
        ) by {
            if i < rest.len() {
                assert(rest[i] == cs[i]);
                assert(a.contains(rest[i]));
                let k = choose|k: int| 0 <= k < a.len() && a[k] == cs[i];
                assert(b[k] == cs[i]);
            } else {
                assert(b[b.len() - 1] == cs[i]);
            }
        }
    }
}

/// All conjuncts hold where those of each side hold.
proof fn lemma_sides_hold(
    cs: Seq<ExprView>,
    l: Set<Seq<char>>,
    r: Set<Seq<char>>,
    f: Seq<FieldView>,
    row: Seq<Cell>,
)
    ensures
        all_hold(cs, f, row) == (all_hold(on_side(cs, l, r, JoinType::Inner, Side::Left), f, row) && all_hold(
            on_side(cs, l, r, JoinType::Inner, Side::Right),
            f,
            row,
        ) && all_hold(on_side(cs, l, r, JoinType::Inner, Side::Above), f, row)),
{
    let a = on_side(cs, l, r, JoinType::Inner, Side::Left);
    let b = on_side(cs, l, r, JoinType::Inner, Side::Right);
    let c = on_side(cs, l, r, JoinType::Inner, Side::Above);
    lemma_on_side(cs, l, r, Side::Left);
    lemma_on_side(cs, l, r, Side::Right);
    lemma_on_side(cs, l, r, Side::Above);
    if all_hold(cs, f, row) {
        assert forall|i: int| 0 <= i < a.len() implies holds(#[trigger] a[i], f, row) by {
            assert(cs.contains(a[i]));
        }
        assert forall|i: int| 0 <= i < b.len() implies holds(#[trigger] b[i], f, row) by {
            assert(cs.contains(b[i]));
        }
        assert forall|i: int| 0 <= i < c.len() implies holds(#[trigger] c[i], f, row) by {
            assert(cs.contains(c[i]));
        }
    }
    if all_hold(a, f, row) && all_hold(b, f, row) && all_hold(c, f, row) {
        assert forall|i: int| 0 <= i < cs.len() implies holds(#[trigger] cs[i], f, row) by {
            let s = side_of(cs[i], l, r, JoinType::Inner);
            if s == Side::Left {
                assert(a.contains(cs[i]));
            } else if s == Side::Right {
                assert(b.contains(cs[i]));
            } else {
                assert(c.contains(cs[i]));
            }
        }
    }
}

/// The conjuncts of an expression read what it reads.
proof fn lemma_flatten_reads(e: ExprView)
    ensures
        forall|i: int, k: Seq<char>|
            0 <= i < flatten(e).len() && columns(#[trigger] flatten(e)[i]).contains(
                k,
            ) ==> #[trigger] columns(e).contains(k),
    decreases e,
{
    match e {
        ExprView::Binary { left, op: BinaryOp::And, right } => {
            lemma_flatten_reads(*left);
            lemma_flatten_reads(*right);
            let a = flatten(*left);
            let b = flatten(*right);
            assert forall|i: int, k: Seq<char>|
                0 <= i < flatten(e).len() && columns(#[trigger] flatten(e)[i]).contains(
                    k,
                ) implies #[trigger] columns(e).contains(k) by {
                if i < a.len() {
                    assert(flatten(e)[i] == a[i]);
                    assert(columns(*left).contains(k));
                } else {
                    assert(flatten(e)[i] == b[i - a.len()]);
                    assert(columns(*right).contains(k));
                }
            }
        },
        _ => {},
    }
}

/// An expression finds its columns without its labels too.
proof fn lemma_strip_found(e: ExprView, f: Seq<FieldView>)
    requires
        found(e, f),
    ensures
        found(strip_alias(e), f),
    decreases e,
{
    match e {
        ExprView::Alias { expr, .. } => { lemma_strip_found(*expr, f); },
        _ => {},
    }
}

/// A substituted predicate finds what the bound expressions find, and what it found by itself.
pub proof fn lemma_substitute_found(
    e: ExprView,
    exprs: Seq<ExprView>,
    outputs: Seq<Seq<char>>,
    f: Seq<FieldView>,
)
    requires
        exprs.len() == outputs.len(),
        all_found(exprs, f),
        seen(e, exprs, outputs, f) || found(e, f),
    ensures
        found(substitute(e, bindings(exprs, outputs)), f),
    decreases e,
{
    let m = bindings(exprs, outputs);
    match e {
        ExprView::Column { name, relation } => {
            let k = key_of(name, relation);
            assert(outputs.take(exprs.len() as int) =~= outputs);
            lemma_bindings(exprs, outputs, k);
            lemma_position(outputs, k);
            if m.dom().contains(k) {
                let j = choose|j: int|
                    0 <= j < exprs.len() && #[trigger] outputs[j] == k && m[k] == strip_alias(
                        exprs[j],
                    );
                assert(found(exprs[j], f));
                lemma_strip_found(exprs[j], f);
            }
        },
        ExprView::Binary { left, right, .. } => {
            lemma_substitute_found(*left, exprs, outputs, f);
            lemma_substitute_found(*right, exprs, outputs, f);
        },
        ExprView::Aggregate { arg, .. } => {
            lemma_substitute_found(*arg, exprs, outputs, f);
        },
        ExprView::Alias { expr, .. } => {
            lemma_substitute_found(*expr, exprs, outputs, f);
        },
        _ => {},
    }
}

/// A conjunction reads within some fields if its parts do.
proof fn lemma_conjunction_reads(es: Seq<ExprView>, f: Seq<FieldView>)
    requires
        all_read_within(es, f),
    ensures
        reads_within(conjunction(es), f),
    decreases es.len(),
{
    if es.len() == 0 {
    } else if es.len() == 1 {
        assert(reads_within(es[0], f));
    } else {
        let rest = es.drop_last();
        assert forall|i: int| 0 <= i < rest.len() implies reads_within(#[trigger] rest[i], f) by {
            assert(rest[i] == es[i]);
        }
        lemma_conjunction_reads(rest, f);
        assert(reads_within(es[es.len() - 1], f));
        assert forall|c: Seq<char>| #[trigger]
            columns(conjunction(es)).contains(c) implies names(f).contains(c) by {
            if !columns(conjunction(rest)).contains(c) {
                assert(columns(es.last()).contains(c));
            }
        }
    }
}

/// Rows of two lists, selected.
pub proof fn lemma_rows_where_concat(
    e: ExprView,
    f: Seq<FieldView>,
    a: Seq<Seq<Cell>>,
    b: Seq<Seq<Cell>>,
)
    ensures
        rows_where(e, f, a + b) == rows_where(e, f, a) + rows_where(e, f, b),
    decreases b.len(),
{
    if b.len() == 0 {
        assert(a + b =~= a);
        assert(rows_where(e, f, a) + rows_where(e, f, b) =~= rows_where(e, f, a));
    } else {
        lemma_rows_where_concat(e, f, a, b.drop_last());
        assert((a + b).drop_last() =~= a + b.drop_last());
        assert((a + b).last() == b.last());
        assert(rows_where(e, f, a) + rows_where(e, f, b.drop_last()).push(b.last()) =~= (rows_where(
            e,
            f,
            a,
        ) + rows_where(e, f, b.drop_last())).push(b.last()));
    }
}

/// `p` holds in a left row beside a right one where `above` does, `pl` in the left and `pr` in the
/// right.
pub open spec fn splits(
    p: ExprView,
    above: ExprView,
    pl: ExprView,
    pr: ExprView,
    lf: Seq<FieldView>,
    rf: Seq<FieldView>,
    x: Seq<Cell>,
    y: Seq<Cell>,
) -> bool {
    holds(p, lf + rf, x + y) == (holds(above, lf + rf, x + y) && holds(pl, lf, x) && holds(
        pr,
        rf,
        y,
    ))
}

proof fn lemma_filter_matches(
    p: ExprView,
    above: ExprView,
    pl: ExprView,
    pr: ExprView,
    lf: Seq<FieldView>,
    rf: Seq<FieldView>,
    x: Seq<Cell>,
    key: Seq<Cell>,
    rk: Seq<ExprView>,
    rows: Seq<Seq<Cell>>,
)
    requires
        forall|i: int|
            0 <= i < rows.len() ==> splits(p, above, pl, pr, lf, rf, x, #[trigger] rows[i]),
    ensures
        rows_where(p, lf + rf, matches_of(x, key, rk, rf, rows)) == if holds(pl, lf, x) {
            rows_where(above, lf + rf, matches_of(x, key, rk, rf, rows_where(pr, rf, rows)))
        } else {
            Seq::empty()
        },
    decreases rows.len(),
{
    if rows.len() > 0 {
        let rest = rows.drop_last();
        assert forall|i: int| 0 <= i < rest.len() implies splits(
            p,
            above,
            pl,
            pr,
            lf,
            rf,
            x,
            #[trigger] rest[i],
        ) by {
            assert(rest[i] == rows[i]);
        }
        lemma_filter_matches(p, above, pl, pr, lf, rf, x, key, rk, rest);
        let y = rows[rows.len() - 1];
        assert(splits(p, above, pl, pr, lf, rf, x, y));
        let m = matches_of(x, key, rk, rf, rest);
        let kept = rows_where(pr, rf, rest);
        let n = matches_of(x, key, rk, rf, kept);
        assert(m.push(x + y).drop_last() =~= m);
        assert(kept.push(y).drop_last() =~= kept);
        assert(n.push(x + y).drop_last() =~= n);
        assert(kept.push(y).last() == y);
        assert(m.push(x + y).last() == x + y);
        assert(n.push(x + y).last() == x + y);
    }
}

/// Filtering a join is joining filtered inputs, as far as the predicate splits.
proof fn lemma_filter_join(
    p: ExprView,
    above: ExprView,
    pl: ExprView,
    pr: ExprView,
    lk: Seq<ExprView>,
    lf: Seq<FieldView>,
    lrows: Seq<Seq<Cell>>,
    rk: Seq<ExprView>,
    rf: Seq<FieldView>,
    rrows: Seq<Seq<Cell>>,
)
    requires
        forall|i: int, j: int|
            0 <= i < lrows.len() && 0 <= j < rrows.len() ==> splits(
                p,
                above,
                pl,
                pr,
                lf,
                rf,
                #[trigger] lrows[i],
                #[trigger] rrows[j],
            ),
    ensures
        rows_where(p, lf + rf, join_rows(lk, lf, lrows, rk, rf, rrows)) == rows_where(
            above,
            lf + rf,
            join_rows(
                lk,
                lf,
                rows_where(pl, lf, lrows),
                rk,
                rf,
                rows_where(pr, rf, rrows),
            ),
        ),
    decreases lrows.len(),
{
    if lrows.len() > 0 {
        let rest = lrows.drop_last();
        assert forall|i: int, j: int| 0 <= i < rest.len() && 0 <= j < rrows.len() implies splits(
            p,
            above,
            pl,
            pr,
            lf,
            rf,
            #[trigger] rest[i],
            #[trigger] rrows[j],
        ) by {
            assert(rest[i] == lrows[i]);
        }
        lemma_filter_join(p, above, pl, pr, lk, lf, rest, rk, rf, rrows);
        let x = lrows[lrows.len() - 1];
        let key = row_key(lk, lf, x);
        let right = rows_where(pr, rf, rrows);
        assert forall|j: int| 0 <= j < rrows.len() implies splits(
            p,
            above,
            pl,
            pr,
            lf,
            rf,
            x,
            #[trigger] rrows[j],
        ) by {
            assert(splits(p, above, pl, pr, lf, rf, lrows[lrows.len() - 1], rrows[j]));
        }
        lemma_filter_matches(p, above, pl, pr, lf, rf, x, key, rk, rrows);
        let a = join_rows(lk, lf, rest, rk, rf, rrows);
        let b = matches_of(x, key, rk, rf, rrows);
        lemma_rows_where_concat(p, lf + rf, a, b);
        let kept = rows_where(pl, lf, rest);
        let c = join_rows(lk, lf, kept, rk, rf, right);
        let d = matches_of(x, key, rk, rf, right);
        lemma_rows_where_concat(above, lf + rf, c, d);
        assert(kept.push(x).drop_last() =~= kept);
        assert(kept.push(x).last() == x);
        assert(rows_where(above, lf + rf, c) + Seq::<Seq<Cell>>::empty() =~= rows_where(
            above,
            lf + rf,
            c,
        ));
    }
}

/// Filtering by some conjuncts selects the rows in which their conjunction holds.
proof fn lemma_filtered_means(
    cs: Seq<ExprView>,
    input: PlanView,
    t: Map<Seq<char>, Seq<Seq<Cell>>>,
    o: Sums,
)
    ensures
        meaning(filtered(cs, input), t, o) == rows_where(
            conjunction(cs),
            fields_of(input),
            meaning(input, t, o),
        ),
        fields_of(filtered(cs, input)) == fields_of(input),
{
    if cs.len() == 0 {
        lemma_true_selects_all(fields_of(input), meaning(input, t, o));
    }
}

proof fn lemma_true_selects_all(f: Seq<FieldView>, rows: Seq<Seq<Cell>>)
    ensures
        rows_where(ExprView::Literal(ScalarView::Boolean(true)), f, rows) == rows,
    decreases rows.len(),
{
    if rows.len() > 0 {
        lemma_true_selects_all(f, rows.drop_last());
        assert(rows.drop_last().push(rows.last()) =~= rows);
    } else {
        assert(rows =~= Seq::empty());
    }
}

/// Which input each conjunct of a filter on a join reads.
pub proof fn lemma_join_sides(predicate: ExprView, input: PlanView)
    requires
        sensible(input),
        input is Join,
        reads_within(predicate, fields_of(input)),
    ensures
        match input {
            PlanView::Join { left, right, schema, .. } => {
                let l = names_before(schema, left.schema().len());
                let r = names_after(schema, left.schema().len());
                let cs = flatten(predicate);
                let lf = fields_of(*left);
                let rf = fields_of(*right);
                &&& all_read_within(on_side(cs, l, r, JoinType::Inner, Side::Left), lf)
                &&& all_read_within(on_side(cs, l, r, JoinType::Inner, Side::Right), rf)
                &&& all_read_within(on_side(cs, l, r, JoinType::Inner, Side::Above), lf + rf)
                &&& forall|i: int, k: Seq<char>|
                    0 <= i < on_side(cs, l, r, JoinType::Inner, Side::Right).len() && columns(
                        #[trigger] on_side(cs, l, r, JoinType::Inner, Side::Right)[i],
                    ).contains(k) ==> !(#[trigger] names(lf).contains(k))
            },
            _ => true,
        },
{
    match input {
        PlanView::Join { left, right, schema, .. } => {
            let w = left.schema().len();
            let l = names_before(schema, w);
            let r = names_after(schema, w);
            let cs = flatten(predicate);
            let lf = fields_of(*left);
            let rf = fields_of(*right);
            lemma_schema_names(*left);
            assert(names(left.schema()).len() == w);
            assert(names(lf).len() == w);
            lemma_names_concat(lf, rf);
            assert(names(schema).len() == schema.len());
            assert(names(schema).subrange(0, w as int) =~= names(lf));
            assert(names(schema).subrange(w as int, schema.len() as int) =~= names(rf));
            assert(l == names(lf).to_set());
            assert(r == names(rf).to_set());
            lemma_flatten_reads(predicate);
            lemma_on_side(cs, l, r, Side::Left);
            lemma_on_side(cs, l, r, Side::Right);
            lemma_on_side(cs, l, r, Side::Above);
            let a = on_side(cs, l, r, JoinType::Inner, Side::Left);
            let b = on_side(cs, l, r, JoinType::Inner, Side::Right);
            let c = on_side(cs, l, r, JoinType::Inner, Side::Above);
            assert forall|x: ExprView, k: Seq<char>| #[trigger]
                cs.contains(x) && #[trigger] columns(x).contains(k) implies (names(lf) + names(
                rf,
            )).contains(k) by {
                let i = choose|i: int| 0 <= i < cs.len() && cs[i] == x;
                assert(columns(cs[i]).contains(k));
                assert(columns(predicate).contains(k));
            }
            assert forall|i: int| 0 <= i < a.len() implies reads_within(#[trigger] a[i], lf) by {
                assert(cs.contains(a[i]));
                assert forall|k: Seq<char>| #[trigger] columns(a[i]).contains(k) implies names(
                    lf,
                ).contains(k) by {
                    lemma_either(names(lf), names(rf), k);
                    if !names(lf).contains(k) {
                        assert(r.contains(k));
                        assert(sets_meet(columns(a[i]), r));
                    }
                }
            }
            assert forall|i: int| 0 <= i < b.len() implies reads_within(#[trigger] b[i], rf) by {
                assert(cs.contains(b[i]));
                assert forall|k: Seq<char>| #[trigger] columns(b[i]).contains(k) implies names(
                    rf,
                ).contains(k) by {
                    lemma_either(names(lf), names(rf), k);
                    if !names(rf).contains(k) {
                        assert(l.contains(k));
                        assert(sets_meet(columns(b[i]), l));
                    }
                }
            }
            assert forall|i: int, k: Seq<char>|
                0 <= i < b.len() && columns(#[trigger] b[i]).contains(k) implies !(#[trigger] names(
                lf,
            ).contains(k)) by {
                if names(lf).contains(k) {
                    assert(l.contains(k));
                    assert(sets_meet(columns(b[i]), l));
                }
            }
            assert forall|i: int| 0 <= i < c.len() implies reads_within(#[trigger] c[i], lf + rf) by {
                assert(cs.contains(c[i]));
            }
        },
        _ => {},
    }
}

/// A name of two lists together is a name of one of them.
proof fn lemma_either(a: Seq<Seq<char>>, b: Seq<Seq<char>>, k: Seq<char>)
    requires
        (a + b).contains(k),
    ensures
        a.contains(k) || b.contains(k),
{
    let i = choose|i: int| 0 <= i < (a + b).len() && (a + b)[i] == k;
    if i < a.len() {
        assert(a[i] == k);
    } else {
        assert(b[i - a.len()] == k);
    }
}

/// A filter on a join splits into filters on its inputs and one above it.
proof fn lemma_join_splits(
    predicate: ExprView,
    input: PlanView,
    x: Seq<Cell>,
    y: Seq<Cell>,
)
    requires
        sensible(input),
        input is Join,
        reads_within(predicate, fields_of(input)),
        match input {
            PlanView::Join { left, right, .. } => x.len() == fields_of(*left).len() && y.len()
                == fields_of(*right).len(),
            _ => true,
        },
    ensures
        match input {
            PlanView::Join { left, right, schema, .. } => {
                let l = names_before(schema, left.schema().len());
                let r = names_after(schema, left.schema().len());
                let cs = flatten(predicate);
                splits(
                    predicate,
                    conjunction(on_side(cs, l, r, JoinType::Inner, Side::Above)),
                    conjunction(on_side(cs, l, r, JoinType::Inner, Side::Left)),
                    conjunction(on_side(cs, l, r, JoinType::Inner, Side::Right)),
                    fields_of(*left),
                    fields_of(*right),
                    x,
                    y,
                )
            },
            _ => true,
        },
{
    match input {
        PlanView::Join { left, right, schema, .. } => {
            let l = names_before(schema, left.schema().len());
            let r = names_after(schema, left.schema().len());
            let cs = flatten(predicate);
            let lf = fields_of(*left);
            let rf = fields_of(*right);
            let a = on_side(cs, l, r, JoinType::Inner, Side::Left);
            let b = on_side(cs, l, r, JoinType::Inner, Side::Right);
            let c = on_side(cs, l, r, JoinType::Inner, Side::Above);
            lemma_join_sides(predicate, input);
            law_flatten_holds(predicate, lf + rf, x + y);
            lemma_sides_hold(cs, l, r, lf + rf, x + y);
            law_conjunction_holds(c, lf + rf, x + y);
            law_conjunction_holds(a, lf, x);
            law_conjunction_holds(b, rf, y);
            assert forall|i: int| 0 <= i < a.len() implies holds(#[trigger] a[i], lf + rf, x + y)
                == holds(a[i], lf, x) by {
                assert(reads_within(a[i], lf));
                lemma_value_left(a[i], lf, x, rf, y);
            }
            assert forall|i: int| 0 <= i < b.len() implies holds(#[trigger] b[i], lf + rf, x + y)
                == holds(b[i], rf, y) by {
                assert(reads_within(b[i], rf));
                assert forall|k: Seq<char>| #[trigger] columns(b[i]).contains(k) implies !names(
                    lf,
                ).contains(k) by {}
                lemma_value_right(b[i], lf, x, rf, y);
            }
            assert(all_hold(a, lf + rf, x + y) == all_hold(a, lf, x)) by {
                if all_hold(a, lf, x) {
                    assert forall|i: int| 0 <= i < a.len() implies holds(
                        #[trigger] a[i],
                        lf + rf,
                        x + y,
                    ) by {
                        assert(holds(a[i], lf, x));
                    }
                }
                if all_hold(a, lf + rf, x + y) {
                    assert forall|i: int| 0 <= i < a.len() implies holds(#[trigger] a[i], lf, x) by {
                        assert(holds(a[i], lf + rf, x + y));
                    }
                }
            }
            assert(all_hold(b, lf + rf, x + y) == all_hold(b, rf, y)) by {
                if all_hold(b, rf, y) {
                    assert forall|i: int| 0 <= i < b.len() implies holds(
                        #[trigger] b[i],
                        lf + rf,
                        x + y,
                    ) by {
                        assert(holds(b[i], rf, y));
                    }
                }
                if all_hold(b, lf + rf, x + y) {
                    assert forall|i: int| 0 <= i < b.len() implies holds(#[trigger] b[i], rf, y) by {
                        assert(holds(b[i], lf + rf, x + y));
                    }
                }
            }
        },
        _ => {},
    }
}

/// Pushing one filter down selects the rows in which it holds.
proof fn lemma_push_filter_means(
    predicate: ExprView,
    input: PlanView,
    t: Map<Seq<char>, Seq<Seq<Cell>>>,
    o: Sums,
)
    requires
        sensible(input),
        fitting(input, t),
        passes(predicate, input),
    ensures
        meaning(push_filter(predicate, input), t, o) == rows_where(
            predicate,
            fields_of(input),
            meaning(input, t, o),
        ),
        fields_of(push_filter(predicate, input)) == fields_of(input),
        sensible(push_filter(predicate, input)),
        fitting(push_filter(predicate, input), t),
    decreases joins(input), 0nat,
{
    match input {
        PlanView::Filter { predicate: inner, input: child } => {
            let merged = ExprView::Binary {
                left: Box::new(predicate),
                op: BinaryOp::And,
                right: Box::new(inner),
            };
            lemma_rows_where_twice(predicate, inner, fields_of(*child), meaning(*child, t, o));
            lemma_passes_and(predicate, inner, *child);
        },
        PlanView::Projection { exprs, schema, input: child } => {
            let f = fields_of(*child);
            let s = substitute(predicate, bindings(exprs, names(schema)));
            let below = PlanView::Filter { predicate: s, input: child };
            assert(fields_of(input) =~= projection_fields(exprs, schema, f));
            assert(names(fields_of(input)) =~= names(schema));
            lemma_filter_projection(predicate, exprs, schema, f, meaning(*child, t, o));
            assert(fields_of(below) == f);
            assert(fields_of(push_filter(predicate, input)) =~= fields_of(input));
            assert(meaning(below, t, o) == rows_where(s, f, meaning(*child, t, o)));
            assert(sensible(below));
            assert(fitting(below, t));
        },
        PlanView::Join { left, right, on, join_type, schema } => {
            let l = names_before(schema, left.schema().len());
            let r = names_after(schema, left.schema().len());
            let cs = flatten(predicate);
            let a = on_side(cs, l, r, JoinType::Inner, Side::Left);
            let b = on_side(cs, l, r, JoinType::Inner, Side::Right);
            let c = on_side(cs, l, r, JoinType::Inner, Side::Above);
            let lf = fields_of(*left);
            let rf = fields_of(*right);
            let new_left = filtered(a, *left);
            let new_right = filtered(b, *right);
            lemma_join_sides(predicate, input);
            lemma_conjunction_reads(a, lf);
            lemma_conjunction_reads(b, rf);
            lemma_conjunction_reads(c, lf + rf);
            lemma_sides_pass(predicate, input);
            lemma_filtered_means(a, *left, t, o.first());
            lemma_filtered_means(b, *right, t, o.second());
            assert(sensible(new_left) && fitting(new_left, t));
            assert(sensible(new_right) && fitting(new_right, t));
            assert(joins(new_left) == joins(*left));
            assert(joins(new_right) == joins(*right));
            lemma_push_down_means(new_left, t, o.first());
            lemma_push_down_means(new_right, t, o.second());
            let join = PlanView::Join {
                left: Box::new(push_down(new_left)),
                right: Box::new(push_down(new_right)),
                on,
                join_type,
                schema,
            };
            assert(fields_of(join) == lf + rf);
            assert(sensible(join));
            assert(fitting(join, t));
            lemma_push_down_keeps(new_left);
            lemma_flatten_plain(predicate);
            lemma_on_side(cs, l, r, Side::Above);
            assert forall|i: int| 0 <= i < c.len() implies passes(#[trigger] c[i], join) by {
                assert(reads_within(c[i], lf + rf));
                assert(cs.contains(c[i]));
                let j = choose|j: int| 0 <= j < cs.len() && cs[j] == c[i];
                assert(flatten(cs[j]) == seq![cs[j]]);
            }
            lemma_passes_all(c, join);
            lemma_filtered_means(c, join, t, o);
            let lrows = meaning(*left, t, o.first());
            let rrows = meaning(*right, t, o.second());
            lemma_sensible_inner(*left);
            lemma_row_width(*left, t, o.first());
            lemma_sensible_inner(*right);
            lemma_row_width(*right, t, o.second());
            assert forall|i: int, j: int|
                0 <= i < lrows.len() && 0 <= j < rrows.len() implies splits(
                predicate,
                conjunction(c),
                conjunction(a),
                conjunction(b),
                lf,
                rf,
                #[trigger] lrows[i],
                #[trigger] rrows[j],
            ) by {
                lemma_join_splits(predicate, input, lrows[i], rrows[j]);
            }
            lemma_filter_join(
                predicate,
                conjunction(c),
                conjunction(a),
                conjunction(b),
                left_keys(on),
                lf,
                lrows,
                right_keys(on),
                rf,
                rrows,
            );
            assert(meaning(join, t, o) == join_rows(
                left_keys(on),
                lf,
                rows_where(conjunction(a), lf, lrows),
                right_keys(on),
                rf,
                rows_where(conjunction(b), rf, rrows),
            ));
            assert(push_filter(predicate, input) == filtered(c, join));
        },
        _ => {},
    }
}

/// A conjunct is its only conjunct.
proof fn lemma_flatten_plain(e: ExprView)
    ensures
        forall|i: int|
            0 <= i < flatten(e).len() ==> flatten(#[trigger] flatten(e)[i]) == seq![flatten(e)[i]],
    decreases e,
{
    match e {
        ExprView::Binary { left, op: BinaryOp::And, right } => {
            lemma_flatten_plain(*left);
            lemma_flatten_plain(*right);
            let a = flatten(*left);
            let b = flatten(*right);
            assert forall|i: int| 0 <= i < flatten(e).len() implies flatten(
                #[trigger] flatten(e)[i],
            ) == seq![flatten(e)[i]] by {
                if i < a.len() {
                    assert(flatten(e)[i] == a[i]);
                } else {
                    assert(flatten(e)[i] == b[i - a.len()]);
                }
            }
        },
        _ => {
            assert(flatten(e) =~= seq![e]);
        },
    }
}

/// The conjuncts on either side of a join pass through that input, and leave it sensible.
proof fn lemma_sides_pass(predicate: ExprView, input: PlanView)
    requires
        sensible(input),
        input is Join,
        passes(predicate, input),
    ensures
        match input {
            PlanView::Join { left, right, schema, .. } => {
                let l = names_before(schema, left.schema().len());
                let r = names_after(schema, left.schema().len());
                let cs = flatten(predicate);
                &&& sensible(filtered(on_side(cs, l, r, JoinType::Inner, Side::Left), *left))
                &&& sensible(filtered(on_side(cs, l, r, JoinType::Inner, Side::Right), *right))
            },
            _ => true,
        },
{
    match input {
        PlanView::Join { left, right, schema, .. } => {
            let l = names_before(schema, left.schema().len());
            let r = names_after(schema, left.schema().len());
            let cs = flatten(predicate);
            let a = on_side(cs, l, r, JoinType::Inner, Side::Left);
            let b = on_side(cs, l, r, JoinType::Inner, Side::Right);
            lemma_on_side(cs, l, r, Side::Left);
            lemma_on_side(cs, l, r, Side::Right);
            assert forall|i: int| 0 <= i < a.len() implies passes(#[trigger] a[i], *left) by {
                assert(cs.contains(a[i]));
                let j = choose|j: int| 0 <= j < cs.len() && cs[j] == a[i];
                assert(side_of(cs[j], l, r, JoinType::Inner) == Side::Left);
            }
            assert forall|i: int| 0 <= i < b.len() implies passes(#[trigger] b[i], *right) by {
                assert(cs.contains(b[i]));
                let j = choose|j: int| 0 <= j < cs.len() && cs[j] == b[i];
                assert(side_of(cs[j], l, r, JoinType::Inner) == Side::Right);
            }
            lemma_passes_all(a, *left);
            lemma_passes_all(b, *right);
        },
        _ => {},
    }
}

/// What passes through a plan passes through it with one more filter pushed down.
proof fn lemma_push_filter_passes(
    e: ExprView,
    q: ExprView,
    x: PlanView,
    t: Map<Seq<char>, Seq<Seq<Cell>>>,
    o: Sums,
)
    requires
        sensible(x),
        fitting(x, t),
        passes(q, x),
        passes(e, x),
    ensures
        passes(e, push_filter(q, x)),
    decreases joins(x), 0nat,
{
    match x {
        PlanView::Join { left, right, on, join_type, schema } => {
            let l = names_before(schema, left.schema().len());
            let r = names_after(schema, left.schema().len());
            let cs = flatten(q);
            let a = on_side(cs, l, r, JoinType::Inner, Side::Left);
            let b = on_side(cs, l, r, JoinType::Inner, Side::Right);
            let c = on_side(cs, l, r, JoinType::Inner, Side::Above);
            let new_left = filtered(a, *left);
            let new_right = filtered(b, *right);
            lemma_sides_pass(q, x);
            assert(joins(new_left) == joins(*left));
            assert(joins(new_right) == joins(*right));
            lemma_push_down_means(new_left, t, o.first());
            lemma_push_down_means(new_right, t, o.second());
            lemma_push_down_keeps(new_left);
            lemma_push_down_keeps(new_right);
            let join = PlanView::Join {
                left: Box::new(push_down(new_left)),
                right: Box::new(push_down(new_right)),
                on,
                join_type,
                schema,
            };
            assert(fields_of(join) == fields_of(x));
            assert(push_down(new_left).schema() == left.schema());
            let es = flatten(e);
            assert forall|i: int|
                0 <= i < es.len() && side_of(#[trigger] es[i], l, r, join_type)
                    == Side::Left implies passes(es[i], push_down(new_left)) by {
                assert(passes(es[i], *left));
                lemma_push_down_passes(es[i], new_left, t, o.first());
            }
            assert forall|i: int|
                0 <= i < es.len() && side_of(#[trigger] es[i], l, r, join_type)
                    == Side::Right implies passes(es[i], push_down(new_right)) by {
                assert(passes(es[i], *right));
                lemma_push_down_passes(es[i], new_right, t, o.second());
            }
            assert(passes(e, join));
            assert(push_filter(q, x) == filtered(c, join));
        },
        PlanView::Projection { exprs, schema, input } => {
            let s = substitute(q, bindings(exprs, names(schema)));
            let below = PlanView::Filter { predicate: s, input };
            assert(fields_of(below) == fields_of(*input));
            assert(passes(substitute(e, bindings(exprs, names(schema))), below));
        },
        _ => {},
    }
}

/// What passes through a plan passes through it pushed down.
pub proof fn lemma_push_down_passes(
    e: ExprView,
    p: PlanView,
    t: Map<Seq<char>, Seq<Seq<Cell>>>,
    o: Sums,
)
    requires
        sensible(p),
        fitting(p, t),
        passes(e, p),
    ensures
        passes(e, push_down(p)),
    decreases joins(p), nodes(p),
{
    match p {
        PlanView::Filter { predicate, input } => {
            lemma_push_down_means(*input, t, o);
            lemma_push_down_keeps(*input);
            assert(nodes(*input) >= 1);
            lemma_push_down_passes(e, *input, t, o);
            lemma_push_down_passes(predicate, *input, t, o);
            lemma_push_filter_passes(e, predicate, push_down(*input), t, o);
        },
        PlanView::Projection { exprs, schema, input } => {
            lemma_push_down_means(*input, t, o);
            lemma_push_down_passes(substitute(e, bindings(exprs, names(schema))), *input, t, o);
        },
        PlanView::Aggregate { input, .. } => { lemma_push_down_means(*input, t, o.first()); },
        PlanView::Sort { input, .. } => { lemma_push_down_means(*input, t, o); },
        PlanView::Join { left, right, join_type, schema, .. } => {
            lemma_push_down_means(*left, t, o.first());
            lemma_push_down_means(*right, t, o.second());
            lemma_push_down_keeps(*left);
            let l = names_before(schema, left.schema().len());
            let r = names_after(schema, left.schema().len());
            let es = flatten(e);
            assert forall|i: int|
                0 <= i < es.len() && side_of(#[trigger] es[i], l, r, join_type)
                    == Side::Left implies passes(es[i], push_down(*left)) by {
                lemma_push_down_passes(es[i], *left, t, o.first());
            }
            assert forall|i: int|
                0 <= i < es.len() && side_of(#[trigger] es[i], l, r, join_type)
                    == Side::Right implies passes(es[i], push_down(*right)) by {
                lemma_push_down_passes(es[i], *right, t, o.second());
            }
            assert(fields_of(push_down(p)) == fields_of(p));
        },
        PlanView::Limit { input, .. } => { lemma_push_down_means(*input, t, o); },
        _ => {},
    }
}

/// Law: predicate pushdown keeps what a plan means, and the fields of its rows.
pub proof fn law_pushdown_keeps_meaning(p: PlanView, t: Map<Seq<char>, Seq<Seq<Cell>>>, o: Sums)
    requires
        sensible(p),
        fitting(p, t),
    ensures
        meaning(push_down(p), t, o) == meaning(p, t, o),
        fields_of(push_down(p)) == fields_of(p),
{
    lemma_push_down_means(p, t, o);
}

/// Predicate pushdown keeps a plan's meaning, and that it is sensible.
pub proof fn lemma_push_down_means(p: PlanView, t: Map<Seq<char>, Seq<Seq<Cell>>>, o: Sums)
    requires
        sensible(p),
        fitting(p, t),
    ensures
        meaning(push_down(p), t, o) == meaning(p, t, o),
        fields_of(push_down(p)) == fields_of(p),
        sensible(push_down(p)),
        fitting(push_down(p), t),
    decreases joins(p), nodes(p),
{
    match p {
        PlanView::Filter { predicate, input } => {
            lemma_push_down_means(*input, t, o);
            lemma_push_down_keeps(*input);
            assert(nodes(*input) >= 1);
            lemma_push_down_passes(predicate, *input, t, o);
            lemma_push_filter_means(predicate, push_down(*input), t, o);
        },
        PlanView::Projection { exprs, schema, input } => {
            lemma_push_down_means(*input, t, o);
            assert(fields_of(push_down(p)) =~= fields_of(p));
        },
        PlanView::Aggregate { input, .. } => { lemma_push_down_means(*input, t, o.first()); },
        PlanView::Sort { input, .. } => { lemma_push_down_means(*input, t, o); },
        PlanView::Join { left, right, .. } => {
            lemma_push_down_means(*left, t, o.first());
            lemma_push_down_means(*right, t, o.second());
        },
        PlanView::Limit { input, .. } => { lemma_push_down_means(*input, t, o); },
        _ => {},
    }
}

} // verus!
