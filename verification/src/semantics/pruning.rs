//! Projection pruning keeps what a plan means.

use vstd::prelude::*;
use crate::executor::aggregate::agg_parts;
use crate::executor::batch::kernels::sort_order;
use crate::executor::batch::ordering::is_permutation;
use crate::executor::batch::{normal_fields, Cell};
use crate::executor::expr_eval::column_at;
use crate::executor::scan::fields_at;
use crate::optimizer::columns::{columns, columns_of_all};
use crate::optimizer::projection_pruning::{
    is_identity, kept, left_keys, left_needs, prune, pruned, qualifies, right_keys, right_needs,
    scan_projection, sort_exprs, wanted,
};
use crate::planner::logical_plan::{key_of, ExprView, PlanView, SortView};
use crate::semantics::sensible::{
    fitting, inner_only, lemma_passes_found, lemma_row_width, lemma_schema_names,
    lemma_sensible_inner, sensible,
};
use crate::semantics::values::{found, lemma_names_concat, lemma_reads_found, reads_within};
use crate::semantics::{
    argument_column, argument_columns, cells_at, expr_type, fields_of, join_rows, matches_of,
    meaning, projected_row, row_key, rows_at, rows_where, sort_columns, sorted_of, value_column,
    value_columns, value_in,
};
use crate::executor::sums::Sums;
use crate::types::{lemma_position, lemma_position_is, names, position, FieldView};

verus! {

/// The elements whose names are kept, in order.
pub open spec fn restrict<T>(list: Seq<Seq<char>>, keep: Set<Seq<char>>, s: Seq<T>) -> Seq<T>
    decreases list.len(),
{
    if list.len() == 0 || s.len() == 0 {
        Seq::empty()
    } else {
        let rest = restrict(list.drop_last(), keep, s.drop_last());
        if keep.contains(list.last()) { rest.push(s.last()) } else { rest }
    }
}

/// The fields whose names are kept.
pub open spec fn restrict_fields(f: Seq<FieldView>, keep: Set<Seq<char>>) -> Seq<FieldView> {
    restrict(names(f), keep, f)
}

/// Every row, with the cells under kept names.
pub open spec fn restrict_rows(
    f: Seq<FieldView>,
    keep: Set<Seq<char>>,
    rows: Seq<Seq<Cell>>,
) -> Seq<Seq<Cell>> {
    Seq::new(rows.len(), |i: int| restrict(names(f), keep, rows[i]))
}

/// The names of the kept fields are the kept names.
proof fn lemma_restrict_names(f: Seq<FieldView>, keep: Set<Seq<char>>)
    ensures
        names(restrict_fields(f, keep)) == restrict(names(f), keep, names(f)),
    decreases f.len(),
{
    if f.len() == 0 {
        assert(names(restrict_fields(f, keep)) =~= Seq::empty());
    } else {
        let g = f.drop_last();
        lemma_restrict_names(g, keep);
        assert(names(f).drop_last() =~= names(g));
        let r = restrict_fields(g, keep);
        assert(names(r.push(f.last())) =~= names(r).push(f.last().name));
    }
}

/// A kept name is found among the kept ones, and what stands there is what stood under it.
proof fn lemma_restrict_at<T>(
    list: Seq<Seq<char>>,
    keep: Set<Seq<char>>,
    s: Seq<T>,
    k: Seq<char>,
)
    requires
        list.len() == s.len(),
        keep.contains(k),
        list.contains(k),
    ensures
        position(list, k) is Some,
        position(restrict(list, keep, list), k) is Some,
        restrict(list, keep, s).len() == restrict(list, keep, list).len(),
        position(restrict(list, keep, list), k)->Some_0 < restrict(list, keep, s).len(),
        restrict(list, keep, s)[position(restrict(list, keep, list), k)->Some_0]
            == s[position(list, k)->Some_0],
    decreases list.len(),
{
    lemma_restrict_len(list, keep, s);
    let init = list.drop_last();
    let last = list.last();
    let r = restrict(init, keep, init);
    let rs = restrict(init, keep, s.drop_last());
    let whole = restrict(list, keep, list);
    lemma_restrict_len(init, keep, s.drop_last());
    lemma_position(list, k);
    let i = position(list, k)->Some_0;
    if init.contains(k) {
        lemma_restrict_at(init, keep, s.drop_last(), k);
        lemma_position(init, k);
        let j = position(init, k)->Some_0;
        assert(list[j] == k);
        assert forall|m: int| 0 <= m < j implies list[m] != k by {
            assert(init[m] != k);
        }
        lemma_position_is(list, k, j);
        lemma_position(r, k);
        let q = position(r, k)->Some_0;
        assert(whole[q] == k);
        assert forall|m: int| 0 <= m < q implies whole[m] != k by {
            assert(r[m] != k);
        }
        lemma_position_is(whole, k, q);
        assert(s.drop_last()[j] == s[j]);
    } else {
        assert(i == list.len() - 1) by {
            if i < list.len() - 1 {
                assert(init[i] == k);
            }
        }
        assert(last == k);
        lemma_restrict_within(init, keep, k);
        assert(whole == r.push(k));
        assert(whole[r.len() as int] == k);
        assert forall|m: int| 0 <= m < r.len() implies whole[m] != k by {
            assert(r.contains(r[m]));
        }
        lemma_position_is(whole, k, r.len() as int);
    }
}

proof fn lemma_restrict_len<T>(list: Seq<Seq<char>>, keep: Set<Seq<char>>, s: Seq<T>)
    requires
        list.len() == s.len(),
    ensures
        restrict(list, keep, s).len() == restrict(list, keep, list).len(),
    decreases list.len(),
{
    if list.len() > 0 {
        lemma_restrict_len(list.drop_last(), keep, s.drop_last());
    }
}

/// A name that is not in the list is not among its kept names.
proof fn lemma_restrict_within(list: Seq<Seq<char>>, keep: Set<Seq<char>>, k: Seq<char>)
    requires
        !list.contains(k),
    ensures
        !restrict(list, keep, list).contains(k),
    decreases list.len(),
{
    if list.len() > 0 {
        let init = list.drop_last();
        if init.contains(k) {
            let i = choose|i: int| 0 <= i < init.len() && init[i] == k;
            assert(list[i] == k);
        }
        lemma_restrict_within(init, keep, k);
        let r = restrict(init, keep, init);
        let whole = restrict(list, keep, list);
        assert(list[list.len() - 1] == list.last());
        if whole.contains(k) {
            let j = choose|j: int| 0 <= j < whole.len() && whole[j] == k;
            if j < r.len() {
                assert(r[j] == k);
            }
        }
    }
}

/// Where every name is kept, everything stays.
proof fn lemma_restrict_all<T>(list: Seq<Seq<char>>, keep: Set<Seq<char>>, s: Seq<T>)
    requires
        list.len() == s.len(),
        forall|i: int| 0 <= i < list.len() ==> keep.contains(#[trigger] list[i]),
    ensures
        restrict(list, keep, s) == s,
    decreases list.len(),
{
    if list.len() == 0 {
        assert(restrict(list, keep, s) =~= s);
    } else {
        let init = list.drop_last();
        assert forall|i: int| 0 <= i < init.len() implies keep.contains(#[trigger] init[i]) by {
            assert(init[i] == list[i]);
        }
        lemma_restrict_all(init, keep, s.drop_last());
        assert(keep.contains(list[list.len() - 1]));
        assert(s.drop_last().push(s.last()) =~= s);
    }
}

/// What is kept of two lists together is what is kept of each.
proof fn lemma_restrict_concat<T>(
    a: Seq<Seq<char>>,
    b: Seq<Seq<char>>,
    keep: Set<Seq<char>>,
    x: Seq<T>,
    y: Seq<T>,
)
    requires
        a.len() == x.len(),
        b.len() == y.len(),
    ensures
        restrict(a + b, keep, x + y) == restrict(a, keep, x) + restrict(b, keep, y),
    decreases b.len(),
{
    if b.len() == 0 {
        assert(a + b =~= a);
        assert(x + y =~= x);
        assert(restrict(a, keep, x) + restrict(b, keep, y) =~= restrict(a, keep, x));
    } else {
        lemma_restrict_concat(a, b.drop_last(), keep, x, y.drop_last());
        assert((a + b).drop_last() =~= a + b.drop_last());
        assert((x + y).drop_last() =~= x + y.drop_last());
        assert((a + b).last() == b.last());
        assert((x + y).last() == y.last());
        assert(restrict(a, keep, x) + restrict(b.drop_last(), keep, y.drop_last()).push(y.last())
            =~= (restrict(a, keep, x) + restrict(b.drop_last(), keep, y.drop_last())).push(
            y.last(),
        ));
    }
}

/// Only which of the names of the list are kept makes a difference.
proof fn lemma_restrict_same<T>(
    list: Seq<Seq<char>>,
    keep: Set<Seq<char>>,
    other: Set<Seq<char>>,
    s: Seq<T>,
)
    requires
        list.len() == s.len(),
        forall|i: int|
            0 <= i < list.len() ==> keep.contains(#[trigger] list[i]) == other.contains(list[i]),
    ensures
        restrict(list, keep, s) == restrict(list, other, s),
    decreases list.len(),
{
    if list.len() > 0 {
        let init = list.drop_last();
        assert forall|i: int| 0 <= i < init.len() implies keep.contains(#[trigger] init[i])
            == other.contains(init[i]) by {
            assert(init[i] == list[i]);
        }
        lemma_restrict_same(init, keep, other, s.drop_last());
        assert(keep.contains(list[list.len() - 1]) == other.contains(list[list.len() - 1]));
    }
}

/// Every column that the expression reads is one of the fields, and kept.
pub open spec fn stays(e: ExprView, f: Seq<FieldView>, keep: Set<Seq<char>>) -> bool
    decreases e,
{
    match e {
        ExprView::Column { name, relation } => match column_at(f, name, relation) {
            Some(i) => keep.contains(names(f)[i]),
            None => false,
        },
        ExprView::Binary { left, right, .. } => stays(*left, f, keep) && stays(*right, f, keep),
        ExprView::Aggregate { arg, .. } => stays(*arg, f, keep),
        ExprView::Alias { expr, .. } => stays(*expr, f, keep),
        _ => true,
    }
}

/// An expression that reads kept columns has the same value in the kept cells.
proof fn lemma_restrict_value(
    e: ExprView,
    f: Seq<FieldView>,
    keep: Set<Seq<char>>,
    row: Seq<Cell>,
)
    requires
        stays(e, f, keep),
        row.len() == f.len(),
    ensures
        value_in(e, restrict_fields(f, keep), restrict(names(f), keep, row)) == value_in(e, f, row),
        expr_type(e, restrict_fields(f, keep)) == expr_type(e, f),
    decreases e,
{
    let g = restrict_fields(f, keep);
    lemma_restrict_names(f, keep);
    match e {
        ExprView::Column { name, relation } => {
            let key = key_of(name, relation);
            lemma_position(names(f), key);
            lemma_position(names(f), name);
            lemma_position(names(g), key);
            if names(f).contains(key) {
                lemma_restrict_at(names(f), keep, row, key);
                lemma_restrict_at(names(f), keep, f, key);
            } else {
                lemma_restrict_within(names(f), keep, key);
                lemma_restrict_at(names(f), keep, row, name);
                lemma_restrict_at(names(f), keep, f, name);
            }
        },
        ExprView::Binary { left, right, .. } => {
            lemma_restrict_value(*left, f, keep, row);
            lemma_restrict_value(*right, f, keep, row);
        },
        ExprView::Alias { expr, .. } => {
            lemma_restrict_value(*expr, f, keep, row);
        },
        _ => {},
    }
}

/// The type of an expression that reads kept columns stays.
proof fn lemma_restrict_type(e: ExprView, f: Seq<FieldView>, keep: Set<Seq<char>>)
    requires
        stays(e, f, keep),
    ensures
        expr_type(e, restrict_fields(f, keep)) == expr_type(e, f),
{
    let row = Seq::new(f.len(), |i: int| crate::executor::batch::null_cell());
    lemma_restrict_value(e, f, keep, row);
}

/// Every row has a cell for each field.
pub open spec fn wide(f: Seq<FieldView>, rows: Seq<Seq<Cell>>) -> bool {
    forall|i: int| 0 <= i < rows.len() ==> (#[trigger] rows[i]).len() == f.len()
}

/// A column of values stays.
proof fn lemma_restrict_column(
    e: ExprView,
    f: Seq<FieldView>,
    keep: Set<Seq<char>>,
    rows: Seq<Seq<Cell>>,
)
    requires
        stays(e, f, keep),
        wide(f, rows),
    ensures
        value_column(e, restrict_fields(f, keep), restrict_rows(f, keep, rows)) == value_column(
            e,
            f,
            rows,
        ),
{
    lemma_restrict_type(e, f, keep);
    let g = restrict_fields(f, keep);
    let short = restrict_rows(f, keep, rows);
    assert forall|i: int| 0 <= i < rows.len() implies value_in(e, g, short[i]) == value_in(
        e,
        f,
        rows[i],
    ) by {
        assert(rows[i].len() == f.len());
        lemma_restrict_value(e, f, keep, rows[i]);
    }
    assert(value_column(e, g, short).cells =~= value_column(e, f, rows).cells);
}

/// All the expressions read kept columns.
pub open spec fn all_stay(es: Seq<ExprView>, f: Seq<FieldView>, keep: Set<Seq<char>>) -> bool {
    forall|i: int| 0 <= i < es.len() ==> stays(#[trigger] es[i], f, keep)
}

/// A row of values stays.
proof fn lemma_restrict_projected(
    es: Seq<ExprView>,
    f: Seq<FieldView>,
    keep: Set<Seq<char>>,
    row: Seq<Cell>,
)
    requires
        all_stay(es, f, keep),
        row.len() == f.len(),
    ensures
        projected_row(es, restrict_fields(f, keep), restrict(names(f), keep, row)) == projected_row(
            es,
            f,
            row,
        ),
{
    let g = restrict_fields(f, keep);
    let short = restrict(names(f), keep, row);
    assert forall|i: int| 0 <= i < es.len() implies value_in(es[i], g, short) == value_in(
        es[i],
        f,
        row,
    ) by {
        assert(stays(es[i], f, keep));
        lemma_restrict_value(es[i], f, keep, row);
    }
    assert(projected_row(es, g, short) =~= projected_row(es, f, row));
}

/// Selecting kept cells of rows is keeping cells of selected rows.
proof fn lemma_restrict_where(
    e: ExprView,
    f: Seq<FieldView>,
    keep: Set<Seq<char>>,
    rows: Seq<Seq<Cell>>,
)
    requires
        stays(e, f, keep),
        wide(f, rows),
    ensures
        rows_where(e, restrict_fields(f, keep), restrict_rows(f, keep, rows)) == restrict_rows(
            f,
            keep,
            rows_where(e, f, rows),
        ),
    decreases rows.len(),
{
    let g = restrict_fields(f, keep);
    if rows.len() == 0 {
        assert(restrict_rows(f, keep, rows) =~= Seq::empty());
        assert(restrict_rows(f, keep, rows_where(e, f, rows)) =~= Seq::empty());
    } else {
        let rest = rows.drop_last();
        let last = rows[rows.len() - 1];
        assert(wide(f, rest)) by {
            assert forall|i: int| 0 <= i < rest.len() implies (#[trigger] rest[i]).len()
                == f.len() by {
                assert(rest[i] == rows[i]);
            }
        }
        lemma_restrict_where(e, f, keep, rest);
        assert(last.len() == f.len());
        lemma_restrict_value(e, f, keep, last);
        let short = restrict_rows(f, keep, rows);
        assert(short.drop_last() =~= restrict_rows(f, keep, rest));
        assert(short.last() == restrict(names(f), keep, last));
        let picked = rows_where(e, f, rest);
        assert(restrict_rows(f, keep, picked.push(last)) =~= restrict_rows(f, keep, picked).push(
            restrict(names(f), keep, last),
        ));
    }
}

proof fn lemma_restrict_matches(
    x: Seq<Cell>,
    key: Seq<Cell>,
    lf: Seq<FieldView>,
    lkeep: Set<Seq<char>>,
    rk: Seq<ExprView>,
    rf: Seq<FieldView>,
    rkeep: Set<Seq<char>>,
    keep: Set<Seq<char>>,
    rows: Seq<Seq<Cell>>,
)
    requires
        all_stay(rk, rf, rkeep),
        wide(rf, rows),
        x.len() == lf.len(),
        joins_keep(lf, lkeep, rf, rkeep, keep),
    ensures
        matches_of(
            restrict(names(lf), lkeep, x),
            key,
            rk,
            restrict_fields(rf, rkeep),
            restrict_rows(rf, rkeep, rows),
        ) == restrict_rows(lf + rf, keep, matches_of(x, key, rk, rf, rows)),
    decreases rows.len(),
{
    let short = restrict_rows(rf, rkeep, rows);
    let g = restrict_fields(rf, rkeep);
    let rx = restrict(names(lf), lkeep, x);
    if rows.len() == 0 {
        assert(short =~= Seq::empty());
        assert(restrict_rows(lf + rf, keep, matches_of(x, key, rk, rf, rows)) =~= Seq::empty());
    } else {
        let rest = rows.drop_last();
        let y = rows[rows.len() - 1];
        assert(wide(rf, rest)) by {
            assert forall|i: int| 0 <= i < rest.len() implies (#[trigger] rest[i]).len()
                == rf.len() by {
                assert(rest[i] == rows[i]);
            }
        }
        lemma_restrict_matches(x, key, lf, lkeep, rk, rf, rkeep, keep, rest);
        assert(y.len() == rf.len());
        lemma_restrict_projected(rk, rf, rkeep, y);
        assert(short.drop_last() =~= restrict_rows(rf, rkeep, rest));
        assert(short.last() == restrict(names(rf), rkeep, y));
        lemma_restrict_pair(lf, lkeep, rf, rkeep, keep, x, y);
        let m = matches_of(x, key, rk, rf, rest);
        assert(restrict_rows(lf + rf, keep, m.push(x + y)) =~= restrict_rows(lf + rf, keep, m).push(
            restrict(names(lf + rf), keep, x + y),
        ));
    }
}

/// Of the left fields are kept those of `lkeep`, of the right ones those of `rkeep`.
pub open spec fn joins_keep(
    lf: Seq<FieldView>,
    lkeep: Set<Seq<char>>,
    rf: Seq<FieldView>,
    rkeep: Set<Seq<char>>,
    keep: Set<Seq<char>>,
) -> bool {
    &&& forall|i: int|
        0 <= i < lf.len() ==> keep.contains(#[trigger] names(lf)[i]) == lkeep.contains(
            names(lf)[i],
        )
    &&& forall|i: int|
        0 <= i < rf.len() ==> keep.contains(#[trigger] names(rf)[i]) == rkeep.contains(
            names(rf)[i],
        )
}

/// What is kept of a joined row is what is kept of its two parts.
proof fn lemma_restrict_pair(
    lf: Seq<FieldView>,
    lkeep: Set<Seq<char>>,
    rf: Seq<FieldView>,
    rkeep: Set<Seq<char>>,
    keep: Set<Seq<char>>,
    x: Seq<Cell>,
    y: Seq<Cell>,
)
    requires
        joins_keep(lf, lkeep, rf, rkeep, keep),
        x.len() == lf.len(),
        y.len() == rf.len(),
    ensures
        restrict(names(lf + rf), keep, x + y) == restrict(names(lf), lkeep, x) + restrict(
            names(rf),
            rkeep,
            y,
        ),
{
    lemma_names_concat(lf, rf);
    lemma_restrict_concat(names(lf), names(rf), keep, x, y);
    lemma_restrict_same(names(lf), keep, lkeep, x);
    lemma_restrict_same(names(rf), keep, rkeep, y);
}

/// Joining kept cells of rows is keeping cells of joined rows.
proof fn lemma_restrict_join(
    lk: Seq<ExprView>,
    lf: Seq<FieldView>,
    lkeep: Set<Seq<char>>,
    lrows: Seq<Seq<Cell>>,
    rk: Seq<ExprView>,
    rf: Seq<FieldView>,
    rkeep: Set<Seq<char>>,
    rrows: Seq<Seq<Cell>>,
    keep: Set<Seq<char>>,
)
    requires
        all_stay(lk, lf, lkeep),
        wide(lf, lrows),
        all_stay(rk, rf, rkeep),
        wide(rf, rrows),
        joins_keep(lf, lkeep, rf, rkeep, keep),
    ensures
        join_rows(
            lk,
            restrict_fields(lf, lkeep),
            restrict_rows(lf, lkeep, lrows),
            rk,
            restrict_fields(rf, rkeep),
            restrict_rows(rf, rkeep, rrows),
        ) == restrict_rows(lf + rf, keep, join_rows(lk, lf, lrows, rk, rf, rrows)),
    decreases lrows.len(),
{
    let short = restrict_rows(lf, lkeep, lrows);
    if lrows.len() == 0 {
        assert(short =~= Seq::empty());
        assert(restrict_rows(lf + rf, keep, join_rows(lk, lf, lrows, rk, rf, rrows))
            =~= Seq::empty());
    } else {
        let rest = lrows.drop_last();
        let x = lrows[lrows.len() - 1];
        assert(wide(lf, rest)) by {
            assert forall|i: int| 0 <= i < rest.len() implies (#[trigger] rest[i]).len()
                == lf.len() by {
                assert(rest[i] == lrows[i]);
            }
        }
        lemma_restrict_join(lk, lf, lkeep, rest, rk, rf, rkeep, rrows, keep);
        assert(x.len() == lf.len());
        lemma_restrict_projected(lk, lf, lkeep, x);
        assert(short.drop_last() =~= restrict_rows(lf, lkeep, rest));
        assert(short.last() == restrict(names(lf), lkeep, x));
        let key = row_key(lk, lf, x);
        lemma_restrict_matches(x, key, lf, lkeep, rk, rf, rkeep, keep, rrows);
        let a = join_rows(lk, lf, rest, rk, rf, rrows);
        let b = matches_of(x, key, rk, rf, rrows);
        assert(restrict_rows(lf + rf, keep, a + b) =~= restrict_rows(lf + rf, keep, a)
            + restrict_rows(lf + rf, keep, b));
    }
}

/// A scan cut down to needed columns delivers the needed cells.
proof fn lemma_scan_cells(list: Seq<Seq<char>>, needs: Set<Seq<char>>, row: Seq<Cell>, n: int)
    requires
        0 <= n <= list.len(),
        list.len() == row.len(),
        list.len() <= usize::MAX,
    ensures
        cells_at(row, list.len(), kept(list.take(n), needs)) == restrict(
            list.take(n),
            needs,
            row.take(n),
        ),
    decreases n,
{
    if n > 0 {
        lemma_scan_cells(list, needs, row, n - 1);
        let l = list.take(n);
        assert(l.drop_last() =~= list.take(n - 1));
        assert(row.take(n).drop_last() =~= row.take(n - 1));
        let rest = kept(list.take(n - 1), needs);
        assert(rest.push((n - 1) as usize).drop_last() =~= rest);
        assert(row.take(n).last() == row[n - 1]);
    }
}

/// A scan cut down to needed columns delivers the needed fields.
proof fn lemma_scan_fields(schema: Seq<FieldView>, needs: Set<Seq<char>>, n: int)
    requires
        0 <= n <= schema.len(),
        schema.len() <= usize::MAX,
    ensures
        fields_at(schema, kept(names(schema).take(n), needs)) == restrict(
            names(schema).take(n),
            needs,
            schema.take(n),
        ),
    decreases n,
{
    let list = names(schema);
    if n > 0 {
        lemma_scan_fields(schema, needs, n - 1);
        assert(list.take(n).drop_last() =~= list.take(n - 1));
        assert(schema.take(n).drop_last() =~= schema.take(n - 1));
        let rest = kept(list.take(n - 1), needs);
        assert(rest.push((n - 1) as usize).drop_last() =~= rest);
        assert(schema.take(n).last() == schema[n - 1]);
    }
}

/// Keeping fields and bringing their types to normal form can be exchanged.
proof fn lemma_restrict_normal(f: Seq<FieldView>, keep: Set<Seq<char>>)
    ensures
        normal_fields(restrict(names(f), keep, f)) == restrict_fields(normal_fields(f), keep),
    decreases f.len(),
{
    let g = normal_fields(f);
    assert(names(g) =~= names(f));
    if f.len() == 0 {
        assert(normal_fields(restrict(names(f), keep, f)) =~= Seq::empty());
    } else {
        let init = f.drop_last();
        lemma_restrict_normal(init, keep);
        assert(names(f).drop_last() =~= names(init));
        assert(g.drop_last() =~= normal_fields(init));
        assert(names(normal_fields(init)) =~= names(init));
        let r = restrict(names(init), keep, init);
        assert(normal_fields(r.push(f.last())) =~= normal_fields(r).push(g.last()));
    }
}

/// All names are needed exactly where all indices are kept.
pub proof fn lemma_kept_all(list: Seq<Seq<char>>, needs: Set<Seq<char>>)
    ensures
        kept(list, needs).len() <= list.len(),
        kept(list, needs).len() == list.len() ==> forall|i: int|
            0 <= i < list.len() ==> needs.contains(#[trigger] list[i]),
    decreases list.len(),
{
    if list.len() > 0 {
        let init = list.drop_last();
        lemma_kept_all(init, needs);
        if kept(list, needs).len() == list.len() {
            assert forall|i: int| 0 <= i < list.len() implies needs.contains(#[trigger] list[i]) by {
                if i < init.len() {
                    assert(init[i] == list[i]);
                }
            }
        }
    }
}

/// The names of the columns that a pruned plan still delivers.
pub open spec fn kept_by(p: PlanView, needs: Set<Seq<char>>) -> Set<Seq<char>>
    decreases p,
{
    match p {
        PlanView::Scan { schema, .. } => wanted(names(schema), needs),
        PlanView::Filter { predicate, input } => kept_by(*input, needs.union(columns(predicate))),
        PlanView::Projection { exprs, schema, input } => if is_identity(
            exprs,
            schema,
            fields_of(*input),
        ) {
            kept_by(*input, columns_of_all(exprs))
        } else {
            names(schema).to_set()
        },
        PlanView::Aggregate { schema, .. } => names(schema).to_set(),
        PlanView::Sort { exprs, input } => kept_by(
            *input,
            needs.union(columns_of_all(sort_exprs(exprs))),
        ),
        PlanView::Join { left, right, on, .. } => {
            let l = kept_by(*left, left_needs(on, needs));
            let r = kept_by(*right, right_needs(on, needs));
            Set::new(
                |k: Seq<char>|
                    (names(fields_of(*left)).contains(k) && l.contains(k)) || (names(
                        fields_of(*right),
                    ).contains(k) && r.contains(k)),
            )
        },
        PlanView::Limit { input, .. } => kept_by(*input, needs),
        PlanView::Empty { schema } => names(schema).to_set(),
    }
}

/// Every needed name among the fields is kept.
pub open spec fn covers(keep: Set<Seq<char>>, needs: Set<Seq<char>>, f: Seq<FieldView>) -> bool {
    forall|k: Seq<char>| #[trigger] needs.contains(k) && names(f).contains(k) ==> keep.contains(k)
}

/// The columns of each expression are among those of all.
proof fn lemma_columns_of_all(es: Seq<ExprView>)
    ensures
        forall|i: int, k: Seq<char>|
            0 <= i < es.len() && columns(#[trigger] es[i]).contains(
                k,
            ) ==> #[trigger] columns_of_all(es).contains(k),
    decreases es.len(),
{
    if es.len() > 0 {
        let rest = es.drop_last();
        lemma_columns_of_all(rest);
        assert forall|i: int, k: Seq<char>|
            0 <= i < es.len() && columns(#[trigger] es[i]).contains(
                k,
            ) implies #[trigger] columns_of_all(es).contains(k) by {
            if i < rest.len() {
                assert(rest[i] == es[i]);
                assert(columns_of_all(rest).contains(k));
            }
        }
    }
}

/// Where a needed name is not among the fields, every field that it can mean is kept.
pub open spec fn covers_bare(keep: Set<Seq<char>>, needs: Set<Seq<char>>, f: Seq<FieldView>) -> bool {
    forall|k: Seq<char>, n: Seq<char>|
        #![trigger needs.contains(k), names(f).contains(n)]
        needs.contains(k) && !names(f).contains(k) && names(f).contains(n) && qualifies(k, n)
            ==> keep.contains(n)
}

/// What covers more needs covers fewer.
proof fn lemma_covers_more(
    keep: Set<Seq<char>>,
    needs: Set<Seq<char>>,
    more: Set<Seq<char>>,
    f: Seq<FieldView>,
)
    requires
        needs.subset_of(more),
        covers_bare(keep, more, f),
    ensures
        covers_bare(keep, needs, f),
{
    assert forall|k: Seq<char>, n: Seq<char>|
        #![trigger needs.contains(k), names(f).contains(n)]
        needs.contains(k) && !names(f).contains(k) && names(f).contains(n) && qualifies(
            k,
            n,
        ) implies keep.contains(n) by {
        assert(more.contains(k));
    }
}

/// What covers the needs of an expression covers what it reads.
proof fn lemma_covers_one(
    e: ExprView,
    f: Seq<FieldView>,
    needs: Set<Seq<char>>,
    keep: Set<Seq<char>>,
)
    requires
        found(e, f),
        reads_within(e, f) || covers_bare(keep, needs, f),
        covers(keep, needs, f),
        forall|k: Seq<char>| #[trigger] columns(e).contains(k) ==> needs.contains(k),
    ensures
        stays(e, f, keep),
    decreases e,
{
    match e {
        ExprView::Column { name, relation } => {
            let key = key_of(name, relation);
            assert(columns(e).contains(key));
            assert(needs.contains(key));
            lemma_position(names(f), key);
            lemma_position(names(f), name);
            if !names(f).contains(key) {
                match relation {
                    Some(r) => {
                        assert(key.skip(key.len() - ("."@ + name).len()) =~= "."@ + name);
                        assert(qualifies(key, name));
                        assert(names(f).contains(name));
                    },
                    None => {},
                }
            }
        },
        ExprView::Binary { left, right, .. } => {
            assert forall|k: Seq<char>| #[trigger] columns(*left).contains(k) implies columns(
                e,
            ).contains(k) by {}
            assert forall|k: Seq<char>| #[trigger] columns(*right).contains(k) implies columns(
                e,
            ).contains(k) by {}
            lemma_covers_one(*left, f, needs, keep);
            lemma_covers_one(*right, f, needs, keep);
        },
        ExprView::Aggregate { arg, .. } => {
            assert(columns(e) == columns(*arg));
            lemma_covers_one(*arg, f, needs, keep);
        },
        ExprView::Alias { expr, .. } => {
            assert(columns(e) == columns(*expr));
            lemma_covers_one(*expr, f, needs, keep);
        },
        _ => {},
    }
}

/// What covers the needs of some expressions covers what they read.
proof fn lemma_covers_reads(
    es: Seq<ExprView>,
    f: Seq<FieldView>,
    needs: Set<Seq<char>>,
    keep: Set<Seq<char>>,
)
    requires
        forall|i: int|
            0 <= i < es.len() ==> reads_within(#[trigger] es[i], f) || (found(es[i], f)
                && covers_bare(keep, needs, f)),
        covers(keep, needs, f),
        forall|k: Seq<char>| #[trigger] columns_of_all(es).contains(k) ==> needs.contains(k),
    ensures
        all_stay(es, f, keep),
{
    lemma_columns_of_all(es);
    assert forall|i: int| 0 <= i < es.len() implies stays(#[trigger] es[i], f, keep) by {
        if reads_within(es[i], f) {
            lemma_reads_found(es[i], f);
        }
        assert forall|k: Seq<char>| #[trigger] columns(es[i]).contains(k) implies needs.contains(
            k,
        ) by {
            assert(columns_of_all(es).contains(k));
        }
        lemma_covers_one(es[i], f, needs, keep);
    }
}

/// The argument of an aggregate reads kept columns where the aggregate does.
proof fn lemma_agg_parts_stay(e: ExprView, f: Seq<FieldView>, keep: Set<Seq<char>>)
    requires
        stays(e, f, keep),
    ensures
        agg_parts(e) matches Some(p) ==> stays(p.1, f, keep),
    decreases e,
{
    match e {
        ExprView::Alias { expr, .. } => { lemma_agg_parts_stay(*expr, f, keep); },
        _ => {},
    }
}

/// The argument columns of aggregates stay.
proof fn lemma_restrict_arguments(
    es: Seq<ExprView>,
    f: Seq<FieldView>,
    keep: Set<Seq<char>>,
    rows: Seq<Seq<Cell>>,
)
    requires
        all_stay(es, f, keep),
        wide(f, rows),
    ensures
        argument_columns(es, restrict_fields(f, keep), restrict_rows(f, keep, rows))
            == argument_columns(es, f, rows),
{
    let g = restrict_fields(f, keep);
    let short = restrict_rows(f, keep, rows);
    assert forall|i: int| 0 <= i < es.len() implies argument_column(es[i], g, short)
        == argument_column(es[i], f, rows) by {
        assert(stays(es[i], f, keep));
        lemma_agg_parts_stay(es[i], f, keep);
        match agg_parts(es[i]) {
            Some(p) => {
                lemma_restrict_column(p.1, f, keep, rows);
            },
            None => {},
        }
    }
    assert(argument_columns(es, g, short) =~= argument_columns(es, f, rows));
}

/// Columns of values stay.
proof fn lemma_restrict_columns(
    es: Seq<ExprView>,
    f: Seq<FieldView>,
    keep: Set<Seq<char>>,
    rows: Seq<Seq<Cell>>,
)
    requires
        all_stay(es, f, keep),
        wide(f, rows),
    ensures
        value_columns(es, restrict_fields(f, keep), restrict_rows(f, keep, rows)) == value_columns(
            es,
            f,
            rows,
        ),
{
    let g = restrict_fields(f, keep);
    let short = restrict_rows(f, keep, rows);
    assert forall|i: int| 0 <= i < es.len() implies value_column(es[i], g, short) == value_column(
        es[i],
        f,
        rows,
    ) by {
        assert(stays(es[i], f, keep));
        lemma_restrict_column(es[i], f, keep, rows);
    }
    assert(value_columns(es, g, short) =~= value_columns(es, f, rows));
}

/// Sorting kept cells of rows is keeping cells of sorted rows.
proof fn lemma_restrict_sort(
    es: Seq<SortView>,
    f: Seq<FieldView>,
    keep: Set<Seq<char>>,
    rows: Seq<Seq<Cell>>,
)
    requires
        all_stay(sort_exprs(es), f, keep),
        wide(f, rows),
    ensures
        sorted_of(es, restrict_fields(f, keep), restrict_rows(f, keep, rows)) == restrict_rows(
            f,
            keep,
            sorted_of(es, f, rows),
        ),
{
    let g = restrict_fields(f, keep);
    let short = restrict_rows(f, keep, rows);
    assert forall|i: int| 0 <= i < es.len() implies value_column(es[i].expr, g, short)
        == value_column(es[i].expr, f, rows) by {
        assert(stays(sort_exprs(es)[i], f, keep));
        lemma_restrict_column(es[i].expr, f, keep, rows);
    }
    assert(sort_columns(es, g, short) =~= sort_columns(es, f, rows));
    let order = sort_order(sort_columns(es, f, rows));
    if rows.len() > 0 && is_permutation(order, rows.len()) {
        assert forall|i: int| 0 <= i < order.len() implies rows_at(short, order)[i]
            == restrict_rows(f, keep, rows_at(rows, order))[i] by {
            assert(order[i] < rows.len());
        }
        assert(rows_at(short, order) =~= restrict_rows(f, keep, rows_at(rows, order)));
    }
}

/// Whether a projection is an identity depends on the names below it only.
proof fn lemma_identity_names(
    exprs: Seq<ExprView>,
    schema: Seq<FieldView>,
    f: Seq<FieldView>,
    g: Seq<FieldView>,
)
    requires
        names(f) == names(g),
    ensures
        is_identity(exprs, schema, f) == is_identity(exprs, schema, g),
{
    assert(f.len() == names(f).len());
    assert(g.len() == names(g).len());
    assert forall|i: int| 0 <= i < f.len() implies f[i].name == g[i].name by {
        assert(names(f)[i] == names(g)[i]);
    }
}

/// An identity projection has the fields and rows of its input.
proof fn lemma_identity_means(
    exprs: Seq<ExprView>,
    schema: Seq<FieldView>,
    input: PlanView,
    t: Map<Seq<char>, Seq<Seq<Cell>>>,
    o: Sums,
)
    requires
        exprs.len() == schema.len(),
        is_identity(exprs, schema, fields_of(input)),
        wide(fields_of(input), meaning(input, t, o)),
    ensures
        fields_of(PlanView::Projection { exprs, schema, input: Box::new(input) }) == fields_of(
            input,
        ),
        meaning(PlanView::Projection { exprs, schema, input: Box::new(input) }, t, o) == meaning(
            input,
            t, o,
        ),
        forall|i: int| 0 <= i < exprs.len() ==> columns(#[trigger] exprs[i]).contains(names(schema)[i]),
{
    let f = fields_of(input);
    let rows = meaning(input, t, o);
    let p = PlanView::Projection { exprs, schema, input: Box::new(input) };
    assert(names(schema).len() == schema.len());
    assert(names(f).len() == f.len());
    assert forall|i: int| 0 <= i < exprs.len() implies expr_type(exprs[i], f) == f[i].data_type && (
    forall|row: Seq<Cell>| #[trigger] value_in(exprs[i], f, row) == row[i]) && columns(
        #[trigger] exprs[i],
    ).contains(names(schema)[i]) && schema[i].name == f[i].name by {
        assert(names(schema)[i] == schema[i].name);
        assert(names(f)[i] == f[i].name);
        match exprs[i] {
            ExprView::Column { name, relation } => {
                lemma_position(names(f), key_of(name, relation));
            },
            _ => {},
        }
    }
    assert forall|i: int| 0 <= i < f.len() implies fields_of(p)[i] == f[i] by {
        assert(expr_type(exprs[i], f) == f[i].data_type);
    }
    assert(fields_of(p) =~= f);
    assert forall|i: int| 0 <= i < rows.len() implies projected_row(exprs, f, rows[i]) == rows[i] by {
        assert(rows[i].len() == f.len());
        assert(projected_row(exprs, f, rows[i]) =~= rows[i]) by {
            assert forall|j: int| 0 <= j < exprs.len() implies value_in(exprs[j], f, rows[i])
                == rows[i][j] by {
                assert(columns(exprs[j]).contains(names(schema)[j]));
            }
        }
    }
    assert(meaning(p, t, o) =~= rows);
}

/// Nothing is dropped where all names are kept.
proof fn lemma_restrict_nothing(
    f: Seq<FieldView>,
    keep: Set<Seq<char>>,
    rows: Seq<Seq<Cell>>,
)
    requires
        wide(f, rows),
        forall|i: int| 0 <= i < f.len() ==> keep.contains(#[trigger] names(f)[i]),
    ensures
        restrict_fields(f, keep) == f,
        restrict_rows(f, keep, rows) == rows,
{
    lemma_restrict_all(names(f), keep, f);
    assert forall|i: int| 0 <= i < rows.len() implies restrict(names(f), keep, rows[i]) == rows[i] by {
        assert(rows[i].len() == f.len());
        lemma_restrict_all(names(f), keep, rows[i]);
    }
    assert(restrict_rows(f, keep, rows) =~= rows);
}

/// A pruned plan means the rows of the plan, cut down to kept columns that cover what is needed.
proof fn lemma_prune_means(
    p: PlanView,
    needs: Set<Seq<char>>,
    t: Map<Seq<char>, Seq<Seq<Cell>>>,
    o: Sums,
)
    requires
        sensible(p),
        fitting(p, t),
    ensures
        covers(kept_by(p, needs), needs, fields_of(p)),
        covers_bare(kept_by(p, needs), needs, fields_of(p)),
        fields_of(prune(p, needs)) == restrict_fields(fields_of(p), kept_by(p, needs)),
        meaning(prune(p, needs), t, o) == restrict_rows(
            fields_of(p),
            kept_by(p, needs),
            meaning(p, t, o),
        ),
        names(prune(p, needs).schema()) == names(p.schema()),
    decreases p,
{
    lemma_sensible_inner(p);
    lemma_row_width(p, t, o);
    lemma_schema_names(p);
    let f = fields_of(p);
    let keep = kept_by(p, needs);
    let q = prune(p, needs);
    match p {
        PlanView::Scan { table, schema, projection } => {
            let list = names(schema);
            assert(names(f) =~= list);
            assert(keep == wanted(list, needs));
            assert forall|k: Seq<char>, n: Seq<char>|
                #![trigger needs.contains(k), names(f).contains(n)]
                needs.contains(k) && !names(f).contains(k) && names(f).contains(n) && qualifies(
                    k,
                    n,
                ) implies keep.contains(n) by {
                assert(needs.contains(k) && !list.contains(k) && qualifies(k, n));
            }
            assert(list.take(schema.len() as int) =~= list);
            assert(schema.take(schema.len() as int) =~= schema);
            lemma_scan_fields(schema, keep, schema.len() as int);
            lemma_restrict_normal(schema, keep);
            lemma_kept_all(list, keep);
            assert forall|i: int| 0 <= i < t[table].len() implies #[trigger] meaning(q, t, o)[i]
                == restrict(names(f), keep, meaning(p, t, o)[i]) by {
                let row = t[table][i];
                assert(row.len() == schema.len());
                assert(row.take(schema.len() as int) =~= row);
                lemma_scan_cells(list, keep, row, schema.len() as int);
                if scan_projection(list, needs) is None {
                    lemma_restrict_all(list, keep, row);
                }
            }
            if scan_projection(list, needs) is None {
                lemma_restrict_all(list, keep, schema);
            }
            assert(meaning(q, t, o) =~= restrict_rows(f, keep, meaning(p, t, o)));
        },
        PlanView::Filter { predicate, input } => {
            let more = needs.union(columns(predicate));
            lemma_prune_means(*input, more, t, o);
            lemma_sensible_inner(*input);
            lemma_row_width(*input, t, o);
            lemma_passes_found(predicate, *input);
            lemma_covers_one(predicate, f, more, keep);
            lemma_restrict_where(predicate, f, keep, meaning(*input, t, o));
            lemma_covers_more(keep, needs, more, f);
            assert forall|k: Seq<char>| #[trigger]
                needs.contains(k) && names(f).contains(k) implies keep.contains(k) by {
                assert(more.contains(k));
            }
        },
        PlanView::Projection { exprs, schema, input } => {
            let below = columns_of_all(exprs);
            let g = fields_of(*input);
            lemma_prune_means(*input, below, t, o);
            lemma_sensible_inner(*input);
            lemma_row_width(*input, t, o);
            lemma_schema_names(*input);
            let child = prune(*input, below);
            lemma_identity_names(exprs, schema, child.schema(), g);
            let ckeep = kept_by(*input, below);
            assert(names(f) =~= names(schema));
            assert forall|i: int| 0 <= i < exprs.len() implies reads_within(#[trigger] exprs[i], g)
                || (found(exprs[i], g) && covers_bare(ckeep, below, g)) by {
                assert(found(exprs[i], g));
            }
            lemma_covers_reads(exprs, g, below, ckeep);
            if is_identity(exprs, schema, g) {
                lemma_identity_means(exprs, schema, *input, t, o);
                assert forall|k: Seq<char>| #[trigger]
                    needs.contains(k) && names(f).contains(k) implies keep.contains(k) by {
                    let i = choose|i: int| 0 <= i < names(f).len() && names(f)[i] == k;
                    assert(columns(exprs[i]).contains(names(schema)[i]));
                    assert(stays(exprs[i], g, ckeep));
                    lemma_position(names(g), names(schema)[i]);
                }
                assert forall|n: Seq<char>| #[trigger] names(f).contains(n) implies keep.contains(
                    n,
                ) by {
                    let i = choose|i: int| 0 <= i < names(f).len() && names(f)[i] == n;
                    assert(columns(exprs[i]).contains(names(schema)[i]));
                    assert(stays(exprs[i], g, ckeep));
                    lemma_position(names(g), names(schema)[i]);
                }
            } else {
                let rows = meaning(*input, t, o);
                assert forall|i: int| 0 <= i < rows.len() implies #[trigger] meaning(q, t, o)[i]
                    == meaning(p, t, o)[i] by {
                    assert(rows[i].len() == g.len());
                    lemma_restrict_projected(exprs, g, ckeep, rows[i]);
                }
                assert(meaning(q, t, o) =~= meaning(p, t, o));
                assert forall|i: int| 0 <= i < schema.len() implies #[trigger] fields_of(q)[i]
                    == f[i] by {
                    assert(stays(exprs[i], g, ckeep));
                    lemma_restrict_type(exprs[i], g, ckeep);
                }
                assert(fields_of(q) =~= f);
                assert forall|i: int| 0 <= i < f.len() implies keep.contains(
                    #[trigger] names(f)[i],
                ) by {
                    assert(names(schema).contains(names(f)[i]));
                }
                lemma_restrict_nothing(f, keep, meaning(p, t, o));
            }
        },
        PlanView::Aggregate { group_by, aggr_exprs, schema, input } => {
            let below = columns_of_all(group_by).union(columns_of_all(aggr_exprs));
            let g = fields_of(*input);
            lemma_prune_means(*input, below, t, o.first());
            lemma_sensible_inner(*input);
            lemma_row_width(*input, t, o.first());
            let ckeep = kept_by(*input, below);
            assert forall|i: int| 0 <= i < group_by.len() implies reads_within(
                #[trigger] group_by[i],
                g,
            ) || (found(group_by[i], g) && covers_bare(ckeep, below, g)) by {
                assert(found(group_by[i], g));
            }
            assert forall|i: int| 0 <= i < aggr_exprs.len() implies reads_within(
                #[trigger] aggr_exprs[i],
                g,
            ) || (found(aggr_exprs[i], g) && covers_bare(ckeep, below, g)) by {
                assert(found(aggr_exprs[i], g));
            }
            lemma_covers_reads(group_by, g, below, ckeep);
            lemma_covers_reads(aggr_exprs, g, below, ckeep);
            lemma_restrict_columns(group_by, g, ckeep, meaning(*input, t, o.first()));
            lemma_restrict_arguments(aggr_exprs, g, ckeep, meaning(*input, t, o.first()));
            assert(names(f) =~= names(schema));
            assert forall|i: int| 0 <= i < f.len() implies keep.contains(#[trigger] names(f)[i]) by {
                assert(names(schema).contains(names(f)[i]));
            }
            lemma_restrict_nothing(f, keep, meaning(p, t, o));
        },
        PlanView::Sort { exprs, input } => {
            let more = needs.union(columns_of_all(sort_exprs(exprs)));
            lemma_prune_means(*input, more, t, o);
            lemma_sensible_inner(*input);
            lemma_row_width(*input, t, o);
            assert forall|i: int| 0 <= i < sort_exprs(exprs).len() implies found(
                #[trigger] sort_exprs(exprs)[i],
                f,
            ) by {}
            lemma_covers_reads(sort_exprs(exprs), f, more, keep);
            lemma_restrict_sort(exprs, f, keep, meaning(*input, t, o));
            lemma_covers_more(keep, needs, more, f);
            assert forall|k: Seq<char>| #[trigger]
                needs.contains(k) && names(f).contains(k) implies keep.contains(k) by {
                assert(more.contains(k));
            }
        },
        PlanView::Join { left, right, on, schema, .. } => {
            let lf = fields_of(*left);
            let rf = fields_of(*right);
            let ln = left_needs(on, needs);
            let rn = right_needs(on, needs);
            lemma_prune_means(*left, ln, t, o.first());
            lemma_prune_means(*right, rn, t, o.second());
            lemma_sensible_inner(*left);
            lemma_row_width(*left, t, o.first());
            lemma_sensible_inner(*right);
            lemma_row_width(*right, t, o.second());
            lemma_schema_names(*left);
            lemma_schema_names(*right);
            lemma_names_concat(lf, rf);
            let lkeep = kept_by(*left, ln);
            let rkeep = kept_by(*right, rn);
            lemma_covers_reads(left_keys(on), lf, ln, lkeep);
            lemma_covers_reads(right_keys(on), rf, rn, rkeep);
            assert(joins_keep(lf, lkeep, rf, rkeep, keep)) by {
                assert forall|i: int| 0 <= i < lf.len() implies keep.contains(
                    #[trigger] names(lf)[i],
                ) == lkeep.contains(names(lf)[i]) by {
                    assert(names(lf).contains(names(lf)[i]));
                }
                assert forall|i: int| 0 <= i < rf.len() implies keep.contains(
                    #[trigger] names(rf)[i],
                ) == rkeep.contains(names(rf)[i]) by {
                    let k = names(rf)[i];
                    assert(names(rf).contains(k));
                    if names(lf).contains(k) {
                        assert(!names(rf).contains(k));
                    }
                }
            }
            lemma_restrict_join(
                left_keys(on),
                lf,
                lkeep,
                meaning(*left, t, o.first()),
                right_keys(on),
                rf,
                rkeep,
                meaning(*right, t, o.second()),
                keep,
            );
            lemma_restrict_concat(names(lf), names(rf), keep, lf, rf);
            lemma_restrict_same(names(lf), keep, lkeep, lf);
            lemma_restrict_same(names(rf), keep, rkeep, rf);
            assert forall|k: Seq<char>| #[trigger]
                needs.contains(k) && names(f).contains(k) implies keep.contains(k) by {
                assert(ln.contains(k));
                assert(rn.contains(k));
                if !names(lf).contains(k) {
                    let i = choose|i: int| 0 <= i < names(f).len() && names(f)[i] == k;
                    if i < names(lf).len() {
                        assert(names(lf)[i] == k);
                    } else {
                        assert(names(rf)[i - names(lf).len()] == k);
                    }
                }
            }
            assert forall|k: Seq<char>, n: Seq<char>|
                #![trigger needs.contains(k), names(f).contains(n)]
                needs.contains(k) && !names(f).contains(k) && names(f).contains(n) && qualifies(
                    k,
                    n,
                ) implies keep.contains(n) by {
                assert(ln.contains(k) && rn.contains(k));
                let i = choose|i: int| 0 <= i < names(f).len() && names(f)[i] == n;
                if names(lf).contains(k) {
                    let j = choose|j: int| 0 <= j < names(lf).len() && names(lf)[j] == k;
                    assert(names(f)[j] == k);
                }
                if names(rf).contains(k) {
                    let j = choose|j: int| 0 <= j < names(rf).len() && names(rf)[j] == k;
                    assert(names(f)[j + names(lf).len()] == k);
                }
                if i < names(lf).len() {
                    assert(names(lf)[i] == n);
                    assert(names(lf).contains(n));
                } else {
                    assert(names(rf)[i - names(lf).len()] == n);
                    assert(names(rf).contains(n));
                }
            }
            let nl = prune(*left, ln);
            let nr = prune(*right, rn);
            lemma_names_concat(nl.schema(), nr.schema());
        },
        PlanView::Limit { n, input } => {
            lemma_prune_means(*input, needs, t, o);
            let rows = meaning(*input, t, o);
            assert(meaning(q, t, o) =~= restrict_rows(f, keep, meaning(p, t, o)));
        },
        PlanView::Empty { schema } => {
            assert forall|i: int| 0 <= i < f.len() implies keep.contains(#[trigger] names(f)[i]) by {
                assert(names(schema).contains(names(f)[i]));
            }
            lemma_restrict_nothing(f, keep, meaning(p, t, o));
        },
    }
}

/// Pruning keeps the kind of every join.
proof fn lemma_prune_inner(p: PlanView, needs: Set<Seq<char>>)
    requires
        inner_only(p),
    ensures
        inner_only(prune(p, needs)),
    decreases p,
{
    match p {
        PlanView::Filter { predicate, input } => {
            lemma_prune_inner(*input, needs.union(columns(predicate)));
        },
        PlanView::Projection { exprs, input, .. } => {
            lemma_prune_inner(*input, columns_of_all(exprs));
        },
        PlanView::Aggregate { group_by, aggr_exprs, input, .. } => {
            lemma_prune_inner(*input, columns_of_all(group_by).union(columns_of_all(aggr_exprs)));
        },
        PlanView::Sort { exprs, input } => {
            lemma_prune_inner(*input, needs.union(columns_of_all(sort_exprs(exprs))));
        },
        PlanView::Join { left, right, on, .. } => {
            lemma_prune_inner(*left, left_needs(on, needs));
            lemma_prune_inner(*right, right_needs(on, needs));
        },
        PlanView::Limit { input, .. } => { lemma_prune_inner(*input, needs); },
        _ => {},
    }
}

/// Pruning a plan keeps the kind of every join.
pub proof fn lemma_pruned_inner(p: PlanView)
    requires
        inner_only(p),
    ensures
        inner_only(pruned(p)),
{
    lemma_prune_inner(p, names(p.schema()).to_set());
}

/// Law: projection pruning keeps what a plan means, and the fields of its rows.
pub proof fn law_pruning_keeps_meaning(p: PlanView, t: Map<Seq<char>, Seq<Seq<Cell>>>, o: Sums)
    requires
        sensible(p),
        fitting(p, t),
    ensures
        meaning(pruned(p), t, o) == meaning(p, t, o),
        fields_of(pruned(p)) == fields_of(p),
{
    let needs = names(p.schema()).to_set();
    let f = fields_of(p);
    lemma_prune_means(p, needs, t, o);
    lemma_schema_names(p);
    lemma_sensible_inner(p);
    lemma_row_width(p, t, o);
    assert forall|i: int| 0 <= i < f.len() implies kept_by(p, needs).contains(
        #[trigger] names(f)[i],
    ) by {
        assert(names(f).contains(names(f)[i]));
        assert(needs.contains(names(f)[i]));
    }
    lemma_restrict_nothing(f, kept_by(p, needs), meaning(p, t, o));
}

} // verus!
