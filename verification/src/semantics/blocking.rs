//! The operators that read their whole input compute what a plan means.

use vstd::prelude::*;
use crate::executor::aggregate::{
    agg_funcs, agg_parts, aggregate_stream, aggregated, arg_columns, chunk, gathered, group_rows,
    output_batch, output_batches, output_cell, output_columns,
};
use crate::executor::batch::kernels::{lemma_sort_order, sort_order};
use crate::executor::batch::{
    assembled, fits, normal_fields, normal_type, null_cell, null_count, scalar_in, sound, stacked,
    stacked_batch, total_rows, well_typed, BatchView, Cell, ColumnView, Outcome,
};
use crate::executor::expr_eval::literal_column;
use crate::executor::full_table::{
    blank_batch, blank_row, filled_fields, full_batch, full_scalars, written,
};
use crate::executor::join::{
    join_outcome, joined_rows, lemma_joined_rows, lemma_rows_with, rows_with,
};
use crate::executor::keys::{all_readable, key_at, keys_of, row_readable};
use crate::executor::projection::evaluated_all;
use crate::executor::sort::{picked_columns, sort_keys_of, sort_stream, sorted_batches};
use crate::executor::{drained, ends, End, Stream};
use crate::optimizer::projection_pruning::{left_keys, right_keys, sort_exprs};
use crate::planner::logical_plan::{AggFunc, ExprView, JoinType, SortView};
use crate::semantics::execution::{
    batch_rows, flat_rows, good, lemma_assembled, lemma_evaluated, lemma_evaluated_all,
    lemma_flat_rows_front, lemma_shows_nothing, row_of, shows,
};
use crate::semantics::values::lemma_join_without_right;
use crate::semantics::{
    aggregate_rows, argument_column, argument_columns, join_rows, matches_of, output_row, row_key,
    rows_at, sort_columns, sorted_of, total_value, value_columns,
};
use crate::types::{names, FieldView, ScalarView};

verus! {

/// One column of stacked batches is that column of their rows.
proof fn lemma_stacked_column(bs: Seq<BatchView>, f: Seq<FieldView>, c: int)
    requires
        forall|i: int| 0 <= i < bs.len() ==> good(#[trigger] bs[i], f),
        0 <= c < f.len(),
    ensures
        stacked(bs, c).len() == total_rows(bs),
        flat_rows(bs).len() == total_rows(bs),
        forall|i: int| 0 <= i < total_rows(bs) ==> #[trigger] stacked(bs, c)[i] == flat_rows(bs)[i][c],
        forall|i: int|
            0 <= i < total_rows(bs) ==> fits(f[c].data_type, #[trigger] stacked(bs, c)[i]),
    decreases bs.len(),
{
    if bs.len() > 0 {
        let rest = bs.drop_last();
        let b = bs[bs.len() - 1];
        assert forall|i: int| 0 <= i < rest.len() implies good(#[trigger] rest[i], f) by {
            assert(rest[i] == bs[i]);
        }
        lemma_stacked_column(rest, f, c);
        assert(good(b, f));
        assert(b.columns[c].cells.len() == b.rows);
        assert(well_typed(b.columns[c]));
        assert forall|i: int| 0 <= i < total_rows(bs) implies #[trigger] stacked(bs, c)[i]
            == flat_rows(bs)[i][c] && fits(f[c].data_type, stacked(bs, c)[i]) by {
            if i < total_rows(rest) {
                assert(stacked(rest, c)[i] == flat_rows(rest)[i][c]);
            } else {
                let j = i - total_rows(rest);
                assert(stacked(bs, c)[i] == b.columns[c].cells[j]);
                assert(flat_rows(bs)[i] == batch_rows(b)[j]);
                assert(fits(b.columns[c].data_type, b.columns[c].cells[j]));
            }
        }
    }
}

/// There are as many rows as the batches have together, each with a cell for each field.
proof fn lemma_flat_len(bs: Seq<BatchView>, f: Seq<FieldView>)
    requires
        forall|i: int| 0 <= i < bs.len() ==> good(#[trigger] bs[i], f),
    ensures
        flat_rows(bs).len() == total_rows(bs),
        bs.len() > 0 ==> total_rows(bs) > 0,
        forall|i: int| 0 <= i < flat_rows(bs).len() ==> (#[trigger] flat_rows(bs)[i]).len() == f.len(),
    decreases bs.len(),
{
    if bs.len() > 0 {
        let rest = bs.drop_last();
        let b = bs[bs.len() - 1];
        assert forall|i: int| 0 <= i < rest.len() implies good(#[trigger] rest[i], f) by {
            assert(rest[i] == bs[i]);
        }
        lemma_flat_len(rest, f);
        assert(good(b, f));
        assert forall|i: int| 0 <= i < flat_rows(bs).len() implies (#[trigger] flat_rows(
            bs,
        )[i]).len() == f.len() by {
            if i < flat_rows(rest).len() {
                assert(flat_rows(bs)[i] == flat_rows(rest)[i]);
            } else {
                assert(flat_rows(bs)[i] == batch_rows(b)[i - flat_rows(rest).len()]);
            }
        }
    }
}

/// Stacked batches are a sound batch with their rows.
pub proof fn lemma_stacked_batch(bs: Seq<BatchView>, f: Seq<FieldView>)
    requires
        bs.len() > 0,
        forall|i: int| 0 <= i < bs.len() ==> good(#[trigger] bs[i], f),
    ensures
        good(stacked_batch(bs), f),
        batch_rows(stacked_batch(bs)) == flat_rows(bs),
{
    let x = stacked_batch(bs);
    assert(good(bs[0], f));
    lemma_flat_len(bs, f);
    assert forall|c: int| 0 <= c < x.columns.len() implies {
        &&& (#[trigger] x.columns[c]).cells.len() == x.rows
        &&& x.columns[c].data_type == x.fields[c].data_type
        &&& well_typed(x.columns[c])
    } by {
        lemma_stacked_column(bs, f, c);
    }
    assert forall|i: int| 0 <= i < x.rows implies batch_rows(x)[i] == flat_rows(bs)[i] by {
        assert(row_of(x, i) =~= flat_rows(bs)[i]) by {
            assert forall|c: int| 0 <= c < f.len() implies row_of(x, i)[c] == flat_rows(bs)[i][c] by {
                lemma_stacked_column(bs, f, c);
                assert(stacked(bs, c)[i] == flat_rows(bs)[i][c]);
            }
        }
    }
    assert(batch_rows(x) =~= flat_rows(bs));
}

/// Some rows of a batch: a batch of these rows.
proof fn lemma_picked_rows(b: BatchView, order: Seq<usize>)
    requires
        sound(b),
        forall|i: int| 0 <= i < order.len() ==> #[trigger] order[i] < b.rows,
    ensures
        forall|c: int|
            0 <= c < b.columns.len() ==> {
                &&& (#[trigger] picked_columns(b.columns, order)[c]).cells.len() == order.len()
                &&& well_typed(picked_columns(b.columns, order)[c])
                &&& picked_columns(b.columns, order)[c].data_type == b.fields[c].data_type
            },
        forall|c: int, i: int|
            0 <= c < b.columns.len() && 0 <= i < order.len() ==> #[trigger] picked_columns(
                b.columns,
                order,
            )[c].cells[i] == batch_rows(b)[order[i] as int][c],
{
    let cols = picked_columns(b.columns, order);
    assert forall|c: int| 0 <= c < b.columns.len() implies {
        &&& (#[trigger] cols[c]).cells.len() == order.len()
        &&& well_typed(cols[c])
        &&& cols[c].data_type == b.fields[c].data_type
    } by {
        assert(well_typed(b.columns[c]));
        assert(b.columns[c].cells.len() == b.rows);
        assert forall|i: int| 0 <= i < order.len() implies fits(
            cols[c].data_type,
            #[trigger] cols[c].cells[i],
        ) by {
            assert(order[i] < b.rows);
            assert(fits(b.columns[c].data_type, b.columns[c].cells[order[i] as int]));
        }
    }
    assert forall|c: int, i: int|
        0 <= c < b.columns.len() && 0 <= i < order.len() implies #[trigger] cols[c].cells[i]
        == batch_rows(b)[order[i] as int][c] by {
        assert(order[i] < b.rows);
    }
}

/// Fields with these names and the types of some columns are the columns' fields.
proof fn lemma_same_fields(
    fields: Seq<FieldView>,
    f: Seq<FieldView>,
)
    requires
        names(fields) == names(f),
        forall|i: int|
            0 <= i < f.len() ==> (#[trigger] f[i]).data_type == normal_type(fields[i].data_type),
    ensures
        normal_fields(fields) == f,
{
    assert(names(fields).len() == fields.len());
    assert(names(f).len() == f.len());
    assert forall|i: int| 0 <= i < f.len() implies normal_fields(fields)[i] == f[i] by {
        assert(names(fields)[i] == names(f)[i]);
    }
    assert(normal_fields(fields) =~= f);
}

/// One computed batch shows its rows.
proof fn lemma_one_shows(b: BatchView, f: Seq<FieldView>, rows: Seq<Seq<Cell>>)
    requires
        good(b, f),
        batch_rows(b) == rows,
    ensures
        shows(Stream { batches: seq![b], end: End::Done }, f, rows),
{
    lemma_flat_rows_front(b, Seq::empty());
    assert(seq![b] + Seq::<BatchView>::empty() =~= seq![b]);
    assert(batch_rows(b) + flat_rows(Seq::empty()) =~= rows);
    assert(rows.take(rows.len() as int) =~= rows);
}

/// A sorted stream shows the rows in sorted order.
pub proof fn lemma_sort_shows(
    exprs: Seq<SortView>,
    fields: Seq<FieldView>,
    s: Stream,
    f: Seq<FieldView>,
    rows: Seq<Seq<Cell>>,
)
    requires
        shows(s, f, rows),
        names(fields) == names(f),
    ensures
        shows(sort_stream(exprs, fields, s), f, sorted_of(exprs, f, rows)),
{
    let want = sorted_of(exprs, f, rows);
    let out = sort_stream(exprs, fields, s);
    match drained(s) {
        Outcome::Value(bs) => {
            if bs.len() == 0 {
                assert(rows =~= Seq::empty());
                lemma_shows_nothing(End::Done, f, want);
                assert(out == ends(End::Done));
            } else {
                lemma_stacked_batch(bs, f);
                let all = stacked_batch(bs);
                lemma_evaluated_all(sort_exprs(exprs), all);
                match sorted_batches(exprs, fields, bs) {
                    Outcome::Value(sorted) => {
                        let columns = evaluated_all(sort_exprs(exprs), all)->Value_0;
                        let keys = sort_keys_of(columns, exprs);
                        assert(keys =~= sort_columns(exprs, f, rows));
                        let order = sort_order(keys);
                        assert(keys[0].column.cells.len() == rows.len());
                        lemma_sort_order(keys);
                        assert(want == rows_at(rows, order));
                        lemma_picked_rows(all, order);
                        let cols = picked_columns(all.columns, order);
                        let x = assembled(fields, cols, None)->Some_0;
                        assert forall|i: int| 0 <= i < cols.len() implies well_typed(
                            #[trigger] cols[i],
                        ) by {}
                        lemma_assembled(fields, cols, None, x);
                        assert forall|i: int| 0 <= i < f.len() implies (
                        #[trigger] f[i]).data_type == normal_type(fields[i].data_type) by {
                            assert(cols[i].data_type == all.fields[i].data_type);
                        }
                        lemma_same_fields(fields, f);
                        assert(cols[0].cells.len() == order.len());
                        assert forall|i: int| 0 <= i < order.len() implies batch_rows(x)[i]
                            == want[i] by {
                            assert(order[i] < rows.len());
                            assert(row_of(x, i) =~= rows[order[i] as int]) by {
                                assert forall|c: int| 0 <= c < cols.len() implies row_of(x, i)[c]
                                    == rows[order[i] as int][c] by {
                                    assert(cols[c].cells[i] == batch_rows(all)[order[i] as int][c]);
                                }
                                lemma_flat_len(bs, f);
                            }
                        }
                        assert(batch_rows(x) =~= want);
                        lemma_one_shows(x, f, want);
                        assert(sorted =~= seq![x]);
                    },
                    Outcome::Fault(x) => {
                        lemma_shows_nothing(End::Failed(x), f, want);
                    },
                    Outcome::Open => {
                        lemma_shows_nothing(End::Open, f, want);
                    },
                }
            }
        },
        Outcome::Fault(x) => {
            lemma_shows_nothing(End::Failed(x), f, want);
        },
        Outcome::Open => {
            lemma_shows_nothing(End::Open, f, want);
        },
    }
}

/// The scalar keys of rows and their cells tell the same rows apart.
proof fn lemma_key_cells(
    es: Seq<ExprView>,
    f: Seq<FieldView>,
    rows: Seq<Seq<Cell>>,
    i: int,
)
    requires
        0 <= i < rows.len(),
        row_readable(value_columns(es, f, rows), i),
    ensures
        row_key(es, f, rows[i]) == Seq::new(
            es.len(),
            |c: int| Cell::Scalar(key_at(value_columns(es, f, rows), i)[c]),
        ),
        key_at(value_columns(es, f, rows), i).len() == es.len(),
{
    let cols = value_columns(es, f, rows);
    assert forall|c: int| 0 <= c < es.len() implies row_key(es, f, rows[i])[c] == Cell::Scalar(
        key_at(cols, i)[c],
    ) by {
        assert(scalar_in(cols[c], i) is Some);
    }
    assert(row_key(es, f, rows[i]) =~= Seq::new(
        es.len(),
        |c: int| Cell::Scalar(key_at(cols, i)[c]),
    ));
}

/// Cells of scalars are equal where the scalars are.
proof fn lemma_scalar_cells(a: Seq<ScalarView>, b: Seq<ScalarView>)
    requires
        a.len() == b.len(),
    ensures
        (Seq::new(a.len(), |c: int| Cell::Scalar(a[c])) == Seq::new(
            b.len(),
            |c: int| Cell::Scalar(b[c]),
        )) == (a == b),
{
    let x = Seq::new(a.len(), |c: int| Cell::Scalar(a[c]));
    let y = Seq::new(b.len(), |c: int| Cell::Scalar(b[c]));
    if x == y {
        assert forall|c: int| 0 <= c < a.len() implies a[c] == b[c] by {
            assert(x[c] == y[c]);
        }
        assert(a =~= b);
    }
}

/// The right rows with a key, beside a left row.
proof fn lemma_matches(
    x: Seq<Cell>,
    key: Seq<Cell>,
    scalars: Seq<ScalarView>,
    rk: Seq<ExprView>,
    rf: Seq<FieldView>,
    rrows: Seq<Seq<Cell>>,
    rkeys: Seq<Seq<ScalarView>>,
)
    requires
        rrows.len() == rkeys.len(),
        rkeys.len() <= usize::MAX,
        forall|j: int|
            0 <= j < rkeys.len() ==> (#[trigger] rkeys[j] == scalars) == (row_key(rk, rf, rrows[j])
                == key),
    ensures
        matches_of(x, key, rk, rf, rrows) == Seq::new(
            rows_with(scalars, rkeys).len(),
            |i: int| x + rrows[rows_with(scalars, rkeys)[i] as int],
        ),
    decreases rrows.len(),
{
    let found = rows_with(scalars, rkeys);
    if rrows.len() == 0 {
        assert(matches_of(x, key, rk, rf, rrows) =~= Seq::new(
            found.len(),
            |i: int| x + rrows[found[i] as int],
        ));
    } else {
        let rows = rrows.drop_last();
        let keys = rkeys.drop_last();
        assert forall|j: int| 0 <= j < keys.len() implies (#[trigger] keys[j] == scalars) == (row_key(
            rk,
            rf,
            rows[j],
        ) == key) by {
            assert(keys[j] == rkeys[j]);
        }
        lemma_matches(x, key, scalars, rk, rf, rows, keys);
        let n = rrows.len() - 1;
        assert((rkeys[n] == scalars) == (row_key(rk, rf, rrows[n]) == key));
        let before = rows_with(scalars, keys);
        lemma_rows_with(scalars, keys);
        assert(matches_of(x, key, rk, rf, rrows) =~= Seq::new(
            found.len(),
            |i: int| x + rrows[found[i] as int],
        )) by {
            assert forall|i: int| 0 <= i < before.len() implies rows[before[i] as int]
                == rrows[before[i] as int] by {
                assert(before[i] < keys.len());
            }
        }
    }
}

/// Joined rows by their numbers are the rows that the join means.
proof fn lemma_joined(
    lk: Seq<ExprView>,
    lf: Seq<FieldView>,
    lrows: Seq<Seq<Cell>>,
    lkeys: Seq<Seq<ScalarView>>,
    rk: Seq<ExprView>,
    rf: Seq<FieldView>,
    rrows: Seq<Seq<Cell>>,
    rkeys: Seq<Seq<ScalarView>>,
)
    requires
        lrows.len() == lkeys.len(),
        rrows.len() == rkeys.len(),
        lkeys.len() <= usize::MAX,
        rkeys.len() <= usize::MAX,
        forall|i: int, j: int|
            0 <= i < lkeys.len() && 0 <= j < rkeys.len() ==> (#[trigger] rkeys[j]
                == #[trigger] lkeys[i]) == (row_key(rk, rf, rrows[j]) == row_key(lk, lf, lrows[i])),
    ensures
        join_rows(lk, lf, lrows, rk, rf, rrows) == Seq::new(
            joined_rows(lkeys, rkeys).0.len(),
            |i: int|
                lrows[joined_rows(lkeys, rkeys).0[i] as int] + rrows[joined_rows(
                    lkeys,
                    rkeys,
                ).1[i] as int],
        ),
    decreases lrows.len(),
{
    let j = joined_rows(lkeys, rkeys);
    lemma_joined_rows(lkeys, rkeys);
    let want = Seq::new(j.0.len(), |i: int| lrows[j.0[i] as int] + rrows[j.1[i] as int]);
    if lrows.len() == 0 {
        assert(join_rows(lk, lf, lrows, rk, rf, rrows) =~= want);
    } else {
        let rows = lrows.drop_last();
        let keys = lkeys.drop_last();
        assert forall|a: int, b: int| 0 <= a < keys.len() && 0 <= b < rkeys.len() implies (
        #[trigger] rkeys[b] == #[trigger] keys[a]) == (row_key(rk, rf, rrows[b]) == row_key(
            lk,
            lf,
            rows[a],
        )) by {
            assert(keys[a] == lkeys[a]);
        }
        lemma_joined(lk, lf, rows, keys, rk, rf, rrows, rkeys);
        let n = lrows.len() - 1;
        let x = lrows[n];
        let key = row_key(lk, lf, x);
        assert forall|b: int| 0 <= b < rkeys.len() implies (#[trigger] rkeys[b] == lkeys[n]) == (
        row_key(rk, rf, rrows[b]) == key) by {}
        lemma_matches(x, key, lkeys[n], rk, rf, rrows, rkeys);
        let before = joined_rows(keys, rkeys);
        lemma_joined_rows(keys, rkeys);
        let found = rows_with(lkeys[n], rkeys);
        assert(join_rows(lk, lf, lrows, rk, rf, rrows) =~= want) by {
            let a = join_rows(lk, lf, rows, rk, rf, rrows);
            assert forall|i: int| 0 <= i < want.len() implies join_rows(
                lk,
                lf,
                lrows,
                rk,
                rf,
                rrows,
            )[i] == want[i] by {
                if i < a.len() {
                    assert(before.0[i] < keys.len());
                    assert(j.0[i] == before.0[i]);
                    assert(j.1[i] == before.1[i]);
                    assert(rows[before.0[i] as int] == lrows[before.0[i] as int]);
                } else {
                    assert(j.0[i] == n as usize);
                    assert(j.1[i] == found[i - a.len()]);
                }
            }
        }
    }
}

/// The keys of rows of two tables are equal where their cells are.
proof fn lemma_keys_agree(
    lk: Seq<ExprView>,
    lf: Seq<FieldView>,
    lrows: Seq<Seq<Cell>>,
    rk: Seq<ExprView>,
    rf: Seq<FieldView>,
    rrows: Seq<Seq<Cell>>,
)
    requires
        lk.len() == rk.len(),
        all_readable(value_columns(lk, lf, lrows), lrows.len()),
        all_readable(value_columns(rk, rf, rrows), rrows.len()),
    ensures
        forall|i: int, j: int|
            0 <= i < lrows.len() && 0 <= j < rrows.len() ==> (#[trigger] keys_of(
                value_columns(rk, rf, rrows),
                rrows.len(),
            )[j] == #[trigger] keys_of(value_columns(lk, lf, lrows), lrows.len())[i]) == (row_key(
                rk,
                rf,
                rrows[j],
            ) == row_key(lk, lf, lrows[i])),
{
    let lc = value_columns(lk, lf, lrows);
    let rc = value_columns(rk, rf, rrows);
    assert forall|i: int, j: int| 0 <= i < lrows.len() && 0 <= j < rrows.len() implies (
    #[trigger] keys_of(rc, rrows.len())[j] == #[trigger] keys_of(lc, lrows.len())[i]) == (row_key(
        rk,
        rf,
        rrows[j],
    ) == row_key(lk, lf, lrows[i])) by {
        assert(row_readable(lc, i));
        assert(row_readable(rc, j));
        lemma_key_cells(lk, lf, lrows, i);
        lemma_key_cells(rk, rf, rrows, j);
        lemma_scalar_cells(key_at(rc, j), key_at(lc, i));
    }
}

/// Joined inputs show the rows that the join means.
pub proof fn lemma_join_shows(
    left: Stream,
    right: Stream,
    on: Seq<(ExprView, ExprView)>,
    join_type: JoinType,
    fields: Seq<FieldView>,
    lf: Seq<FieldView>,
    lrows: Seq<Seq<Cell>>,
    rf: Seq<FieldView>,
    rrows: Seq<Seq<Cell>>,
)
    requires
        shows(left, lf, lrows),
        shows(right, rf, rrows),
        names(fields) == names(lf + rf),
        lrows.len() <= usize::MAX,
        rrows.len() <= usize::MAX,
    ensures
        join_outcome(left, right, on, join_type, fields) matches Outcome::Value(bs) ==> shows(
            Stream { batches: bs, end: End::Done },
            lf + rf,
            join_rows(left_keys(on), lf, lrows, right_keys(on), rf, rrows),
        ),
{
    let lk = left_keys(on);
    let rk = right_keys(on);
    let want = join_rows(lk, lf, lrows, rk, rf, rrows);
    let f = lf + rf;
    match join_outcome(left, right, on, join_type, fields) {
        Outcome::Value(bs) => {
            let rbs = right.batches;
            if rbs.len() == 0 {
                assert(rrows =~= Seq::empty());
                lemma_join_without_right(lk, lf, lrows, rk, rf);
                lemma_shows_nothing(End::Done, f, want);
                assert(Stream { batches: bs, end: End::Done } == ends(End::Done));
            } else {
                lemma_stacked_batch(rbs, rf);
                let r = stacked_batch(rbs);
                lemma_evaluated_all(rk, r);
                let lbs = left.batches;
                if lbs.len() == 0 {
                    assert(lrows =~= Seq::empty());
                    lemma_shows_nothing(End::Done, f, want);
                    assert(Stream { batches: bs, end: End::Done } == ends(End::Done));
                } else {
                    lemma_stacked_batch(lbs, lf);
                    let l = stacked_batch(lbs);
                    lemma_evaluated_all(lk, l);
                    let lc = value_columns(lk, lf, lrows);
                    let rc = value_columns(rk, rf, rrows);
                    let lkeys = keys_of(lc, lrows.len());
                    let rkeys = keys_of(rc, rrows.len());
                    lemma_keys_agree(lk, lf, lrows, rk, rf, rrows);
                    lemma_joined(lk, lf, lrows, lkeys, rk, rf, rrows, rkeys);
                    lemma_joined_rows(lkeys, rkeys);
                    let j = joined_rows(lkeys, rkeys);
                    if j.0.len() == 0 {
                        assert(want =~= Seq::empty());
                        lemma_shows_nothing(End::Done, f, want);
                        assert(Stream { batches: bs, end: End::Done } == ends(End::Done));
                    } else {
                        lemma_picked_rows(l, j.0);
                        lemma_picked_rows(r, j.1);
                        let a = picked_columns(l.columns, j.0);
                        let b = picked_columns(r.columns, j.1);
                        let cols = a + b;
                        let x = assembled(fields, cols, None)->Some_0;
                        assert forall|i: int| 0 <= i < cols.len() implies well_typed(
                            #[trigger] cols[i],
                        ) && cols[i].data_type == f[i].data_type && cols[i].cells.len()
                            == j.0.len() by {
                            if i < a.len() {
                                assert(cols[i] == a[i]);
                            } else {
                                assert(cols[i] == b[i - a.len()]);
                            }
                        }
                        lemma_assembled(fields, cols, None, x);
                        assert forall|i: int| 0 <= i < f.len() implies (
                        #[trigger] f[i]).data_type == normal_type(fields[i].data_type) by {
                            assert(cols[i].data_type == f[i].data_type);
                        }
                        lemma_same_fields(fields, f);
                        lemma_flat_len(lbs, lf);
                        lemma_flat_len(rbs, rf);
                        assert(cols[0].cells.len() == j.0.len());
                        assert forall|i: int| 0 <= i < j.0.len() implies batch_rows(x)[i]
                            == want[i] by {
                            assert(j.0[i] < lrows.len());
                            assert(j.1[i] < rrows.len());
                            let y = lrows[j.0[i] as int];
                            let z = rrows[j.1[i] as int];
                            assert(row_of(x, i) =~= y + z) by {
                                assert forall|c: int| 0 <= c < cols.len() implies row_of(x, i)[c]
                                    == (y + z)[c] by {
                                    if c < a.len() {
                                        assert(cols[c] == a[c]);
                                        assert(a[c].cells[i] == batch_rows(l)[j.0[i] as int][c]);
                                    } else {
                                        let d = c - a.len();
                                        assert(cols[c] == b[d]);
                                        assert(b[d].cells[i] == batch_rows(r)[j.1[i] as int][d]);
                                    }
                                }
                            }
                        }
                        assert(batch_rows(x) =~= want);
                        lemma_one_shows(x, f, want);
                        assert(bs =~= seq![x]);
                    }
                }
            }
        },
        _ => {},
    }
}

/// The argument columns that evaluation gives are those of the aggregates' meaning.
proof fn lemma_arg_columns(es: Seq<ExprView>, b: BatchView)
    requires
        sound(b),
    ensures
        arg_columns(es, b) matches Outcome::Value(cs) ==> cs == argument_columns(
            es,
            b.fields,
            batch_rows(b),
        ),
    decreases es.len(),
{
    if es.len() == 0 {
        assert(argument_columns(es, b.fields, batch_rows(b)) =~= Seq::empty());
    } else {
        lemma_arg_columns(es.skip(1), b);
        match agg_parts(es[0]) {
            Some(p) => { lemma_evaluated(p.1, b); },
            None => {},
        }
        match arg_columns(es, b) {
            Outcome::Value(cs) => {
                let rest = arg_columns(es.skip(1), b)->Value_0;
                assert(argument_columns(es, b.fields, batch_rows(b)) =~= cs) by {
                    assert forall|i: int| 0 <= i < es.len() implies argument_columns(
                        es,
                        b.fields,
                        batch_rows(b),
                    )[i] == cs[i] by {
                        if i > 0 {
                            assert(es.skip(1)[i - 1] == es[i]);
                            assert(rest[i - 1] == cs[i]);
                        }
                    }
                }
            },
            _ => {},
        }
    }
}

/// The columns that rows are written to.
proof fn lemma_output_columns(rows: Seq<Seq<ScalarView>>, fields: Seq<FieldView>, from: nat)
    requires
        from <= fields.len(),
    ensures
        output_columns(rows, fields, from) matches Outcome::Value(cs) ==> cs.len() == fields.len()
            - from && forall|i: int|
            0 <= i < cs.len() ==> {
                let t = normal_type(fields[from + i].data_type);
                &&& #[trigger] cs[i] == ColumnView {
                    data_type: t,
                    cells: Seq::new(rows.len(), |r: int| output_cell(rows[r][from + i], t)),
                }
                &&& well_typed(cs[i])
            },
    decreases fields.len() - from,
{
    if from < fields.len() {
        lemma_output_columns(rows, fields, from + 1);
        match output_columns(rows, fields, from) {
            Outcome::Value(cs) => {
                let rest = output_columns(rows, fields, from + 1)->Value_0;
                assert forall|i: int| 0 <= i < cs.len() implies {
                    let t = normal_type(fields[from + i].data_type);
                    &&& #[trigger] cs[i] == ColumnView {
                        data_type: t,
                        cells: Seq::new(rows.len(), |r: int| output_cell(rows[r][from + i], t)),
                    }
                    &&& well_typed(cs[i])
                } by {
                    let t = normal_type(fields[from + i].data_type);
                    if i > 0 {
                        assert(cs[i] == rest[i - 1]);
                        assert(rest[i - 1].cells =~= Seq::new(
                            rows.len(),
                            |r: int| output_cell(rows[r][from + i], t),
                        ));
                    } else {
                        assert(cs[0].cells =~= Seq::new(
                            rows.len(),
                            |r: int| output_cell(rows[r][from + i], t),
                        ));
                    }
                }
            },
            _ => {},
        }
    }
}

/// Scalars as rows of the given fields.
pub open spec fn output_rows(rows: Seq<Seq<ScalarView>>, schema: Seq<FieldView>) -> Seq<Seq<Cell>> {
    Seq::new(rows.len(), |i: int| output_row(rows[i], schema))
}

/// A batch that rows are written to holds them.
proof fn lemma_output_batch(rows: Seq<Seq<ScalarView>>, schema: Seq<FieldView>)
    requires
        rows.len() > 0,
    ensures
        output_batch(rows, schema) matches Outcome::Value(b) ==> good(b, normal_fields(schema))
            && batch_rows(b) == output_rows(rows, schema),
{
    lemma_output_columns(rows, schema, 0);
    match output_batch(rows, schema) {
        Outcome::Value(b) => {
            let cols = output_columns(rows, schema, 0)->Value_0;
            lemma_assembled(schema, cols, None, b);
            assert(cols[0].cells.len() == rows.len());
            assert forall|i: int| 0 <= i < rows.len() implies batch_rows(b)[i] == output_rows(
                rows,
                schema,
            )[i] by {
                assert(row_of(b, i) =~= output_row(rows[i], schema)) by {
                    assert forall|c: int| 0 <= c < cols.len() implies row_of(b, i)[c]
                        == output_row(rows[i], schema)[c] by {
                        assert(cols[c].cells[i] == output_cell(
                            rows[i][0 + c],
                            normal_type(schema[0 + c].data_type),
                        ));
                    }
                }
            }
            assert(batch_rows(b) =~= output_rows(rows, schema));
        },
        _ => {},
    }
}

/// Batches that rows are written to show them.
proof fn lemma_output_batches(rows: Seq<Seq<ScalarView>>, schema: Seq<FieldView>)
    ensures
        output_batches(rows, schema) matches Outcome::Value(bs) ==> shows(
            Stream { batches: bs, end: End::Done },
            normal_fields(schema),
            output_rows(rows, schema),
        ),
    decreases rows.len(),
{
    let f = normal_fields(schema);
    if rows.len() == 0 {
        lemma_shows_nothing(End::Done, f, output_rows(rows, schema));
    } else {
        let n = chunk(rows.len()) as int;
        lemma_output_batch(rows.take(n), schema);
        lemma_output_batches(rows.skip(n), schema);
        match output_batches(rows, schema) {
            Outcome::Value(bs) => {
                let b = output_batch(rows.take(n), schema)->Value_0;
                let rest = output_batches(rows.skip(n), schema)->Value_0;
                let s = Stream { batches: rest, end: End::Done };
                assert(output_rows(rows, schema) =~= output_rows(rows.take(n), schema)
                    + output_rows(rows.skip(n), schema));
                crate::semantics::execution::lemma_shows_after(
                    b,
                    s,
                    f,
                    output_rows(rows, schema),
                    output_rows(rows.skip(n), schema),
                );
            },
            _ => {},
        }
    }
}

/// A constant that is not NULL leaves no NULL.
proof fn lemma_no_nulls(cells: Seq<Cell>)
    requires
        forall|i: int| 0 <= i < cells.len() ==> #[trigger] cells[i] != null_cell(),
    ensures
        null_count(cells) == 0,
    decreases cells.len(),
{
    if cells.len() > 0 {
        let rest = cells.drop_last();
        assert forall|i: int| 0 <= i < rest.len() implies #[trigger] rest[i] != null_cell() by {
            assert(rest[i] == cells[i]);
        }
        lemma_no_nulls(rest);
        assert(cells[cells.len() - 1] != null_cell());
    }
}

/// The aggregates of a whole table are those of its argument columns.
proof fn lemma_full_scalars(es: Seq<ExprView>, b: BatchView, totals: Seq<u64>)
    requires
        sound(b),
        totals.len() == es.len(),
    ensures
        full_scalars(es, b, totals) matches Outcome::Value(vals) ==> vals.len() == es.len()
            && forall|i: int|
            0 <= i < es.len() ==> #[trigger] vals[i] == total_value(
                agg_funcs(es)[i],
                argument_columns(es, b.fields, batch_rows(b))[i],
                totals[i],
            ),
    decreases es.len(),
{
    if es.len() > 0 {
        let t = totals.skip(1);
        lemma_full_scalars(es.skip(1), b, t);
        match full_scalars(es, b, totals) {
            Outcome::Value(vals) => {
                let rest = full_scalars(es.skip(1), b, t)->Value_0;
                let p = agg_parts(es[0])->Some_0;
                lemma_evaluated(p.1, b);
                if p.0 == AggFunc::Count && p.1 == ExprView::Wildcard {
                    let c = literal_column(ScalarView::Int64(1), b.rows);
                    lemma_no_nulls(c.cells);
                    assert(argument_column(es[0], b.fields, batch_rows(b)) == c);
                }
                assert forall|i: int| 0 <= i < es.len() implies #[trigger] vals[i] == total_value(
                    agg_funcs(es)[i],
                    argument_columns(es, b.fields, batch_rows(b))[i],
                    totals[i],
                ) by {
                    if i > 0 {
                        assert(t[i - 1] == totals[i]);
                        assert(es.skip(1)[i - 1] == es[i]);
                        assert(vals[i] == rest[i - 1]);
                    }
                }
            },
            _ => {},
        }
    }
}

/// One written row is shown.
proof fn lemma_written_shows(vals: Seq<ScalarView>, schema: Seq<FieldView>, b: BatchView)
    requires
        written(vals, schema) == Outcome::Value(b),
    ensures
        schema.len() <= vals.len(),
        shows(
            Stream { batches: seq![b], end: End::Done },
            normal_fields(schema),
            seq![output_row(vals, schema)],
        ),
{
    let filled = filled_fields(schema, vals.len());
    lemma_output_columns(seq![vals], filled, 0);
    let cols = output_columns(seq![vals], filled, 0)->Value_0;
    lemma_assembled(schema, cols, None, b);
    assert(filled =~= schema);
    assert(cols[0].cells.len() == 1);
    let row = output_row(vals, schema);
    assert(row_of(b, 0) =~= row) by {
        assert forall|c: int| 0 <= c < cols.len() implies row_of(b, 0)[c] == row[c] by {
            assert(cols[c].cells[0] == output_cell(
                seq![vals][0][0 + c],
                normal_type(filled[0 + c].data_type),
            ));
        }
    }
    assert(batch_rows(b) =~= seq![row]);
    lemma_one_shows(b, normal_fields(schema), seq![row]);
}

/// An aggregated stream shows the rows of the aggregation.
pub proof fn lemma_aggregate_shows(
    group_by: Seq<ExprView>,
    aggrs: Seq<ExprView>,
    schema: Seq<FieldView>,
    s: Stream,
    f: Seq<FieldView>,
    rows: Seq<Seq<Cell>>,
    totals: Seq<u64>,
)
    requires
        shows(s, f, rows),
        totals.len() == aggrs.len(),
    ensures
        shows(
            aggregate_stream(group_by, aggrs, schema, s, totals),
            normal_fields(schema),
            aggregate_rows(group_by, aggrs, schema, f, rows, totals),
        ),
{
    let g = normal_fields(schema);
    let want = aggregate_rows(group_by, aggrs, schema, f, rows, totals);
    let out = aggregate_stream(group_by, aggrs, schema, s, totals);
    match drained(s) {
        Outcome::Value(bs) => {
            if bs.len() == 0 {
                assert(rows =~= Seq::empty());
                if group_by.len() > 0 {
                    lemma_shows_nothing(End::Done, g, want);
                    assert(out == ends(End::Done));
                } else {
                    match blank_batch(aggrs, schema) {
                        Outcome::Value(b) => {
                            lemma_written_shows(blank_row(agg_funcs(aggrs), schema), schema, b);
                            assert(out.batches =~= seq![b]);
                        },
                        Outcome::Fault(x) => {
                            lemma_shows_nothing(End::Failed(x), g, want);
                        },
                        Outcome::Open => {
                            lemma_shows_nothing(End::Open, g, want);
                        },
                    }
                }
            } else {
                lemma_stacked_batch(bs, f);
                let all = stacked_batch(bs);
                match aggregated(bs, group_by, aggrs, schema, totals) {
                    Outcome::Value(xs) => {
                        if group_by.len() > 0 {
                            lemma_evaluated_all(group_by, all);
                            lemma_arg_columns(aggrs, all);
                            let keys = evaluated_all(group_by, all)->Value_0;
                            let args = arg_columns(aggrs, all)->Value_0;
                            let groups = gathered(keys, args, agg_funcs(aggrs), all.rows)->Value_0;
                            lemma_output_batches(group_rows(groups), schema);
                            assert(want =~= output_rows(group_rows(groups), schema));
                        } else {
                            lemma_full_scalars(aggrs, all, totals);
                            let vals = full_scalars(aggrs, all, totals)->Value_0;
                            let b = full_batch(aggrs, schema, all, totals)->Value_0;
                            lemma_written_shows(vals, schema, b);
                            assert(output_row(vals, schema) =~= want[0]) by {
                                assert forall|c: int| 0 <= c < schema.len() implies output_row(
                                    vals,
                                    schema,
                                )[c] == want[0][c] by {
                                    assert(vals[c] == total_value(
                                        agg_funcs(aggrs)[c],
                                        argument_columns(aggrs, f, rows)[c],
                                        totals[c],
                                    ));
                                }
                            }
                            assert(want =~= seq![output_row(vals, schema)]);
                            assert(xs =~= seq![b]);
                        }
                    },
                    Outcome::Fault(x) => {
                        lemma_shows_nothing(End::Failed(x), g, want);
                    },
                    Outcome::Open => {
                        lemma_shows_nothing(End::Open, g, want);
                    },
                }
            }
        },
        Outcome::Fault(x) => {
            lemma_shows_nothing(End::Failed(x), g, want);
        },
        Outcome::Open => {
            lemma_shows_nothing(End::Open, g, want);
        },
    }
}

} // verus!
