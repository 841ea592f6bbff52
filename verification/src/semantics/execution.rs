//! The operators compute what a plan means.

use vstd::prelude::*;
use crate::executor::batch::kernels::applied;
use crate::executor::batch::{
    assembled, bool_cell, first_rows, fits, masked, normal_fields, normal_type, sound, true_count,
    well_typed, BatchView, Cell, ColumnView, Outcome,
};
use crate::executor::expr_eval::{column_at, evaluated, literal_column};
use crate::executor::filter_exec::{filter_stream, kept_rows};
use crate::executor::limit_exec::limit_stream;
use crate::executor::projection::{evaluated_all, project_stream, projected};
use crate::executor::{ends, End, Stream};
use crate::planner::logical_plan::ExprView;
use crate::semantics::pushdown::{lemma_rows_where_concat, projection_fields};
use crate::semantics::{
    first_of, holds, projected_row, projected_rows, rows_where, value_column, value_columns,
    value_in,
};
use crate::types::{lemma_position, names, DataType, FieldView};

verus! {

/// One row of a batch.
pub open spec fn row_of(b: BatchView, i: int) -> Seq<Cell> {
    Seq::new(b.columns.len(), |c: int| b.columns[c].cells[i])
}

/// The rows of a batch.
pub open spec fn batch_rows(b: BatchView) -> Seq<Seq<Cell>> {
    Seq::new(b.rows, |i: int| row_of(b, i))
}

/// The rows of several batches, one after the other.
pub open spec fn flat_rows(bs: Seq<BatchView>) -> Seq<Seq<Cell>>
    decreases bs.len(),
{
    if bs.len() == 0 {
        Seq::empty()
    } else {
        flat_rows(bs.drop_last()) + batch_rows(bs.last())
    }
}

/// The rows of several batches, the first of them split off.
pub proof fn lemma_flat_rows_front(b: BatchView, bs: Seq<BatchView>)
    ensures
        flat_rows(seq![b] + bs) == batch_rows(b) + flat_rows(bs),
    decreases bs.len(),
{
    let all = seq![b] + bs;
    if bs.len() == 0 {
        assert(all =~= seq![b]);
        assert(seq![b].drop_last() =~= Seq::empty());
        assert(flat_rows(seq![b]) == flat_rows(seq![b].drop_last()) + batch_rows(b));
        assert(flat_rows(seq![b].drop_last()) + batch_rows(b) =~= batch_rows(b) + flat_rows(bs));
    } else {
        lemma_flat_rows_front(b, bs.drop_last());
        assert(all.drop_last() =~= seq![b] + bs.drop_last());
        assert(all.last() == bs.last());
        assert((batch_rows(b) + flat_rows(bs.drop_last())) + batch_rows(bs.last()) =~= batch_rows(b)
            + (flat_rows(bs.drop_last()) + batch_rows(bs.last())));
    }
}

/// A column that evaluation gives is the column of the expression's values.
pub proof fn lemma_evaluated(e: ExprView, b: BatchView)
    requires
        sound(b),
    ensures
        evaluated(e, b) matches Outcome::Value(c) ==> c == value_column(e, b.fields, batch_rows(b))
            && well_typed(c),
    decreases e,
{
    let rows = batch_rows(b);
    match e {
        ExprView::Column { name, relation } => match column_at(b.fields, name, relation) {
            Some(i) => {
                lemma_position(names(b.fields), crate::planner::logical_plan::key_of(name, relation));
                lemma_position(names(b.fields), name);
                assert(b.columns[i].cells.len() == b.rows);
                assert(b.columns[i].cells =~= value_column(e, b.fields, rows).cells);
            },
            None => {},
        },
        ExprView::Literal(s) => {
            assert(literal_column(s, b.rows).cells =~= value_column(e, b.fields, rows).cells);
        },
        ExprView::Binary { left, op, right } => {
            lemma_evaluated(*left, b);
            lemma_evaluated(*right, b);
            match (evaluated(*left, b), evaluated(*right, b)) {
                (Outcome::Value(l), Outcome::Value(r)) => {
                    match applied(op, l, r) {
                        Outcome::Value(c) => {
                            assert forall|i: int| 0 <= i < rows.len() implies c.cells[i]
                                == value_in(e, b.fields, rows[i]) && fits(c.data_type, c.cells[i]) by {
                                assert(l.cells[i] == value_in(*left, b.fields, rows[i]));
                                assert(r.cells[i] == value_in(*right, b.fields, rows[i]));
                                assert(fits(l.data_type, l.cells[i]));
                                assert(fits(r.data_type, r.cells[i]));
                            }
                            assert(c.cells =~= value_column(e, b.fields, rows).cells);
                        },
                        _ => {},
                    }
                },
                _ => {},
            }
        },
        ExprView::Alias { expr, .. } => {
            lemma_evaluated(*expr, b);
            if evaluated(*expr, b) is Value {
                assert(value_column(*expr, b.fields, rows).cells =~= value_column(
                    e,
                    b.fields,
                    rows,
                ).cells);
            }
        },
        _ => {},
    }
}

/// Columns that evaluation gives are the columns of the expressions' values.
pub proof fn lemma_evaluated_all(es: Seq<ExprView>, b: BatchView)
    requires
        sound(b),
    ensures
        evaluated_all(es, b) matches Outcome::Value(cs) ==> cs == value_columns(
            es,
            b.fields,
            batch_rows(b),
        ) && forall|i: int| 0 <= i < cs.len() ==> well_typed(#[trigger] cs[i]),
    decreases es.len(),
{
    if es.len() == 0 {
        assert(value_columns(es, b.fields, batch_rows(b)) =~= Seq::empty());
    } else {
        lemma_evaluated(es[0], b);
        lemma_evaluated_all(es.skip(1), b);
        match evaluated_all(es, b) {
            Outcome::Value(cs) => {
                let rest = evaluated_all(es.skip(1), b)->Value_0;
                assert(value_columns(es, b.fields, batch_rows(b)) =~= cs) by {
                    assert forall|i: int| 0 <= i < es.len() implies value_columns(
                        es,
                        b.fields,
                        batch_rows(b),
                    )[i] == cs[i] by {
                        if i > 0 {
                            assert(es.skip(1)[i - 1] == es[i]);
                            assert(rest[i - 1] == cs[i]);
                        }
                    }
                }
                assert forall|i: int| 0 <= i < cs.len() implies well_typed(#[trigger] cs[i]) by {
                    if i > 0 {
                        assert(rest[i - 1] == cs[i]);
                    }
                }
            },
            _ => {},
        }
    }
}

/// The rows that a mask marks TRUE are the rows in which the predicate holds.
proof fn lemma_masked_rows(
    e: ExprView,
    f: Seq<FieldView>,
    rows: Seq<Seq<Cell>>,
    mask: Seq<Cell>,
)
    requires
        rows.len() == mask.len(),
        forall|i: int|
            0 <= i < rows.len() ==> (#[trigger] mask[i] == bool_cell(true)) == holds(e, f, rows[i]),
    ensures
        rows_where(e, f, rows).len() == true_count(mask),
    decreases rows.len(),
{
    if rows.len() > 0 {
        let rest = rows.drop_last();
        let m = mask.drop_last();
        assert forall|i: int| 0 <= i < rest.len() implies (#[trigger] m[i] == bool_cell(true))
            == holds(e, f, rest[i]) by {
            assert(m[i] == mask[i]);
        }
        lemma_masked_rows(e, f, rest, m);
        assert((mask[rows.len() - 1] == bool_cell(true)) == holds(e, f, rows[rows.len() - 1]));
    }
}

/// One column of the rows that a mask marks TRUE.
proof fn lemma_masked_cells(
    e: ExprView,
    f: Seq<FieldView>,
    rows: Seq<Seq<Cell>>,
    mask: Seq<Cell>,
    cells: Seq<Cell>,
    c: int,
)
    requires
        rows.len() == mask.len(),
        cells.len() == rows.len(),
        forall|i: int|
            0 <= i < rows.len() ==> (#[trigger] mask[i] == bool_cell(true)) == holds(e, f, rows[i]),
        forall|i: int| 0 <= i < rows.len() ==> #[trigger] cells[i] == rows[i][c],
    ensures
        masked(cells, mask).len() == rows_where(e, f, rows).len(),
        forall|i: int|
            0 <= i < masked(cells, mask).len() ==> #[trigger] masked(cells, mask)[i] == rows_where(
                e,
                f,
                rows,
            )[i][c],
    decreases rows.len(),
{
    if rows.len() > 0 {
        let rest = rows.drop_last();
        let m = mask.drop_last();
        let cs = cells.drop_last();
        assert forall|i: int| 0 <= i < rest.len() implies (#[trigger] m[i] == bool_cell(true))
            == holds(e, f, rest[i]) by {
            assert(m[i] == mask[i]);
        }
        assert forall|i: int| 0 <= i < rest.len() implies #[trigger] cs[i] == rest[i][c] by {
            assert(cs[i] == cells[i]);
        }
        lemma_masked_cells(e, f, rest, m, cs, c);
        let n = rows.len() - 1;
        assert((mask[n] == bool_cell(true)) == holds(e, f, rows[n]));
        assert(cells[n] == rows[n][c]);
    }
}

/// A masked column keeps its type.
proof fn lemma_masked_typed(t: DataType, cells: Seq<Cell>, mask: Seq<Cell>)
    requires
        forall|i: int| 0 <= i < cells.len() ==> fits(t, #[trigger] cells[i]),
    ensures
        forall|i: int|
            0 <= i < masked(cells, mask).len() ==> fits(t, #[trigger] masked(cells, mask)[i]),
    decreases cells.len(),
{
    if cells.len() > 0 && mask.len() > 0 {
        let cs = cells.drop_last();
        assert forall|i: int| 0 <= i < cs.len() implies fits(t, #[trigger] cs[i]) by {
            assert(cs[i] == cells[i]);
        }
        lemma_masked_typed(t, cs, mask.drop_last());
        assert(fits(t, cells[cells.len() - 1]));
        let a = masked(cs, mask.drop_last());
        assert forall|i: int| 0 <= i < masked(cells, mask).len() implies fits(
            t,
            #[trigger] masked(cells, mask)[i],
        ) by {
            if i < a.len() {
                assert(masked(cells, mask)[i] == a[i]);
            }
        }
    }
}

/// Filtering a batch keeps the rows in which the predicate holds.
pub proof fn lemma_kept_rows(predicate: ExprView, b: BatchView)
    requires
        sound(b),
    ensures
        kept_rows(predicate, b) matches Outcome::Value(x) ==> sound(x) && x.fields == b.fields
            && batch_rows(x) == rows_where(predicate, b.fields, batch_rows(b)),
{
    lemma_evaluated(predicate, b);
    let rows = batch_rows(b);
    match kept_rows(predicate, b) {
        Outcome::Value(x) => {
            let mask = evaluated(predicate, b)->Value_0;
            assert forall|i: int| 0 <= i < rows.len() implies (#[trigger] mask.cells[i] == bool_cell(
                true,
            )) == holds(predicate, b.fields, rows[i]) by {
                assert(fits(mask.data_type, mask.cells[i]));
            }
            lemma_masked_rows(predicate, b.fields, rows, mask.cells);
            let want = rows_where(predicate, b.fields, rows);
            assert forall|c: int| 0 <= c < b.columns.len() implies {
                &&& (#[trigger] x.columns[c]).cells.len() == x.rows
                &&& well_typed(x.columns[c])
                &&& forall|i: int|
                    0 <= i < x.rows ==> #[trigger] x.columns[c].cells[i] == want[i][c]
            } by {
                let cells = b.columns[c].cells;
                assert(cells.len() == b.rows);
                assert(well_typed(b.columns[c]));
                lemma_masked_cells(predicate, b.fields, rows, mask.cells, cells, c);
                lemma_masked_typed(b.columns[c].data_type, cells, mask.cells);
            }
            crate::semantics::values::lemma_rows_where_within(predicate, b.fields, rows);
            assert forall|i: int| 0 <= i < x.rows implies batch_rows(x)[i] == want[i] by {
                assert(rows.contains(want[i]));
                let k = choose|k: int| 0 <= k < rows.len() && rows[k] == want[i];
                assert(want[i].len() == b.columns.len());
                assert(row_of(x, i) =~= want[i]) by {
                    assert forall|c: int| 0 <= c < b.columns.len() implies row_of(x, i)[c]
                        == want[i][c] by {
                        assert(x.columns[c].cells[i] == want[i][c]);
                    }
                }
            }
            assert(batch_rows(x) =~= want);
        },
        _ => {},
    }
}

/// The batch is sound, has these fields and has rows.
pub open spec fn good(b: BatchView, f: Seq<FieldView>) -> bool {
    sound(b) && b.fields == f && b.rows > 0
}

/// The rows begin with these.
pub open spec fn begins_with(rows: Seq<Seq<Cell>>, first: Seq<Seq<Cell>>) -> bool {
    first.len() <= rows.len() && rows.take(first.len() as int) == first
}

/// The batches of the stream hold the first of the rows, with these fields; all of them, where the
/// stream is done.
pub open spec fn shows(s: Stream, f: Seq<FieldView>, rows: Seq<Seq<Cell>>) -> bool {
    &&& forall|i: int| 0 <= i < s.batches.len() ==> good(#[trigger] s.batches[i], f)
    &&& begins_with(rows, flat_rows(s.batches))
    &&& s.end is Done ==> flat_rows(s.batches) == rows
}

/// A stream that shows rows shows them batch by batch.
pub proof fn lemma_shows_front(s: Stream, f: Seq<FieldView>, rows: Seq<Seq<Cell>>)
    requires
        shows(s, f, rows),
        s.batches.len() > 0,
    ensures
        good(s.batches[0], f),
        s.batches[0].rows <= rows.len(),
        rows.take(s.batches[0].rows as int) == batch_rows(s.batches[0]),
        rows == batch_rows(s.batches[0]) + rows.skip(s.batches[0].rows as int),
        shows(s.rest(), f, rows.skip(s.batches[0].rows as int)),
{
    let b = s.batches[0];
    let rest = s.rest();
    assert(s.batches =~= seq![b] + rest.batches);
    lemma_flat_rows_front(b, rest.batches);
    let flat = flat_rows(s.batches);
    let tail = rows.skip(b.rows as int);
    assert(rows.take(b.rows as int) =~= flat.take(b.rows as int));
    assert(flat.take(b.rows as int) =~= batch_rows(b));
    assert(flat_rows(rest.batches) =~= flat.skip(b.rows as int));
    assert(tail.take(flat_rows(rest.batches).len() as int) =~= rows.take(flat.len() as int).skip(
        b.rows as int,
    ));
    assert(rows =~= batch_rows(b) + tail);
    assert forall|i: int| 0 <= i < rest.batches.len() implies good(#[trigger] rest.batches[i], f) by {
        assert(rest.batches[i] == s.batches[i + 1]);
    }
    if s.end is Done {
        assert(flat_rows(rest.batches) =~= tail);
    }
}

/// A batch of the first rows before a stream of the others shows all of them.
pub proof fn lemma_shows_after(
    b: BatchView,
    s: Stream,
    f: Seq<FieldView>,
    rows: Seq<Seq<Cell>>,
    tail: Seq<Seq<Cell>>,
)
    requires
        good(b, f),
        shows(s, f, tail),
        rows == batch_rows(b) + tail,
    ensures
        shows(s.after(b), f, rows),
{
    let all = s.after(b);
    lemma_flat_rows_front(b, s.batches);
    let flat = flat_rows(s.batches);
    assert(rows.take(flat_rows(all.batches).len() as int) =~= batch_rows(b) + tail.take(
        flat.len() as int,
    ));
    assert forall|i: int| 0 <= i < all.batches.len() implies good(#[trigger] all.batches[i], f) by {
        if i > 0 {
            assert(all.batches[i] == s.batches[i - 1]);
        }
    }
}

/// A stream that stops at once, unless it is done, shows the first of any rows.
pub proof fn lemma_shows_nothing(end: End, f: Seq<FieldView>, rows: Seq<Seq<Cell>>)
    requires
        end is Done ==> rows.len() == 0,
    ensures
        shows(ends(end), f, rows),
{
    assert(flat_rows(ends(end).batches) =~= Seq::empty());
    assert(rows.take(0) =~= Seq::empty());
    if end is Done {
        assert(rows =~= Seq::empty());
    }
}

/// A filtered stream shows the rows in which the predicate holds.
pub proof fn lemma_filter_shows(
    predicate: ExprView,
    s: Stream,
    f: Seq<FieldView>,
    rows: Seq<Seq<Cell>>,
)
    requires
        shows(s, f, rows),
    ensures
        shows(filter_stream(predicate, s), f, rows_where(predicate, f, rows)),
    decreases s.batches.len(),
{
    if s.batches.len() == 0 {
        assert(flat_rows(s.batches) =~= Seq::empty());
        lemma_shows_nothing(s.end, f, rows_where(predicate, f, rows));
    } else {
        lemma_shows_front(s, f, rows);
        let b = s.batches[0];
        let tail = rows.skip(b.rows as int);
        lemma_filter_shows(predicate, s.rest(), f, tail);
        lemma_rows_where_concat(predicate, f, batch_rows(b), tail);
        lemma_kept_rows(predicate, b);
        match kept_rows(predicate, b) {
            Outcome::Value(x) => {
                if x.rows == 0 {
                    assert(batch_rows(x) =~= Seq::empty());
                    assert(rows_where(predicate, f, rows) =~= rows_where(predicate, f, tail));
                } else {
                    lemma_shows_after(
                        x,
                        filter_stream(predicate, s.rest()),
                        f,
                        rows_where(predicate, f, rows),
                        rows_where(predicate, f, tail),
                    );
                }
            },
            other => {
                match other {
                    Outcome::Fault(x) => {
                        lemma_shows_nothing(End::Failed(x), f, rows_where(predicate, f, rows));
                    },
                    _ => {
                        lemma_shows_nothing(End::Open, f, rows_where(predicate, f, rows));
                    },
                }
            },
        }
    }
}

/// A limited stream shows the first rows.
pub proof fn lemma_limit_shows(n: nat, s: Stream, f: Seq<FieldView>, rows: Seq<Seq<Cell>>)
    requires
        shows(s, f, rows),
    ensures
        shows(limit_stream(n, s), f, first_of(rows, n)),
    decreases s.batches.len(),
{
    if n == 0 {
        lemma_shows_nothing(End::Done, f, first_of(rows, n));
    } else if s.batches.len() == 0 {
        assert(flat_rows(s.batches) =~= Seq::empty());
        lemma_shows_nothing(s.end, f, first_of(rows, n));
    } else {
        lemma_shows_front(s, f, rows);
        let b = s.batches[0];
        let tail = rows.skip(b.rows as int);
        if b.rows <= n {
            let left = (n - b.rows) as nat;
            lemma_limit_shows(left, s.rest(), f, tail);
            assert(first_of(rows, n) =~= batch_rows(b) + first_of(tail, left));
            lemma_shows_after(
                b,
                limit_stream(left, s.rest()),
                f,
                first_of(rows, n),
                first_of(tail, left),
            );
        } else {
            let x = first_rows(b, n);
            assert forall|c: int| 0 <= c < x.columns.len() implies {
                &&& (#[trigger] x.columns[c]).cells.len() == x.rows
                &&& x.columns[c].data_type == x.fields[c].data_type
                &&& well_typed(x.columns[c])
            } by {
                assert(b.columns[c].cells.len() == b.rows);
                assert(well_typed(b.columns[c]));
                assert forall|i: int| 0 <= i < x.columns[c].cells.len() implies fits(
                    x.columns[c].data_type,
                    #[trigger] x.columns[c].cells[i],
                ) by {
                    assert(x.columns[c].cells[i] == b.columns[c].cells[i]);
                }
            }
            assert forall|i: int| 0 <= i < n implies batch_rows(x)[i] == rows[i] by {
                assert(batch_rows(b)[i] == rows.take(b.rows as int)[i]);
                assert(row_of(x, i) =~= row_of(b, i)) by {
                    assert forall|c: int| 0 <= c < b.columns.len() implies row_of(x, i)[c]
                        == row_of(b, i)[c] by {
                        assert(b.columns[c].cells.len() == b.rows);
                    }
                }
            }
            assert(first_of(rows, n) =~= batch_rows(x) + Seq::<Seq<Cell>>::empty());
            lemma_shows_nothing(End::Done, f, Seq::empty());
            lemma_shows_after(x, ends(End::Done), f, first_of(rows, n), Seq::empty());
        }
    }
}

/// A batch put together from columns is sound, and its rows are those of the columns.
pub proof fn lemma_assembled(
    fields: Seq<FieldView>,
    columns: Seq<ColumnView>,
    rows: Option<nat>,
    x: BatchView,
)
    requires
        assembled(fields, columns, rows) == Some(x),
        forall|i: int| 0 <= i < columns.len() ==> well_typed(#[trigger] columns[i]),
    ensures
        sound(x),
        x.columns == columns,
        x.fields == normal_fields(fields),
        fields.len() == columns.len(),
        rows matches Some(n) ==> x.rows == n,
        forall|i: int| 0 <= i < columns.len() ==> (#[trigger] columns[i]).cells.len() == x.rows
            && columns[i].data_type == normal_type(fields[i].data_type),
{
}

/// Projecting a batch projects its rows.
pub proof fn lemma_projected(
    exprs: Seq<ExprView>,
    schema: Seq<FieldView>,
    b: BatchView,
)
    requires
        sound(b),
    ensures
        projected(exprs, schema, b) matches Outcome::Value(x) ==> sound(x) && exprs.len()
            == schema.len() && x.rows == b.rows && x.fields == projection_fields(
            exprs,
            schema,
            b.fields,
        ) && batch_rows(x) == projected_rows(exprs, b.fields, batch_rows(b)),
{
    lemma_evaluated_all(exprs, b);
    match projected(exprs, schema, b) {
        Outcome::Value(x) => {
            let columns = evaluated_all(exprs, b)->Value_0;
            let rows = batch_rows(b);
            lemma_assembled(schema, columns, None, x);
            assert(columns[0].cells.len() == b.rows);
            assert(x.fields =~= projection_fields(exprs, schema, b.fields)) by {
                assert forall|i: int| 0 <= i < schema.len() implies x.fields[i]
                    == projection_fields(exprs, schema, b.fields)[i] by {
                    assert(columns[i].data_type == normal_type(schema[i].data_type));
                }
            }
            assert forall|i: int| 0 <= i < b.rows implies batch_rows(x)[i] == projected_rows(
                exprs,
                b.fields,
                rows,
            )[i] by {
                assert(row_of(x, i) =~= projected_row(exprs, b.fields, rows[i])) by {
                    assert forall|c: int| 0 <= c < columns.len() implies row_of(x, i)[c]
                        == projected_row(exprs, b.fields, rows[i])[c] by {
                        assert(columns[c] == value_column(exprs[c], b.fields, rows));
                    }
                }
            }
            assert(batch_rows(x) =~= projected_rows(exprs, b.fields, rows));
        },
        _ => {},
    }
}

/// A projected stream shows the projected rows.
pub proof fn lemma_project_shows(
    exprs: Seq<ExprView>,
    schema: Seq<FieldView>,
    s: Stream,
    f: Seq<FieldView>,
    rows: Seq<Seq<Cell>>,
)
    requires
        shows(s, f, rows),
    ensures
        shows(
            project_stream(exprs, schema, s),
            projection_fields(exprs, schema, f),
            projected_rows(exprs, f, rows),
        ),
    decreases s.batches.len(),
{
    let g = projection_fields(exprs, schema, f);
    let out = projected_rows(exprs, f, rows);
    if s.batches.len() == 0 {
        assert(flat_rows(s.batches) =~= Seq::empty());
        lemma_shows_nothing(s.end, g, out);
    } else {
        lemma_shows_front(s, f, rows);
        let b = s.batches[0];
        let tail = rows.skip(b.rows as int);
        lemma_project_shows(exprs, schema, s.rest(), f, tail);
        lemma_projected(exprs, schema, b);
        match projected(exprs, schema, b) {
            Outcome::Value(x) => {
                assert(out =~= batch_rows(x) + projected_rows(exprs, f, tail)) by {
                    assert forall|i: int| 0 <= i < out.len() implies out[i] == (batch_rows(x)
                        + projected_rows(exprs, f, tail))[i] by {
                        if i < b.rows {
                            assert(rows.take(b.rows as int)[i] == rows[i]);
                        } else {
                            assert(tail[i - b.rows] == rows[i]);
                        }
                    }
                }
                lemma_shows_after(
                    x,
                    project_stream(exprs, schema, s.rest()),
                    g,
                    out,
                    projected_rows(exprs, f, tail),
                );
            },
            Outcome::Fault(x) => {
                lemma_shows_nothing(End::Failed(x), g, out);
            },
            Outcome::Open => {
                lemma_shows_nothing(End::Open, g, out);
            },
        }
    }
}

} // verus!
