//! Scalar/boolean expression evaluation over a single record batch.

use vstd::prelude::*;
use crate::error::{ArborError, ErrorView};
use crate::executor::batch::kernels::{applied, eval_binary_array};
use crate::executor::batch::{
    agrees, carried, carries, oversized, text_cell, too_much_text, well_typed, Batch, BatchView,
    Cell, Column, ColumnView, Fault, Outcome,
};
use crate::planner::logical_plan::{column_key, key_of, Expr, ExprView};
use crate::text::join2;
use crate::types::{names, position, DataType, FieldView, ScalarValue, ScalarView, Schema};

verus! {

/// The index of the column that a reference means: the field under its key, else, for a qualified
/// reference, the field under its bare name.
pub open spec fn column_at(
    fields: Seq<FieldView>,
    name: Seq<char>,
    relation: Option<Seq<char>>,
) -> Option<int> {
    match position(names(fields), key_of(name, relation)) {
        Some(i) => Some(i),
        None => if relation is Some { position(names(fields), name) } else { None },
    }
}

/// The error for a reference that no field answers.
pub open spec fn no_column(name: Seq<char>, relation: Option<Seq<char>>) -> ErrorView {
    ErrorView::Execution("column not in batch: "@ + key_of(name, relation))
}

/// The type of the column that a constant fills; NULL fills one of truth values.
pub open spec fn literal_type(s: ScalarView) -> DataType {
    match s {
        ScalarView::Int64(_) => DataType::Int64,
        ScalarView::Float64(_) => DataType::Float64,
        ScalarView::Utf8(_) => DataType::Utf8,
        _ => DataType::Boolean,
    }
}

/// A constant in every row.
pub open spec fn literal_column(s: ScalarView, rows: nat) -> ColumnView {
    ColumnView { data_type: literal_type(s), cells: Seq::new(rows, |i: int| Cell::Scalar(s)) }
}

/// How putting a constant in every row comes out.
pub open spec fn filled(s: ScalarView, rows: nat) -> Outcome<ColumnView> {
    if oversized(literal_type(s), literal_column(s, rows).cells) {
        Outcome::Fault(Fault::Said(too_much_text()))
    } else {
        Outcome::Value(literal_column(s, rows))
    }
}

/// A constant that is no text can be put in any number of rows.
pub proof fn lemma_filled(s: ScalarView, rows: nat)
    requires
        !(s is Utf8),
    ensures
        filled(s, rows) == Outcome::Value(literal_column(s, rows)),
{
}

/// How evaluating an expression for every row of a batch comes out.
pub open spec fn evaluated(e: ExprView, b: BatchView) -> Outcome<ColumnView>
    decreases e,
{
    match e {
        ExprView::Column { name, relation } => match column_at(b.fields, name, relation) {
            Some(i) => Outcome::Value(b.columns[i]),
            None => Outcome::Fault(Fault::Said(no_column(name, relation))),
        },
        ExprView::Literal(s) => filled(s, b.rows),
        ExprView::Binary { left, op, right } => match evaluated(*left, b) {
            Outcome::Value(l) => match evaluated(*right, b) {
                Outcome::Value(r) => applied(op, l, r),
                other => other,
            },
            other => other,
        },
        ExprView::Aggregate { .. } => Outcome::Fault(
            Fault::Said(
                ErrorView::Execution("aggregate expression not supported in row-wise eval"@),
            ),
        ),
        ExprView::Alias { expr, .. } => evaluated(*expr, b),
        ExprView::Wildcard => Outcome::Fault(
            Fault::Said(ErrorView::Execution("wildcard cannot be evaluated row-wise"@)),
        ),
    }
}

/// Resolves a logical column reference to a column index.
pub fn batch_column_index(schema: &Schema, name: &str, relation: Option<&String>) -> (r: Result<
    usize,
    ArborError,
>)
    ensures
        match r {
            Ok(i) => i < schema.fields.len() && column_at(
                schema@,
                name@,
                match relation {
                    Some(q) => Some(q@),
                    None => None,
                },
            ) == Some(i as int),
            Err(e) => column_at(
                schema@,
                name@,
                match relation {
                    Some(q) => Some(q@),
                    None => None,
                },
            ) is None && e@ == no_column(
                name@,
                match relation {
                    Some(q) => Some(q@),
                    None => None,
                },
            ),
        },
{
    let key = column_key(name, relation);
    match schema.field_by_name(key.as_str()) {
        Some((i, _)) => return Ok(i),
        None => {},
    }
    if relation.is_some() {
        match schema.field_by_name(name) {
            Some((i, _)) => return Ok(i),
            None => {},
        }
    }
    Err(ArborError::Execution(join2("column not in batch: ", key.as_str())))
}

/// A constant in every row, unless its text is more than a column can hold.
pub fn scalar_to_array(s: &ScalarValue, n: usize) -> (r: Result<Column, ArborError>)
    ensures
        agrees(r, filled(s@, n as nat)),
        r matches Ok(c) ==> c@.cells.len() == n && carries(c@.data_type) && well_typed(c@),
{
    proof {
        if !(s@ is Utf8) {
            lemma_filled(s@, n as nat);
        }
    }
    let r = match s {
        ScalarValue::Int64(v) => {
            let mut cells: Vec<Option<i64>> = Vec::new();
            let mut i: usize = 0;
            while i < n
                invariant
                    i <= n,
                    cells.len() == i,
                    forall|k: int| 0 <= k < i ==> #[trigger] cells@[k] == Some(*v),
                decreases n - i,
            {
                cells.push(Some(*v));
                i = i + 1;
            }
            Column::of_ints(cells)
        },
        ScalarValue::Float64(v) => {
            let mut cells: Vec<Option<u64>> = Vec::new();
            let mut i: usize = 0;
            while i < n
                invariant
                    i <= n,
                    cells.len() == i,
                    forall|k: int| 0 <= k < i ==> #[trigger] cells@[k] == Some(*v),
                decreases n - i,
            {
                cells.push(Some(*v));
                i = i + 1;
            }
            Column::of_floats(cells)
        },
        ScalarValue::Utf8(v) => {
            let mut cells: Vec<Option<String>> = Vec::new();
            let mut i: usize = 0;
            while i < n
                invariant
                    i <= n,
                    cells.len() == i,
                    forall|k: int| 0 <= k < i ==> #[trigger] cells@[k] == Some(*v),
                decreases n - i,
            {
                cells.push(Some(v.clone()));
                i = i + 1;
            }
            proof {
                assert(Seq::new(cells@.len(), |i: int| text_cell(cells@[i])) =~= literal_column(
                    s@,
                    n as nat,
                ).cells);
            }
            match Column::of_texts(cells) {
                Ok(c) => c,
                Err(e) => return Err(e),
            }
        },
        ScalarValue::Boolean(v) => {
            let mut cells: Vec<Option<bool>> = Vec::new();
            let mut i: usize = 0;
            while i < n
                invariant
                    i <= n,
                    cells.len() == i,
                    forall|k: int| 0 <= k < i ==> #[trigger] cells@[k] == Some(*v),
                decreases n - i,
            {
                cells.push(Some(*v));
                i = i + 1;
            }
            Column::of_truths(cells)
        },
        ScalarValue::Null => {
            let mut cells: Vec<Option<bool>> = Vec::new();
            let mut i: usize = 0;
            while i < n
                invariant
                    i <= n,
                    cells.len() == i,
                    forall|k: int| 0 <= k < i ==> #[trigger] cells@[k] is None,
                decreases n - i,
            {
                cells.push(None);
                i = i + 1;
            }
            Column::of_truths(cells)
        },
    };
    proof {
        assert(r@.cells =~= literal_column(s@, n as nat).cells);
    }
    Ok(r)
}

/// Evaluates `expr` for every row of `batch`, returning a new column.
pub fn evaluate_expr(expr: &Expr, batch: &Batch) -> (r: Result<Column, ArborError>)
    requires
        carried(batch@),
    ensures
        agrees(r, evaluated(expr@, batch@)),
        r matches Ok(c) ==> c@.cells.len() == batch@.rows && carries(c@.data_type) && well_typed(
            c@,
        ),
    decreases expr,
{
    match expr {
        Expr::Column { name, relation } => {
            let schema = batch.schema();
            match batch_column_index(&schema, name.as_str(), relation.as_ref()) {
                Ok(i) => {
                    proof {
                        assert(well_typed(batch@.columns[i as int]));
                        assert(carries(batch@.fields[i as int].data_type));
                    }
                    Ok(batch.column(i))
                },
                Err(e) => Err(e),
            }
        },
        Expr::Literal(s) => scalar_to_array(s, batch.num_rows()),
        Expr::BinaryExpr { left, op, right } => {
            let l = match evaluate_expr(left, batch) {
                Ok(c) => c,
                Err(e) => return Err(e),
            };
            let r = match evaluate_expr(right, batch) {
                Ok(c) => c,
                Err(e) => return Err(e),
            };
            eval_binary_array(&l, *op, &r)
        },
        Expr::AggregateFunc { .. } => Err(
            ArborError::Execution(
                "aggregate expression not supported in row-wise eval".to_string(),
            ),
        ),
        Expr::Alias { expr, .. } => evaluate_expr(expr, batch),
        Expr::Wildcard => Err(
            ArborError::Execution("wildcard cannot be evaluated row-wise".to_string()),
        ),
    }
}

} // verus!
