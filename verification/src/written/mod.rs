//! What a query says, read off its syntax tree: the value of a condition in a row of a table, and the
//! rows that FROM, WHERE, GROUP BY, ORDER BY and LIMIT ask for. Nothing here speaks of plans.

pub mod accepted;
pub mod aggregates;
pub mod conditions;
pub mod evaluation;
pub mod groups;
pub mod order;
pub mod queries;
pub mod row_groups;
pub mod selection;
pub mod tables;

use vstd::prelude::*;
use crate::executor::batch::{bool_cell, fits, null_cell, Cell};
use crate::float::{
    float_difference, float_of_text, float_product, float_quotient, float_sum, settled, total_place,
};
use crate::parser::ast::{OpView, SqlView, ValueView};
use crate::text::numeral;
use crate::types::{DataType, FieldView, ScalarView};

verus! {

/// Some field has the name.
pub open spec fn has_field(fields: Seq<FieldView>, name: Seq<char>) -> bool {
    exists|i: int| 0 <= i < fields.len() && (#[trigger] fields[i]).name == name
}

/// The field `i` is the first of the name.
pub open spec fn first_named(fields: Seq<FieldView>, name: Seq<char>, i: int) -> bool {
    &&& 0 <= i < fields.len()
    &&& fields[i].name == name
    &&& forall|j: int| 0 <= j < i ==> (#[trigger] fields[j]).name != name
}

/// The text is some qualifier, a dot and the name.
pub open spec fn qualifies(field: Seq<char>, name: Seq<char>) -> bool {
    exists|q: Seq<char>| field == #[trigger] (q + "."@) + name
}

/// The name as it is written means the field `i`: without a qualifier the field of that name, or else
/// one that has it under a qualifier; with a qualifier the field of the whole name, or else the one
/// of the bare name.
pub open spec fn names_field(e: SqlView, fields: Seq<FieldView>, i: int) -> bool {
    match e {
        SqlView::Identifier(name) => if has_field(fields, name) {
            first_named(fields, name, i)
        } else {
            0 <= i < fields.len() && qualifies(fields[i].name, name)
        },
        SqlView::Compound(parts) => if parts.len() != 2 {
            false
        } else if has_field(fields, parts[0] + "."@ + parts[1]) {
            first_named(fields, parts[0] + "."@ + parts[1], i)
        } else {
            first_named(fields, parts[1], i)
        },
        _ => false,
    }
}

/// The field that a name means.
pub open spec fn field_named(e: SqlView, fields: Seq<FieldView>) -> int {
    choose|i: int| names_field(e, fields, i)
}

/// The constant that a literal writes: a number is an integer where it is a numeral of 64 bits, else
/// a float.
pub open spec fn constant(v: ValueView) -> ScalarView {
    match v {
        ValueView::Number(s) => if numeral(s, true) matches Some(n) && i64::MIN <= n <= i64::MAX {
            ScalarView::Int64(numeral(s, true)->Some_0 as i64)
        } else {
            match float_of_text(s) {
                Some(f) => ScalarView::Float64(settled(f)),
                None => ScalarView::Null,
            }
        },
        ValueView::SingleQuoted(s) => ScalarView::Utf8(s),
        ValueView::DoubleQuoted(s) => ScalarView::Utf8(s),
        ValueView::Boolean(b) => ScalarView::Boolean(b),
        _ => ScalarView::Null,
    }
}

/// One text stands before another: it is the beginning of the other, or has the lesser character at
/// the first place in which they differ.
pub open spec fn text_before(a: Seq<char>, b: Seq<char>) -> bool {
    exists|k: int|
        0 <= k <= a.len() && k < b.len() && #[trigger] a.take(k) == b.take(k) && (k == a.len()
            || (a[k] as int) < b[k] as int)
}

/// One list of numbers stands before another, as texts do.
pub open spec fn list_before(a: Seq<int>, b: Seq<int>) -> bool {
    exists|k: int|
        0 <= k <= a.len() && k < b.len() && #[trigger] a.take(k) == b.take(k) && (k == a.len() || a[k]
            < b[k])
}

/// One value stands before another of its type.
pub open spec fn value_before(a: Cell, b: Cell) -> bool {
    match (a, b) {
        (Cell::Scalar(ScalarView::Int64(x)), Cell::Scalar(ScalarView::Int64(y))) => x < y,
        (Cell::Scalar(ScalarView::Float64(x)), Cell::Scalar(ScalarView::Float64(y))) => total_place(x)
            < total_place(y),
        (Cell::Scalar(ScalarView::Utf8(x)), Cell::Scalar(ScalarView::Utf8(y))) => text_before(x, y),
        (Cell::Scalar(ScalarView::Boolean(x)), Cell::Scalar(ScalarView::Boolean(y))) => !x && y,
        (Cell::Opaque(x), Cell::Opaque(y)) => list_before(x, y),
        _ => false,
    }
}

/// The operator compares two values.
pub open spec fn compares(op: OpView) -> bool {
    op is Eq || op is NotEq || op is Lt || op is Gt || op is LtEq || op is GtEq
}

/// The operator connects two truth values.
pub open spec fn connects(op: OpView) -> bool {
    op is And || op is Or
}

/// The operator computes a number.
pub open spec fn computes(op: OpView) -> bool {
    op is Plus || op is Minus || op is Multiply || op is Divide
}

/// A comparison of two values: NULL beside a NULL.
pub open spec fn comparison(op: OpView, a: Cell, b: Cell) -> Cell {
    if a == null_cell() || b == null_cell() {
        null_cell()
    } else {
        bool_cell(
            match op {
                OpView::Eq => a == b,
                OpView::NotEq => a != b,
                OpView::Lt => value_before(a, b),
                OpView::Gt => value_before(b, a),
                OpView::LtEq => !value_before(b, a),
                _ => !value_before(a, b),
            },
        )
    }
}

/// A connection of two truth values: NULL beside a NULL.
pub open spec fn connection(op: OpView, a: Cell, b: Cell) -> Cell {
    if a == null_cell() || b == null_cell() {
        null_cell()
    } else if op is And {
        bool_cell(a == bool_cell(true) && b == bool_cell(true))
    } else {
        bool_cell(a == bool_cell(true) || b == bool_cell(true))
    }
}

/// The integer `q` is `x` over `y`, without the part behind the point.
pub open spec fn cuts_to(x: int, y: int, q: int) -> bool {
    let r = x - q * y;
    &&& -(if y < 0 { -y } else { y }) < r < if y < 0 { -y } else { y }
    &&& x >= 0 ==> r >= 0
    &&& x <= 0 ==> r <= 0
}

/// What an operator makes of two integers.
pub open spec fn int_computed(op: OpView, x: int, y: int) -> int {
    match op {
        OpView::Plus => x + y,
        OpView::Minus => x - y,
        OpView::Multiply => x * y,
        _ => choose|q: int| #[trigger] cuts_to(x, y, q),
    }
}

/// What an operator makes of two floats.
pub open spec fn float_computed(op: OpView, x: u64, y: u64) -> u64 {
    settled(
        match op {
            OpView::Plus => float_sum(x, y),
            OpView::Minus => float_difference(x, y),
            OpView::Multiply => float_product(x, y),
            _ => float_quotient(x, y),
        },
    )
}

/// What an operator makes of two numbers of one type: NULL beside a NULL.
pub open spec fn computation(op: OpView, a: Cell, b: Cell) -> Cell {
    match (a, b) {
        (Cell::Scalar(ScalarView::Int64(x)), Cell::Scalar(ScalarView::Int64(y))) => Cell::Scalar(
            ScalarView::Int64(int_computed(op, x as int, y as int) as i64),
        ),
        (Cell::Scalar(ScalarView::Float64(x)), Cell::Scalar(ScalarView::Float64(y))) => Cell::Scalar(
            ScalarView::Float64(float_computed(op, x, y)),
        ),
        _ => null_cell(),
    }
}

/// The value of an expression in a row, as it is written.
pub open spec fn value_of(e: SqlView, fields: Seq<FieldView>, row: Seq<Cell>) -> Cell
    decreases e,
{
    match e {
        SqlView::Identifier(_) => row[field_named(e, fields)],
        SqlView::Compound(_) => row[field_named(e, fields)],
        SqlView::Value(v) => Cell::Scalar(constant(v)),
        SqlView::Binary { left, op, right } => {
            let a = value_of(*left, fields, row);
            let b = value_of(*right, fields, row);
            if connects(op) {
                connection(op, a, b)
            } else if computes(op) {
                computation(op, a, b)
            } else {
                comparison(op, a, b)
            }
        },
        SqlView::Nested(inner) => value_of(*inner, fields, row),
        _ => null_cell(),
    }
}

/// The type of an expression, if it is one of columns, literals and operators, each operator between
/// values of one type: comparisons of any, arithmetic of numbers, AND and OR of truth values.
pub open spec fn type_of(e: SqlView, fields: Seq<FieldView>) -> Option<DataType>
    decreases e,
{
    match e {
        SqlView::Identifier(_) => Some(fields[field_named(e, fields)].data_type),
        SqlView::Compound(_) => Some(fields[field_named(e, fields)].data_type),
        SqlView::Value(v) => match constant(v) {
            ScalarView::Int64(_) => Some(DataType::Int64),
            ScalarView::Float64(_) => Some(DataType::Float64),
            ScalarView::Utf8(_) => Some(DataType::Utf8),
            _ => Some(DataType::Boolean),
        },
        SqlView::Binary { left, op, right } => match (type_of(*left, fields), type_of(*right, fields)) {
            (Some(a), Some(b)) => if a != b {
                None
            } else if compares(op) {
                Some(DataType::Boolean)
            } else if connects(op) && a == DataType::Boolean {
                Some(DataType::Boolean)
            } else if computes(op) && (a == DataType::Int64 || a == DataType::Float64) {
                Some(a)
            } else {
                None
            },
            _ => None,
        },
        SqlView::Nested(inner) => type_of(*inner, fields),
        _ => None,
    }
}

/// No integer is divided by zero in the row.
pub open spec fn divides(e: SqlView, fields: Seq<FieldView>, row: Seq<Cell>) -> bool
    decreases e,
{
    match e {
        SqlView::Binary { left, op, right } => {
            &&& divides(*left, fields, row)
            &&& divides(*right, fields, row)
            &&& op is Divide ==> value_of(*right, fields, row) != Cell::Scalar(ScalarView::Int64(0))
        },
        SqlView::Nested(inner) => divides(*inner, fields, row),
        _ => true,
    }
}

/// Every cell of the row fits its field.
pub open spec fn row_fits(fields: Seq<FieldView>, row: Seq<Cell>) -> bool {
    &&& row.len() == fields.len()
    &&& forall|i: int| 0 <= i < row.len() ==> fits(fields[i].data_type, #[trigger] row[i])
}

/// The condition is TRUE in the row.
pub open spec fn is_true(e: SqlView, fields: Seq<FieldView>, row: Seq<Cell>) -> bool {
    value_of(e, fields, row) == bool_cell(true)
}

} // verus!
