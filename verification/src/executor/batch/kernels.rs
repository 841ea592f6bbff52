//! Arrow's compute kernels on columns.

use vstd::prelude::*;
use vstd::utf8::decode_utf8;
use std::sync::Arc;
use arrow::array::AsArray;
use arrow::array::UInt64Array;
use arrow::compute::kernels::sort::SortColumn;
use arrow::compute::kernels::sort::SortOptions;
use arrow::datatypes::DataType as ArrowType;
use arrow::datatypes::Float64Type;
use arrow::datatypes::Int64Type;
use arrow::error::ArrowError;
use crate::executor::batch::{
    agrees, bool_cell, carries, execution_error, fits, float_cell, form_of, is_basic, null_cell,
    oversized, type_form, well_typed, Cell, Column, ColumnView, Fault, Outcome, TypeForm,
};
use crate::executor::batch::ordering::{
    in_order, is_permutation, lemma_last_key, lemma_more_keys, lemma_one_order, lemma_rows_in_order,
    row_order, rows_in_order, tells_apart,
};
use crate::error::{ArborError, ErrorView};
use crate::executor::sums::is_sum;
use crate::float::{is_zero, same_float, settle, settled, total_place};
use crate::optimizer::constant_folding::{float_result, int_defined, int_result, is_arithmetic};
use crate::order::{bool_order, int_order, list_order, text_order, Order};
use crate::planner::logical_plan::BinaryOp;
use crate::types::{views, DataType, ScalarValue, ScalarView};

verus! {

/// How two values of a column compare: floats in IEEE 754's total order, values that are only
/// carried along by their numbers, NULL with nothing.
pub open spec fn value_order(a: Cell, b: Cell) -> Option<Order> {
    match (a, b) {
        (Cell::Scalar(ScalarView::Int64(x)), Cell::Scalar(ScalarView::Int64(y))) => Some(
            int_order(x as int, y as int),
        ),
        (Cell::Scalar(ScalarView::Float64(x)), Cell::Scalar(ScalarView::Float64(y))) => Some(
            int_order(total_place(x), total_place(y)),
        ),
        (Cell::Scalar(ScalarView::Utf8(x)), Cell::Scalar(ScalarView::Utf8(y))) => Some(
            text_order(x, y),
        ),
        (Cell::Scalar(ScalarView::Boolean(x)), Cell::Scalar(ScalarView::Boolean(y))) => Some(
            bool_order(x, y),
        ),
        (Cell::Opaque(x), Cell::Opaque(y)) => Some(list_order(x, y)),
        _ => None,
    }
}

/// The comparison holds between values that stand so.
pub open spec fn order_meets(op: BinaryOp, o: Order) -> bool {
    match op {
        BinaryOp::Eq => o == Order::Equal,
        BinaryOp::Neq => o != Order::Equal,
        BinaryOp::Lt => o == Order::Less,
        BinaryOp::Gt => o == Order::Greater,
        BinaryOp::LtEq => o != Order::Greater,
        BinaryOp::GtEq => o != Order::Less,
        _ => false,
    }
}

/// What comparing two cells gives: NULL where one of them is NULL.
pub open spec fn compared_cell(op: BinaryOp, a: Cell, b: Cell) -> Cell {
    match value_order(a, b) {
        Some(o) => bool_cell(order_meets(op, o)),
        None => null_cell(),
    }
}

/// How comparing two columns comes out.
pub open spec fn compared(op: BinaryOp, l: ColumnView, r: ColumnView) -> Outcome<ColumnView> {
    if l.cells.len() != r.cells.len() || l.data_type != r.data_type {
        Outcome::Fault(Fault::Arrow)
    } else {
        Outcome::Value(
            ColumnView {
                data_type: DataType::Boolean,
                cells: Seq::new(
                    l.cells.len(),
                    |i: int| compared_cell(op, l.cells[i], r.cells[i]),
                ),
            },
        )
    }
}

/// The kernel's result is the one of the outcome.
pub open spec fn kernel_agrees(r: Result<Column, ArrowError>, o: Outcome<ColumnView>) -> bool {
    match o {
        Outcome::Value(v) => r matches Ok(c) && c@ == v,
        Outcome::Fault(_) => r is Err,
        Outcome::Open => true,
    }
}

/// What every kernel's column is: as long as its input, of a carried type, and well typed.
pub open spec fn kernel_column(r: Result<Column, ArrowError>, input: ColumnView) -> bool {
    match r {
        Ok(c) => c@.cells.len() == input.cells.len() && carries(c@.data_type) && well_typed(c@),
        Err(_) => true,
    }
}

/// `cmp::eq`: compares row by row, if the types are equal; floats by their bits.
#[verifier::external_body]
fn kernel_eq(l: &Column, r: &Column) -> (x: Result<Column, ArrowError>)
    requires
        carries(l@.data_type),
        carries(r@.data_type),
    ensures
        kernel_agrees(x, compared(BinaryOp::Eq, l@, r@)),
        kernel_column(x, l@),
        x matches Ok(c) ==> c@.data_type == DataType::Boolean,
{
    arrow::compute::kernels::cmp::eq(&l.inner, &r.inner).map(|a| Column { inner: Arc::new(a) })
}

/// `cmp::neq`: compares row by row, if the types are equal; floats by their bits.
#[verifier::external_body]
fn kernel_neq(l: &Column, r: &Column) -> (x: Result<Column, ArrowError>)
    requires
        carries(l@.data_type),
        carries(r@.data_type),
    ensures
        kernel_agrees(x, compared(BinaryOp::Neq, l@, r@)),
        kernel_column(x, l@),
        x matches Ok(c) ==> c@.data_type == DataType::Boolean,
{
    arrow::compute::kernels::cmp::neq(&l.inner, &r.inner).map(|a| Column { inner: Arc::new(a) })
}

/// `cmp::lt`: compares row by row, if the types are equal; floats in the total order.
#[verifier::external_body]
fn kernel_lt(l: &Column, r: &Column) -> (x: Result<Column, ArrowError>)
    requires
        carries(l@.data_type),
        carries(r@.data_type),
    ensures
        kernel_agrees(x, compared(BinaryOp::Lt, l@, r@)),
        kernel_column(x, l@),
        x matches Ok(c) ==> c@.data_type == DataType::Boolean,
{
    arrow::compute::kernels::cmp::lt(&l.inner, &r.inner).map(|a| Column { inner: Arc::new(a) })
}

/// `cmp::gt`: compares row by row, if the types are equal; floats in the total order.
#[verifier::external_body]
fn kernel_gt(l: &Column, r: &Column) -> (x: Result<Column, ArrowError>)
    requires
        carries(l@.data_type),
        carries(r@.data_type),
    ensures
        kernel_agrees(x, compared(BinaryOp::Gt, l@, r@)),
        kernel_column(x, l@),
        x matches Ok(c) ==> c@.data_type == DataType::Boolean,
{
    arrow::compute::kernels::cmp::gt(&l.inner, &r.inner).map(|a| Column { inner: Arc::new(a) })
}

/// `cmp::lt_eq`: compares row by row, if the types are equal; floats in the total order.
#[verifier::external_body]
fn kernel_lt_eq(l: &Column, r: &Column) -> (x: Result<Column, ArrowError>)
    requires
        carries(l@.data_type),
        carries(r@.data_type),
    ensures
        kernel_agrees(x, compared(BinaryOp::LtEq, l@, r@)),
        kernel_column(x, l@),
        x matches Ok(c) ==> c@.data_type == DataType::Boolean,
{
    arrow::compute::kernels::cmp::lt_eq(&l.inner, &r.inner).map(|a| Column { inner: Arc::new(a) })
}

/// `cmp::gt_eq`: compares row by row, if the types are equal; floats in the total order.
#[verifier::external_body]
fn kernel_gt_eq(l: &Column, r: &Column) -> (x: Result<Column, ArrowError>)
    requires
        carries(l@.data_type),
        carries(r@.data_type),
    ensures
        kernel_agrees(x, compared(BinaryOp::GtEq, l@, r@)),
        kernel_column(x, l@),
        x matches Ok(c) ==> c@.data_type == DataType::Boolean,
{
    arrow::compute::kernels::cmp::gt_eq(&l.inner, &r.inner).map(|a| Column { inner: Arc::new(a) })
}

/// The character is white space.
pub open spec fn is_blank(c: char) -> bool {
    let n = c as u32;
    ||| 0x9 <= n <= 0xd
    ||| n == 0x20
    ||| n == 0x85
    ||| n == 0xa0
    ||| n == 0x1680
    ||| 0x2000 <= n <= 0x200a
    ||| n == 0x2028
    ||| n == 0x2029
    ||| n == 0x202f
    ||| n == 0x205f
    ||| n == 0x3000
}

/// The text without white space at its ends.
pub open spec fn trimmed(s: Seq<char>) -> Seq<char>
    decreases s.len(),
{
    if s.len() == 0 {
        s
    } else if is_blank(s[0]) {
        trimmed(s.skip(1))
    } else if is_blank(s.last()) {
        trimmed(s.drop_last())
    } else {
        s
    }
}

/// The text with small letters for the capitals from A to Z.
pub open spec fn lowered(s: Seq<char>) -> Seq<char> {
    Seq::new(s.len(), |i: int| if 'A' <= s[i] <= 'Z' { (s[i] as u32 + 32) as char } else { s[i] })
}

/// The truth value that a text is cast to, whatever its letters' case and the space around it;
/// nothing where it names none.
pub open spec fn text_truth(s: Seq<char>) -> Option<bool> {
    let w = trimmed(lowered(s));
    if w == "t"@ || w == "tr"@ || w == "tru"@ || w == "true"@ || w == "y"@ || w == "ye"@ || w
        == "yes"@ || w == "on"@ || w == "1"@ {
        Some(true)
    } else if w == "f"@ || w == "fa"@ || w == "fal"@ || w == "fals"@ || w == "false"@ || w == "n"@
        || w == "no"@ || w == "of"@ || w == "off"@ || w == "0"@ {
        Some(false)
    } else {
        None
    }
}

/// A cell as a truth value: a number that is not zero is TRUE.
pub open spec fn truth_of(c: Cell) -> Cell {
    match c {
        Cell::Scalar(ScalarView::Int64(v)) => bool_cell(v != 0),
        Cell::Scalar(ScalarView::Float64(v)) => bool_cell(!is_zero(v)),
        Cell::Scalar(ScalarView::Utf8(s)) => match text_truth(s) {
            Some(b) => bool_cell(b),
            None => null_cell(),
        },
        _ => c,
    }
}

/// The variant of a type that is one of Arrow's.
pub open spec fn carried_form(t: DataType) -> TypeForm {
    match t {
        DataType::Other(a) => form_of(a),
        _ => TypeForm::Unlisted,
    }
}

/// The least and the greatest value of an integer type that is one of Arrow's.
pub open spec fn int_range(t: DataType) -> Option<(int, int)> {
    match carried_form(t) {
        TypeForm::Int8 => Some((-0x80, 0x7f)),
        TypeForm::Int16 => Some((-0x8000, 0x7fff)),
        TypeForm::Int32 => Some((-0x8000_0000, 0x7fff_ffff)),
        TypeForm::UInt8 => Some((0, 0xff)),
        TypeForm::UInt16 => Some((0, 0xffff)),
        TypeForm::UInt32 => Some((0, 0xffff_ffff)),
        TypeForm::UInt64 => Some((0, 0xffff_ffff_ffff_ffff)),
        _ => None,
    }
}

/// Values of a type that is only carried along can be cast to truth values: numbers, and texts with
/// 64-bit offsets.
pub open spec fn casts_to_truth(t: DataType) -> bool {
    ||| int_range(t) is Some
    ||| carried_form(t) == TypeForm::Float16
    ||| carried_form(t) == TypeForm::Float32
    ||| carried_form(t) == TypeForm::LargeUtf8
}

/// The text that some bytes encode.
pub open spec fn encoded_text(bytes: Seq<int>) -> Seq<char> {
    decode_utf8(Seq::new(bytes.len(), |i: int| bytes[i] as u8))
}

/// A cell of this type as a truth value.
pub open spec fn truth_in(t: DataType, c: Cell) -> Cell {
    match c {
        Cell::Opaque(x) => if carried_form(t) == TypeForm::LargeUtf8 {
            truth_of(Cell::Scalar(ScalarView::Utf8(encoded_text(x))))
        } else if int_range(t) is Some {
            bool_cell(x[0] != 0)
        } else {
            bool_cell(x[0] != 0 && x[0] != -1)
        },
        _ => truth_of(c),
    }
}

/// How casting a column to truth values comes out.
pub open spec fn truths(c: ColumnView) -> Outcome<ColumnView> {
    if is_basic(c.data_type) || casts_to_truth(c.data_type) {
        Outcome::Value(
            ColumnView {
                data_type: DataType::Boolean,
                cells: Seq::new(c.cells.len(), |i: int| truth_in(c.data_type, c.cells[i])),
            },
        )
    } else {
        Outcome::Fault(Fault::Arrow)
    }
}

/// `cast` to booleans: numbers by whether they are zero, texts, trimmed and with small letters, by the
/// words for true and false and what begins them, any other text becoming NULL. It fails on values
/// of any other type.
#[verifier::external_body]
fn kernel_cast_boolean(c: &Column) -> (x: Result<Column, ArrowError>)
    requires
        carries(c@.data_type),
    ensures
        kernel_agrees(x, truths(c@)),
        kernel_column(x, c@),
        x matches Ok(y) ==> y@.data_type == DataType::Boolean,
{
    arrow::compute::kernels::cast::cast(&c.inner, &ArrowType::Boolean).map(|a| Column { inner: a })
}

/// The conjunction (or disjunction) of two cells: NULL where one of them is NULL.
pub open spec fn connected_cell(op: BinaryOp, a: Cell, b: Cell) -> Cell {
    match (a, b) {
        (Cell::Scalar(ScalarView::Boolean(x)), Cell::Scalar(ScalarView::Boolean(y))) => if op
            == BinaryOp::And {
            bool_cell(x && y)
        } else {
            bool_cell(x || y)
        },
        _ => null_cell(),
    }
}

/// The conjunction (or disjunction) of two columns of truth values.
pub open spec fn connected(op: BinaryOp, l: ColumnView, r: ColumnView) -> ColumnView {
    ColumnView {
        data_type: DataType::Boolean,
        cells: Seq::new(l.cells.len(), |i: int| connected_cell(op, l.cells[i], r.cells[i])),
    }
}

/// `boolean::and`: row by row, NULL where one side is NULL; fails on columns of different length.
#[verifier::external_body]
fn kernel_and(l: &Column, r: &Column) -> (x: Result<Column, ArrowError>)
    requires
        l@.data_type == DataType::Boolean,
        r@.data_type == DataType::Boolean,
    ensures
        match x {
            Ok(c) => l@.cells.len() == r@.cells.len() && c@ == connected(BinaryOp::And, l@, r@),
            Err(_) => l@.cells.len() != r@.cells.len(),
        },
{
    arrow::compute::kernels::boolean::and(l.inner.as_boolean(), r.inner.as_boolean())
        .map(|a| Column { inner: Arc::new(a) })
}

/// `boolean::or`: row by row, NULL where one side is NULL; fails on columns of different length.
#[verifier::external_body]
fn kernel_or(l: &Column, r: &Column) -> (x: Result<Column, ArrowError>)
    requires
        l@.data_type == DataType::Boolean,
        r@.data_type == DataType::Boolean,
    ensures
        match x {
            Ok(c) => l@.cells.len() == r@.cells.len() && c@ == connected(BinaryOp::Or, l@, r@),
            Err(_) => l@.cells.len() != r@.cells.len(),
        },
{
    arrow::compute::kernels::boolean::or(l.inner.as_boolean(), r.inner.as_boolean())
        .map(|a| Column { inner: Arc::new(a) })
}

/// What an arithmetic operator makes of two cells.
pub open spec fn computed_cell(op: BinaryOp, a: Cell, b: Cell) -> Cell {
    match (a, b) {
        (Cell::Scalar(ScalarView::Int64(x)), Cell::Scalar(ScalarView::Int64(y))) => Cell::Scalar(
            ScalarView::Int64(int_result(op, x as int, y as int) as i64),
        ),
        (Cell::Scalar(ScalarView::Float64(x)), Cell::Scalar(ScalarView::Float64(y))) => Cell::Scalar(
            ScalarView::Float64(settled(float_result(op, x, y))),
        ),
        _ => null_cell(),
    }
}

/// The operator has no 64-bit result on these two integers.
pub open spec fn undefined_at(op: BinaryOp, a: Cell, b: Cell) -> bool {
    match (a, b) {
        (Cell::Scalar(ScalarView::Int64(x)), Cell::Scalar(ScalarView::Int64(y))) => !int_defined(
            op,
            x,
            y,
        ),
        _ => false,
    }
}

/// The type and the value of the sum of two values of these types, if it has one.
pub uninterp spec fn carried_sum(lt: DataType, a: Cell, rt: DataType, b: Cell) -> Option<
    (DataType, Cell),
>;

/// The type and the value of the difference of two values of these types, if it has one.
pub uninterp spec fn carried_difference(lt: DataType, a: Cell, rt: DataType, b: Cell) -> Option<
    (DataType, Cell),
>;

/// The type and the value of the product of two values of these types, if it has one.
pub uninterp spec fn carried_product(lt: DataType, a: Cell, rt: DataType, b: Cell) -> Option<
    (DataType, Cell),
>;

/// The type and the value of the quotient of two values of these types, if it has one.
pub uninterp spec fn carried_quotient(lt: DataType, a: Cell, rt: DataType, b: Cell) -> Option<
    (DataType, Cell),
>;

/// What an arithmetic operator makes of two integers of a type with this range.
pub open spec fn ranged_result(op: BinaryOp, range: (int, int), x: int, y: int) -> Option<int> {
    if (op == BinaryOp::Div && y == 0) || !(range.0 <= int_result(op, x, y) <= range.1) {
        None
    } else {
        Some(int_result(op, x, y))
    }
}

/// The type and the value of what an arithmetic operator makes of two values of types that are only
/// carried along, if there is one.
pub open spec fn carried_result(
    op: BinaryOp,
    lt: DataType,
    a: Cell,
    rt: DataType,
    b: Cell,
) -> Option<(DataType, Cell)> {
    match int_range(lt) {
        Some(range) => match (a, b) {
            (Cell::Opaque(x), Cell::Opaque(y)) => match ranged_result(op, range, x[0], y[0]) {
                Some(n) => Some((lt, Cell::Opaque(seq![n]))),
                None => None,
            },
            _ => Some((lt, null_cell())),
        },
        None => match op {
            BinaryOp::Plus => carried_sum(lt, a, rt, b),
            BinaryOp::Minus => carried_difference(lt, a, rt, b),
            BinaryOp::Mul => carried_product(lt, a, rt, b),
            _ => carried_quotient(lt, a, rt, b),
        },
    }
}

/// The type of what an arithmetic operator makes of values of types that are only carried along.
pub open spec fn carried_type(op: BinaryOp, lt: DataType, rt: DataType) -> DataType {
    match carried_result(op, lt, null_cell(), rt, null_cell()) {
        Some(x) => x.0,
        None => lt,
    }
}

/// What an arithmetic operator makes of two values of types that are only carried along.
pub open spec fn carried_cell(op: BinaryOp, lt: DataType, a: Cell, rt: DataType, b: Cell) -> Cell {
    match carried_result(op, lt, a, rt, b) {
        Some(x) => x.1,
        None => null_cell(),
    }
}

/// Arithmetic may be defined on types of which one is only carried along: on integers of one type,
/// on times, and on decimals.
pub open spec fn combines(lt: DataType, rt: DataType) -> bool {
    let (l, r) = (carried_form(lt), carried_form(rt));
    match l {
        TypeForm::Duration | TypeForm::Interval => r == l || r == TypeForm::Timestamp,
        TypeForm::Timestamp => r == l || r == TypeForm::Duration || r == TypeForm::Interval,
        TypeForm::Date32 | TypeForm::Date64 => r == l,
        TypeForm::Decimal128(..) => r is Decimal128,
        TypeForm::Decimal256(..) => r is Decimal256,
        _ => int_range(lt) is Some && r == l,
    }
}

/// Arithmetic on the types goes by the names of its results: they are times or decimals.
pub open spec fn goes_by_name(lt: DataType, rt: DataType) -> bool {
    combines(lt, rt) && int_range(lt) is None
}

/// Floats of one type that has fewer than 64 bits.
pub open spec fn small_floats(lt: DataType, rt: DataType) -> bool {
    let l = carried_form(lt);
    (l == TypeForm::Float16 || l == TypeForm::Float32) && carried_form(rt) == l
}

/// What an arithmetic operator makes of two columns of types that are only carried along.
pub open spec fn carried_column(op: BinaryOp, l: ColumnView, r: ColumnView) -> ColumnView {
    ColumnView {
        data_type: carried_type(op, l.data_type, r.data_type),
        cells: Seq::new(
            l.cells.len(),
            |i: int| carried_cell(op, l.data_type, l.cells[i], r.data_type, r.cells[i]),
        ),
    }
}

/// Some pair of values, or the types as such, have no result.
pub open spec fn carried_fails(op: BinaryOp, l: ColumnView, r: ColumnView) -> bool {
    ||| carried_result(op, l.data_type, null_cell(), r.data_type, null_cell()) is None
    ||| exists|i: int|
        0 <= i < l.cells.len() && carried_result(
            op,
            l.data_type,
            #[trigger] l.cells[i],
            r.data_type,
            r.cells[i],
        ) is None
}

/// How arithmetic on two columns comes out, one of them of a type that is only carried along. It is
/// open for floats of fewer than 64 bits, among which the NaN that comes out is the machine's.
pub open spec fn carried_outcome(op: BinaryOp, l: ColumnView, r: ColumnView) -> Outcome<ColumnView> {
    let c = carried_column(op, l, r);
    if small_floats(l.data_type, r.data_type) {
        Outcome::Open
    } else if !combines(l.data_type, r.data_type) || l.cells.len() != r.cells.len() {
        Outcome::Fault(Fault::Arrow)
    } else if carried_fails(op, l, r) {
        Outcome::Fault(Fault::Arrow)
    } else if c.data_type is Other && well_typed(c) {
        Outcome::Value(c)
    } else {
        Outcome::Open
    }
}

/// How arithmetic on two columns comes out.
pub open spec fn computed(op: BinaryOp, l: ColumnView, r: ColumnView) -> Outcome<ColumnView> {
    if !is_basic(l.data_type) || !is_basic(r.data_type) {
        carried_outcome(op, l, r)
    } else if l.data_type != r.data_type || (l.data_type != DataType::Int64 && l.data_type
        != DataType::Float64) {
        Outcome::Fault(Fault::Arrow)
    } else if l.cells.len() != r.cells.len() {
        Outcome::Fault(Fault::Arrow)
    } else if l.data_type == DataType::Int64 && exists|i: int|
        0 <= i < l.cells.len() && undefined_at(op, #[trigger] l.cells[i], r.cells[i]) {
        Outcome::Fault(Fault::Arrow)
    } else {
        Outcome::Value(
            ColumnView {
                data_type: l.data_type,
                cells: Seq::new(
                    l.cells.len(),
                    |i: int| computed_cell(op, l.cells[i], r.cells[i]),
                ),
            },
        )
    }
}

/// The cells are equal, or both hold a NaN.
pub open spec fn like_cell(a: Cell, b: Cell) -> bool {
    a == b || match (a, b) {
        (Cell::Scalar(ScalarView::Float64(x)), Cell::Scalar(ScalarView::Float64(y))) => same_float(
            x,
            y,
        ),
        _ => false,
    }
}

/// Two columns of floats of one length.
pub open spec fn float_pair(l: ColumnView, r: ColumnView) -> bool {
    &&& l.data_type == DataType::Float64
    &&& r.data_type == DataType::Float64
    &&& l.cells.len() == r.cells.len()
}

/// The column holds what the operator makes of two columns of floats, but for which NaN it is.
pub open spec fn computes_floats(op: BinaryOp, l: ColumnView, r: ColumnView, c: ColumnView) -> bool {
    &&& c.data_type == DataType::Float64
    &&& c.cells.len() == l.cells.len()
    &&& forall|i: int|
        0 <= i < l.cells.len() ==> like_cell(
            #[trigger] c.cells[i],
            computed_cell(op, l.cells[i], r.cells[i]),
        )
}

/// Values of the type shift dates and times by the calendar.
pub open spec fn is_interval(t: DataType) -> bool {
    carried_form(t) == TypeForm::Interval
}

/// Values of the type are dates.
pub open spec fn is_date(t: DataType) -> bool {
    carried_form(t) == TypeForm::Date32 || carried_form(t) == TypeForm::Date64
}

/// The type is no decimal type whose precision or scale is out of bounds.
pub open spec fn decimal_in_bounds(t: DataType) -> bool {
    match carried_form(t) {
        TypeForm::Decimal128(p, s) => 1 <= p <= 38 && -38 <= s <= 38,
        TypeForm::Decimal256(p, s) => 1 <= p <= 76 && -50 <= s <= 76,
        _ => true,
    }
}

/// Arithmetic on the types is refused with an error or carried out, for all values. It is not where
/// a date is shifted by the calendar, which can leave the calendar's range.
pub open spec fn calculable(l: DataType, r: DataType) -> bool {
    &&& carries(l)
    &&& carries(r)
    &&& decimal_in_bounds(l)
    &&& decimal_in_bounds(r)
    &&& !(is_interval(l) && is_date(r))
    &&& !(is_date(l) && is_interval(r))
}

/// `numeric::add`: row by row, NULL where one side is NULL; fails on overflow and on types that do not
/// go together. On times and decimals, what it makes of two values goes by a name.
#[verifier::external_body]
fn kernel_plus(l: &Column, r: &Column) -> (x: Result<Column, ArrowError>)
    requires
        calculable(l@.data_type, r@.data_type),
    ensures
        !float_pair(l@, r@) ==> kernel_agrees(x, computed(BinaryOp::Plus, l@, r@)),
        kernel_column(x, l@),
        x is Ok && goes_by_name(l@.data_type, r@.data_type) ==> forall|i: int|
            0 <= i < l@.cells.len() ==> carried_sum(
                l@.data_type,
                #[trigger] l@.cells[i],
                r@.data_type,
                r@.cells[i],
            ) == Some((x->Ok_0@.data_type, x->Ok_0@.cells[i])),
        float_pair(l@, r@) ==> match x {
            Ok(c) => computes_floats(BinaryOp::Plus, l@, r@, c@),
            Err(_) => false,
        },
{
    arrow::compute::kernels::numeric::add(&l.inner, &r.inner).map(|a| Column { inner: a })
}

/// `numeric::sub`: row by row, NULL where one side is NULL; fails on overflow and on types that do not
/// go together. On times and decimals, what it makes of two values goes by a name.
#[verifier::external_body]
fn kernel_minus(l: &Column, r: &Column) -> (x: Result<Column, ArrowError>)
    requires
        calculable(l@.data_type, r@.data_type),
    ensures
        !float_pair(l@, r@) ==> kernel_agrees(x, computed(BinaryOp::Minus, l@, r@)),
        kernel_column(x, l@),
        x is Ok && goes_by_name(l@.data_type, r@.data_type) ==> forall|i: int|
            0 <= i < l@.cells.len() ==> carried_difference(
                l@.data_type,
                #[trigger] l@.cells[i],
                r@.data_type,
                r@.cells[i],
            ) == Some((x->Ok_0@.data_type, x->Ok_0@.cells[i])),
        float_pair(l@, r@) ==> match x {
            Ok(c) => computes_floats(BinaryOp::Minus, l@, r@, c@),
            Err(_) => false,
        },
{
    arrow::compute::kernels::numeric::sub(&l.inner, &r.inner).map(|a| Column { inner: a })
}

/// `numeric::mul`: row by row, NULL where one side is NULL; fails on overflow and on types that do not
/// go together. On times and decimals, what it makes of two values goes by a name.
#[verifier::external_body]
fn kernel_times(l: &Column, r: &Column) -> (x: Result<Column, ArrowError>)
    requires
        calculable(l@.data_type, r@.data_type),
    ensures
        !float_pair(l@, r@) ==> kernel_agrees(x, computed(BinaryOp::Mul, l@, r@)),
        kernel_column(x, l@),
        x is Ok && goes_by_name(l@.data_type, r@.data_type) ==> forall|i: int|
            0 <= i < l@.cells.len() ==> carried_product(
                l@.data_type,
                #[trigger] l@.cells[i],
                r@.data_type,
                r@.cells[i],
            ) == Some((x->Ok_0@.data_type, x->Ok_0@.cells[i])),
        float_pair(l@, r@) ==> match x {
            Ok(c) => computes_floats(BinaryOp::Mul, l@, r@, c@),
            Err(_) => false,
        },
{
    arrow::compute::kernels::numeric::mul(&l.inner, &r.inner).map(|a| Column { inner: a })
}

/// `numeric::div`: row by row, NULL where one side is NULL; fails on overflow, on an integer divided by
/// zero and on types that do not go together. On decimals, what it makes of two values goes by a name.
#[verifier::external_body]
fn kernel_over(l: &Column, r: &Column) -> (x: Result<Column, ArrowError>)
    requires
        calculable(l@.data_type, r@.data_type),
    ensures
        !float_pair(l@, r@) ==> kernel_agrees(x, computed(BinaryOp::Div, l@, r@)),
        kernel_column(x, l@),
        x is Ok && goes_by_name(l@.data_type, r@.data_type) ==> forall|i: int|
            0 <= i < l@.cells.len() ==> carried_quotient(
                l@.data_type,
                #[trigger] l@.cells[i],
                r@.data_type,
                r@.cells[i],
            ) == Some((x->Ok_0@.data_type, x->Ok_0@.cells[i])),
        float_pair(l@, r@) ==> match x {
            Ok(c) => computes_floats(BinaryOp::Div, l@, r@, c@),
            Err(_) => false,
        },
{
    arrow::compute::kernels::numeric::div(&l.inner, &r.inner).map(|a| Column { inner: a })
}

/// The variant of a type that is one of Arrow's.
fn other_form(t: &DataType) -> (r: TypeForm)
    ensures
        r == carried_form(*t),
{
    match t {
        DataType::Other(a) => type_form(a),
        _ => TypeForm::Unlisted,
    }
}

/// Whether the type is no decimal type whose precision or scale is out of bounds.
fn is_decimal_in_bounds(t: &DataType) -> (r: bool)
    ensures
        r == decimal_in_bounds(*t),
{
    match other_form(t) {
        TypeForm::Decimal128(p, s) => 1 <= p && p <= 38 && -38 <= s && s <= 38,
        TypeForm::Decimal256(p, s) => 1 <= p && p <= 76 && -50 <= s && s <= 76,
        _ => true,
    }
}

/// Whether values of the type shift dates and times by the calendar.
fn shifts(t: &DataType) -> (r: bool)
    ensures
        r == is_interval(*t),
{
    matches!(other_form(t), TypeForm::Interval)
}

/// Whether values of the type are dates.
fn is_dated(t: &DataType) -> (r: bool)
    ensures
        r == is_date(*t),
{
    matches!(other_form(t), TypeForm::Date32 | TypeForm::Date64)
}

/// Whether arithmetic on the types is refused with an error or carried out, for all values.
fn is_calculable(l: &DataType, r: &DataType) -> (x: bool)
    requires
        carries(*l),
        carries(*r),
    ensures
        x == calculable(*l, *r),
{
    is_decimal_in_bounds(l) && is_decimal_in_bounds(r) && !(shifts(l) && is_dated(r)) && !(is_dated(
        l,
    ) && shifts(r))
}

/// The cell, with one NaN for any NaN.
pub open spec fn settled_cell(c: Cell) -> Cell {
    match c {
        Cell::Scalar(ScalarView::Float64(x)) => Cell::Scalar(ScalarView::Float64(settled(x))),
        _ => c,
    }
}

/// Puts one NaN for any NaN in a column of floats.
fn settle_floats(c: &Column) -> (r: Column)
    requires
        c@.data_type == DataType::Float64,
        well_typed(c@),
    ensures
        r@ == (ColumnView {
            data_type: DataType::Float64,
            cells: Seq::new(c@.cells.len(), |i: int| settled_cell(c@.cells[i])),
        }),
{
    let n: usize = c.len();
    let mut out: Vec<Option<u64>> = Vec::new();
    let mut i: usize = 0;
    while i < n
        invariant
            i <= n,
            n == c@.cells.len(),
            c@.data_type == DataType::Float64,
            well_typed(c@),
            out.len() == i,
            forall|k: int| 0 <= k < i ==> float_cell(#[trigger] out[k]) == settled_cell(c@.cells[k]),
        decreases n - i,
    {
        proof {
            assert(fits(DataType::Float64, c@.cells[i as int]));
        }
        let v: Option<u64> = match c.scalar(i) {
            Some(ScalarValue::Float64(x)) => Some(settle(x)),
            _ => None,
        };
        out.push(v);
        i = i + 1;
    }
    let r = Column::of_floats(out);
    proof {
        assert(r@.cells =~= Seq::new(c@.cells.len(), |i: int| settled_cell(c@.cells[i])));
    }
    r
}

/// How connecting two columns by AND or OR comes out.
pub open spec fn logical(op: BinaryOp, l: ColumnView, r: ColumnView) -> Outcome<ColumnView> {
    match truths(l) {
        Outcome::Value(a) => match truths(r) {
            Outcome::Value(b) => if a.cells.len() == b.cells.len() {
                Outcome::Value(connected(op, a, b))
            } else {
                Outcome::Fault(Fault::Arrow)
            },
            other => other,
        },
        other => other,
    }
}

/// How arithmetic on two columns comes out, in the engine.
pub open spec fn arithmetic(op: BinaryOp, l: ColumnView, r: ColumnView) -> Outcome<ColumnView> {
    if !calculable(l.data_type, r.data_type) {
        Outcome::Fault(
            Fault::Said(ErrorView::Execution("arithmetic on this type is not supported"@)),
        )
    } else {
        computed(op, l, r)
    }
}

/// How applying an operator to two columns comes out.
pub open spec fn applied(op: BinaryOp, l: ColumnView, r: ColumnView) -> Outcome<ColumnView> {
    if op == BinaryOp::And || op == BinaryOp::Or {
        logical(op, l, r)
    } else if is_arithmetic(op) {
        arithmetic(op, l, r)
    } else {
        compared(op, l, r)
    }
}

/// The column of a result, or Arrow's error as an error of the engine.
fn settled_column(x: Result<Column, ArrowError>, Ghost(o): Ghost<Outcome<ColumnView>>) -> (y: Result<
    Column,
    ArborError,
>)
    requires
        kernel_agrees(x, o),
        o matches Outcome::Fault(f) ==> f is Arrow,
    ensures
        agrees(y, o),
        y is Ok <==> x is Ok,
        y is Ok ==> x->Ok_0 == y->Ok_0,
{
    match x {
        Ok(c) => Ok(c),
        Err(e) => Err(execution_error(e)),
    }
}

/// Casts a column to truth values.
fn as_truths(c: &Column) -> (r: Result<Column, ArborError>)
    requires
        carries(c@.data_type),
    ensures
        agrees(r, truths(c@)),
        r matches Ok(x) ==> x@.data_type == DataType::Boolean && x@.cells.len() == c@.cells.len(),
{
    settled_column(kernel_cast_boolean(c), Ghost(truths(c@)))
}

/// Connects two columns by AND or OR, after casting them to truth values.
fn connect(op: BinaryOp, l: &Column, r: &Column) -> (x: Result<Column, ArborError>)
    requires
        op == BinaryOp::And || op == BinaryOp::Or,
        carries(l@.data_type),
        carries(r@.data_type),
    ensures
        agrees(x, logical(op, l@, r@)),
        x matches Ok(c) ==> c@.data_type == DataType::Boolean && c@.cells.len() == l@.cells.len()
            && well_typed(c@),
{
    let a = match as_truths(l) {
        Ok(a) => a,
        Err(e) => return Err(e),
    };
    let b = match as_truths(r) {
        Ok(b) => b,
        Err(e) => return Err(e),
    };
    let x = match op {
        BinaryOp::And => kernel_and(&a, &b),
        _ => kernel_or(&a, &b),
    };
    match x {
        Ok(c) => Ok(c),
        Err(e) => Err(execution_error(e)),
    }
}

/// Applies a binary operator to two columns, row by row.
pub fn eval_binary_array(left: &Column, op: BinaryOp, right: &Column) -> (r: Result<
    Column,
    ArborError,
>)
    requires
        carries(left@.data_type),
        carries(right@.data_type),
    ensures
        agrees(r, applied(op, left@, right@)),
        r matches Ok(c) ==> c@.cells.len() == left@.cells.len() && carries(c@.data_type)
            && well_typed(c@),
{
    match op {
        BinaryOp::Eq => settled_column(kernel_eq(left, right), Ghost(applied(op, left@, right@))),
        BinaryOp::Neq => settled_column(kernel_neq(left, right), Ghost(applied(op, left@, right@))),
        BinaryOp::Lt => settled_column(kernel_lt(left, right), Ghost(applied(op, left@, right@))),
        BinaryOp::Gt => settled_column(kernel_gt(left, right), Ghost(applied(op, left@, right@))),
        BinaryOp::LtEq => settled_column(
            kernel_lt_eq(left, right),
            Ghost(applied(op, left@, right@)),
        ),
        BinaryOp::GtEq => settled_column(
            kernel_gt_eq(left, right),
            Ghost(applied(op, left@, right@)),
        ),
        BinaryOp::And => connect(op, left, right),
        BinaryOp::Or => connect(op, left, right),
        _ => {
            if !is_calculable(&left.data_type(), &right.data_type()) {
                return Err(
                    ArborError::Execution("arithmetic on this type is not supported".to_string()),
                );
            }
            let x = match op {
                BinaryOp::Plus => kernel_plus(left, right),
                BinaryOp::Minus => kernel_minus(left, right),
                BinaryOp::Mul => kernel_times(left, right),
                _ => kernel_over(left, right),
            };
            match x {
                Ok(c) => match c.data_type() {
                    DataType::Float64 => {
                        let y = settle_floats(&c);
                        proof {
                            if float_pair(left@, right@) {
                                assert(y@.cells =~= Seq::new(
                                    left@.cells.len(),
                                    |i: int| computed_cell(op, left@.cells[i], right@.cells[i]),
                                )) by {
                                    assert forall|i: int| 0 <= i < left@.cells.len() implies (
                                    #[trigger] y@.cells[i]) == computed_cell(
                                        op,
                                        left@.cells[i],
                                        right@.cells[i],
                                    ) by {
                                        assert(like_cell(
                                            c@.cells[i],
                                            computed_cell(op, left@.cells[i], right@.cells[i]),
                                        ));
                                    }
                                }
                            }
                            assert forall|i: int| 0 <= i < y@.cells.len() implies fits(
                                y@.data_type,
                                #[trigger] y@.cells[i],
                            ) by {
                                assert(fits(c@.data_type, c@.cells[i]));
                            }
                        }
                        Ok(y)
                    },
                    _ => Ok(c),
                },
                Err(e) => Err(execution_error(e)),
            }
        },
    }
}

/// The cells at some rows, in the order given.
pub open spec fn picked(cells: Seq<Cell>, rows: Seq<usize>) -> Seq<Cell> {
    Seq::new(rows.len(), |i: int| cells[rows[i] as int])
}

/// `take`: the values at some rows, in the order given. It fails where bytes or texts are repeated
/// to more than 32-bit offsets reach.
#[verifier::external_body]
fn kernel_take(c: &Column, rows: &Vec<usize>) -> (x: Result<Column, ArrowError>)
    requires
        carries(c@.data_type),
        forall|i: int| 0 <= i < rows@.len() ==> #[trigger] rows@[i] < c@.cells.len(),
    ensures
        match x {
            Ok(y) => y@ == (ColumnView {
                data_type: c@.data_type,
                cells: picked(c@.cells, rows@),
            }) && !oversized(y@.data_type, y@.cells),
            Err(_) => !rows@.no_duplicates() && oversized(
                c@.data_type,
                picked(c@.cells, rows@),
            ),
        },
{
    let indices = UInt64Array::from_iter_values(rows.iter().map(|r| *r as u64));
    arrow::compute::take(&c.inner, &indices, None).map(|a| Column { inner: a })
}

/// A sort key: a column, and whether it is sorted from the last value to the first.
pub struct SortKey {
    /// The values.
    pub column: Column,
    /// Whether the order is reversed. NULLs come last either way.
    pub descending: bool,
}

/// The value of a [`SortKey`].
pub struct SortKeyView {
    pub column: ColumnView,
    pub descending: bool,
}

impl View for SortKey {
    type V = SortKeyView;

    open spec fn view(&self) -> SortKeyView {
        SortKeyView { column: self.column@, descending: self.descending }
    }
}

/// Every key has as many values as the first, all of a type that has an order.
pub open spec fn sortable(keys: Seq<SortKeyView>) -> bool {
    &&& keys.len() > 0
    &&& forall|i: int|
        0 <= i < keys.len() ==> {
            &&& (#[trigger] keys[i]).column.cells.len() == keys[0].column.cells.len()
            &&& keys[i].column.data_type != DataType::Null
            &&& well_typed(keys[i].column)
        }
}

/// Some key is a column of the NULL type, which has no order.
pub open spec fn unordered(keys: Seq<SortKeyView>) -> bool {
    exists|i: int| 0 <= i < keys.len() && (#[trigger] keys[i]).column.data_type == DataType::Null
}

/// `lexsort_to_indices`, here with NULLs last: the rows in sorted order. In which order rows come that
/// no key tells apart is its own choice. It fails without keys, and where one of several is a
/// column of the NULL type.
#[verifier::external_body]
fn kernel_sort(keys: &Vec<SortKey>, nulls_first: bool) -> (x: Result<Vec<usize>, ArrowError>)
    requires
        !nulls_first,
        forall|i: int|
            0 <= i < keys@.len() ==> carries((#[trigger] keys@[i]).column@.data_type)
                && keys@[i].column@.cells.len() == keys@[0].column@.cells.len(),
        keys@.len() > 0 ==> keys@[0].column@.cells.len() <= u32::MAX,
    ensures
        sortable(views(keys@)) ==> x is Ok,
        keys@.len() > 1 && unordered(views(keys@)) ==> x is Err,
        match x {
            Ok(rows) => keys@.len() > 0 && is_permutation(
                rows@,
                keys@[0].column@.cells.len(),
            ) && (sortable(views(keys@)) ==> in_order(views(keys@), rows@)),
            Err(_) => true,
        },
{
    let column = |k: &SortKey| {
        let options = SortOptions { descending: k.descending, nulls_first };
        SortColumn { values: k.column.inner.clone(), options: Some(options) }
    };
    let columns: Vec<SortColumn> = keys.iter().map(column).collect();
    arrow::compute::kernels::sort::lexsort_to_indices(&columns, None)
        .map(|rows| rows.values().iter().map(|r| *r as usize).collect())
}

/// The numbers of the rows as a sort key.
pub open spec fn row_numbers(n: nat) -> SortKeyView {
    SortKeyView {
        column: ColumnView {
            data_type: DataType::Int64,
            cells: Seq::new(n, |i: int| Cell::Scalar(ScalarView::Int64(i as i64))),
        },
        descending: false,
    }
}

/// The keys, and after them the numbers of the rows, by which no two rows are alike.
pub open spec fn with_row_numbers(keys: Seq<SortKeyView>) -> Seq<SortKeyView> {
    keys.push(row_numbers(keys[0].column.cells.len()))
}

/// The order in which sorting puts the rows: by the keys, and rows that they do not tell apart as
/// they came.
pub open spec fn sort_order(keys: Seq<SortKeyView>) -> Seq<usize> {
    rows_in_order(with_row_numbers(keys), keys[0].column.cells.len())
}

/// Sorting lists every row once, and puts them in order where they can be sorted.
pub proof fn lemma_sort_order(keys: Seq<SortKeyView>)
    requires
        keys[0].column.cells.len() <= usize::MAX,
    ensures
        is_permutation(sort_order(keys), keys[0].column.cells.len()),
        sortable(keys) ==> in_order(keys, sort_order(keys)),
{
    let n = keys[0].column.cells.len();
    let all = with_row_numbers(keys);
    lemma_rows_in_order(all, n);
    if sortable(keys) {
        lemma_with_row_numbers(keys);
        lemma_more_keys(keys, row_numbers(n), sort_order(keys));
    }
}

/// Sortable keys stay sortable with the numbers of the rows.
proof fn lemma_with_row_numbers(keys: Seq<SortKeyView>)
    requires
        sortable(keys),
    ensures
        sortable(with_row_numbers(keys)),
        with_row_numbers(keys)[0] == keys[0],
{
    let all = with_row_numbers(keys);
    assert forall|i: int| 0 <= i < all.len() implies {
        &&& (#[trigger] all[i]).column.cells.len() == all[0].column.cells.len()
        &&& all[i].column.data_type != DataType::Null
        &&& well_typed(all[i].column)
    } by {
        if i < keys.len() {
            assert(all[i] == keys[i]);
        }
    }
}

/// How sorting by some keys comes out: the rows in sorted order.
pub open spec fn sorting(keys: Seq<SortKeyView>) -> Outcome<Seq<usize>> {
    if keys.len() == 0 {
        Outcome::Fault(Fault::Arrow)
    } else if keys[0].column.cells.len() > u32::MAX {
        Outcome::Fault(Fault::Said(ErrorView::Execution("too many rows to sort"@)))
    } else if unordered(keys) {
        Outcome::Fault(Fault::Arrow)
    } else {
        Outcome::Value(sort_order(keys))
    }
}

/// The rows in sorted order; rows that no key tells apart stay as they came.
pub fn sort_rows(keys: &Vec<SortKey>) -> (r: Result<Vec<usize>, ArborError>)
    requires
        forall|i: int|
            0 <= i < keys@.len() ==> carries((#[trigger] keys@[i]).column@.data_type) && well_typed(
                keys@[i].column@,
            ) && keys@[i].column@.cells.len() == keys@[0].column@.cells.len(),
    ensures
        agrees(r, sorting(views(keys@))),
        r matches Ok(rows) ==> keys@.len() > 0 && is_permutation(
            rows@,
            keys@[0].column@.cells.len(),
        ) && in_order(views(keys@), rows@),
{
    let ghost given = views(keys@);
    if keys.len() == 0 {
        return match kernel_sort(keys, false) {
            Ok(rows) => Ok(rows),
            Err(e) => Err(execution_error(e)),
        };
    }
    let n: usize = keys[0].column.len();
    proof {
        assert(given[0] == keys@[0]@);
    }
    if n as u64 > 0xffff_ffff {
        return Err(ArborError::Execution("too many rows to sort".to_string()));
    }
    let mut all: Vec<SortKey> = Vec::new();
    let mut i: usize = 0;
    while i < keys.len()
        invariant
            i <= keys.len(),
            all.len() == i,
            forall|k: int| 0 <= k < i ==> (#[trigger] all[k])@ == keys[k]@,
        decreases keys.len() - i,
    {
        all.push(SortKey { column: keys[i].column.clone(), descending: keys[i].descending });
        i = i + 1;
    }
    let mut numbers: Vec<Option<i64>> = Vec::new();
    i = 0;
    while i < n
        invariant
            i <= n,
            n <= 0xffff_ffff,
            numbers.len() == i,
            forall|k: int| 0 <= k < i ==> #[trigger] numbers@[k] == Some(k as i64),
        decreases n - i,
    {
        numbers.push(Some(i as i64));
        i = i + 1;
    }
    let last = SortKey { column: Column::of_ints(numbers), descending: false };
    proof {
        assert(last.column@.cells =~= row_numbers(n as nat).column.cells);
        assert(last@ == row_numbers(n as nat));
    }
    let ghost before = all@;
    all.push(last);
    proof {
        assert(views(before) =~= given);
        assert(views(all@) =~= with_row_numbers(given));
        assert forall|i: int| 0 <= i < all@.len() implies carries(
            (#[trigger] all@[i]).column@.data_type,
        ) && all@[i].column@.cells.len() == all@[0].column@.cells.len() by {
            assert(all@[0]@ == keys@[0]@);
            if i < keys.len() {
                assert(all@[i]@ == keys@[i]@);
            }
        }
        if unordered(given) {
            let i = choose|i: int|
                0 <= i < given.len() && (#[trigger] given[i]).column.data_type == DataType::Null;
            assert(with_row_numbers(given)[i] == given[i]);
            assert(unordered(with_row_numbers(given)));
        } else {
            assert(sortable(given)) by {
                assert forall|i: int| 0 <= i < given.len() implies {
                    &&& (#[trigger] given[i]).column.cells.len() == given[0].column.cells.len()
                    &&& given[i].column.data_type != DataType::Null
                    &&& well_typed(given[i].column)
                } by {
                    assert(given[i] == keys@[i]@);
                }
            }
            lemma_with_row_numbers(given);
        }
    }
    match kernel_sort(&all, false) {
        Ok(rows) => {
            proof {
                lemma_sort_order(given);
                lemma_rows_in_order(with_row_numbers(given), n as nat);
                lemma_numbered_apart(given);
                lemma_one_order(with_row_numbers(given), rows@, sort_order(given), n as nat);
            }
            Ok(rows)
        },
        Err(e) => Err(execution_error(e)),
    }
}

/// With the numbers of the rows among the keys, no two rows are alike.
proof fn lemma_numbered_apart(keys: Seq<SortKeyView>)
    requires
        sortable(keys),
        keys[0].column.cells.len() <= u32::MAX,
    ensures
        tells_apart(with_row_numbers(keys), keys[0].column.cells.len()),
{
    let n = keys[0].column.cells.len();
    assert forall|a: int, b: int|
        0 <= a < n && 0 <= b < n && #[trigger] row_order(with_row_numbers(keys), a, b)
            == Order::Equal implies a == b by {
        lemma_last_key(keys, row_numbers(n), a, b);
    }
}

/// How taking the values at some rows comes out.
pub open spec fn taken(c: ColumnView, rows: Seq<usize>) -> Outcome<ColumnView> {
    if oversized(c.data_type, picked(c.cells, rows)) {
        Outcome::Fault(Fault::Arrow)
    } else {
        Outcome::Value(ColumnView { data_type: c.data_type, cells: picked(c.cells, rows) })
    }
}

/// The values at some rows, in the order given. Rows that are not repeated can always be taken.
pub fn take_rows(c: &Column, rows: &Vec<usize>) -> (r: Result<Column, ArborError>)
    requires
        carries(c@.data_type),
        forall|i: int| 0 <= i < rows@.len() ==> #[trigger] rows@[i] < c@.cells.len(),
    ensures
        agrees(r, taken(c@, rows@)),
        rows@.no_duplicates() ==> r is Ok,
        r matches Ok(x) ==> x@ == (ColumnView {
            data_type: c@.data_type,
            cells: picked(c@.cells, rows@),
        }),
{
    match kernel_take(c, rows) {
        Ok(x) => Ok(x),
        Err(e) => Err(execution_error(e)),
    }
}

/// The sum of the integers in some cells.
pub open spec fn int_total(cells: Seq<Cell>) -> int
    decreases cells.len(),
{
    if cells.len() == 0 {
        0
    } else {
        int_total(cells.drop_last()) + match cells.last() {
            Cell::Scalar(ScalarView::Int64(v)) => v as int,
            _ => 0,
        }
    }
}

/// An integer reduced to 64 bits.
pub open spec fn wrapped(n: int) -> int {
    let m = n % 0x1_0000_0000_0000_0000;
    if m >= 0x8000_0000_0000_0000 { m - 0x1_0000_0000_0000_0000 } else { m }
}

/// There is nothing but NULLs.
pub open spec fn all_null(cells: Seq<Cell>) -> bool {
    forall|i: int| 0 <= i < cells.len() ==> #[trigger] cells[i] == null_cell()
}

/// The cell is among the others and none of them comes before it.
pub open spec fn is_least(cells: Seq<Cell>, c: Cell) -> bool {
    cells.contains(c) && forall|i: int|
        0 <= i < cells.len() ==> value_order(#[trigger] cells[i], c) != Some(Order::Less)
}

/// The cell is among the others and none of them comes after it.
pub open spec fn is_greatest(cells: Seq<Cell>, c: Cell) -> bool {
    cells.contains(c) && forall|i: int|
        0 <= i < cells.len() ==> value_order(#[trigger] cells[i], c) != Some(Order::Greater)
}

/// `aggregate::sum` of an integer column: wraps around; nothing where all is NULL.
#[verifier::external_body]
pub(crate) fn int_sum(c: &Column) -> (r: Option<i64>)
    requires
        c@.data_type == DataType::Int64,
    ensures
        match r {
            Some(v) => !all_null(c@.cells) && v == wrapped(int_total(c@.cells)),
            None => all_null(c@.cells),
        },
{
    arrow::compute::sum(c.inner.as_primitive::<Int64Type>())
}

/// `aggregate::sum` of a float column, as bits; nothing where all is NULL. In which order the
/// values are added, to zeros, depends on the machine, and so may the rounding of the sum.
#[verifier::external_body]
pub(crate) fn float_column_sum(c: &Column) -> (r: Option<u64>)
    requires
        c@.data_type == DataType::Float64,
    ensures
        match r {
            Some(v) => !all_null(c@.cells) && is_sum(c@.cells, v),
            None => all_null(c@.cells),
        },
{
    arrow::compute::sum(c.inner.as_primitive::<Float64Type>()).map(|v| v.to_bits())
}

/// `aggregate::min` of an integer column; nothing where all is NULL.
#[verifier::external_body]
pub(crate) fn int_min(c: &Column) -> (r: Option<i64>)
    requires
        c@.data_type == DataType::Int64,
    ensures
        match r {
            Some(v) => is_least(c@.cells, Cell::Scalar(ScalarView::Int64(v))),
            None => all_null(c@.cells),
        },
{
    arrow::compute::min(c.inner.as_primitive::<Int64Type>())
}

/// `aggregate::max` of an integer column; nothing where all is NULL.
#[verifier::external_body]
pub(crate) fn int_max(c: &Column) -> (r: Option<i64>)
    requires
        c@.data_type == DataType::Int64,
    ensures
        match r {
            Some(v) => is_greatest(c@.cells, Cell::Scalar(ScalarView::Int64(v))),
            None => all_null(c@.cells),
        },
{
    arrow::compute::max(c.inner.as_primitive::<Int64Type>())
}

/// `aggregate::min` of a float column in the total order, as bits; nothing where all is NULL.
#[verifier::external_body]
pub(crate) fn float_min(c: &Column) -> (r: Option<u64>)
    requires
        c@.data_type == DataType::Float64,
    ensures
        match r {
            Some(v) => is_least(c@.cells, Cell::Scalar(ScalarView::Float64(v))),
            None => all_null(c@.cells),
        },
{
    arrow::compute::min(c.inner.as_primitive::<Float64Type>()).map(|v| v.to_bits())
}

/// `aggregate::max` of a float column in the total order, as bits; nothing where all is NULL.
#[verifier::external_body]
pub(crate) fn float_max(c: &Column) -> (r: Option<u64>)
    requires
        c@.data_type == DataType::Float64,
    ensures
        match r {
            Some(v) => is_greatest(c@.cells, Cell::Scalar(ScalarView::Float64(v))),
            None => all_null(c@.cells),
        },
{
    arrow::compute::max(c.inner.as_primitive::<Float64Type>()).map(|v| v.to_bits())
}

} // verus!
