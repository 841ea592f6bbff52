//! Columns, batches and the Arrow operations on them.

use std::sync::Arc;

use arrow::array::{
    Array, ArrayData, BinaryArray, Date32Array, Decimal128Array, Float32Array, Int16Array,
    Int32Array, Int8Array, IntervalYearMonthArray, LargeStringArray, ListArray, NullArray,
    StringArray, TimestampSecondArray, UInt8Array,
};
use arrow::buffer::{Buffer, NullBuffer, OffsetBuffer};
use arrow::datatypes::{
    DataType as ArrowType, Field as ArrowField, Int32Type, Schema as ArrowSchema, TimeUnit,
};

use arbor::error::ArborError;
use arbor::executor::batch::kernels::{eval_binary_array, sort_rows, take_rows, SortKey};
use arbor::executor::batch::{execution_error, Batch};
use arbor::executor::Column;
use arbor::planner::BinaryOp;
use arbor::types::{DataType, Field, ScalarValue, Schema};

fn ints(values: &[Option<i64>]) -> Column {
    Column::of_ints(values.to_vec())
}

fn floats(values: &[Option<f64>]) -> Column {
    Column::of_floats(values.iter().map(|v| v.map(f64::to_bits)).collect())
}

fn texts(values: &[Option<&str>]) -> Column {
    Column::of_texts(values.iter().map(|v| v.map(str::to_string)).collect()).unwrap()
}

fn truths(values: &[Option<bool>]) -> Column {
    Column::of_truths(values.to_vec())
}

fn int_values(c: &Column) -> Vec<Option<i64>> {
    (0..c.len())
        .map(|i| match c.scalar(i) {
            Some(ScalarValue::Int64(v)) => Some(v),
            Some(ScalarValue::Null) => None,
            _ => panic!("no integer"),
        })
        .collect()
}

fn float_values(c: &Column) -> Vec<Option<f64>> {
    (0..c.len())
        .map(|i| match c.scalar(i) {
            Some(ScalarValue::Float64(v)) => Some(f64::from_bits(v)),
            Some(ScalarValue::Null) => None,
            _ => panic!("no float"),
        })
        .collect()
}

fn text_values(c: &Column) -> Vec<Option<String>> {
    (0..c.len())
        .map(|i| match c.scalar(i) {
            Some(ScalarValue::Utf8(v)) => Some(v),
            Some(ScalarValue::Null) => None,
            _ => panic!("no text"),
        })
        .collect()
}

fn truth_values(c: &Column) -> Vec<Option<bool>> {
    assert!(c.data_type() == DataType::Boolean);
    (0..c.len())
        .map(|i| match c.scalar(i) {
            Some(ScalarValue::Boolean(v)) => Some(v),
            Some(ScalarValue::Null) => None,
            _ => panic!("no truth value"),
        })
        .collect()
}

fn apply(l: &Column, op: BinaryOp, r: &Column) -> Column {
    eval_binary_array(l, op, r).unwrap()
}

fn fails(l: &Column, op: BinaryOp, r: &Column) -> String {
    match eval_binary_array(l, op, r) {
        Err(ArborError::Execution(s)) => s,
        _ => panic!("expected an execution error"),
    }
}

fn schema(fields: &[(&str, DataType)]) -> Schema {
    Schema {
        fields: fields
            .iter()
            .map(|(n, t)| Field { name: n.to_string(), data_type: t.clone() })
            .collect(),
    }
}

#[test]
fn columns_give_back_their_values() {
    assert_eq!(int_values(&ints(&[Some(1), None, Some(i64::MIN)])), vec![Some(1), None, Some(i64::MIN)]);
    assert_eq!(float_values(&floats(&[Some(1.5), None])), vec![Some(1.5), None]);
    assert_eq!(
        text_values(&texts(&[Some("a"), None, Some("")])),
        vec![Some("a".to_string()), None, Some(String::new())]
    );
    assert_eq!(truth_values(&truths(&[Some(true), None])), vec![Some(true), None]);
    assert_eq!(ints(&[Some(1), None, None]).null_count(), 2);
    assert_eq!(texts(&[Some("a")]).clone().len(), 1);
}

#[test]
fn comparisons_of_integers() {
    let l = ints(&[Some(1), Some(2), Some(3), None]);
    let r = ints(&[Some(2), Some(2), Some(2), Some(2)]);
    let t = Some(true);
    let f = Some(false);
    assert_eq!(truth_values(&apply(&l, BinaryOp::Eq, &r)), vec![f, t, f, None]);
    assert_eq!(truth_values(&apply(&l, BinaryOp::Neq, &r)), vec![t, f, t, None]);
    assert_eq!(truth_values(&apply(&l, BinaryOp::Lt, &r)), vec![t, f, f, None]);
    assert_eq!(truth_values(&apply(&l, BinaryOp::Gt, &r)), vec![f, f, t, None]);
    assert_eq!(truth_values(&apply(&l, BinaryOp::LtEq, &r)), vec![t, t, f, None]);
    assert_eq!(truth_values(&apply(&l, BinaryOp::GtEq, &r)), vec![f, t, t, None]);
}

#[test]
fn comparisons_of_floats_follow_the_total_order() {
    let l = floats(&[Some(-0.0), Some(f64::NAN), Some(1.0)]);
    let r = floats(&[Some(0.0), Some(f64::NAN), Some(f64::NAN)]);
    let t = Some(true);
    let f = Some(false);
    assert_eq!(truth_values(&apply(&l, BinaryOp::Eq, &r)), vec![f, t, f]);
    assert_eq!(truth_values(&apply(&l, BinaryOp::Lt, &r)), vec![t, f, t]);
    assert_eq!(truth_values(&apply(&l, BinaryOp::GtEq, &r)), vec![f, t, f]);
}

#[test]
fn comparisons_of_texts_and_truth_values() {
    let l = texts(&[Some("a"), Some("b"), Some("")]);
    let r = texts(&[Some("ab"), Some("ab"), Some("")]);
    assert_eq!(
        truth_values(&apply(&l, BinaryOp::Lt, &r)),
        vec![Some(true), Some(false), Some(false)]
    );
    let l = truths(&[Some(false), Some(true), None]);
    let r = truths(&[Some(true), Some(true), Some(true)]);
    assert_eq!(truth_values(&apply(&l, BinaryOp::Lt, &r)), vec![Some(true), Some(false), None]);
}

#[test]
fn comparisons_of_different_types_fail() {
    let l = ints(&[Some(1)]);
    let r = floats(&[Some(1.0)]);
    assert!(fails(&l, BinaryOp::Eq, &r).contains("Invalid comparison operation"));
    let small = Column::from_data(Int32Array::from(vec![1]).to_data()).unwrap();
    assert!(fails(&small, BinaryOp::Eq, &l).contains("Invalid comparison operation"));
    assert_eq!(truth_values(&apply(&small, BinaryOp::Eq, &small)), vec![Some(true)]);
    let r = ints(&[Some(1), Some(2)]);
    assert!(fails(&l, BinaryOp::Lt, &r).contains("different lengths"));
}

#[test]
fn connectives_give_null_for_null() {
    let l = truths(&[Some(true), Some(true), Some(false), None]);
    let r = truths(&[Some(true), Some(false), None, Some(true)]);
    assert_eq!(
        truth_values(&apply(&l, BinaryOp::And, &r)),
        vec![Some(true), Some(false), None, None]
    );
    assert_eq!(
        truth_values(&apply(&l, BinaryOp::Or, &r)),
        vec![Some(true), Some(true), None, None]
    );
}

#[test]
fn connectives_cast_their_sides() {
    let t = truths(&[Some(true), Some(true), Some(true)]);
    assert_eq!(
        truth_values(&apply(&ints(&[Some(0), Some(7), None]), BinaryOp::And, &t)),
        vec![Some(false), Some(true), None]
    );
    assert_eq!(
        truth_values(&apply(&floats(&[Some(-0.0), Some(0.5), None]), BinaryOp::And, &t)),
        vec![Some(false), Some(true), None]
    );
    assert_eq!(
        truth_values(&apply(&texts(&[Some("true"), Some("no"), Some("maybe")]), BinaryOp::And, &t)),
        vec![Some(true), Some(false), None]
    );
    assert!(matches!(
        eval_binary_array(&ints(&[Some(1)]), BinaryOp::Or, &t),
        Err(ArborError::Execution(_))
    ));
}

#[test]
fn arithmetic_on_integers() {
    let l = ints(&[Some(7), None, Some(-7)]);
    let r = ints(&[Some(2), Some(2), Some(2)]);
    assert_eq!(int_values(&apply(&l, BinaryOp::Plus, &r)), vec![Some(9), None, Some(-5)]);
    assert_eq!(int_values(&apply(&l, BinaryOp::Minus, &r)), vec![Some(5), None, Some(-9)]);
    assert_eq!(int_values(&apply(&l, BinaryOp::Mul, &r)), vec![Some(14), None, Some(-14)]);
    assert_eq!(int_values(&apply(&l, BinaryOp::Div, &r)), vec![Some(3), None, Some(-3)]);
}

#[test]
fn integer_arithmetic_fails_without_a_result() {
    let one = ints(&[Some(1)]);
    assert!(fails(&ints(&[Some(i64::MAX)]), BinaryOp::Plus, &one).contains("Overflow"));
    assert!(fails(&ints(&[Some(i64::MIN)]), BinaryOp::Minus, &one).contains("Overflow"));
    assert!(fails(&ints(&[Some(i64::MAX)]), BinaryOp::Mul, &ints(&[Some(2)])).contains("Overflow"));
    assert!(fails(&one, BinaryOp::Div, &ints(&[Some(0)])).contains("Divide by zero"));
    assert!(fails(&ints(&[Some(i64::MIN)]), BinaryOp::Div, &ints(&[Some(-1)])).contains("Overflow"));
}

#[test]
fn arithmetic_on_floats() {
    let l = floats(&[Some(1.5), Some(1.0), None]);
    let r = floats(&[Some(0.5), Some(0.0), Some(1.0)]);
    assert_eq!(float_values(&apply(&l, BinaryOp::Plus, &r)), vec![Some(2.0), Some(1.0), None]);
    assert_eq!(float_values(&apply(&l, BinaryOp::Minus, &r)), vec![Some(1.0), Some(1.0), None]);
    assert_eq!(float_values(&apply(&l, BinaryOp::Mul, &r)), vec![Some(0.75), Some(0.0), None]);
    assert_eq!(
        float_values(&apply(&l, BinaryOp::Div, &r)),
        vec![Some(3.0), Some(f64::INFINITY), None]
    );
}

#[test]
fn arithmetic_on_other_types_fails() {
    let t = texts(&[Some("1")]);
    assert!(fails(&t, BinaryOp::Plus, &t).contains("Invalid arithmetic operation"));
    assert!(fails(&ints(&[Some(1)]), BinaryOp::Plus, &floats(&[Some(1.0)]))
        .contains("Invalid arithmetic operation"));
    let months = Column::from_data(IntervalYearMonthArray::from(vec![1]).to_data()).unwrap();
    let days = Column::from_data(Date32Array::from(vec![1]).to_data()).unwrap();
    assert_eq!(
        fails(&days, BinaryOp::Plus, &months),
        "arithmetic on this type is not supported"
    );
    let sum = apply(&months, BinaryOp::Plus, &months);
    assert_eq!(IntervalYearMonthArray::from(sum.to_data()).value(0), 2);
}

fn decimals(value: i128, precision: u8, scale: i8) -> Column {
    let array = Decimal128Array::from(vec![value]).with_precision_and_scale(precision, scale);
    Column::from_data(array.unwrap().to_data()).unwrap()
}

#[test]
fn decimals_are_computed_where_their_scale_allows() {
    let l = decimals(150, 5, 2);
    let sum = apply(&l, BinaryOp::Plus, &decimals(25, 5, 2));
    assert_eq!(Decimal128Array::from(sum.to_data()).value(0), 175);
    let wide = decimals(1, 38, -100);
    assert_eq!(
        fails(&l, BinaryOp::Plus, &wide),
        "arithmetic on this type is not supported"
    );
}

#[test]
fn every_nan_comes_out_as_one() {
    let nan = floats(&[Some(f64::from_bits(0xfff8_0000_0000_0001))]);
    let sum = apply(&nan, BinaryOp::Plus, &floats(&[Some(1.0)]));
    assert!(matches!(
        sum.scalar(0),
        Some(ScalarValue::Float64(0x7ff8_0000_0000_0000))
    ));
}

#[test]
fn equal_rows_keep_their_order_when_sorted() {
    let key = |descending| vec![SortKey {
        column: ints(&[Some(1), Some(0), Some(1), Some(0), Some(1)]),
        descending,
    }];
    assert_eq!(sort_rows(&key(false)).unwrap(), vec![1, 3, 0, 2, 4]);
    assert_eq!(sort_rows(&key(true)).unwrap(), vec![0, 2, 4, 1, 3]);
}

#[test]
fn sorting_by_types_that_are_carried_along() {
    let days = Column::from_data(Date32Array::from(vec![3, 1, 2]).to_data()).unwrap();
    let keys = vec![SortKey { column: days, descending: false }];
    assert_eq!(sort_rows(&keys).unwrap(), vec![1, 2, 0]);
    let bytes = BinaryArray::from_opt_vec(vec![Some(b"b".as_slice()), None, Some(b"ab")]);
    let keys =
        vec![SortKey { column: Column::from_data(bytes.to_data()).unwrap(), descending: false }];
    assert_eq!(sort_rows(&keys).unwrap(), vec![2, 0, 1]);
}

#[test]
fn types_that_arrow_has_no_arrays_for_are_refused() {
    assert!(!DataType::Other(ArrowType::Time32(TimeUnit::Microsecond)).is_carried());
    assert!(!DataType::Other(ArrowType::Time64(TimeUnit::Second)).is_carried());
    assert!(DataType::Other(ArrowType::Time32(TimeUnit::Second)).is_carried());
    assert!(DataType::Other(ArrowType::Time64(TimeUnit::Nanosecond)).is_carried());
    let data = ArrayData::builder(ArrowType::Time32(TimeUnit::Microsecond))
        .len(1)
        .add_buffer(Buffer::from(vec![0u8; 4]))
        .build()
        .unwrap();
    assert!(Column::from_data(data).is_none());
}

#[test]
fn taking_rows_repeats_and_reorders() {
    let c = texts(&[Some("a"), None, Some("c")]);
    assert_eq!(
        text_values(&take_rows(&c, &vec![2, 1, 0, 0]).unwrap()),
        vec![Some("c".to_string()), None, Some("a".to_string()), Some("a".to_string())]
    );
    assert_eq!(int_values(&take_rows(&ints(&[Some(5)]), &vec![]).unwrap()), vec![]);
}

#[test]
fn more_text_than_a_column_holds_is_refused() {
    let long = "x".repeat(1 << 20);
    let c = texts(&[Some(long.as_str())]);
    let one = Batch::try_new(&schema(&[("t", DataType::Utf8)]), &vec![c], None).unwrap();
    let many: Vec<Batch> = (0..2048).map(|_| one.clone()).collect();
    match Batch::concat(&many) {
        Err(ArborError::Execution(s)) => assert_eq!(s, "too much text for one column"),
        _ => panic!("expected an execution error"),
    }
}

#[test]
fn sorting_puts_nulls_last_both_ways() {
    let key = |descending| {
        vec![SortKey { column: ints(&[Some(2), None, Some(1), Some(3)]), descending }]
    };
    assert_eq!(sort_rows(&key(false)).unwrap(), vec![2, 0, 3, 1]);
    assert_eq!(sort_rows(&key(true)).unwrap(), vec![3, 0, 2, 1]);
}

#[test]
fn sorting_by_two_keys() {
    let keys = vec![
        SortKey { column: texts(&[Some("b"), Some("a"), Some("b"), Some("a")]), descending: false },
        SortKey { column: floats(&[Some(1.0), Some(2.0), Some(3.0), Some(4.0)]), descending: true },
    ];
    assert_eq!(sort_rows(&keys).unwrap(), vec![3, 1, 2, 0]);
}

#[test]
fn sorting_without_keys_fails() {
    match sort_rows(&vec![]) {
        Err(ArborError::Execution(s)) => {
            assert_eq!(s, "Invalid argument error: Sort requires at least one column")
        }
        _ => panic!("expected an execution error"),
    }
}

#[test]
fn batches_need_columns_that_agree_with_their_fields() {
    let s = schema(&[("a", DataType::Int64), ("b", DataType::Utf8)]);
    let a = ints(&[Some(1), Some(2)]);
    let b = texts(&[Some("x"), None]);
    let ok = Batch::try_new(&s, &vec![a.clone(), b.clone()], None).unwrap();
    assert_eq!(ok.num_rows(), 2);
    assert_eq!(ok.num_columns(), 2);
    assert_eq!(ok.schema().fields[1].name, "b");
    assert!(ok.schema().fields[1].data_type == DataType::Utf8);
    assert_eq!(int_values(&ok.column(0)), vec![Some(1), Some(2)]);
    assert!(Batch::try_new(&s, &vec![a.clone()], None).is_err());
    assert!(Batch::try_new(&s, &vec![b.clone(), a.clone()], None).is_err());
    assert!(Batch::try_new(&s, &vec![ints(&[Some(1)]), b], None).is_err());
    let none = schema(&[]);
    assert!(Batch::try_new(&none, &vec![], None).is_err());
    assert_eq!(Batch::try_new(&none, &vec![], Some(3)).unwrap().num_rows(), 3);
}

#[test]
fn filtering_keeps_the_rows_that_are_true() {
    let s = schema(&[("a", DataType::Int64), ("b", DataType::Utf8)]);
    let b = Batch::try_new(
        &s,
        &vec![ints(&[Some(1), Some(2), Some(3)]), texts(&[Some("x"), None, Some("z")])],
        None,
    )
    .unwrap();
    let kept = b.filter(&truths(&[Some(true), None, Some(true)])).unwrap();
    assert_eq!(int_values(&kept.column(0)), vec![Some(1), Some(3)]);
    assert_eq!(
        text_values(&kept.column(1)),
        vec![Some("x".to_string()), Some("z".to_string())]
    );
    let bare = Batch::try_new(&schema(&[]), &vec![], Some(2)).unwrap();
    assert_eq!(bare.filter(&truths(&[Some(false), Some(true)])).unwrap().num_rows(), 1);
}

#[test]
fn the_head_of_a_batch() {
    let s = schema(&[("a", DataType::Int64)]);
    let b = Batch::try_new(&s, &vec![ints(&[Some(1), Some(2), Some(3)])], None).unwrap();
    assert_eq!(int_values(&b.head(2).column(0)), vec![Some(1), Some(2)]);
    assert_eq!(b.head(0).num_rows(), 0);
}

#[test]
fn batches_stack_below_each_other() {
    let s = schema(&[("a", DataType::Int64), ("b", DataType::Utf8)]);
    let one =
        Batch::try_new(&s, &vec![ints(&[Some(1)]), texts(&[None])], None).unwrap();
    let two =
        Batch::try_new(&s, &vec![ints(&[None]), texts(&[Some("y")])], None).unwrap();
    let all = Batch::concat(&vec![one.clone(), two]).unwrap();
    assert_eq!(int_values(&all.column(0)), vec![Some(1), None]);
    assert_eq!(text_values(&all.column(1)), vec![None, Some("y".to_string())]);

    let other = schema(&[("a", DataType::Utf8), ("b", DataType::Utf8)]);
    let wrong = Batch::try_new(&other, &vec![texts(&[None]), texts(&[None])], None).unwrap();
    assert!(matches!(
        Batch::concat(&vec![one.clone(), wrong]),
        Err(ArborError::Execution(_))
    ));
    let narrow =
        Batch::try_new(&schema(&[("a", DataType::Int64)]), &vec![ints(&[Some(1)])], None).unwrap();
    match Batch::concat(&vec![one, narrow]) {
        Err(ArborError::Execution(s)) => assert_eq!(s, "batches differ in their columns"),
        _ => panic!("expected an execution error"),
    }
    let bare = Batch::try_new(&schema(&[]), &vec![], Some(2)).unwrap();
    assert_eq!(Batch::concat(&vec![bare.clone(), bare]).unwrap().num_rows(), 4);
    let huge = Batch::try_new(&schema(&[]), &vec![], Some(usize::MAX)).unwrap();
    match Batch::concat(&vec![huge.clone(), huge]) {
        Err(ArborError::Execution(s)) => assert_eq!(s, "too many rows"),
        _ => panic!("expected an execution error"),
    }
}

#[test]
fn columns_of_bytes_are_carried_along() {
    let data = BinaryArray::from_opt_vec(vec![Some(b"ab".as_slice()), None]).to_data();
    let c = Column::from_data(data).unwrap();
    assert!(c.data_type() == DataType::Other(ArrowType::Binary));
    assert_eq!(c.null_count(), 1);
    assert!(c.scalar(0).is_none());
    assert!(c.scalar(1) == Some(ScalarValue::Null));
    let s = schema(&[("x", DataType::Other(ArrowType::Binary))]);
    let b = Batch::try_new(&s, &vec![c], None).unwrap();
    let all = Batch::concat(&vec![b.clone(), b]).unwrap();
    assert_eq!(BinaryArray::from(all.column(0).to_data()).value(2), b"ab");
}

#[test]
fn buffers_go_in_and_come_out() {
    let c = Column::from_data(Int32Array::from(vec![Some(1), None]).to_data()).unwrap();
    assert!(c.data_type() == DataType::Other(ArrowType::Int32));
    assert_eq!(Int32Array::from(c.to_data()), Int32Array::from(vec![Some(1), None]));
    assert_eq!(c.data_type().describe(), "Int32");
    assert!(DataType::Other(ArrowType::Int64).normalized() == DataType::Int64);
    let large = LargeStringArray::from(vec!["a"]);
    assert!(Column::from_data(large.to_data()).is_some());
    let nulls = Column::from_data(NullArray::new(2).to_data()).unwrap();
    assert!(nulls.data_type() == DataType::Null);
    assert_eq!(nulls.null_count(), 0);
    assert!(nulls.scalar(0).is_none());
}

#[test]
fn types_made_of_others_are_not_carried() {
    let list = ListArray::from_iter_primitive::<Int32Type, _, _>(vec![Some(vec![Some(1)])]);
    assert!(Column::from_data(list.to_data()).is_none());
    assert!(!DataType::Other(list.data_type().clone()).is_carried());
    assert!(DataType::Other(ArrowType::Date32).is_carried());
}

#[test]
fn bytes_behind_null_texts_are_dropped() {
    let offsets = OffsetBuffer::new(vec![0i32, 3, 5].into());
    let nulls = NullBuffer::from(vec![false, true]);
    let array = StringArray::new(offsets, Buffer::from(b"abcde".as_slice()), Some(nulls));
    let data: ArrayData = array.to_data();
    let c = Column::from_data(data).unwrap();
    assert_eq!(text_values(&c), vec![None, Some("de".to_string())]);
    let kept = StringArray::from(c.to_data());
    assert_eq!(kept.value_length(0), 0);
    assert_eq!(kept.value_length(1), 2);
}

#[test]
fn schemas_go_to_arrow_and_back() {
    let arrow = ArrowSchema::new(vec![
        ArrowField::new("a", ArrowType::Int64, false),
        ArrowField::new("b", ArrowType::Date32, true),
    ]);
    let s = Schema::from_arrow(&arrow);
    assert_eq!(s.fields[0].name, "a");
    assert!(s.fields[0].data_type == DataType::Int64);
    assert!(s.fields[1].data_type == DataType::Other(ArrowType::Date32));
    let back = Arc::new(s.to_arrow());
    assert_eq!(back.field(0).data_type(), &ArrowType::Int64);
    assert!(back.field(0).is_nullable());
    assert_eq!(back.field(1).data_type(), &ArrowType::Date32);
}

#[test]
fn schemas_survive_the_way_through_arrow() {
    let s = schema(&[
        ("a", DataType::Int64),
        ("b", DataType::Utf8),
        ("a", DataType::Other(ArrowType::Date32)),
        ("", DataType::Null),
    ]);
    let back = Schema::from_arrow(&s.to_arrow());
    assert_eq!(back.fields.len(), s.fields.len());
    for (x, y) in back.fields.iter().zip(&s.fields) {
        assert_eq!(x.name, y.name);
        assert!(x.data_type == y.data_type);
    }
}

#[test]
fn texts_are_truth_values_by_their_words() {
    let yes = texts(&[Some(" TRUE "), Some("y"), Some("on"), Some("1"), Some("tr")]);
    let no = texts(&[Some("fals\u{2003}"), Some("N"), Some("of"), Some("0"), Some("OFF")]);
    let all = truths(&[Some(true); 5]);
    assert_eq!(truth_values(&apply(&yes, BinaryOp::And, &all)), vec![Some(true); 5]);
    assert_eq!(truth_values(&apply(&no, BinaryOp::And, &all)), vec![Some(false); 5]);
    let neither = texts(&[Some("2"), Some(""), Some("t rue"), Some("yess"), None]);
    assert_eq!(truth_values(&apply(&neither, BinaryOp::And, &all)), vec![None; 5]);
}

fn carried<A: Array>(a: A) -> Column {
    Column::from_data(a.to_data()).unwrap()
}

#[test]
fn small_integers_are_computed_in_their_range() {
    let l = carried(Int8Array::from(vec![Some(100), Some(-7), None]));
    let r = carried(Int8Array::from(vec![Some(27), Some(2), Some(1)]));
    let sum = apply(&l, BinaryOp::Plus, &r);
    assert!(sum.data_type() == DataType::Other(ArrowType::Int8));
    assert_eq!(Int8Array::from(sum.to_data()), Int8Array::from(vec![Some(127), Some(-5), None]));
    let quotient = apply(&l, BinaryOp::Div, &r);
    assert_eq!(Int8Array::from(quotient.to_data()), Int8Array::from(vec![Some(3), Some(-3), None]));
    assert!(eval_binary_array(&l, BinaryOp::Mul, &r).is_err());
    let zero = carried(Int8Array::from(vec![Some(0), Some(1), Some(1)]));
    assert!(eval_binary_array(&l, BinaryOp::Div, &zero).is_err());
    let u = carried(UInt8Array::from(vec![1, 2, 3]));
    assert!(eval_binary_array(&u, BinaryOp::Minus, &carried(UInt8Array::from(vec![1, 3, 0]))).is_err());
    assert!(eval_binary_array(&l, BinaryOp::Plus, &u).is_err());
    assert!(eval_binary_array(&l, BinaryOp::Plus, &ints(&[Some(1), Some(1), Some(1)])).is_err());
}

#[test]
fn times_are_computed_by_arrow() {
    let days = carried(Date32Array::from(vec![3, 1]));
    let gap = apply(&days, BinaryOp::Minus, &carried(Date32Array::from(vec![1, 2])));
    assert!(gap.data_type() == DataType::Other(ArrowType::Duration(TimeUnit::Second)));
    assert!(eval_binary_array(&days, BinaryOp::Plus, &days).is_err());
    let seconds = carried(TimestampSecondArray::from(vec![0, 86_400]));
    let months = carried(IntervalYearMonthArray::from(vec![1, -1]));
    for shifted in [
        apply(&seconds, BinaryOp::Plus, &months),
        apply(&months, BinaryOp::Plus, &seconds),
    ] {
        let values = TimestampSecondArray::from(shifted.to_data());
        assert_eq!(values.values().to_vec(), vec![31 * 86_400, -30 * 86_400]);
    }
    assert!(eval_binary_array(&months, BinaryOp::Minus, &seconds).is_err());
    let far = carried(TimestampSecondArray::from(vec![i64::MAX, 0]));
    assert!(eval_binary_array(&far, BinaryOp::Plus, &months).is_err());
}

#[test]
fn carried_numbers_and_texts_are_cast_to_truth_values() {
    let all = truths(&[Some(true); 4]);
    let small = carried(Int16Array::from(vec![Some(0), Some(-1), Some(7), None]));
    assert_eq!(
        truth_values(&apply(&small, BinaryOp::And, &all)),
        vec![Some(false), Some(true), Some(true), None]
    );
    let floats = carried(Float32Array::from(vec![Some(0.0), Some(-0.0), Some(f32::NAN), None]));
    assert_eq!(
        truth_values(&apply(&floats, BinaryOp::And, &all)),
        vec![Some(false), Some(false), Some(true), None]
    );
    let large = carried(LargeStringArray::from(vec![Some("Yes "), Some("off"), Some("\u{e9}"), None]));
    assert_eq!(
        truth_values(&apply(&large, BinaryOp::And, &all)),
        vec![Some(true), Some(false), None, None]
    );
    let days = carried(Date32Array::from(vec![1, 2, 3, 4]));
    assert!(eval_binary_array(&all, BinaryOp::Or, &days).is_err());
    assert!(eval_binary_array(&days, BinaryOp::Or, &all).is_err());
}

#[test]
fn arrow_errors_become_execution_errors() {
    let e = execution_error(arrow::error::ArrowError::DivideByZero);
    assert_eq!(e.message(), "execution error: Divide by zero error");
}
