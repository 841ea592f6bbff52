//! Row-group pruning by statistics.

use std::sync::Arc;

use arrow::array::{BooleanArray, Float64Array, Int32Array, Int64Array, RecordBatch, StringArray};
use arrow::datatypes::{DataType as ArrowType, Field as ArrowField, Schema as ArrowSchema};
use parquet::arrow::arrow_reader::ParquetRecordBatchReaderBuilder;
use parquet::arrow::ArrowWriter;
use parquet::file::properties::WriterProperties;

use arbor::executor::prune::{
    cmp_range, extract_col_cmp, flip_cmp_op, row_group_can_match, stats_can_match, Bounds,
};
use arbor::executor::{prune_row_groups, RowGroupPruneStats};
use arbor::planner::{BinaryOp, Expr};
use arbor::types::{DataType, Field, ScalarValue, Schema};

const COMPARISONS: [BinaryOp; 6] =
    [BinaryOp::Eq, BinaryOp::Neq, BinaryOp::Lt, BinaryOp::Gt, BinaryOp::LtEq, BinaryOp::GtEq];

fn column(name: &str) -> Expr {
    Expr::Column { name: name.into(), relation: None }
}

fn lit(v: ScalarValue) -> Expr {
    Expr::Literal(v)
}

fn binary(left: Expr, op: BinaryOp, right: Expr) -> Expr {
    Expr::BinaryExpr { left: Box::new(left), op, right: Box::new(right) }
}

fn number(v: i64) -> ScalarValue {
    ScalarValue::Int64(v)
}

fn fraction(v: f64) -> ScalarValue {
    ScalarValue::Float64(v.to_bits())
}

fn holds(a: i64, op: BinaryOp, b: i64) -> bool {
    match op {
        BinaryOp::Eq => a == b,
        BinaryOp::Neq => a != b,
        BinaryOp::Lt => a < b,
        BinaryOp::Gt => a > b,
        BinaryOp::LtEq => a <= b,
        BinaryOp::GtEq => a >= b,
        _ => unreachable!(),
    }
}

#[test]
fn flipping_a_comparison_exchanges_its_sides() {
    for op in COMPARISONS {
        assert!(flip_cmp_op(flip_cmp_op(op)) == op);
        for (a, b) in [(1, 2), (2, 2), (3, 2)] {
            assert_eq!(holds(a, op, b), holds(b, flip_cmp_op(op), a));
        }
    }
}

#[test]
fn ranges_meet_exactly_the_values_between_them() {
    for op in COMPARISONS {
        for min in 0..4i64 {
            for max in min..4 {
                for v in -1..5i64 {
                    let some = (min..=max).any(|x| holds(x, op, v));
                    assert_eq!(cmp_range(&number(min), &number(max), &number(v), op), some);
                }
            }
        }
    }
}

#[test]
fn bounds_of_another_kind_tell_nothing() {
    let b = Some(Bounds { min: number(1), max: number(2) });
    assert!(stats_can_match(&b, BinaryOp::Gt, &fraction(9.0)));
    assert!(!stats_can_match(&b, BinaryOp::Gt, &number(9)));
    assert!(stats_can_match(&None, BinaryOp::Gt, &number(9)));
}

#[test]
fn comparisons_are_read_from_both_sides() {
    let s = Schema { fields: vec![Field { name: "x".into(), data_type: DataType::Int64 }] };
    let (i, op, v) = extract_col_cmp(&binary(lit(number(3)), BinaryOp::Lt, column("x")), &s)
        .unwrap()
        .unwrap();
    assert_eq!(i, 0);
    assert!(op == BinaryOp::Gt);
    assert!(v == number(3));
    assert!(extract_col_cmp(&binary(column("x"), BinaryOp::Plus, lit(number(3))), &s)
        .unwrap()
        .is_none());
    assert!(extract_col_cmp(&column("x"), &s).unwrap().is_none());
    let labelled = Expr::Alias {
        expr: Box::new(binary(column("x"), BinaryOp::Lt, lit(number(3)))),
        name: "y".into(),
    };
    assert!(extract_col_cmp(&labelled, &s).unwrap().is_some());
    assert!(extract_col_cmp(&binary(column("y"), BinaryOp::Lt, lit(number(3))), &s).is_err());
}

#[test]
fn conjunctions_and_disjunctions_combine() {
    let s = Schema { fields: vec![Field { name: "x".into(), data_type: DataType::Int64 }] };
    let bounds = vec![Some(Bounds { min: number(10), max: number(20) })];
    let low = binary(column("x"), BinaryOp::Lt, lit(number(5)));
    let high = binary(column("x"), BinaryOp::Gt, lit(number(15)));
    let test = |e: &Expr| row_group_can_match(&bounds, &s, e).unwrap();
    assert!(!test(&low));
    assert!(test(&high));
    assert!(!test(&binary(low.clone(), BinaryOp::And, high.clone())));
    assert!(test(&binary(low.clone(), BinaryOp::Or, high.clone())));
    assert!(!test(&Expr::Alias { expr: Box::new(low.clone()), name: "a".into() }));
    assert!(test(&binary(column("x"), BinaryOp::Lt, column("x"))));
    assert!(row_group_can_match(&vec![], &s, &low).unwrap());
}

#[test]
fn skipped_groups_are_the_rest() {
    let s = RowGroupPruneStats { total: 4, kept: vec![1] };
    assert_eq!(s.skipped(), 3);
    assert_eq!(s.clone(), s);
    assert_ne!(s, RowGroupPruneStats { total: 4, kept: vec![2] });
    assert_eq!(RowGroupPruneStats { total: 0, kept: vec![] }.skipped(), 0);
}

/// Groups of two rows over columns of five types.
fn builder() -> ParquetRecordBatchReaderBuilder<impl parquet::file::reader::ChunkReader> {
    let schema = Arc::new(ArrowSchema::new(vec![
        ArrowField::new("i", ArrowType::Int64, true),
        ArrowField::new("f", ArrowType::Float64, true),
        ArrowField::new("t", ArrowType::Utf8, true),
        ArrowField::new("b", ArrowType::Boolean, true),
        ArrowField::new("s", ArrowType::Int32, true),
    ]));
    let rows = RecordBatch::try_new(
        schema.clone(),
        vec![
            Arc::new(Int64Array::from(vec![Some(1), Some(2), Some(3), None, None, None])),
            Arc::new(Float64Array::from(vec![0.5, 1.5, 2.5, 3.5, 4.5, 5.5])),
            Arc::new(StringArray::from(vec!["a", "b", "c", "d", "e", "f"])),
            Arc::new(BooleanArray::from(vec![true, true, false, true, false, false])),
            Arc::new(Int32Array::from(vec![1, 2, 3, 4, 5, 6])),
        ],
    )
    .unwrap();
    let file = tempfile::tempfile().unwrap();
    let props = WriterProperties::builder().set_max_row_group_size(2).build();
    let mut writer =
        ArrowWriter::try_new(file.try_clone().unwrap(), schema, Some(props)).unwrap();
    writer.write(&rows).unwrap();
    writer.close().unwrap();
    ParquetRecordBatchReaderBuilder::try_new(file).unwrap()
}

fn kept(e: Expr) -> Vec<usize> {
    let b = builder();
    let schema = Schema::from_arrow(b.schema().as_ref());
    let stats = prune_row_groups(b.metadata(), &schema, &e).unwrap();
    assert_eq!(stats.total, 3);
    assert_eq!(stats.skipped() + stats.kept.len(), stats.total);
    stats.kept
}

#[test]
fn statistics_of_every_kind_prune() {
    assert_eq!(kept(binary(column("i"), BinaryOp::Gt, lit(number(2)))), vec![1, 2]);
    assert_eq!(kept(binary(column("f"), BinaryOp::LtEq, lit(fraction(2.5)))), vec![0, 1]);
    let text = |s: &str| lit(ScalarValue::Utf8(s.into()));
    assert_eq!(kept(binary(column("t"), BinaryOp::Eq, text("d"))), vec![1]);
    assert_eq!(kept(binary(text("d"), BinaryOp::Lt, column("t"))), vec![2]);
    let yes = lit(ScalarValue::Boolean(true));
    assert_eq!(kept(binary(column("b"), BinaryOp::Eq, yes.clone())), vec![0, 1]);
    assert_eq!(kept(binary(column("b"), BinaryOp::Neq, yes)), vec![1, 2]);
}

#[test]
fn what_statistics_do_not_tell_is_kept() {
    assert_eq!(kept(binary(column("s"), BinaryOp::Gt, lit(number(100)))), vec![0, 1, 2]);
    assert_eq!(kept(binary(column("i"), BinaryOp::Gt, lit(fraction(100.0)))), vec![0, 1, 2]);
    assert_eq!(kept(lit(ScalarValue::Boolean(false))), vec![0, 1, 2]);
    let b = builder();
    let schema = Schema::from_arrow(b.schema().as_ref());
    let e = binary(column("z"), BinaryOp::Gt, lit(number(1)));
    assert!(prune_row_groups(b.metadata(), &schema, &e).is_err());
}

#[test]
fn zeros_of_either_sign_are_kept() {
    let range = |min, max, v, op| cmp_range(&fraction(min), &fraction(max), &fraction(v), op);
    assert!(range(0.0, 0.0, -0.0, BinaryOp::Eq));
    assert!(range(-0.0, -0.0, 0.0, BinaryOp::Eq));
    assert!(range(0.0, 1.0, 0.0, BinaryOp::Lt));
    assert!(range(0.0, 0.0, 0.0, BinaryOp::Neq));
    assert!(!range(1.0, 2.0, 0.0, BinaryOp::LtEq));
    assert!(!range(-2.0, -1.0, 0.0, BinaryOp::Eq));
}
