//! Physical operators over batches in memory.

use arbor::error::ArborError;
use arbor::executor::accumulator::{acc_for_func, compare_key_slices, sort_keys};
use arbor::executor::aggregate::{
    agg_arg_expr, agg_func, aggregate_batches, build_grouped_batches,
};
use arbor::executor::batch::Batch;
use arbor::executor::expr_eval::{batch_column_index, scalar_to_array};
use arbor::executor::full_table::{eval_full_table, eval_full_table_agg};
use arbor::executor::keys::KeyTable;
use arbor::executor::physical::EmptyExec;
use arbor::executor::scan::{remap_batch_schema, rewrite_expr_file_names, row_filter_columns, scan_mask, split_column_key};
use arbor::executor::{
    collect, create_physical_plan, evaluate_expr, scan_requests, Column, FilterExec,
    HashAggregateExec, HashJoinExec, LimitExec, PhysicalPlan, ProjectionExec, ScanExec, SortExec,
    BATCH_SIZE,
};
use arbor::optimizer::optimize;
use arbor::order::Order;
use arbor::parser::parse_sql;
use arbor::planner::{plan_query, AggFunc, BinaryOp, Expr, JoinType, LogicalPlan, SortExpr};
use arbor::types::{Catalog, DataType, Field, ScalarValue, Schema};

/// Gives out batches that it holds, then an error where it is to fail.
struct Memory {
    schema: Schema,
    batches: Vec<Batch>,
    failure: Option<String>,
}

impl PhysicalPlan for Memory {
    fn schema(&self) -> Schema {
        self.schema.clone()
    }

    fn next_batch(&mut self) -> Result<Option<Batch>, ArborError> {
        if self.batches.is_empty() {
            return match self.failure.take() {
                Some(s) => Err(ArborError::Execution(s)),
                None => Ok(None),
            };
        }
        Ok(Some(self.batches.remove(0)))
    }
}

fn schema(fields: &[(&str, DataType)]) -> Schema {
    Schema {
        fields: fields
            .iter()
            .map(|(n, t)| Field { name: n.to_string(), data_type: t.clone() })
            .collect(),
    }
}

fn pairs() -> Schema {
    schema(&[("k", DataType::Int64), ("v", DataType::Utf8)])
}

fn pair_batch(rows: &[(Option<i64>, Option<&str>)]) -> Batch {
    let k = Column::of_ints(rows.iter().map(|r| r.0).collect());
    let v = Column::of_texts(rows.iter().map(|r| r.1.map(str::to_string)).collect()).unwrap();
    Batch::try_new(&pairs(), &vec![k, v], None).unwrap()
}

fn source(batches: Vec<Batch>) -> Box<Memory> {
    Box::new(Memory { schema: pairs(), batches, failure: None })
}

fn two_batches() -> Box<Memory> {
    source(vec![
        pair_batch(&[(Some(3), Some("c")), (Some(1), Some("a"))]),
        pair_batch(&[(None, Some("n")), (Some(2), None)]),
    ])
}

fn column(name: &str) -> Expr {
    Expr::Column { name: name.into(), relation: None }
}

fn whole(v: i64) -> Expr {
    Expr::Literal(ScalarValue::Int64(v))
}

fn binary(left: Expr, op: BinaryOp, right: Expr) -> Expr {
    Expr::BinaryExpr { left: Box::new(left), op, right: Box::new(right) }
}

fn aggregate(func: AggFunc, arg: Expr) -> Expr {
    Expr::AggregateFunc { func, arg: Box::new(arg) }
}

fn show(v: Option<ScalarValue>) -> String {
    match v {
        Some(ScalarValue::Int64(n)) => n.to_string(),
        Some(ScalarValue::Float64(b)) => format!("{:?}", f64::from_bits(b)),
        Some(ScalarValue::Utf8(s)) => s,
        Some(ScalarValue::Boolean(b)) => b.to_string(),
        Some(ScalarValue::Null) => "NULL".to_string(),
        None => "?".to_string(),
    }
}

fn rows(batches: &[Batch]) -> Vec<String> {
    let mut out = Vec::new();
    for b in batches {
        for r in 0..b.num_rows() {
            let cells: Vec<String> =
                (0..b.num_columns()).map(|c| show(b.column(c).scalar(r))).collect();
            out.push(cells.join(" "));
        }
    }
    out
}

fn message<T>(r: Result<T, ArborError>) -> String {
    match r {
        Ok(_) => panic!("expected an error"),
        Err(e) => e.message(),
    }
}

#[test]
fn filters_keep_rows_in_order() {
    let mut f = FilterExec::new(two_batches(), binary(column("k"), BinaryOp::GtEq, whole(2))).unwrap();
    let out = collect(&mut f).unwrap();
    assert_eq!(rows(&out), vec!["3 c", "2 NULL"]);
}

#[test]
fn filters_skip_batches_without_rows() {
    let mut f = FilterExec::new(two_batches(), binary(column("k"), BinaryOp::Eq, whole(2))).unwrap();
    let first = f.next_batch().unwrap().unwrap();
    assert_eq!(rows(&[first]), vec!["2 NULL"]);
    assert!(f.next_batch().unwrap().is_none());
}

#[test]
fn filters_need_truth_values() {
    let mut f = FilterExec::new(two_batches(), column("k")).unwrap();
    assert_eq!(message(collect(&mut f)), "execution error: filter mask must be boolean");
    let mut f = FilterExec::new(two_batches(), column("z")).unwrap();
    assert_eq!(message(collect(&mut f)), "execution error: column not in batch: z");
}

#[test]
fn limits_cut_across_batches() {
    for (n, want) in [(0usize, 0usize), (1, 1), (2, 2), (3, 3), (4, 4), (9, 4)] {
        let mut l = LimitExec::new(two_batches(), n);
        let out = collect(&mut l).unwrap();
        assert_eq!(rows(&out).len(), want);
        assert_eq!(rows(&out), rows(&collect(&mut *two_batches()).unwrap())[..want]);
    }
}

#[test]
fn limits_do_not_read_on() {
    let mut m = two_batches();
    m.failure = Some("read too far".to_string());
    let mut l = LimitExec::new(m, 4);
    assert_eq!(rows(&collect(&mut l).unwrap()).len(), 4);
    let mut m = two_batches();
    m.failure = Some("read too far".to_string());
    let mut l = LimitExec::new(m, 5);
    assert_eq!(message(collect(&mut l)), "execution error: read too far");
}

#[test]
fn projections_compute_columns() {
    let exprs = vec![
        (binary(column("k"), BinaryOp::Plus, whole(1)), "x".to_string()),
        (Expr::Literal(ScalarValue::Utf8("t".into())), "y".to_string()),
    ];
    let out_schema = schema(&[("x", DataType::Int64), ("y", DataType::Utf8)]);
    let mut p = ProjectionExec::new(two_batches(), exprs, out_schema);
    assert_eq!(p.schema().fields[0].name, "x");
    assert_eq!(rows(&collect(&mut p).unwrap()), vec!["4 t", "2 t", "NULL t", "3 t"]);
}

#[test]
fn sorting_keeps_every_row() {
    let by = |asc| vec![SortExpr { expr: column("k"), asc }];
    let mut s = SortExec::new(two_batches(), by(true)).unwrap();
    assert_eq!(rows(&collect(&mut s).unwrap()), vec!["1 a", "2 NULL", "3 c", "NULL n"]);
    let mut s = SortExec::new(two_batches(), by(false)).unwrap();
    assert_eq!(rows(&collect(&mut s).unwrap()), vec!["3 c", "2 NULL", "1 a", "NULL n"]);
    let mut s = SortExec::new(source(vec![]), by(true)).unwrap();
    assert!(collect(&mut s).unwrap().is_empty());
}

#[test]
fn joins_pair_rows_with_equal_keys() {
    let left = source(vec![pair_batch(&[
        (Some(1), Some("l1")),
        (Some(2), Some("l2")),
        (Some(1), Some("l3")),
        (Some(4), Some("l4")),
    ])]);
    let right = source(vec![pair_batch(&[
        (Some(2), Some("r1")),
        (Some(1), Some("r2")),
        (Some(1), Some("r3")),
    ])]);
    let on = vec![(column("k"), column("k"))];
    let mut j = HashJoinExec::new(left, right, on, JoinType::Inner).unwrap();
    assert_eq!(j.schema().fields.len(), 4);
    assert_eq!(
        rows(&collect(&mut j).unwrap()),
        vec!["1 l1 1 r2", "1 l1 1 r3", "2 l2 2 r1", "1 l3 1 r2", "1 l3 1 r3"]
    );
}

#[test]
fn joins_without_matches_are_empty() {
    let on = vec![(column("k"), column("k"))];
    let left = source(vec![pair_batch(&[(Some(1), None)])]);
    let right = source(vec![pair_batch(&[(Some(2), None)])]);
    let mut j = HashJoinExec::new(left, right, on.clone(), JoinType::Inner).unwrap();
    assert!(collect(&mut j).unwrap().is_empty());
    let mut j = HashJoinExec::new(two_batches(), source(vec![]), on.clone(), JoinType::Inner).unwrap();
    assert!(collect(&mut j).unwrap().is_empty());
    assert_eq!(
        message(HashJoinExec::new(two_batches(), two_batches(), on, JoinType::Left)),
        "execution error: only INNER hash join is implemented"
    );
}

#[test]
fn groups_come_sorted_by_key() {
    let input = source(vec![
        pair_batch(&[(Some(2), Some("b")), (None, Some("n")), (Some(1), Some("a"))]),
        pair_batch(&[(Some(2), Some("a")), (Some(1), None)]),
    ]);
    let out = schema(&[
        ("k", DataType::Int64),
        ("n", DataType::Int64),
        ("lo", DataType::Utf8),
        ("hi", DataType::Utf8),
    ]);
    let mut a = HashAggregateExec::new(
        input,
        vec![column("k")],
        vec![
            aggregate(AggFunc::Count, Expr::Wildcard),
            aggregate(AggFunc::Min, column("v")),
            aggregate(AggFunc::Max, column("v")),
        ],
        out,
    )
    .unwrap();
    assert_eq!(
        rows(&collect(&mut a).unwrap()),
        vec!["NULL 1 n n", "1 2 NULL a", "2 2 a b"]
    );
}

#[test]
fn grouped_sums_and_means() {
    let s = schema(&[("g", DataType::Utf8), ("i", DataType::Int64), ("f", DataType::Float64)]);
    let g = Column::of_texts(vec![Some("x".into()), Some("y".into()), Some("x".into())]).unwrap();
    let i = Column::of_ints(vec![Some(1), Some(2), Some(5)]);
    let f = Column::of_floats(vec![
        Some(0.5f64.to_bits()),
        Some(2.0f64.to_bits()),
        Some(1.0f64.to_bits()),
    ]);
    let all = Batch::try_new(&s, &vec![g, i, f], None).unwrap();
    let out = schema(&[
        ("g", DataType::Utf8),
        ("a", DataType::Int64),
        ("b", DataType::Float64),
        ("c", DataType::Float64),
    ]);
    let got = build_grouped_batches(
        &all,
        &vec![column("g")],
        &vec![
            aggregate(AggFunc::Sum, column("i")),
            aggregate(AggFunc::Sum, column("f")),
            aggregate(AggFunc::Avg, column("i")),
        ],
        &out,
    )
    .unwrap();
    assert_eq!(rows(&got), vec!["x 6 1.5 3.0", "y 2 2.0 2.0"]);
    assert_eq!(
        message(build_grouped_batches(&all, &vec![column("g")], &vec![], &out)),
        "execution error: aggregate schema mismatch"
    );
    assert_eq!(
        message(build_grouped_batches(&all, &vec![column("g")], &vec![column("i")], &out)),
        "execution error: expected aggregate func"
    );
    assert_eq!(
        message(build_grouped_batches(
            &all,
            &vec![column("g")],
            &vec![aggregate(AggFunc::Sum, column("g"))],
            &schema(&[("g", DataType::Utf8), ("s", DataType::Int64)]),
        )),
        "execution error: accumulator type mismatch"
    );
}

#[test]
fn groups_leave_in_batches_of_standard_size() {
    let n = BATCH_SIZE + 10;
    let s = schema(&[("k", DataType::Int64)]);
    let k = Column::of_ints((0..n as i64).map(|v| Some(n as i64 - v)).collect());
    let all = Batch::try_new(&s, &vec![k], None).unwrap();
    let out = schema(&[("k", DataType::Int64), ("c", DataType::Int64)]);
    let got = build_grouped_batches(
        &all,
        &vec![column("k")],
        &vec![aggregate(AggFunc::Count, Expr::Wildcard)],
        &out,
    )
    .unwrap();
    assert_eq!(got.len(), 2);
    assert_eq!(got[0].num_rows(), BATCH_SIZE);
    assert_eq!(got[1].num_rows(), 10);
    assert_eq!(rows(&got[..1])[0], "1 1");
}

#[test]
fn whole_table_aggregates() {
    let s = schema(&[("i", DataType::Int64), ("f", DataType::Float64), ("t", DataType::Utf8)]);
    let i = Column::of_ints(vec![Some(4), None, Some(-1)]);
    let f = Column::of_floats(vec![Some(0.5f64.to_bits()), Some(2.5f64.to_bits()), None]);
    let t = Column::of_texts(vec![None, None, None]).unwrap();
    let all = Batch::try_new(&s, &vec![i, f, t], None).unwrap();
    let value = |e: Expr, t: DataType| {
        eval_full_table_agg(&all, &vec![e], &schema(&[("x", t)])).map(|b| rows(&[b])[0].clone())
    };
    assert_eq!(value(aggregate(AggFunc::Count, Expr::Wildcard), DataType::Int64).unwrap(), "3");
    assert_eq!(value(aggregate(AggFunc::Sum, column("i")), DataType::Int64).unwrap(), "3");
    assert_eq!(value(aggregate(AggFunc::Sum, column("f")), DataType::Float64).unwrap(), "3.0");
    assert_eq!(value(aggregate(AggFunc::Min, column("i")), DataType::Int64).unwrap(), "-1");
    assert_eq!(value(aggregate(AggFunc::Max, column("i")), DataType::Int64).unwrap(), "4");
    assert_eq!(value(aggregate(AggFunc::Min, column("f")), DataType::Float64).unwrap(), "0.5");
    assert_eq!(value(aggregate(AggFunc::Max, column("f")), DataType::Float64).unwrap(), "2.5");
    assert_eq!(value(aggregate(AggFunc::Avg, column("f")), DataType::Float64).unwrap(), "1.5");
    assert_eq!(
        message(value(aggregate(AggFunc::Sum, column("t")), DataType::Utf8)),
        "execution error: SUM type"
    );
    assert_eq!(
        message(value(aggregate(AggFunc::Min, column("t")), DataType::Utf8)),
        "execution error: MIN type"
    );
    assert_eq!(
        message(value(aggregate(AggFunc::Max, column("t")), DataType::Utf8)),
        "execution error: MAX type"
    );
    assert_eq!(
        message(value(aggregate(AggFunc::Avg, column("t")), DataType::Utf8)),
        "execution error: AVG type"
    );
}

#[test]
fn batches_are_aggregated_together() {
    let batches = two_batches().batches;
    let out = schema(&[("n", DataType::Int64), ("s", DataType::Int64)]);
    let aggrs = vec![
        aggregate(AggFunc::Count, column("k")),
        aggregate(AggFunc::Sum, column("k")),
    ];
    let (got, _) = aggregate_batches(&batches, &vec![], &aggrs, &out);
    assert_eq!(rows(&got.unwrap()), vec!["3 6"]);
}

#[test]
fn aggregating_nothing_gives_one_row_without_groups() {
    let out = schema(&[("n", DataType::Int64), ("s", DataType::Int64), ("m", DataType::Int64)]);
    let aggrs = vec![
        aggregate(AggFunc::Count, Expr::Wildcard),
        aggregate(AggFunc::Sum, column("k")),
        aggregate(AggFunc::Min, column("k")),
    ];
    let (got, _) = aggregate_batches(&vec![], &vec![], &aggrs, &out);
    assert_eq!(rows(&got.unwrap()), vec!["0 0 NULL"]);
    let mut op = HashAggregateExec::new(source(vec![]), vec![], aggrs, out).unwrap();
    assert_eq!(rows(&collect(&mut op).unwrap()), vec!["0 0 NULL"]);
    let (none, _) = aggregate_batches(
        &vec![],
        &vec![column("k")],
        &vec![aggregate(AggFunc::Count, Expr::Wildcard)],
        &schema(&[("k", DataType::Int64), ("n", DataType::Int64)]),
    );
    assert!(none.unwrap().is_empty());
}

#[test]
fn sums_of_floats_add_every_value() {
    let s = schema(&[("f", DataType::Float64)]);
    let values: Vec<f64> = (0..100).map(|i| i as f64 * 0.25).collect();
    let f = Column::of_floats(values.iter().map(|v| Some(v.to_bits())).collect());
    let all = Batch::try_new(&s, &vec![f], None).unwrap();
    let out = schema(&[("s", DataType::Float64), ("n", DataType::Int64)]);
    let aggrs = vec![
        aggregate(AggFunc::Sum, column("f")),
        aggregate(AggFunc::Count, column("f")),
    ];
    let (got, totals) = eval_full_table(&all, &aggrs, &out);
    assert_eq!(rows(&[got.unwrap()]), vec!["1237.5 100"]);
    assert_eq!(f64::from_bits(totals[0]), 1237.5);
}

#[test]
fn least_and_greatest_of_several_updates() {
    let mut least = acc_for_func(AggFunc::Min, &ScalarValue::Int64(5));
    let mut greatest = acc_for_func(AggFunc::Max, &ScalarValue::Int64(5));
    for v in [7, -3, 4] {
        least.update(ScalarValue::Int64(v)).unwrap();
        greatest.update(ScalarValue::Int64(v)).unwrap();
    }
    let mut turned = acc_for_func(AggFunc::Min, &ScalarValue::Int64(5));
    for v in [4, -3, 7] {
        turned.update(ScalarValue::Int64(v)).unwrap();
    }
    assert!(turned.finish() == least.finish());
    assert!(least.finish() == ScalarValue::Int64(-3));
    assert!(greatest.finish() == ScalarValue::Int64(7));
}

#[test]
fn aggregate_expressions_are_taken_apart() {
    let e = Expr::Alias {
        expr: Box::new(aggregate(AggFunc::Max, column("v"))),
        name: "m".into(),
    };
    assert!(agg_func(&e).unwrap() == AggFunc::Max);
    assert_eq!(agg_arg_expr(&e).unwrap().describe(), "v");
    assert_eq!(message(agg_func(&column("v"))), "execution error: expected aggregate func");
    assert_eq!(message(agg_arg_expr(&column("v"))), "execution error: expected aggregate expr");
}

#[test]
fn accumulators_take_values_one_by_one() {
    let mut sum = acc_for_func(AggFunc::Sum, &ScalarValue::Int64(1));
    sum.update(ScalarValue::Int64(2)).unwrap();
    sum.update(ScalarValue::Int64(3)).unwrap();
    assert!(sum.finish() == ScalarValue::Int64(5));
    assert_eq!(
        message(sum.update(ScalarValue::Utf8("x".into()))),
        "execution error: accumulator type mismatch"
    );
    let avg = acc_for_func(AggFunc::Avg, &ScalarValue::Int64(1));
    assert!(avg.finish() == ScalarValue::Null);
}

#[test]
fn keys_compare_place_by_place() {
    let key = |a: Option<i64>, b: &str| {
        vec![
            a.map_or(ScalarValue::Null, ScalarValue::Int64),
            ScalarValue::Utf8(b.to_string()),
        ]
    };
    assert_eq!(compare_key_slices(&key(Some(1), "b"), &key(Some(1), "a")), Order::Greater);
    assert_eq!(compare_key_slices(&key(None, "b"), &key(Some(1), "a")), Order::Less);
    assert_eq!(compare_key_slices(&key(None, "b"), &key(None, "b")), Order::Equal);
    let keys = vec![key(Some(2), "x"), key(None, "z"), key(Some(1), "y"), key(Some(1), "a")];
    assert_eq!(sort_keys(&vec![0, 1, 2, 3], &keys), vec![1, 3, 2, 0]);
}

#[test]
fn key_tables_number_keys_as_they_come() {
    let key = |n: i64| vec![ScalarValue::Int64(n)];
    let mut t = KeyTable::new();
    assert!(t.find(&key(5)).is_none());
    t.insert(key(5));
    t.insert(key(7));
    assert_eq!(t.find(&key(7)), Some(1));
    assert_eq!(t.find(&key(5)), Some(0));
    assert_eq!(t.keys().len(), 2);
}

#[test]
fn expressions_that_no_row_has_a_value_for() {
    let b = pair_batch(&[(Some(1), Some("a"))]);
    assert_eq!(
        message(evaluate_expr(&Expr::Wildcard, &b)),
        "execution error: wildcard cannot be evaluated row-wise"
    );
    assert_eq!(
        message(evaluate_expr(&aggregate(AggFunc::Sum, column("k")), &b)),
        "execution error: aggregate expression not supported in row-wise eval"
    );
    let qualified = Expr::Column { name: "k".into(), relation: Some("t".into()) };
    assert!(evaluate_expr(&qualified, &b).unwrap().scalar(0) == Some(ScalarValue::Int64(1)));
    assert_eq!(batch_column_index(&pairs(), "v", None).unwrap(), 1);
    assert_eq!(
        message(batch_column_index(&pairs(), "z", Some(&"t".to_string()))),
        "execution error: column not in batch: t.z"
    );
}

#[test]
fn constants_fill_columns() {
    for (s, want) in [
        (ScalarValue::Int64(3), "3"),
        (ScalarValue::Float64(0.5f64.to_bits()), "0.5"),
        (ScalarValue::Utf8("t".into()), "t"),
        (ScalarValue::Boolean(true), "true"),
        (ScalarValue::Null, "NULL"),
    ] {
        let c = scalar_to_array(&s, 2).unwrap();
        assert_eq!(c.len(), 2);
        assert_eq!(show(c.scalar(1)), want);
    }
}

#[test]
fn empty_plans_have_no_rows() {
    let mut e = EmptyExec::new(pairs());
    assert_eq!(e.schema().fields.len(), 2);
    assert!(collect(&mut e).unwrap().is_empty());
}

#[test]
fn scans_put_the_fields_of_the_plan_over_a_file() {
    let b = pair_batch(&[(Some(1), Some("a"))]);
    let logical = schema(&[("t.k", DataType::Int64), ("t.v", DataType::Utf8)]);
    let named = remap_batch_schema(&b, &logical).unwrap();
    assert_eq!(named.schema().fields[1].name, "t.v");
    assert_eq!(rows(&[named]), vec!["1 a"]);
    assert_eq!(
        message(remap_batch_schema(&b, &schema(&[("k", DataType::Int64)]))),
        "execution error: column mismatch: batch 2 logical 1"
    );
    let mut s = ScanExec::new(Some(*two_batches()), logical.clone());
    assert_eq!(rows(&collect(&mut s).unwrap()).len(), 4);
    let mut s: ScanExec<Memory> = ScanExec::new(None, logical);
    assert!(collect(&mut s).unwrap().is_empty());
}

#[test]
fn predicates_are_put_in_terms_of_the_file() {
    let logical = schema(&[("t.k", DataType::Int64), ("t.v", DataType::Utf8)]);
    let file = schema(&[("k", DataType::Int64), ("v", DataType::Utf8)]);
    let k = Expr::Column { name: "k".into(), relation: Some("t".into()) };
    let e = binary(k, BinaryOp::Gt, whole(1));
    assert_eq!(rewrite_expr_file_names(&e, &logical, &file).unwrap().describe(), "(k > 1)");
    assert_eq!(row_filter_columns(&e, &logical).unwrap(), vec![0]);
    let b = pair_batch(&[(Some(1), None), (Some(2), None)]);
    let mask = scan_mask(&rewrite_expr_file_names(&e, &logical, &file).unwrap(), &b).unwrap();
    assert_eq!(show(mask.scalar(0)), "false");
    assert_eq!(show(mask.scalar(1)), "true");
    assert_eq!(
        message(scan_mask(&column("k"), &b)),
        "execution error: scan predicate must be boolean"
    );
    let short = schema(&[]);
    assert_eq!(
        message(rewrite_expr_file_names(&e, &logical, &short)),
        "execution error: column index 0 out of file schema"
    );
    assert_eq!(split_column_key("a.b.c"), ("c", Some("a.b")));
    assert_eq!(split_column_key("c"), ("c", None));
}

fn run(p: &LogicalPlan) -> Result<Vec<String>, ArborError> {
    let mut files = Vec::new();
    for r in scan_requests(p) {
        let batches: Vec<Batch> = two_batches()
            .batches
            .iter()
            .map(|b| {
                let idxs: Vec<usize> = match &r.projection {
                    Some(v) => v.clone(),
                    None => (0..b.num_columns()).collect(),
                };
                let fields = idxs.iter().map(|i| pairs().fields[*i].clone()).collect();
                let columns: Vec<Column> = idxs.iter().map(|i| b.column(*i)).collect();
                Batch::try_new(&Schema { fields }, &columns, Some(b.num_rows())).unwrap()
            })
            .collect();
        files.push(Memory { schema: r.output_schema.clone(), batches, failure: None });
    }
    let mut op = create_physical_plan(p, files)?;
    Ok(rows(&collect(&mut *op)?))
}

#[test]
fn optimized_and_plain_plans_give_the_same_rows() {
    let mut catalog = Catalog::new();
    catalog.insert("t".into(), pairs());
    for sql in [
        "SELECT k, v FROM t WHERE k > 1",
        "SELECT k, k + 1 AS n FROM t WHERE k > 1 ORDER BY n DESC",
        "SELECT k, COUNT(*) FROM t GROUP BY k ORDER BY k LIMIT 2",
        "SELECT x.v, y.k FROM t x JOIN t y ON x.k = y.k WHERE y.k < 3",
        "SELECT COUNT(*) FROM t",
        "SELECT COUNT(*) FROM t WHERE k > 100",
        "SELECT k AS x FROM t",
        "SELECT x.k FROM t x",
        "SELECT * FROM t x WHERE x.k > 1",
        "SELECT k, v FROM t x WHERE x.k > 1",
        "SELECT x.k AS k FROM t x JOIN t y ON x.k = y.k WHERE x.k > 1",
        "SELECT k AS a, v AS a FROM t",
        "SELECT k FROM t x WHERE k > 1 ORDER BY x.k",
        "SELECT x.k, COUNT(x.v) FROM t x WHERE x.k > 1 GROUP BY x.k ORDER BY x.k",
        "SELECT x.v, y.k FROM t x JOIN t y ON y.k = x.k",
    ] {
        let plan = plan_query(&parse_sql(sql).unwrap(), &catalog).unwrap();
        let plain = run(&plan).unwrap();
        assert_eq!(plain, run(&optimize(plan).unwrap()).unwrap(), "{sql}");
        assert!(!plain.is_empty(), "{sql}");
    }
}

#[test]
fn optimized_filters_read_the_table() {
    let mut catalog = Catalog::new();
    catalog.insert("t".into(), pairs());
    for (sql, below) in [
        ("SELECT v FROM t WHERE k > 1", "SELECT v, k FROM t WHERE k > 1"),
        ("SELECT v AS k FROM t x WHERE x.k > 1", "SELECT v, k FROM t x WHERE k > 1"),
        (
            "SELECT v FROM t WHERE k > 1 ORDER BY v LIMIT 1",
            "SELECT v, k FROM t WHERE k > 1 ORDER BY v LIMIT 1",
        ),
    ] {
        let plan = plan_query(&parse_sql(sql).unwrap(), &catalog).unwrap();
        assert!(run(&plan).is_err(), "{sql}");
        let shown = run(&optimize(plan).unwrap()).unwrap();
        let wide = plan_query(&parse_sql(below).unwrap(), &catalog).unwrap();
        let wanted: Vec<String> = run(&wide)
            .unwrap()
            .iter()
            .map(|r| r.split(' ').next().unwrap().to_string())
            .collect();
        assert_eq!(shown, wanted, "{sql}");
        assert!(!shown.is_empty(), "{sql}");
    }
}

#[test]
fn requests_name_what_a_scan_reads() {
    let mut catalog = Catalog::new();
    catalog.insert("t".into(), pairs());
    let plan = plan_query(&parse_sql("SELECT k FROM t WHERE k > 1").unwrap(), &catalog).unwrap();
    let requests = scan_requests(&optimize(plan).unwrap());
    assert_eq!(requests.len(), 1);
    assert_eq!(requests[0].table_name, "t");
    assert_eq!(requests[0].projection, Some(vec![0]));
    assert_eq!(requests[0].output_schema.fields.len(), 1);
    assert_eq!(requests[0].full_schema.fields.len(), 2);
    assert_eq!(requests[0].predicate.as_ref().unwrap().describe(), "(k > 1)");
}
