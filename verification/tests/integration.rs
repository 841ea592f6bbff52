//! End-to-end pipeline tests over Parquet fixtures.

use std::sync::Arc;

use arrow::array::{
    Array, ArrayRef, AsArray, BooleanArray, Float64Array, Int64Array, RecordBatch, StringArray,
};
use arrow::datatypes::{DataType as ArrowType, Field as ArrowField, Schema as ArrowSchema};
use arrow::error::ArrowError;
use parquet::arrow::arrow_reader::{
    ArrowPredicateFn, ParquetRecordBatchReader, ParquetRecordBatchReaderBuilder, RowFilter,
};
use parquet::arrow::{ArrowWriter, ProjectionMask};
use parquet::file::properties::WriterProperties;

use arbor::error::ArborError;
use arbor::executor::batch::Batch;
use arbor::executor::scan::{rewrite_expr_file_names, row_filter_columns, scan_mask};
use arbor::executor::{
    collect, create_physical_plan, prune_row_groups, scan_requests, Column, PhysicalPlan, ScanExec,
    ScanRequest, BATCH_SIZE,
};
use arbor::optimizer::optimize;
use arbor::parser::parse_sql;
use arbor::planner::{plan_query, BinaryOp, Expr};
use arbor::types::{Catalog, DataType, ScalarValue, Schema};

type Outcome<T> = Result<T, ArborError>;

/// A Parquet file written for one test.
struct Fixture {
    name: String,
    schema: Arc<ArrowSchema>,
    batches: Vec<RecordBatch>,
    row_group_size: usize,
}

impl Fixture {
    fn builder(&self) -> ParquetRecordBatchReaderBuilder<impl parquet::file::reader::ChunkReader> {
        let file = tempfile::tempfile().unwrap();
        let props = WriterProperties::builder()
            .set_max_row_group_size(self.row_group_size)
            .build();
        let copy = file.try_clone().unwrap();
        let mut writer = ArrowWriter::try_new(copy, self.schema.clone(), Some(props)).unwrap();
        for b in &self.batches {
            writer.write(b).unwrap();
        }
        writer.close().unwrap();
        ParquetRecordBatchReaderBuilder::try_new(file).unwrap()
    }
}

fn to_batch(rows: &RecordBatch) -> Batch {
    let schema = Schema::from_arrow(rows.schema().as_ref());
    let columns: Vec<Column> = rows
        .columns()
        .iter()
        .map(|c| Column::from_data(c.to_data()).unwrap())
        .collect();
    Batch::try_new(&schema, &columns, Some(rows.num_rows())).unwrap()
}

fn to_arrow(batch: &Batch) -> RecordBatch {
    let columns: Vec<ArrayRef> = (0..batch.num_columns())
        .map(|i| arrow::array::make_array(batch.column(i).to_data()))
        .collect();
    RecordBatch::try_new(Arc::new(batch.schema().to_arrow()), columns).unwrap()
}

/// Reads a Parquet file batch by batch.
struct FileReader {
    reader: ParquetRecordBatchReader,
    schema: ArrowSchema,
}

impl PhysicalPlan for FileReader {
    fn schema(&self) -> Schema {
        Schema::from_arrow(&self.schema)
    }

    fn next_batch(&mut self) -> Outcome<Option<Batch>> {
        match self.reader.next() {
            None => Ok(None),
            Some(Ok(rows)) => Ok(Some(to_batch(&rows))),
            Some(Err(e)) => Err(ArborError::Execution(e.to_string())),
        }
    }
}

/// Opens the file that a scan asks for, with row-group pruning and a row filter.
fn open(fixture: &Fixture, request: &ScanRequest) -> Outcome<FileReader> {
    let mut builder = fixture.builder();
    let file_schema = builder.schema().clone();
    if let Some(predicate) = &request.predicate {
        let prune = prune_row_groups(builder.metadata(), &request.full_schema, predicate)?;
        builder = builder.with_row_groups(prune.kept);
        let columns = row_filter_columns(predicate, &request.full_schema)?;
        if !columns.is_empty() {
            let rewritten = rewrite_expr_file_names(
                predicate,
                &request.full_schema,
                &Schema::from_arrow(file_schema.as_ref()),
            )?;
            let mask = ProjectionMask::leaves(builder.parquet_schema(), columns);
            let test = ArrowPredicateFn::new(mask, move |rows: RecordBatch| {
                let mask = scan_mask(&rewritten, &to_batch(&rows))
                    .map_err(|e| ArrowError::ComputeError(e.message()))?;
                Ok(BooleanArray::from(mask.to_data()))
            });
            builder = builder.with_row_filter(RowFilter::new(vec![Box::new(test)]));
        }
    }
    if let Some(columns) = &request.projection {
        let mask = ProjectionMask::leaves(builder.parquet_schema(), columns.clone());
        builder = builder.with_projection(mask);
    }
    let reader = builder.with_batch_size(BATCH_SIZE).build().unwrap();
    let schema = reader.schema().as_ref().clone();
    Ok(FileReader { reader, schema })
}

use arrow::array::RecordBatchReader;

fn fixtures() -> (Vec<Fixture>, Catalog) {
    let users_schema = Arc::new(ArrowSchema::new(vec![
        ArrowField::new("id", ArrowType::Int64, false),
        ArrowField::new("name", ArrowType::Utf8, false),
        ArrowField::new("age", ArrowType::Int64, false),
        ArrowField::new("city", ArrowType::Utf8, false),
    ]));
    let mut ids = Vec::new();
    let mut names = Vec::new();
    let mut ages = Vec::new();
    let mut cities = Vec::new();
    let city_choices = ["NYC", "LA", "CHI", "HOU", "PHX"];
    for i in 0..100i64 {
        ids.push(i + 1);
        names.push(format!("user{i}"));
        ages.push(18 + (i % 50));
        cities.push(city_choices[(i as usize) % city_choices.len()].to_string());
    }
    let ub = RecordBatch::try_new(
        users_schema.clone(),
        vec![
            Arc::new(Int64Array::from(ids)),
            Arc::new(StringArray::from(names)),
            Arc::new(Int64Array::from(ages)),
            Arc::new(StringArray::from(cities)),
        ],
    )
    .unwrap();
    let orders_schema = Arc::new(ArrowSchema::new(vec![
        ArrowField::new("order_id", ArrowType::Int64, false),
        ArrowField::new("user_id", ArrowType::Int64, false),
        ArrowField::new("amount", ArrowType::Float64, false),
        ArrowField::new("status", ArrowType::Utf8, false),
    ]));
    let mut oids = Vec::new();
    let mut uids = Vec::new();
    let mut amounts = Vec::new();
    let mut statuses = Vec::new();
    for i in 0..500i64 {
        oids.push(i + 1);
        uids.push((i % 100) + 1);
        amounts.push(10.0 + ((i * 7) % 200) as f64);
        statuses.push(if i % 2 == 0 { "ok" } else { "pending" }.to_string());
    }
    let ob = RecordBatch::try_new(
        orders_schema.clone(),
        vec![
            Arc::new(Int64Array::from(oids)),
            Arc::new(Int64Array::from(uids)),
            Arc::new(Float64Array::from(amounts)),
            Arc::new(StringArray::from(statuses)),
        ],
    )
    .unwrap();
    let mut catalog = Catalog::new();
    catalog.insert("users".to_string(), Schema::from_arrow(&users_schema));
    catalog.insert("orders".to_string(), Schema::from_arrow(&orders_schema));
    let files = vec![
        Fixture {
            name: "users".to_string(),
            schema: users_schema,
            batches: vec![ub],
            row_group_size: 1 << 20,
        },
        Fixture {
            name: "orders".to_string(),
            schema: orders_schema,
            batches: vec![ob],
            row_group_size: 1 << 20,
        },
    ];
    (files, catalog)
}

fn run_query(sql: &str, opt: bool) -> Outcome<Vec<RecordBatch>> {
    let (files, catalog) = fixtures();
    let stmt = parse_sql(sql)?;
    let plan = plan_query(&stmt, &catalog)?;
    let plan = if opt { optimize(plan)? } else { plan };
    let mut sources = Vec::new();
    for request in &scan_requests(&plan) {
        let file = files.iter().find(|f| f.name == request.table_name).unwrap();
        sources.push(open(file, request)?);
    }
    let mut operator = create_physical_plan(&plan, sources)?;
    let batches = collect(&mut *operator)?;
    Ok(batches.iter().map(to_arrow).collect())
}

fn rows(batches: &[RecordBatch]) -> usize {
    batches.iter().map(|b| b.num_rows()).sum()
}

#[test]
fn integration_scan_star() {
    let batches = run_query("SELECT * FROM users", true).unwrap();
    assert_eq!(rows(&batches), 100);
    assert_eq!(batches[0].num_columns(), 4);
}

#[test]
fn integration_filter_project() {
    let batches = run_query("SELECT name, age FROM users WHERE age > 50", true).unwrap();
    let age_idx = 1;
    assert!(rows(&batches) > 0);
    for b in &batches {
        let ages = b.column(age_idx).as_primitive::<arrow::datatypes::Int64Type>();
        for i in 0..b.num_rows() {
            assert!(ages.value(i) > 50);
        }
    }
}

#[test]
fn integration_group_aggregate() {
    let batches =
        run_query("SELECT city, COUNT(*), AVG(age) FROM users GROUP BY city", true).unwrap();
    assert_eq!(rows(&batches), 5);
}

#[test]
fn integration_full_agg() {
    let batches = run_query("SELECT SUM(amount), COUNT(*) FROM orders", true).unwrap();
    assert_eq!(batches.len(), 1);
    assert_eq!(batches[0].num_rows(), 1);
}

#[test]
fn integration_join_filter() {
    let batches = run_query(
        "SELECT u.name, o.amount FROM users u JOIN orders o ON u.id = o.user_id WHERE o.amount > 100.0",
        true,
    )
    .unwrap();
    assert!(rows(&batches) > 0);
    let amt = batches[0].column(1).as_primitive::<arrow::datatypes::Float64Type>();
    for i in 0..batches[0].num_rows() {
        assert!(amt.value(i) > 100.0);
    }
}

#[test]
fn integration_sort_limit() {
    let batches =
        run_query("SELECT name, age FROM users ORDER BY age DESC LIMIT 10", true).unwrap();
    assert_eq!(rows(&batches), 10);
    let ages = batches[0].column(1).as_primitive::<arrow::datatypes::Int64Type>();
    for i in 1..ages.len() {
        assert!(ages.value(i - 1) >= ages.value(i));
    }
}

#[test]
fn integration_complex_query() {
    let batches = run_query(
        "SELECT u.city, SUM(o.amount) AS total FROM users u JOIN orders o ON u.id = o.user_id GROUP BY u.city ORDER BY total DESC LIMIT 5",
        true,
    )
    .unwrap();
    assert_eq!(rows(&batches), 5);
}

#[test]
fn optimizer_equivalence_filter_project() {
    let a = run_query("SELECT name, age FROM users WHERE age > 50", false).unwrap();
    let b = run_query("SELECT name, age FROM users WHERE age > 50", true).unwrap();
    assert_eq!(
        a.iter().map(|x| x.num_rows()).sum::<usize>(),
        b.iter().map(|x| x.num_rows()).sum::<usize>()
    );
}

fn col(name: &str) -> Expr {
    Expr::Column { name: name.into(), relation: None }
}

fn lit_i64(v: i64) -> Expr {
    Expr::Literal(ScalarValue::Int64(v))
}

fn binary(left: Expr, op: BinaryOp, right: Expr) -> Expr {
    Expr::BinaryExpr { left: Box::new(left), op, right: Box::new(right) }
}

fn numbers_file(name: &str, column: &str, values: Vec<i64>, row_group_size: usize) -> Fixture {
    let schema =
        Arc::new(ArrowSchema::new(vec![ArrowField::new(column, ArrowType::Int64, false)]));
    let batch =
        RecordBatch::try_new(schema.clone(), vec![Arc::new(Int64Array::from(values))]).unwrap();
    Fixture { name: name.to_string(), schema, batches: vec![batch], row_group_size }
}

#[test]
fn prunes_row_groups_from_int_min_max() {
    let mut xs = Vec::with_capacity(400);
    for i in 0..400i64 {
        xs.push(i);
    }
    let builder = numbers_file("t", "x", xs, 100).builder();
    assert_eq!(builder.metadata().num_row_groups(), 4);
    // Values 250..280 live only in row group 2 (200..299).
    let pred = binary(
        binary(col("x"), BinaryOp::GtEq, lit_i64(250)),
        BinaryOp::And,
        binary(col("x"), BinaryOp::Lt, lit_i64(280)),
    );
    let schema = Schema::from_arrow(builder.schema().as_ref());
    let stats = prune_row_groups(builder.metadata(), &schema, &pred).unwrap();
    assert_eq!(stats.total, 4);
    assert_eq!(stats.kept, vec![2]);
    assert_eq!(stats.skipped(), 3);
}

#[test]
fn selective_date_predicate_skips_most_row_groups() {
    let total = 10_000u64;
    let dates: Vec<i64> = (0..total).map(|i| 5000 + (i * 6000 / total) as i64).collect();
    let builder = numbers_file("lineitem", "l_shipdate", dates, 1_000).builder();
    assert_eq!(builder.metadata().num_row_groups(), 10);
    let pred = binary(
        binary(col("l_shipdate"), BinaryOp::GtEq, lit_i64(8000)),
        BinaryOp::And,
        binary(col("l_shipdate"), BinaryOp::Lt, lit_i64(8600)),
    );
    let schema = Schema::from_arrow(builder.schema().as_ref());
    let stats = prune_row_groups(builder.metadata(), &schema, &pred).unwrap();
    let skip_fraction = stats.skipped() as f64 / stats.total as f64;
    assert!(
        skip_fraction >= 0.7,
        "expected >=70% skip, got {:.0}% (kept {:?})",
        skip_fraction * 100.0,
        stats.kept
    );
}

#[test]
fn fused_scan_predicate_returns_matching_rows() {
    let xs: Vec<i64> = (0..400).collect();
    let file = numbers_file("t", "x", xs, 100);
    let pred = binary(
        binary(col("x"), BinaryOp::GtEq, lit_i64(250)),
        BinaryOp::And,
        binary(col("x"), BinaryOp::Lt, lit_i64(280)),
    );
    let request = ScanRequest {
        table_name: "t".to_string(),
        projection: None,
        output_schema: Schema::from_arrow(&file.schema),
        full_schema: Schema::from_arrow(&file.schema),
        predicate: Some(pred),
    };
    let reader = open(&file, &request).unwrap();
    let mut plan = ScanExec::new(Some(reader), request.output_schema);
    let batches = collect(&mut plan).unwrap();
    let n: usize = batches.iter().map(|b| b.num_rows()).sum();
    assert_eq!(n, 30);
}

#[test]
fn roundtrip_schema_from_parquet() {
    let schema = Arc::new(ArrowSchema::new(vec![ArrowField::new("id", ArrowType::Int64, true)]));
    let batch =
        RecordBatch::try_new(schema.clone(), vec![Arc::new(Int64Array::from(vec![1, 2, 3]))])
            .unwrap();
    let file =
        Fixture { name: "t".to_string(), schema, batches: vec![batch], row_group_size: 1 << 20 };
    let s = Schema::from_arrow(file.builder().schema().as_ref());
    assert_eq!(s.fields.len(), 1);
    assert_eq!(s.fields[0].name, "id");
    assert!(s.fields[0].data_type == DataType::Int64);
    let mut cat = Catalog::new();
    cat.insert(file.name.clone(), s);
    assert!(cat.contains_key("t"));
}
