# Arbor

A columnar SQL engine over Parquet: a hand-written planner, a rule-based optimizer and pull-based
physical operators over Arrow batches, verified with Verus.

| Area | Support |
|------|---------|
| Queries | `SELECT` only |
| `FROM` | a table, or tables joined by `INNER JOIN … ON` with equalities |
| Names | Table aliases; qualified columns (`u.id`) |
| Filters | `WHERE` with boolean expressions |
| Aggregates | `SUM`, `COUNT`, `COUNT(*)`, `AVG`, `MIN`, `MAX`, with or without `GROUP BY` |
| Order, limit | `ORDER BY`, `LIMIT` |
| Types | 64-bit integers and floats, text, booleans, NULL; other types without parts are carried along |
| Scans | column projection, row-group pruning by statistics, row filters |

Comparisons and arithmetic need equal types on both sides: write `24.0` beside a float column.

## Layout

- `src/parser` opens the syntax tree of `sqlparser` and gives the first statement, if it is a query.
- `src/planner` turns a query into a logical plan over a catalog.
- `src/optimizer` pushes filters down, narrows scans and folds constants.
- `src/executor` runs a plan: batches and Arrow kernels (`batch`), expressions, operators, row-group
  pruning (`prune`) and what a scan asks of its file (`scan`).
- `src/semantics` says what a plan means, row by row, and proves that the operators give what the
  plan means and that the optimizer does not change it.
- `app` is the command line program: Parquet files in `data/`, one query or a prompt, `--explain`.
  `ARBOR_OPTIMIZER_TRACE` prints what each rule makes of the plan, `ARBOR_SCAN_TRACE` how many row
  groups a scan keeps.

A filter right on a scan is handed to the reader, which skips row groups that cannot match and rows
that do not. The filter is applied once more above the scan, so that the rows do not depend on how
much the reader has skipped.

## Floats

A float is held as its IEEE 754 bits. Columns compare floats in the total order of IEEE 754, so that
`-0.0` comes before `0.0` and a NaN after every number; row-group statistics compare them as numbers.

Arrow adds up a float column in an order that depends on the machine. So the sum of a whole column is
known as the sum in some order, with every value added once (`executor::sums`); a group is added up
row by row. Every 64-bit NaN that the engine computes comes out with the same bits.

## What is proved of the optimizer

`law_optimizer_equivalence` says that a plan and its optimized form give the same rows with the same
fields, if

- the plan is `sensible`: scans are not narrowed yet, every column that an expression reads is there,
  a predicate above a projection reads what it would read below it, and joins are inner joins of
  inputs that share no column name;
- the tables fit the plan, and the files deliver their rows (`serves`);
- both runs get to the end, and sums of whole float columns come out the same in both.

`law_queries_keep_their_rows` says the same of planned queries: there it is enough that the tables
have the columns of the catalog and that the query is `well_named`. That is, without aggregation,
`WHERE` reads above the `SELECT` list what it would read below it: a selected output by its name, or
a column that is selected as it is by its qualified name (`SELECT * FROM users u WHERE u.id > 5`).
Where tables are joined, the joins are as above, and `WHERE` reads the joined columns by their names.

Two kinds of query are not `well_named`. A `WHERE` that reads a column which is not selected runs only
when optimized: planning puts it above the projection, and the optimizer moves it below. And in
`SELECT age AS id FROM users u WHERE u.id > 50` the name `u.id` means the output above the projection
and the column of the table below it. Of these too, `law_optimized_queries_give_rows` says what comes
out: any planned query, optimized and run to the end, gives the rows that its plan means with `WHERE`
below the `SELECT` list (`where_below`). Only joins are held to the conditions above.

`law_only_sums_differ` says that sums matter only to plans that ask for a `SUM` or `AVG` of a whole
table.
