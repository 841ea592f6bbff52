//! Row-group pruning: which row groups of a Parquet file can hold rows for a predicate.

use vstd::prelude::*;
use parquet::file::metadata::ParquetMetaData;
use parquet::file::statistics::Statistics;
use crate::error::{ArborError, ErrorView};
use crate::executor::expr_eval::{batch_column_index, column_at, no_column};
use crate::float::{float_is_nan, is_nan, is_zero, total_below, total_place};
use crate::order::{compare_scalars, scalar_order, Order};
use crate::optimizer::predicate_pushdown::strip_alias;
use crate::planner::logical_plan::{opt_view, BinaryOp, Expr, ExprView};
use crate::types::{FieldView, ScalarValue, ScalarView, Schema};

verus! {

/// The metadata of a Parquet file.
#[verifier::external_type_specification]
#[verifier::external_body]
pub struct ExParquetMetaData(ParquetMetaData);

/// The number of row groups of a file.
pub uninterp spec fn group_count(m: ParquetMetaData) -> nat;

/// The number of columns of a row group.
pub uninterp spec fn group_width(m: ParquetMetaData, group: nat) -> nat;

/// A column of a row group has statistics with least and greatest value.
pub uninterp spec fn has_bounds(m: ParquetMetaData, group: nat, column: nat) -> bool;

/// The least value of a column of a row group, where it is a scalar.
pub uninterp spec fn least_of(m: ParquetMetaData, group: nat, column: nat) -> Option<ScalarView>;

/// The greatest value of a column of a row group, where it is a scalar.
pub uninterp spec fn greatest_of(m: ParquetMetaData, group: nat, column: nat) -> Option<ScalarView>;

/// The least and greatest value of a column of a row group, where they are scalars.
pub open spec fn bounds_of(m: ParquetMetaData, group: nat, column: nat) -> Option<
    (ScalarView, ScalarView),
> {
    match (least_of(m, group, column), greatest_of(m, group, column)) {
        (Some(a), Some(b)) => Some((a, b)),
        _ => None,
    }
}

/// The value of an optional scalar.
pub open spec fn opt_scalar(s: Option<ScalarValue>) -> Option<ScalarView> {
    match s {
        Some(x) => Some(x@),
        None => None,
    }
}

/// The least and greatest value of a column.
#[derive(Debug)]
pub struct Bounds {
    /// The least value.
    pub min: ScalarValue,
    /// The greatest value.
    pub max: ScalarValue,
}

/// The value of optional [`Bounds`].
pub open spec fn bounds_view(b: Option<Bounds>) -> Option<(ScalarView, ScalarView)> {
    match b {
        Some(x) => Some((x.min@, x.max@)),
        None => None,
    }
}

/// The values of the bounds of some columns.
pub open spec fn bounds_views(bs: Seq<Option<Bounds>>) -> Seq<Option<(ScalarView, ScalarView)>> {
    Seq::new(bs.len(), |i: int| bounds_view(bs[i]))
}

/// The bounds of the columns of a row group.
pub open spec fn group_bounds(m: ParquetMetaData, group: nat) -> Seq<
    Option<(ScalarView, ScalarView)>,
> {
    Seq::new(
        group_width(m, group),
        |c: int|
            if has_bounds(m, group, c as nat) { bounds_of(m, group, c as nat) } else { None },
    )
}

/// `ParquetMetaData::num_row_groups`.
#[verifier::external_body]
fn count_groups(m: &ParquetMetaData) -> (r: usize)
    ensures
        r == group_count(*m),
{
    m.num_row_groups()
}

/// `RowGroupMetaData::num_columns`.
#[verifier::external_body]
fn count_columns(m: &ParquetMetaData, group: usize) -> (r: usize)
    requires
        group < group_count(*m),
    ensures
        r == group_width(*m, group as nat),
{
    m.row_group(group).num_columns()
}

/// `Statistics::has_min_max_set`; a column without statistics has no bounds.
#[verifier::external_body]
fn are_bounds_set(m: &ParquetMetaData, group: usize, column: usize) -> (r: bool)
    requires
        group < group_count(*m),
        column < group_width(*m, group as nat),
    ensures
        r == has_bounds(*m, group as nat, column as nat),
{
    m.row_group(group).column(column).statistics().is_some_and(|s| s.has_min_max_set())
}

/// `ValueStatistics::min` of a column's `Statistics`: an integer, a float, a boolean or a byte array
/// that is UTF-8. Other statistics give nothing.
#[verifier::external_body]
fn read_least(m: &ParquetMetaData, group: usize, column: usize) -> (r: Option<ScalarValue>)
    requires
        group < group_count(*m),
        column < group_width(*m, group as nat),
        has_bounds(*m, group as nat, column as nat),
    ensures
        opt_scalar(r) == least_of(*m, group as nat, column as nat),
{
    match m.row_group(group).column(column).statistics()? {
        Statistics::Int64(s) => Some(ScalarValue::Int64(*s.min())),
        Statistics::Double(s) => Some(ScalarValue::Float64(s.min().to_bits())),
        Statistics::Boolean(s) => Some(ScalarValue::Boolean(*s.min())),
        Statistics::ByteArray(s) => Some(ScalarValue::Utf8(s.min().as_utf8().ok()?.to_string())),
        _ => None,
    }
}

/// `ValueStatistics::max` of a column's `Statistics`: an integer, a float, a boolean or a byte array
/// that is UTF-8. Other statistics give nothing.
#[verifier::external_body]
fn read_greatest(m: &ParquetMetaData, group: usize, column: usize) -> (r: Option<ScalarValue>)
    requires
        group < group_count(*m),
        column < group_width(*m, group as nat),
        has_bounds(*m, group as nat, column as nat),
    ensures
        opt_scalar(r) == greatest_of(*m, group as nat, column as nat),
{
    match m.row_group(group).column(column).statistics()? {
        Statistics::Int64(s) => Some(ScalarValue::Int64(*s.max())),
        Statistics::Double(s) => Some(ScalarValue::Float64(s.max().to_bits())),
        Statistics::Boolean(s) => Some(ScalarValue::Boolean(*s.max())),
        Statistics::ByteArray(s) => Some(ScalarValue::Utf8(s.max().as_utf8().ok()?.to_string())),
        _ => None,
    }
}

/// The bounds of a column of a row group.
fn read_bounds(m: &ParquetMetaData, group: usize, column: usize) -> (r: Option<Bounds>)
    requires
        group < group_count(*m),
        column < group_width(*m, group as nat),
        has_bounds(*m, group as nat, column as nat),
    ensures
        bounds_view(r) == bounds_of(*m, group as nat, column as nat),
{
    match (read_least(m, group, column), read_greatest(m, group, column)) {
        (Some(min), Some(max)) => Some(Bounds { min, max }),
        _ => None,
    }
}

/// The comparison with its sides exchanged.
pub open spec fn flipped(op: BinaryOp) -> BinaryOp {
    match op {
        BinaryOp::Lt => BinaryOp::Gt,
        BinaryOp::Gt => BinaryOp::Lt,
        BinaryOp::LtEq => BinaryOp::GtEq,
        BinaryOp::GtEq => BinaryOp::LtEq,
        _ => op,
    }
}

/// The least float that a least value stands for: statistics do not tell zeros apart.
pub open spec fn lowest(a: u64) -> u64 {
    if is_zero(a) { 0x8000_0000_0000_0000 } else { a }
}

/// The greatest float that a greatest value stands for: statistics do not tell zeros apart.
pub open spec fn highest(a: u64) -> u64 {
    if is_zero(a) { 0 } else { a }
}

/// Some float between `min` and `max` can compare so with `v` in a column. A NaN bounds nothing.
pub open spec fn floats_meet(min: u64, max: u64, v: u64, op: BinaryOp) -> bool {
    let lo = total_place(lowest(min));
    let hi = total_place(highest(max));
    let at = total_place(v);
    is_nan(min) || is_nan(max) || match op {
        BinaryOp::Eq => lo <= at <= hi,
        BinaryOp::Neq => !(lo == hi && lo == at),
        BinaryOp::Lt => lo < at,
        BinaryOp::LtEq => lo <= at,
        BinaryOp::Gt => hi > at,
        BinaryOp::GtEq => hi >= at,
        _ => true,
    }
}

/// Some value between `min` and `max` can compare so with `v` in a column.
pub open spec fn range_meets(min: ScalarView, max: ScalarView, v: ScalarView, op: BinaryOp) -> bool {
    match (min, max, v) {
        (ScalarView::Float64(a), ScalarView::Float64(b), ScalarView::Float64(x)) => floats_meet(
            a,
            b,
            x,
            op,
        ),
        _ => scalars_meet(min, max, v, op),
    }
}

/// Some scalar between `min` and `max` can compare so with `v`.
pub open spec fn scalars_meet(min: ScalarView, max: ScalarView, v: ScalarView, op: BinaryOp) -> bool {
    let low = scalar_order(min, v);
    let high = scalar_order(max, v);
    match op {
        BinaryOp::Eq => (low == Some(Order::Less) || low == Some(Order::Equal)) && (high == Some(
            Order::Greater,
        ) || high == Some(Order::Equal)),
        BinaryOp::Neq => !(scalar_order(min, max) == Some(Order::Equal) && low == Some(
            Order::Equal,
        )),
        BinaryOp::Lt => low == Some(Order::Less),
        BinaryOp::LtEq => low == Some(Order::Less) || low == Some(Order::Equal),
        BinaryOp::Gt => high == Some(Order::Greater),
        BinaryOp::GtEq => high == Some(Order::Greater) || high == Some(Order::Equal),
        _ => true,
    }
}

/// The scalars are of one kind, and not NULL.
pub open spec fn same_kind(a: ScalarView, b: ScalarView) -> bool {
    match (a, b) {
        (ScalarView::Int64(_), ScalarView::Int64(_)) => true,
        (ScalarView::Float64(_), ScalarView::Float64(_)) => true,
        (ScalarView::Utf8(_), ScalarView::Utf8(_)) => true,
        (ScalarView::Boolean(_), ScalarView::Boolean(_)) => true,
        _ => false,
    }
}

/// A column with these bounds can hold a value that compares so with the constant. Without bounds
/// of the constant's kind nothing can be told.
pub open spec fn bounds_meet(
    bounds: Option<(ScalarView, ScalarView)>,
    op: BinaryOp,
    lit: ScalarView,
) -> bool {
    match bounds {
        Some(b) => if same_kind(b.0, lit) && same_kind(b.1, lit) {
            range_meets(b.0, b.1, lit, op)
        } else {
            true
        },
        None => true,
    }
}

/// The operator is a comparison.
pub open spec fn is_comparison(op: BinaryOp) -> bool {
    op == BinaryOp::Eq || op == BinaryOp::Neq || op == BinaryOp::Lt || op == BinaryOp::Gt || op
        == BinaryOp::LtEq || op == BinaryOp::GtEq
}

/// The column, the operator and the constant of a comparison between a column and a constant, the
/// column put first.
pub open spec fn column_test(e: ExprView, fields: Seq<FieldView>) -> Result<
    Option<(int, BinaryOp, ScalarView)>,
    ErrorView,
> {
    match strip_alias(e) {
        ExprView::Binary { left, op, right } => if !is_comparison(op) {
            Ok(None)
        } else {
            match (*left, *right) {
                (ExprView::Column { name, relation }, ExprView::Literal(v)) => match column_at(
                    fields,
                    name,
                    relation,
                ) {
                    Some(i) => Ok(Some((i, op, v))),
                    None => Err(no_column(name, relation)),
                },
                (ExprView::Literal(v), ExprView::Column { name, relation }) => match column_at(
                    fields,
                    name,
                    relation,
                ) {
                    Some(i) => Ok(Some((i, flipped(op), v))),
                    None => Err(no_column(name, relation)),
                },
                _ => Ok(None),
            }
        },
        _ => Ok(None),
    }
}

/// Rows with these bounds can satisfy the predicate. What cannot be told from bounds counts as
/// possible.
pub open spec fn can_match(
    e: ExprView,
    bounds: Seq<Option<(ScalarView, ScalarView)>>,
    fields: Seq<FieldView>,
) -> Result<bool, ErrorView>
    decreases e,
{
    match e {
        ExprView::Alias { expr, .. } => can_match(*expr, bounds, fields),
        ExprView::Binary { left, op: BinaryOp::And, right } => match can_match(
            *left,
            bounds,
            fields,
        ) {
            Ok(true) => can_match(*right, bounds, fields),
            other => other,
        },
        ExprView::Binary { left, op: BinaryOp::Or, right } => match can_match(
            *left,
            bounds,
            fields,
        ) {
            Ok(false) => can_match(*right, bounds, fields),
            other => other,
        },
        _ => match column_test(e, fields) {
            Err(x) => Err(x),
            Ok(None) => Ok(true),
            Ok(Some(t)) => if t.0 >= bounds.len() {
                Ok(true)
            } else {
                Ok(bounds_meet(bounds[t.0], t.1, t.2))
            },
        },
    }
}

/// The row groups from `from` on that can hold rows for the predicate, ascending.
pub open spec fn groups_kept(
    m: ParquetMetaData,
    fields: Seq<FieldView>,
    predicate: ExprView,
    from: nat,
) -> Result<Seq<usize>, ErrorView>
    decreases group_count(m) - from,
{
    if from >= group_count(m) {
        Ok(Seq::empty())
    } else {
        match can_match(predicate, group_bounds(m, from), fields) {
            Err(x) => Err(x),
            Ok(keep) => match groups_kept(m, fields, predicate, from + 1) {
                Err(x) => Err(x),
                Ok(rest) => Ok(if keep { seq![from as usize] + rest } else { rest }),
            },
        }
    }
}

/// Summary of min/max row-group pruning against a scan predicate.
#[derive(Debug)]
pub struct RowGroupPruneStats {
    /// Total row groups in the file.
    pub total: usize,
    /// Indexes of row groups that may contain matching rows.
    pub kept: Vec<usize>,
}

impl RowGroupPruneStats {
    /// Number of row groups skipped because their statistics cannot satisfy the predicate.
    pub fn skipped(&self) -> (r: usize)
        ensures
            r == if self.total >= self.kept.len() { self.total - self.kept.len() } else { 0 },
    {
        self.total.saturating_sub(self.kept.len())
    }
}

impl Clone for RowGroupPruneStats {
    fn clone(&self) -> (r: RowGroupPruneStats)
        ensures
            r.total == self.total,
            r.kept@ == self.kept@,
    {
        let kept = self.kept.clone();
        proof {
            assert(kept@ =~= self.kept@);
        }
        RowGroupPruneStats { total: self.total, kept }
    }
}

impl PartialEq for RowGroupPruneStats {
    fn eq(&self, other: &RowGroupPruneStats) -> (r: bool) {
        let n: usize = self.kept.len();
        if self.total != other.total || n != other.kept.len() {
            return false;
        }
        let mut i: usize = 0;
        while i < n
            invariant
                i <= n,
                n == self.kept.len(),
                n == other.kept.len(),
                forall|k: int| 0 <= k < i ==> self.kept[k] == other.kept[k],
            decreases n - i,
        {
            if self.kept[i] != other.kept[i] {
                return false;
            }
            i = i + 1;
        }
        proof {
            assert(self.kept@ =~= other.kept@);
        }
        true
    }
}

impl vstd::std_specs::cmp::PartialEqSpecImpl for RowGroupPruneStats {
    open spec fn obeys_eq_spec() -> bool {
        true
    }

    open spec fn eq_spec(&self, other: &RowGroupPruneStats) -> bool {
        self.total == other.total && self.kept@ == other.kept@
    }
}

impl Eq for RowGroupPruneStats {}

/// The comparison with its sides exchanged.
pub fn flip_cmp_op(op: BinaryOp) -> (r: BinaryOp)
    ensures
        r == flipped(op),
{
    match op {
        BinaryOp::Lt => BinaryOp::Gt,
        BinaryOp::Gt => BinaryOp::Lt,
        BinaryOp::LtEq => BinaryOp::GtEq,
        BinaryOp::GtEq => BinaryOp::LtEq,
        other => other,
    }
}

/// Whether the bits are those of a zero.
fn is_zero_float(a: u64) -> (r: bool)
    ensures
        r == is_zero(a),
{
    a == 0 || a == 0x8000_0000_0000_0000
}

/// Whether some float between `min` and `max` can compare so with `v` in a column.
fn do_floats_meet(min: u64, max: u64, v: u64, op: BinaryOp) -> (r: bool)
    ensures
        r == floats_meet(min, max, v, op),
{
    if float_is_nan(min) || float_is_nan(max) {
        return true;
    }
    let lo: u64 = if is_zero_float(min) { 0x8000_0000_0000_0000 } else { min };
    let hi: u64 = if is_zero_float(max) { 0 } else { max };
    match op {
        BinaryOp::Eq => !total_below(v, lo) && !total_below(hi, v),
        BinaryOp::Neq => {
            total_below(lo, hi) || total_below(hi, lo) || total_below(lo, v) || total_below(v, lo)
        },
        BinaryOp::Lt => total_below(lo, v),
        BinaryOp::LtEq => !total_below(v, lo),
        BinaryOp::Gt => total_below(v, hi),
        BinaryOp::GtEq => !total_below(hi, v),
        _ => true,
    }
}

/// Whether some value between `min` and `max` can compare so with `v` in a column.
pub fn cmp_range(min: &ScalarValue, max: &ScalarValue, v: &ScalarValue, op: BinaryOp) -> (r: bool)
    ensures
        r == range_meets(min@, max@, v@, op),
{
    match (min, max, v) {
        (ScalarValue::Float64(a), ScalarValue::Float64(b), ScalarValue::Float64(x)) => {
            return do_floats_meet(*a, *b, *x, op);
        },
        _ => {},
    }
    let low = compare_scalars(min, v);
    let high = compare_scalars(max, v);
    match op {
        BinaryOp::Eq => {
            matches!(low, Some(Order::Less) | Some(Order::Equal))
                && matches!(high, Some(Order::Greater) | Some(Order::Equal))
        },
        BinaryOp::Neq => {
            !(matches!(compare_scalars(min, max), Some(Order::Equal))
                && matches!(low, Some(Order::Equal)))
        },
        BinaryOp::Lt => matches!(low, Some(Order::Less)),
        BinaryOp::LtEq => matches!(low, Some(Order::Less) | Some(Order::Equal)),
        BinaryOp::Gt => matches!(high, Some(Order::Greater)),
        BinaryOp::GtEq => matches!(high, Some(Order::Greater) | Some(Order::Equal)),
        _ => true,
    }
}

fn are_same_kind(a: &ScalarValue, b: &ScalarValue) -> (r: bool)
    ensures
        r == same_kind(a@, b@),
{
    match (a, b) {
        (ScalarValue::Int64(_), ScalarValue::Int64(_)) => true,
        (ScalarValue::Float64(_), ScalarValue::Float64(_)) => true,
        (ScalarValue::Utf8(_), ScalarValue::Utf8(_)) => true,
        (ScalarValue::Boolean(_), ScalarValue::Boolean(_)) => true,
        _ => false,
    }
}

/// Whether a column with these bounds can hold a value that compares so with the constant.
pub fn stats_can_match(stats: &Option<Bounds>, op: BinaryOp, lit: &ScalarValue) -> (r: bool)
    ensures
        r == bounds_meet(bounds_view(*stats), op, lit@),
{
    match stats {
        Some(b) => {
            if are_same_kind(&b.min, lit) && are_same_kind(&b.max, lit) {
                cmp_range(&b.min, &b.max, lit, op)
            } else {
                true
            }
        },
        None => true,
    }
}

/// The value of a column test.
pub open spec fn test_view(t: (usize, BinaryOp, ScalarValue)) -> (int, BinaryOp, ScalarView) {
    (t.0 as int, t.1, t.2@)
}

/// The column, the operator and the constant of a comparison between a column and a constant.
pub fn extract_col_cmp(expr: &Expr, logical: &Schema) -> (r: Result<
    Option<(usize, BinaryOp, ScalarValue)>,
    ArborError,
>)
    ensures
        match r {
            Ok(Some(t)) => column_test(expr@, logical@) == Ok::<_, ErrorView>(
                Some(test_view(t)),
            ),
            Ok(None) => column_test(expr@, logical@) == Ok::<
                Option<(int, BinaryOp, ScalarView)>,
                ErrorView,
            >(None),
            Err(e) => column_test(expr@, logical@) == Err::<
                Option<(int, BinaryOp, ScalarView)>,
                ErrorView,
            >(e@),
        },
{
    let plain = match expr {
        Expr::Alias { expr: inner, .. } => &**inner,
        _ => expr,
    };
    proof {
        assert(plain@ == strip_alias(expr@));
    }
    match plain {
        Expr::BinaryExpr { left, op, right } => {
            match op {
                BinaryOp::And
                | BinaryOp::Or
                | BinaryOp::Plus
                | BinaryOp::Minus
                | BinaryOp::Mul
                | BinaryOp::Div => {
                    return Ok(None);
                },
                _ => {},
            }
            proof {
                assert((**left)@ is Column <==> **left is Column);
                assert((**left)@ is Literal <==> **left is Literal);
                assert((**right)@ is Column <==> **right is Column);
                assert((**right)@ is Literal <==> **right is Literal);
            }
            match (&**left, &**right) {
                (Expr::Column { name, relation }, Expr::Literal(v)) => {
                    proof {
                        let r = opt_view(*relation);
                        assert((**left)@ == ExprView::Column { name: name@, relation: r });
                        assert((**right)@ == ExprView::Literal(v@));
                    }
                    match batch_column_index(logical, name.as_str(), relation.as_ref()) {
                        Ok(i) => Ok(Some((i, *op, v.clone()))),
                        Err(e) => Err(e),
                    }
                },
                (Expr::Literal(v), Expr::Column { name, relation }) => {
                    proof {
                        let r = opt_view(*relation);
                        assert((**right)@ == ExprView::Column { name: name@, relation: r });
                        assert((**left)@ == ExprView::Literal(v@));
                    }
                    match batch_column_index(logical, name.as_str(), relation.as_ref()) {
                        Ok(i) => Ok(Some((i, flip_cmp_op(*op), v.clone()))),
                        Err(e) => Err(e),
                    }
                },
                _ => Ok(None),
            }
        },
        _ => Ok(None),
    }
}

/// Whether rows with these bounds can satisfy the predicate.
pub fn row_group_can_match(bounds: &Vec<Option<Bounds>>, logical: &Schema, expr: &Expr) -> (r: Result<
    bool,
    ArborError,
>)
    ensures
        match r {
            Ok(b) => can_match(expr@, bounds_views(bounds@), logical@) == Ok::<bool, ErrorView>(b),
            Err(e) => can_match(expr@, bounds_views(bounds@), logical@) == Err::<bool, ErrorView>(
                e@,
            ),
        },
    decreases expr,
{
    match expr {
        Expr::Alias { expr, .. } => row_group_can_match(bounds, logical, expr),
        Expr::BinaryExpr { left, op: BinaryOp::And, right } => {
            match row_group_can_match(bounds, logical, left) {
                Ok(true) => row_group_can_match(bounds, logical, right),
                other => other,
            }
        },
        Expr::BinaryExpr { left, op: BinaryOp::Or, right } => {
            match row_group_can_match(bounds, logical, left) {
                Ok(false) => row_group_can_match(bounds, logical, right),
                other => other,
            }
        },
        other => match extract_col_cmp(other, logical) {
            Ok(Some((idx, op, lit))) => {
                if idx >= bounds.len() {
                    Ok(true)
                } else {
                    Ok(stats_can_match(&bounds[idx], op, &lit))
                }
            },
            Ok(None) => Ok(true),
            Err(e) => Err(e),
        },
    }
}

/// Reads the bounds of the columns of a row group.
fn read_group(m: &ParquetMetaData, group: usize) -> (r: Vec<Option<Bounds>>)
    requires
        group < group_count(*m),
    ensures
        bounds_views(r@) == group_bounds(*m, group as nat),
{
    let n: usize = count_columns(m, group);
    let mut out: Vec<Option<Bounds>> = Vec::new();
    let mut c: usize = 0;
    while c < n
        invariant
            c <= n,
            group < group_count(*m),
            n == group_width(*m, group as nat),
            out.len() == c,
            forall|k: int|
                0 <= k < c ==> bounds_view(#[trigger] out[k]) == group_bounds(*m, group as nat)[k],
        decreases n - c,
    {
        let b = if are_bounds_set(m, group, c) { read_bounds(m, group, c) } else { None };
        out.push(b);
        c = c + 1;
    }
    proof {
        assert(bounds_views(out@) =~= group_bounds(*m, group as nat));
    }
    out
}

/// Selects row groups whose column statistics can satisfy `predicate`.
///
/// Conservative: if a conjunct cannot be interpreted against statistics, the row group is kept.
pub fn prune_row_groups(metadata: &ParquetMetaData, logical_schema: &Schema, predicate: &Expr) -> (r:
    Result<RowGroupPruneStats, ArborError>)
    ensures
        match r {
            Ok(s) => s.total == group_count(*metadata) && groups_kept(
                *metadata,
                logical_schema@,
                predicate@,
                0,
            ) == Ok::<Seq<usize>, ErrorView>(s.kept@),
            Err(e) => groups_kept(*metadata, logical_schema@, predicate@, 0) == Err::<
                Seq<usize>,
                ErrorView,
            >(e@),
        },
{
    let total: usize = count_groups(metadata);
    let ghost whole = groups_kept(*metadata, logical_schema@, predicate@, 0);
    let mut kept: Vec<usize> = Vec::new();
    let mut i: usize = 0;
    proof {
        if whole is Ok {
            assert(kept@ + whole->Ok_0 =~= whole->Ok_0);
        }
    }
    while i < total
        invariant
            i <= total,
            total == group_count(*metadata),
            whole == groups_kept(*metadata, logical_schema@, predicate@, 0),
            match groups_kept(*metadata, logical_schema@, predicate@, i as nat) {
                Ok(rest) => whole == Ok::<Seq<usize>, ErrorView>(kept@ + rest),
                Err(e) => whole == Err::<Seq<usize>, ErrorView>(e),
            },
        decreases total - i,
    {
        let ghost before = kept@;
        let ghost rest = groups_kept(*metadata, logical_schema@, predicate@, (i + 1) as nat);
        let bounds = read_group(metadata, i);
        match row_group_can_match(&bounds, logical_schema, predicate) {
            Ok(keep) => {
                if keep {
                    kept.push(i);
                    proof {
                        if rest is Ok {
                            assert(before + (seq![i] + rest->Ok_0) =~= kept@ + rest->Ok_0);
                        }
                    }
                }
            },
            Err(e) => {
                return Err(e);
            },
        }
        i = i + 1;
    }
    proof {
        assert(kept@ + Seq::<usize>::empty() =~= kept@);
    }
    Ok(RowGroupPruneStats { total, kept })
}

} // verus!
