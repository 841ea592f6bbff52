//! What the aggregate functions make of a list of values.

use vstd::prelude::*;
use crate::executor::accumulator::{
    acc_finish, acc_start, acc_steps, comparable, law_max_is_greatest, law_min_is_least,
    single_order, slice_order, AccView,
};
use crate::executor::batch::kernels::{all_null, int_total, wrapped};
use crate::executor::batch::{null_cell, null_count, Cell, ColumnView, Outcome};
use crate::executor::full_table::{best, full_value, lemma_best, numeric, valid_count};
use crate::executor::sums::{float_total, is_sum, law_total_is_sum};
use crate::float::{float_of_int, float_quotient, float_sum, is_nan, place, settled};
use crate::order::{scalar_order, Order};
use crate::planner::logical_plan::AggFunc;
use crate::types::{DataType, ScalarView};
use crate::written::conditions::law_texts_are_ordered;
use crate::written::{text_before, value_before};

verus! {

/// What adding the floats, one after the other, to zero comes to.
pub open spec fn added_in_turn(vals: Seq<u64>) -> u64 {
    vals.fold_left(0u64, |s: u64, x: u64| settled(float_sum(s, x)))
}

/// The numbers as floats.
pub open spec fn as_floats(vals: Seq<ScalarView>) -> Seq<u64> {
    Seq::new(
        vals.len(),
        |i: int|
            match vals[i] {
                ScalarView::Float64(x) => x,
                ScalarView::Int64(n) => float_of_int(n),
                _ => 0,
            },
    )
}

/// The sum of the integers among the values.
pub open spec fn ints_added(vals: Seq<ScalarView>) -> int
    decreases vals.len(),
{
    if vals.len() == 0 {
        0
    } else {
        let rest = ints_added(vals.drop_last());
        if vals.last() is Int64 { rest + vals.last()->Int64_0 } else { rest }
    }
}

/// The 64-bit integer is the sum, up to a multiple of two to the 64.
pub open spec fn wraps_to(x: i64, sum: int) -> bool {
    (x - sum) % 0x1_0000_0000_0000_0000 == 0
}

/// Every value is an integer.
pub open spec fn all_ints(vals: Seq<ScalarView>) -> bool {
    forall|i: int| 0 <= i < vals.len() ==> (#[trigger] vals[i]) is Int64
}

/// Every value is a float.
pub open spec fn all_floats(vals: Seq<ScalarView>) -> bool {
    forall|i: int| 0 <= i < vals.len() ==> (#[trigger] vals[i]) is Float64
}

/// Every value is a number.
pub open spec fn all_numbers(vals: Seq<ScalarView>) -> bool {
    forall|i: int| 0 <= i < vals.len() ==> (#[trigger] vals[i]) is Int64 || vals[i] is Float64
}

/// One scalar is less than another of its kind; floats as numbers.
pub open spec fn is_less(a: ScalarView, b: ScalarView) -> bool {
    match (a, b) {
        (ScalarView::Int64(x), ScalarView::Int64(y)) => x < y,
        (ScalarView::Float64(x), ScalarView::Float64(y)) => place(x) < place(y),
        (ScalarView::Utf8(x), ScalarView::Utf8(y)) => text_before(x, y),
        (ScalarView::Boolean(x), ScalarView::Boolean(y)) => !x && y,
        _ => false,
    }
}

/// The values are of one kind, none of them NULL or NaN.
pub open spec fn of_one_kind(vals: Seq<ScalarView>) -> bool {
    &&& all_ints(vals) || all_floats(vals) || (forall|i: int|
        0 <= i < vals.len() ==> (#[trigger] vals[i]) is Utf8) || (forall|i: int|
        0 <= i < vals.len() ==> (#[trigger] vals[i]) is Boolean)
    &&& forall|i: int|
        0 <= i < vals.len() ==> (#[trigger] vals[i] matches ScalarView::Float64(x) ==> !is_nan(x))
}

/// The function has a value on the values of a group: SUM and AVG on numbers of one type, MIN and MAX
/// on values of one type, none of them NULL.
pub open spec fn aggregable(func: AggFunc, vals: Seq<ScalarView>) -> bool {
    match func {
        AggFunc::Count => true,
        AggFunc::Sum => all_ints(vals) || all_floats(vals),
        AggFunc::Avg => all_ints(vals) || all_floats(vals),
        _ => of_one_kind(vals),
    }
}

/// The scalar is what the function makes of the values of a group. COUNT counts them; SUM adds them
/// up, integers around 64 bits; AVG divides the sum by the count; MIN and MAX pick one that none is
/// less, or greater, than.
pub open spec fn aggregates_to(func: AggFunc, vals: Seq<ScalarView>, r: ScalarView) -> bool {
    match func {
        AggFunc::Count => r == ScalarView::Int64(vals.len() as i64),
        AggFunc::Sum => if all_ints(vals) {
            r matches ScalarView::Int64(x) && wraps_to(x, ints_added(vals))
        } else {
            r == ScalarView::Float64(added_in_turn(as_floats(vals)))
        },
        AggFunc::Avg => r == ScalarView::Float64(
            settled(
                float_quotient(added_in_turn(as_floats(vals)), float_of_int(vals.len() as i64)),
            ),
        ),
        AggFunc::Min => vals.contains(r) && forall|i: int|
            0 <= i < vals.len() ==> !is_less(#[trigger] vals[i], r),
        AggFunc::Max => vals.contains(r) && forall|i: int|
            0 <= i < vals.len() ==> !is_less(r, #[trigger] vals[i]),
    }
}

/// Reducing to 64 bits takes away multiples of two to the 64.
proof fn lemma_wraps(n: int)
    ensures
        i64::MIN <= wrapped(n) <= i64::MAX,
        (wrapped(n) - n) % 0x1_0000_0000_0000_0000 == 0,
{
    let m = n % 0x1_0000_0000_0000_0000;
    let q = n / 0x1_0000_0000_0000_0000;
    assert(n == q * 0x1_0000_0000_0000_0000 + m);
    let k = if m >= 0x8000_0000_0000_0000 { -q - 1 } else { -q };
    assert(wrapped(n) - n == k * 0x1_0000_0000_0000_0000) by (nonlinear_arith)
        requires
            n == q * 0x1_0000_0000_0000_0000 + m,
            m >= 0x8000_0000_0000_0000 ==> wrapped(n) == m - 0x1_0000_0000_0000_0000 && k == -q - 1,
            m < 0x8000_0000_0000_0000 ==> wrapped(n) == m && k == -q,
    ;
    assert((k * 0x1_0000_0000_0000_0000) % 0x1_0000_0000_0000_0000 == 0) by (nonlinear_arith);
}

/// Adding to a sum that is known around 64 bits.
proof fn lemma_wraps_step(s: i64, sum: int, x: int)
    requires
        wraps_to(s, sum),
    ensures
        wraps_to(wrapped(s + x) as i64, sum + x),
{
    lemma_wraps(s + x);
    let m: int = 0x1_0000_0000_0000_0000;
    let a = wrapped(s + x) - (s + x);
    let b = s - sum;
    assert(a + b == wrapped(s + x) - (sum + x));
    assert((a + b) % m == 0) by (nonlinear_arith)
        requires
            a % m == 0,
            b % m == 0,
            m == 0x1_0000_0000_0000_0000,
    ;
}

proof fn lemma_floats_step(vals: Seq<ScalarView>)
    requires
        vals.len() > 0,
    ensures
        as_floats(vals).drop_last() == as_floats(vals.drop_last()),
        added_in_turn(as_floats(vals)) == settled(
            float_sum(added_in_turn(as_floats(vals.drop_last())), as_floats(vals).last()),
        ),
{
    assert(as_floats(vals).drop_last() =~= as_floats(vals.drop_last()));
}

/// Law: an AVG that is updated with numbers, in turn, holds their number and what adding them, in
/// turn, to zero comes to. Finished, it is the one divided by the other.
pub proof fn law_avg_adds_up(vals: Seq<ScalarView>, sample: ScalarView)
    requires
        forall|i: int| 0 <= i < vals.len() ==> (#[trigger] vals[i]) is Int64 || vals[i] is Float64,
        vals.len() <= i64::MAX,
    ensures
        acc_steps(acc_start(AggFunc::Avg, sample), vals) == Some(
            AccView::Avg { sum: added_in_turn(as_floats(vals)), n: vals.len() as i64 },
        ),
        vals.len() > 0 ==> acc_finish(
            acc_steps(acc_start(AggFunc::Avg, sample), vals)->Some_0,
        ) == ScalarView::Float64(
            settled(
                float_quotient(added_in_turn(as_floats(vals)), float_of_int(vals.len() as i64)),
            ),
        ),
    decreases vals.len(),
{
    if vals.len() > 0 {
        let rest = vals.drop_last();
        assert forall|i: int| 0 <= i < rest.len() implies (#[trigger] rest[i]) is Int64 || rest[i]
            is Float64 by {
            assert(rest[i] == vals[i]);
        }
        law_avg_adds_up(rest, sample);
        lemma_floats_step(vals);
        assert(vals[vals.len() - 1] is Int64 || vals[vals.len() - 1] is Float64);
        assert(wrapped(vals.len() as int) == vals.len());
    } else {
        assert(as_floats(vals) =~= Seq::empty());
    }
}

/// Law: a SUM that does not begin with an integer and is updated with numbers, in turn, comes to what
/// adding them as floats, in turn, to zero comes to.
pub proof fn law_float_sum_adds_up(vals: Seq<ScalarView>, sample: ScalarView)
    requires
        all_numbers(vals),
        !(sample is Int64),
        vals.len() <= i64::MAX,
    ensures
        acc_steps(acc_start(AggFunc::Sum, sample), vals) == Some(
            AccView::SumF64 { s: added_in_turn(as_floats(vals)), n: vals.len() as i64 },
        ),
    decreases vals.len(),
{
    if vals.len() > 0 {
        let rest = vals.drop_last();
        assert forall|i: int| 0 <= i < rest.len() implies (#[trigger] rest[i]) is Int64 || rest[i]
            is Float64 by {
            assert(rest[i] == vals[i]);
        }
        law_float_sum_adds_up(rest, sample);
        lemma_floats_step(vals);
        assert(vals[vals.len() - 1] is Int64 || vals[vals.len() - 1] is Float64);
        assert(wrapped(vals.len() as int) == vals.len());
    } else {
        assert(as_floats(vals) =~= Seq::empty());
    }
}

/// The accumulator of a function, a sum of integers if it begins with one.
pub open spec fn accumulates(func: AggFunc, sample: ScalarView, a: AccView) -> bool {
    match func {
        AggFunc::Count => a is Count,
        AggFunc::Sum => if sample is Int64 { a is SumI64 } else { a is SumF64 },
        AggFunc::Avg => a is Avg,
        AggFunc::Min => a is Min,
        AggFunc::Max => a is Max,
    }
}

/// Law: SUM and AVG take numbers only, and a SUM that begins with an integer takes integers only: a
/// NULL or any other value among them is refused. COUNT, MIN and MAX take every value.
pub proof fn law_sums_take_numbers(func: AggFunc, sample: ScalarView, vals: Seq<ScalarView>)
    ensures
        acc_steps(acc_start(func, sample), vals) is Some <==> match func {
            AggFunc::Sum => if sample is Int64 { all_ints(vals) } else { all_numbers(vals) },
            AggFunc::Avg => all_numbers(vals),
            _ => true,
        },
        acc_steps(acc_start(func, sample), vals) matches Some(a) ==> accumulates(func, sample, a),
    decreases vals.len(),
{
    if vals.len() > 0 {
        let rest = vals.drop_last();
        let last = vals.last();
        law_sums_take_numbers(func, sample, rest);
        assert(vals[vals.len() - 1] == last);
        assert(all_ints(vals) <==> all_ints(rest) && last is Int64) by {
            assert forall|i: int| 0 <= i < rest.len() implies rest[i] == vals[i] by {}
            if all_ints(vals) {
                assert forall|i: int| 0 <= i < rest.len() implies (#[trigger] rest[i]) is Int64 by {
                    assert(vals[i] is Int64);
                }
            }
            if all_ints(rest) && last is Int64 {
                assert forall|i: int| 0 <= i < vals.len() implies (#[trigger] vals[i]) is Int64 by {
                    if i < rest.len() {
                        assert(rest[i] is Int64);
                    }
                }
            }
        }
        assert(all_numbers(vals) <==> all_numbers(rest) && (last is Int64 || last is Float64)) by {
            if all_numbers(vals) {
                assert forall|i: int| 0 <= i < rest.len() implies (#[trigger] rest[i]) is Int64
                    || rest[i] is Float64 by {
                    assert(vals[i] == rest[i]);
                }
            }
            if all_numbers(rest) && (last is Int64 || last is Float64) {
                assert forall|i: int| 0 <= i < vals.len() implies (#[trigger] vals[i]) is Int64
                    || vals[i] is Float64 by {
                    if i < rest.len() {
                        assert(rest[i] == vals[i]);
                    }
                }
            }
        }
    }
}

/// Law: to a MAX, a NULL among the values of a group is as if it were not there. A MIN begins anew
/// behind it, so that it is the least of the values behind the last NULL.
pub proof fn law_null_among_extremes(a: Seq<ScalarView>, b: Seq<ScalarView>, sample: ScalarView)
    ensures
        acc_steps(acc_start(AggFunc::Max, sample), a.push(ScalarView::Null) + b) == acc_steps(
            acc_start(AggFunc::Max, sample),
            a + b,
        ),
        acc_steps(acc_start(AggFunc::Min, sample), a.push(ScalarView::Null) + b) == acc_steps(
            acc_start(AggFunc::Min, sample),
            b,
        ),
    decreases b.len(),
{
    let all = a.push(ScalarView::Null) + b;
    if b.len() > 0 {
        let c = b.drop_last();
        law_null_among_extremes(a, c, sample);
        assert(all.drop_last() =~= a.push(ScalarView::Null) + c);
        assert((a + b).drop_last() =~= a + c);
    } else {
        assert(all =~= a.push(ScalarView::Null));
        assert(all.drop_last() =~= a);
        assert(a + b =~= a);
        law_sums_take_numbers(AggFunc::Max, sample, a);
        law_sums_take_numbers(AggFunc::Min, sample, a);
        let m = acc_steps(acc_start(AggFunc::Max, sample), a)->Some_0->Max_0;
        let n = acc_steps(acc_start(AggFunc::Min, sample), a)->Some_0->Min_0;
        lemma_null_first(m);
        lemma_null_first(n);
    }
}

/// NULL stands before every other scalar.
proof fn lemma_null_first(m: ScalarView)
    ensures
        m != ScalarView::Null ==> single_order(ScalarView::Null, m) == Order::Less,
{
    reveal_with_fuel(slice_order, 2);
}

/// Law: a SUM that begins with an integer and is updated with integers, in turn, comes to their sum,
/// up to a multiple of two to the 64.
pub proof fn law_int_sum_adds_up(vals: Seq<ScalarView>, sample: ScalarView)
    requires
        all_ints(vals),
        sample is Int64,
    ensures
        acc_steps(acc_start(AggFunc::Sum, sample), vals) matches Some(AccView::SumI64(s)) && wraps_to(
            s,
            ints_added(vals),
        ),
    decreases vals.len(),
{
    if vals.len() > 0 {
        let rest = vals.drop_last();
        assert forall|i: int| 0 <= i < rest.len() implies (#[trigger] rest[i]) is Int64 by {
            assert(rest[i] == vals[i]);
        }
        law_int_sum_adds_up(rest, sample);
        assert(vals[vals.len() - 1] is Int64);
        let s = acc_steps(acc_start(AggFunc::Sum, sample), rest)->Some_0->SumI64_0;
        lemma_wraps_step(s, ints_added(rest), vals.last()->Int64_0 as int);
    }
}

/// Law: a COUNT that is updated with values counts them, whatever they are.
pub proof fn law_count_adds_up(vals: Seq<ScalarView>, sample: ScalarView)
    requires
        vals.len() <= i64::MAX,
    ensures
        acc_steps(acc_start(AggFunc::Count, sample), vals) == Some(
            AccView::Count(vals.len() as i64),
        ),
    decreases vals.len(),
{
    if vals.len() > 0 {
        law_count_adds_up(vals.drop_last(), sample);
        assert(wrapped(vals.len() as int) == vals.len());
    }
}

/// Values of one kind compare.
proof fn lemma_kind_compares(vals: Seq<ScalarView>)
    requires
        of_one_kind(vals),
    ensures
        comparable(vals),
        forall|i: int, j: int|
            0 <= i < vals.len() && 0 <= j < vals.len() ==> {
                &&& (scalar_order(#[trigger] vals[i], #[trigger] vals[j]) == Some(Order::Less))
                    == is_less(vals[i], vals[j])
                &&& (scalar_order(vals[i], vals[j]) == Some(Order::Greater)) == is_less(
                    vals[j],
                    vals[i],
                )
            },
{
    assert forall|i: int, j: int| 0 <= i < vals.len() && 0 <= j < vals.len() implies {
        &&& scalar_order(#[trigger] vals[i], #[trigger] vals[j]) is Some
        &&& (scalar_order(vals[i], vals[j]) == Some(Order::Less)) == is_less(vals[i], vals[j])
        &&& (scalar_order(vals[i], vals[j]) == Some(Order::Greater)) == is_less(vals[j], vals[i])
    } by {
        match (vals[i], vals[j]) {
            (ScalarView::Utf8(x), ScalarView::Utf8(y)) => { law_texts_are_ordered(x, y); },
            _ => {},
        }
    }
}

/// Law: an accumulator that takes in the values of a group, in turn, comes to what its function makes
/// of them.
pub proof fn law_accumulator_aggregates(func: AggFunc, vals: Seq<ScalarView>)
    requires
        vals.len() > 0,
        vals.len() <= i64::MAX,
        aggregable(func, vals),
    ensures
        acc_steps(acc_start(func, vals[0]), vals) is Some,
        aggregates_to(func, vals, acc_finish(acc_steps(acc_start(func, vals[0]), vals)->Some_0)),
{
    match func {
        AggFunc::Count => { law_count_adds_up(vals, vals[0]); },
        AggFunc::Sum => {
            assert(vals[0] == vals[0]);
            if all_ints(vals) {
                law_int_sum_adds_up(vals, vals[0]);
            } else {
                law_float_sum_adds_up(vals, vals[0]);
            }
        },
        AggFunc::Avg => { law_avg_adds_up(vals, vals[0]); },
        AggFunc::Min => {
            lemma_kind_compares(vals);
            law_min_is_least(vals);
            let m = acc_steps(AccView::Min(ScalarView::Null), vals)->Some_0->Min_0;
            let k = choose|k: int| 0 <= k < vals.len() && vals[k] == m;
            assert forall|i: int| 0 <= i < vals.len() implies !is_less(#[trigger] vals[i], m) by {
                assert(scalar_order(vals[i], vals[k]) != Some(Order::Less));
            }
        },
        AggFunc::Max => {
            lemma_kind_compares(vals);
            law_max_is_greatest(vals);
            let m = acc_steps(AccView::Max(ScalarView::Null), vals)->Some_0->Max_0;
            let k = choose|k: int| 0 <= k < vals.len() && vals[k] == m;
            assert forall|i: int| 0 <= i < vals.len() implies !is_less(m, #[trigger] vals[i]) by {
                assert(scalar_order(vals[i], vals[k]) != Some(Order::Greater));
            }
        },
    }
}

/// The values of a column that are not NULL.
pub open spec fn present(cells: Seq<Cell>) -> Seq<Cell> {
    cells.filter(|c: Cell| c != null_cell())
}

/// The scalars in some cells.
pub open spec fn scalars(cells: Seq<Cell>) -> Seq<ScalarView> {
    Seq::new(cells.len(), |i: int| match cells[i] {
        Cell::Scalar(s) => s,
        _ => ScalarView::Null,
    })
}

/// The scalar is what the function makes of a whole column, NULLs aside. COUNT counts the values; SUM
/// adds them up, integers around 64 bits, floats in some order; AVG divides the sum by the count;
/// MIN and MAX pick one that none comes before, or after. Without values COUNT, SUM and AVG are zero,
/// MIN and MAX are NULL.
pub open spec fn totals_to(func: AggFunc, t: DataType, cells: Seq<Cell>, r: ScalarView) -> bool {
    let vals = present(cells);
    match func {
        AggFunc::Count => r == ScalarView::Int64(vals.len() as i64),
        AggFunc::Sum => if t == DataType::Int64 {
            r matches ScalarView::Int64(x) && wraps_to(x, ints_added(scalars(vals)))
        } else if vals.len() == 0 {
            r == ScalarView::Float64(0)
        } else {
            r matches ScalarView::Float64(x) && is_sum(cells, x)
        },
        AggFunc::Avg => if vals.len() == 0 {
            r == ScalarView::Float64(0)
        } else if t == DataType::Int64 {
            exists|s: i64|
                #![trigger float_of_int(s)]
                wraps_to(s, ints_added(scalars(vals))) && r == ScalarView::Float64(
                    settled(float_quotient(float_of_int(s), float_of_int(vals.len() as i64))),
                )
        } else {
            exists|s: u64|
                #![trigger is_sum(cells, s)]
                is_sum(cells, s) && r == ScalarView::Float64(
                    settled(float_quotient(s, float_of_int(vals.len() as i64))),
                )
        },
        AggFunc::Min => if vals.len() == 0 {
            r == ScalarView::Null
        } else {
            vals.contains(Cell::Scalar(r)) && forall|i: int|
                0 <= i < vals.len() ==> !value_before(#[trigger] vals[i], Cell::Scalar(r))
        },
        AggFunc::Max => if vals.len() == 0 {
            r == ScalarView::Null
        } else {
            vals.contains(Cell::Scalar(r)) && forall|i: int|
                0 <= i < vals.len() ==> !value_before(Cell::Scalar(r), #[trigger] vals[i])
        },
    }
}

/// The values that are present: how many, and their sum.
pub proof fn lemma_present(cells: Seq<Cell>)
    ensures
        present(cells).len() == cells.len() - null_count(cells),
        ints_added(scalars(present(cells))) == int_total(cells),
        forall|i: int|
            0 <= i < present(cells).len() ==> cells.contains(#[trigger] present(cells)[i])
                && present(cells)[i] != null_cell(),
        forall|i: int|
            0 <= i < cells.len() && #[trigger] cells[i] != null_cell() ==> present(cells).contains(
                cells[i],
            ),
        all_null(cells) == (present(cells).len() == 0),
    decreases cells.len(),
{
    let p = |c: Cell| c != null_cell();
    reveal(Seq::filter);
    if cells.len() > 0 {
        let rest = cells.drop_last();
        let c = cells.last();
        lemma_present(rest);
        let a = present(rest);
        let b = present(cells);
        if c != null_cell() {
            assert(b == a.push(c));
            assert(scalars(b).drop_last() =~= scalars(a));
            assert(b[a.len() as int] == c);
        } else {
            assert(b == a);
        }
        assert forall|i: int| 0 <= i < b.len() implies cells.contains(#[trigger] b[i]) && b[i]
            != null_cell() by {
            if i < a.len() {
                assert(b[i] == a[i]);
                assert(rest.contains(a[i]));
                let k = choose|k: int| 0 <= k < rest.len() && rest[k] == a[i];
                assert(cells[k] == a[i]);
            } else {
                assert(cells[cells.len() - 1] == c);
            }
        }
        assert forall|i: int|
            0 <= i < cells.len() && #[trigger] cells[i] != null_cell() implies b.contains(cells[i]) by {
            if i < rest.len() {
                assert(rest[i] == cells[i]);
                assert(a.contains(cells[i]));
                let k = choose|k: int| 0 <= k < a.len() && a[k] == cells[i];
                assert(b[k] == cells[i]);
            }
        }
        if all_null(cells) {
            if b.len() > 0 {
                assert(cells.contains(b[0]));
            }
        }
        if b.len() == 0 {
            assert forall|i: int| 0 <= i < cells.len() implies #[trigger] cells[i] == null_cell() by {
                if cells[i] != null_cell() {
                    assert(b.contains(cells[i]));
                }
            }
        }
    } else {
        assert(present(cells) =~= Seq::empty());
        assert(scalars(present(cells)) =~= Seq::empty());
    }
}

/// Law: an aggregate of a whole column of numbers, or a COUNT of any column, comes to what its
/// function makes of the values that are not NULL. AVG is the sum divided by their number.
pub proof fn law_whole_column_aggregates(func: AggFunc, c: ColumnView, guess: u64)
    requires
        c.cells.len() <= i64::MAX,
        func == AggFunc::Count ==> c.data_type != DataType::Null,
        func != AggFunc::Count ==> numeric(c.data_type, c.cells),
    ensures
        full_value(func, c, guess) matches Outcome::Value(r) && totals_to(
            func,
            c.data_type,
            c.cells,
            r,
        ),
{
    let cells = c.cells;
    let vals = present(cells);
    lemma_present(cells);
    crate::executor::batch::lemma_null_count(cells);
    let n = valid_count(c);
    assert(n == vals.len());
    assert(wrapped(n) == n);
    lemma_wraps(int_total(cells));
    law_total_is_sum(cells, guess);
    let s = wrapped(int_total(cells)) as i64;
    let r = full_value(func, c, guess)->Value_0;
    match func {
        AggFunc::Avg => {
            if vals.len() > 0 {
                if c.data_type == DataType::Int64 {
                    assert(wraps_to(s, ints_added(scalars(vals))));
                    assert(r == ScalarView::Float64(
                        settled(float_quotient(float_of_int(s), float_of_int(vals.len() as i64))),
                    ));
                } else {
                    assert(is_sum(cells, float_total(cells, guess)));
                }
            }
        },
        AggFunc::Min => { lemma_best_present(c.data_type, cells, Order::Less); },
        AggFunc::Max => { lemma_best_present(c.data_type, cells, Order::Greater); },
        _ => {},
    }
}

/// The best cell is one that is present, and none stands to it as wanted.
proof fn lemma_best_present(t: DataType, cells: Seq<Cell>, want: Order)
    requires
        numeric(t, cells),
        want == Order::Less || want == Order::Greater,
    ensures
        present(cells).len() == 0 ==> best(cells, want) == null_cell(),
        present(cells).len() > 0 ==> {
            &&& best(cells, want) is Scalar
            &&& present(cells).contains(best(cells, want))
            &&& forall|i: int|
                0 <= i < present(cells).len() ==> {
                    &&& want == Order::Less ==> !value_before(
                        #[trigger] present(cells)[i],
                        best(cells, want),
                    )
                    &&& want == Order::Greater ==> !value_before(
                        best(cells, want),
                        present(cells)[i],
                    )
                }
        },
{
    lemma_present(cells);
    lemma_best(t, cells, want);
    let b = best(cells, want);
    let vals = present(cells);
    if vals.len() > 0 {
        let j = choose|j: int| 0 <= j < cells.len() && cells[j] == b;
        assert(cells[j] != null_cell());
        assert forall|i: int| 0 <= i < vals.len() implies {
            &&& want == Order::Less ==> !value_before(#[trigger] vals[i], b)
            &&& want == Order::Greater ==> !value_before(b, vals[i])
        } by {
            assert(cells.contains(vals[i]));
            let k = choose|k: int| 0 <= k < cells.len() && cells[k] == vals[i];
            assert(crate::executor::batch::fits(t, cells[k]));
            crate::written::conditions::law_values_are_ordered(t, vals[i], b);
            assert(crate::executor::batch::kernels::value_order(cells[k], b) != Some(want));
        }
    }
}

/// Law: without GROUP BY, COUNT takes a column of any type, the other functions one of numbers only.
pub proof fn law_whole_columns_are_of_numbers(func: AggFunc, c: ColumnView, guess: u64)
    ensures
        full_value(func, c, guess) is Value <==> func == AggFunc::Count || c.data_type
            == DataType::Int64 || c.data_type == DataType::Float64,
{
}

} // verus!
