//! Accumulators of grouped aggregation, and how group keys compare.

use vstd::prelude::*;
use crate::error::{ArborError, ErrorView};
use crate::executor::batch::kernels::wrapped;
use crate::executor::keys::key_views;
use crate::float::{
    float_of_int, float_over, float_plus, float_quotient, float_sum, int_to_float, settle, settled,
};
use crate::order::{compare_scalars, lemma_order_reversed, lemma_order_steps, scalar_order, Order};
use crate::planner::logical_plan::AggFunc;
use crate::types::{views, ScalarValue, ScalarView};

verus! {

/// How two scalars stand in a key: NULL first, a NaN at the place of anything. Scalars of different
/// kinds do not compare.
pub open spec fn step_order(x: ScalarView, y: ScalarView) -> Option<Order> {
    match (x, y) {
        (ScalarView::Null, ScalarView::Null) => Some(Order::Equal),
        (ScalarView::Null, _) => Some(Order::Less),
        (_, ScalarView::Null) => Some(Order::Greater),
        (ScalarView::Float64(_), ScalarView::Float64(_)) => Some(
            match scalar_order(x, y) {
                Some(o) => o,
                None => Order::Equal,
            },
        ),
        _ => scalar_order(x, y),
    }
}

/// How two keys stand: by the first place in which they differ, a shorter one before its
/// continuations. From scalars of different kinds on, nothing is compared.
pub open spec fn slice_order(a: Seq<ScalarView>, b: Seq<ScalarView>) -> Order
    decreases a.len(),
{
    if a.len() == 0 {
        if b.len() == 0 { Order::Equal } else { Order::Less }
    } else if b.len() == 0 {
        Order::Greater
    } else {
        match step_order(a[0], b[0]) {
            None => Order::Equal,
            Some(Order::Equal) => slice_order(a.skip(1), b.skip(1)),
            Some(o) => o,
        }
    }
}

/// How two single scalars stand as keys.
pub open spec fn single_order(x: ScalarView, y: ScalarView) -> Order {
    slice_order(seq![x], seq![y])
}

fn compare_step(x: &ScalarValue, y: &ScalarValue) -> (r: Option<Order>)
    ensures
        r == step_order(x@, y@),
{
    match (x, y) {
        (ScalarValue::Null, ScalarValue::Null) => Some(Order::Equal),
        (ScalarValue::Null, _) => Some(Order::Less),
        (_, ScalarValue::Null) => Some(Order::Greater),
        (ScalarValue::Float64(_), ScalarValue::Float64(_)) => match compare_scalars(x, y) {
            Some(o) => Some(o),
            None => Some(Order::Equal),
        },
        _ => compare_scalars(x, y),
    }
}

/// Compares two keys.
pub fn compare_key_slices(a: &Vec<ScalarValue>, b: &Vec<ScalarValue>) -> (r: Order)
    ensures
        r == slice_order(views(a@), views(b@)),
{
    let ghost x = views(a@);
    let ghost y = views(b@);
    let mut i: usize = 0;
    proof {
        assert(x.skip(0) =~= x);
        assert(y.skip(0) =~= y);
    }
    while i < a.len() && i < b.len()
        invariant
            i <= a.len(),
            i <= b.len(),
            x == views(a@),
            y == views(b@),
            slice_order(x, y) == slice_order(x.skip(i as int), y.skip(i as int)),
        decreases a.len() - i,
    {
        proof {
            assert(x.skip(i as int)[0] == a[i as int]@);
            assert(y.skip(i as int)[0] == b[i as int]@);
            assert(x.skip(i as int).skip(1) =~= x.skip(i + 1));
            assert(y.skip(i as int).skip(1) =~= y.skip(i + 1));
        }
        match compare_step(&a[i], &b[i]) {
            None => {
                return Order::Equal;
            },
            Some(o) => {
                if !(o == Order::Equal) {
                    return o;
                }
            },
        }
        i = i + 1;
    }
    if i < a.len() {
        Order::Greater
    } else if i < b.len() {
        Order::Less
    } else {
        Order::Equal
    }
}

/// Compares two single scalars as keys.
fn compare_single(x: &ScalarValue, y: &ScalarValue) -> (r: Order)
    ensures
        r == single_order(x@, y@),
{
    proof {
        assert(seq![x@].skip(1) =~= Seq::empty());
        assert(seq![y@].skip(1) =~= Seq::empty());
        reveal_with_fuel(slice_order, 2);
    }
    match compare_step(x, y) {
        None => Order::Equal,
        Some(o) => o,
    }
}

/// What has been gathered for one aggregate of one group.
#[derive(Debug)]
pub enum Acc {
    /// Rows.
    Count(i64),
    /// Sum of floats.
    SumF64 {
        /// The sum.
        s: u64,
        /// How many.
        n: i64,
    },
    /// Sum of integers.
    SumI64(i64),
    /// Least value.
    Min(ScalarValue),
    /// Greatest value.
    Max(ScalarValue),
    /// Mean.
    Avg {
        /// The sum.
        sum: u64,
        /// How many.
        n: i64,
    },
}

/// The value of an [`Acc`].
pub enum AccView {
    Count(i64),
    SumF64 { s: u64, n: i64 },
    SumI64(i64),
    Min(ScalarView),
    Max(ScalarView),
    Avg { sum: u64, n: i64 },
}

impl View for Acc {
    type V = AccView;

    open spec fn view(&self) -> AccView {
        match self {
            Acc::Count(c) => AccView::Count(*c),
            Acc::SumF64 { s, n } => AccView::SumF64 { s: *s, n: *n },
            Acc::SumI64(s) => AccView::SumI64(*s),
            Acc::Min(m) => AccView::Min(m@),
            Acc::Max(m) => AccView::Max(m@),
            Acc::Avg { sum, n } => AccView::Avg { sum: *sum, n: *n },
        }
    }
}

/// The accumulator with one more value, or nothing where the value does not fit it. Counters and
/// integer sums wrap around.
pub open spec fn acc_step(a: AccView, v: ScalarView) -> Option<AccView> {
    match a {
        AccView::Count(c) => Some(AccView::Count(wrapped(c + 1) as i64)),
        AccView::SumI64(s) => match v {
            ScalarView::Int64(x) => Some(AccView::SumI64(wrapped(s + x) as i64)),
            _ => None,
        },
        AccView::SumF64 { s, n } => match v {
            ScalarView::Int64(x) => Some(
                AccView::SumF64 {
                    s: settled(float_sum(s, float_of_int(x))),
                    n: wrapped(n + 1) as i64,
                },
            ),
            ScalarView::Float64(x) => Some(
                AccView::SumF64 { s: settled(float_sum(s, x)), n: wrapped(n + 1) as i64 },
            ),
            _ => None,
        },
        AccView::Avg { sum, n } => match v {
            ScalarView::Int64(x) => Some(
                AccView::Avg {
                    sum: settled(float_sum(sum, float_of_int(x))),
                    n: wrapped(n + 1) as i64,
                },
            ),
            ScalarView::Float64(x) => Some(
                AccView::Avg { sum: settled(float_sum(sum, x)), n: wrapped(n + 1) as i64 },
            ),
            _ => None,
        },
        AccView::Min(m) => Some(
            AccView::Min(
                if m == ScalarView::Null || single_order(v, m) == Order::Less { v } else { m },
            ),
        ),
        AccView::Max(m) => Some(
            AccView::Max(
                if m == ScalarView::Null || single_order(v, m) == Order::Greater { v } else { m },
            ),
        ),
    }
}

/// What an accumulator comes to.
pub open spec fn acc_finish(a: AccView) -> ScalarView {
    match a {
        AccView::Count(c) => ScalarView::Int64(c),
        AccView::SumI64(s) => ScalarView::Int64(s),
        AccView::SumF64 { s, .. } => ScalarView::Float64(s),
        AccView::Min(m) => m,
        AccView::Max(m) => m,
        AccView::Avg { sum, n } => if n > 0 {
            ScalarView::Float64(settled(float_quotient(sum, float_of_int(n))))
        } else {
            ScalarView::Null
        },
    }
}

/// The accumulator that a group starts with; a sum is one of integers if its first value is one.
pub open spec fn acc_start(func: AggFunc, sample: ScalarView) -> AccView {
    match func {
        AggFunc::Count => AccView::Count(0),
        AggFunc::Sum => match sample {
            ScalarView::Int64(_) => AccView::SumI64(0),
            _ => AccView::SumF64 { s: 0, n: 0 },
        },
        AggFunc::Avg => AccView::Avg { sum: 0, n: 0 },
        AggFunc::Min => AccView::Min(ScalarView::Null),
        AggFunc::Max => AccView::Max(ScalarView::Null),
    }
}

/// The sum of two integers, wrapping around.
pub fn wrapping_sum(a: i64, b: i64) -> (r: i64)
    ensures
        r == wrapped(a + b),
{
    a.wrapping_add(b)
}

impl Acc {
    /// Takes in one more value.
    pub fn update(&mut self, v: ScalarValue) -> (r: Result<(), ArborError>)
        ensures
            match r {
                Ok(_) => acc_step(old(self)@, v@) == Some(final(self)@),
                Err(e) => acc_step(old(self)@, v@) is None && e@ == ErrorView::Execution(
                    "accumulator type mismatch"@,
                ) && final(self)@ == old(self)@,
            },
    {
        let next: Option<Acc> = match (&*self, &v) {
            (Acc::Count(c), _) => Some(Acc::Count(wrapping_sum(*c, 1))),
            (Acc::SumI64(s), ScalarValue::Int64(x)) => Some(Acc::SumI64(wrapping_sum(*s, *x))),
            (Acc::SumF64 { s, n }, ScalarValue::Int64(x)) => Some(
                Acc::SumF64 {
                    s: settle(float_plus(*s, int_to_float(*x))),
                    n: wrapping_sum(*n, 1),
                },
            ),
            (Acc::SumF64 { s, n }, ScalarValue::Float64(x)) => Some(
                Acc::SumF64 { s: settle(float_plus(*s, *x)), n: wrapping_sum(*n, 1) },
            ),
            (Acc::Avg { sum, n }, ScalarValue::Int64(x)) => Some(
                Acc::Avg {
                    sum: settle(float_plus(*sum, int_to_float(*x))),
                    n: wrapping_sum(*n, 1),
                },
            ),
            (Acc::Avg { sum, n }, ScalarValue::Float64(x)) => Some(
                Acc::Avg { sum: settle(float_plus(*sum, *x)), n: wrapping_sum(*n, 1) },
            ),
            (Acc::Min(m), _) => {
                if *m == ScalarValue::Null || compare_single(&v, m) == Order::Less {
                    Some(Acc::Min(v.clone()))
                } else {
                    Some(Acc::Min(m.clone()))
                }
            },
            (Acc::Max(m), _) => {
                if *m == ScalarValue::Null || compare_single(&v, m) == Order::Greater {
                    Some(Acc::Max(v.clone()))
                } else {
                    Some(Acc::Max(m.clone()))
                }
            },
            _ => None,
        };
        match next {
            Some(a) => {
                *self = a;
                Ok(())
            },
            None => Err(ArborError::Execution("accumulator type mismatch".to_string())),
        }
    }

    /// What this accumulator comes to.
    pub fn finish(&self) -> (r: ScalarValue)
        ensures
            r@ == acc_finish(self@),
    {
        match self {
            Acc::Count(c) => ScalarValue::Int64(*c),
            Acc::SumI64(s) => ScalarValue::Int64(*s),
            Acc::SumF64 { s, .. } => ScalarValue::Float64(*s),
            Acc::Min(m) => m.clone(),
            Acc::Max(m) => m.clone(),
            Acc::Avg { sum, n } => {
                if *n > 0 {
                    ScalarValue::Float64(settle(float_over(*sum, int_to_float(*n))))
                } else {
                    ScalarValue::Null
                }
            },
        }
    }
}

/// The accumulator that a group starts with.
pub fn acc_for_func(func: AggFunc, arg_sample: &ScalarValue) -> (r: Acc)
    ensures
        r@ == acc_start(func, arg_sample@),
{
    match func {
        AggFunc::Count => Acc::Count(0),
        AggFunc::Sum => match arg_sample {
            ScalarValue::Int64(_) => Acc::SumI64(0),
            _ => Acc::SumF64 { s: 0, n: 0 },
        },
        AggFunc::Avg => Acc::Avg { sum: 0, n: 0 },
        AggFunc::Min => Acc::Min(ScalarValue::Null),
        AggFunc::Max => Acc::Max(ScalarValue::Null),
    }
}

/// Two sorted lists of rows put together in order; of rows that stand equal, those of the first
/// list come first.
pub open spec fn merged(
    a: Seq<usize>,
    b: Seq<usize>,
    keys: Seq<Seq<ScalarView>>,
) -> Seq<usize>
    decreases a.len() + b.len(),
{
    if a.len() == 0 {
        b
    } else if b.len() == 0 {
        a
    } else if slice_order(keys[a[0] as int], keys[b[0] as int]) == Order::Greater {
        seq![b[0]] + merged(a, b.skip(1), keys)
    } else {
        seq![a[0]] + merged(a.skip(1), b, keys)
    }
}

/// Rows sorted by their keys, half by half.
pub open spec fn key_sorted(rows: Seq<usize>, keys: Seq<Seq<ScalarView>>) -> Seq<usize>
    decreases rows.len(),
{
    if rows.len() <= 1 {
        rows
    } else {
        let half = rows.len() / 2;
        merged(
            key_sorted(rows.take(half as int), keys),
            key_sorted(rows.skip(half as int), keys),
            keys,
        )
    }
}

/// Puts two sorted lists of rows together.
fn merge_rows(a: &Vec<usize>, b: &Vec<usize>, keys: &Vec<Vec<ScalarValue>>) -> (r: Vec<usize>)
    requires
        forall|i: int| 0 <= i < a.len() ==> #[trigger] a[i] < keys.len(),
        forall|i: int| 0 <= i < b.len() ==> #[trigger] b[i] < keys.len(),
    ensures
        r@ == merged(a@, b@, key_views(keys@)),
{
    let ghost ks = key_views(keys@);
    let ghost whole = merged(a@, b@, ks);
    let mut out: Vec<usize> = Vec::new();
    let mut i: usize = 0;
    let mut j: usize = 0;
    proof {
        assert(a@.skip(0) =~= a@);
        assert(b@.skip(0) =~= b@);
        assert(out@ + whole =~= whole);
    }
    while i < a.len() || j < b.len()
        invariant
            i <= a.len(),
            j <= b.len(),
            forall|k: int| 0 <= k < a.len() ==> #[trigger] a[k] < keys.len(),
            forall|k: int| 0 <= k < b.len() ==> #[trigger] b[k] < keys.len(),
            ks == key_views(keys@),
            whole == out@ + merged(a@.skip(i as int), b@.skip(j as int), ks),
        decreases a.len() - i + b.len() - j,
    {
        let ghost x = a@.skip(i as int);
        let ghost y = b@.skip(j as int);
        let ghost before = out@;
        proof {
            if x.len() > 0 {
                assert(x[0] == a[i as int]);
                assert(x.skip(1) =~= a@.skip(i + 1));
                assert(x =~= seq![x[0]] + x.skip(1));
            }
            if y.len() > 0 {
                assert(y[0] == b[j as int]);
                assert(y.skip(1) =~= b@.skip(j + 1));
                assert(y =~= seq![y[0]] + y.skip(1));
            }
        }
        let from_right = if i >= a.len() {
            true
        } else if j >= b.len() {
            false
        } else {
            compare_key_slices(&keys[a[i]], &keys[b[j]]) == Order::Greater
        };
        if from_right {
            out.push(b[j]);
            j = j + 1;
            proof {
                assert(merged(x, y, ks) =~= seq![y[0]] + merged(x, y.skip(1), ks));
                assert(before + (seq![y[0]] + merged(x, y.skip(1), ks)) =~= out@ + merged(
                    x,
                    y.skip(1),
                    ks,
                ));
            }
        } else {
            out.push(a[i]);
            i = i + 1;
            proof {
                assert(merged(x, y, ks) =~= seq![x[0]] + merged(x.skip(1), y, ks));
                assert(before + (seq![x[0]] + merged(x.skip(1), y, ks)) =~= out@ + merged(
                    x.skip(1),
                    y,
                    ks,
                ));
            }
        }
    }
    proof {
        assert(merged(a@.skip(i as int), b@.skip(j as int), ks) =~= Seq::empty());
        assert(out@ + Seq::<usize>::empty() =~= out@);
    }
    out
}

/// Every row that a merge gives is one of the two lists.
proof fn lemma_merged_below(a: Seq<usize>, b: Seq<usize>, keys: Seq<Seq<ScalarView>>, n: nat)
    requires
        forall|i: int| 0 <= i < a.len() ==> #[trigger] a[i] < n,
        forall|i: int| 0 <= i < b.len() ==> #[trigger] b[i] < n,
    ensures
        forall|i: int| 0 <= i < merged(a, b, keys).len() ==> #[trigger] merged(a, b, keys)[i] < n,
        merged(a, b, keys).len() == a.len() + b.len(),
    decreases a.len() + b.len(),
{
    if a.len() > 0 && b.len() > 0 {
        lemma_merged_below(a, b.skip(1), keys, n);
        lemma_merged_below(a.skip(1), b, keys, n);
    }
}

/// Sorting rows gives rows of the same list.
pub proof fn lemma_key_sorted_below(rows: Seq<usize>, keys: Seq<Seq<ScalarView>>, n: nat)
    requires
        forall|i: int| 0 <= i < rows.len() ==> #[trigger] rows[i] < n,
    ensures
        key_sorted(rows, keys).len() == rows.len(),
        forall|i: int|
            0 <= i < key_sorted(rows, keys).len() ==> #[trigger] key_sorted(rows, keys)[i] < n,
    decreases rows.len(),
{
    if rows.len() > 1 {
        let half = rows.len() / 2;
        lemma_key_sorted_below(rows.take(half as int), keys, n);
        lemma_key_sorted_below(rows.skip(half as int), keys, n);
        lemma_merged_below(
            key_sorted(rows.take(half as int), keys),
            key_sorted(rows.skip(half as int), keys),
            keys,
            n,
        );
    }
}

/// Sorts rows by their keys.
pub fn sort_keys(rows: &Vec<usize>, keys: &Vec<Vec<ScalarValue>>) -> (r: Vec<usize>)
    requires
        forall|i: int| 0 <= i < rows.len() ==> #[trigger] rows[i] < keys.len(),
    ensures
        r@ == key_sorted(rows@, key_views(keys@)),
        r.len() == rows.len(),
        forall|i: int| 0 <= i < r.len() ==> #[trigger] r[i] < keys.len(),
    decreases rows.len(),
{
    let n: usize = rows.len();
    if n <= 1 {
        let same = rows.clone();
        proof {
            assert(same@ =~= rows@);
        }
        return same;
    }
    let half: usize = n / 2;
    let mut first: Vec<usize> = Vec::new();
    let mut second: Vec<usize> = Vec::new();
    let mut i: usize = 0;
    while i < n
        invariant
            i <= n,
            n == rows.len(),
            half == n / 2,
            first@ == rows@.take(if i < half { i as int } else { half as int }),
            second@ == if i < half { Seq::empty() } else { rows@.subrange(half as int, i as int) },
        decreases n - i,
    {
        if i < half {
            first.push(rows[i]);
        } else {
            second.push(rows[i]);
        }
        i = i + 1;
        proof {
            assert(first@ =~= rows@.take(if i < half { i as int } else { half as int }));
            assert(second@ =~= if i < half {
                Seq::empty()
            } else {
                rows@.subrange(half as int, i as int)
            });
        }
    }
    proof {
        assert(second@ =~= rows@.skip(half as int));
    }
    let a = sort_keys(&first, keys);
    let b = sort_keys(&second, keys);
    proof {
        lemma_merged_below(a@, b@, key_views(keys@), keys.len() as nat);
    }
    merge_rows(&a, &b, keys)
}

/// The accumulator after some values, or nothing where one of them does not fit it.
pub open spec fn acc_steps(a: AccView, vals: Seq<ScalarView>) -> Option<AccView>
    decreases vals.len(),
{
    if vals.len() == 0 {
        Some(a)
    } else {
        match acc_steps(a, vals.drop_last()) {
            Some(b) => acc_step(b, vals.last()),
            None => None,
        }
    }
}

/// Any two of the values compare.
pub open spec fn comparable(vals: Seq<ScalarView>) -> bool {
    forall|i: int, j: int|
        0 <= i < vals.len() && 0 <= j < vals.len() ==> scalar_order(
            #[trigger] vals[i],
            #[trigger] vals[j],
        ) is Some
}

/// None of the values stands to `m` as `want`.
pub open spec fn none_beyond(vals: Seq<ScalarView>, m: ScalarView, want: Order) -> bool {
    forall|i: int| 0 <= i < vals.len() ==> scalar_order(#[trigger] vals[i], m) != Some(want)
}

/// Values that compare stand as keys as they compare.
proof fn lemma_single_order(x: ScalarView, y: ScalarView)
    requires
        scalar_order(x, y) is Some,
    ensures
        single_order(x, y) == scalar_order(x, y)->Some_0,
{
    assert(seq![x].skip(1) =~= Seq::empty());
    assert(seq![y].skip(1) =~= Seq::empty());
    reveal_with_fuel(slice_order, 2);
}

/// Taking the better of two values over and over finds a value that none is better than.
proof fn lemma_extreme(vals: Seq<ScalarView>, least: bool)
    requires
        vals.len() > 0,
        comparable(vals),
    ensures
        ({
            let start = if least {
                AccView::Min(ScalarView::Null)
            } else {
                AccView::Max(ScalarView::Null)
            };
            let want = if least { Order::Less } else { Order::Greater };
            match acc_steps(start, vals) {
                Some(AccView::Min(m)) => least && vals.contains(m) && none_beyond(vals, m, want),
                Some(AccView::Max(m)) => !least && vals.contains(m) && none_beyond(vals, m, want),
                _ => false,
            }
        }),
    decreases vals.len(),
{
    let start = if least { AccView::Min(ScalarView::Null) } else { AccView::Max(ScalarView::Null) };
    let want = if least { Order::Less } else { Order::Greater };
    let rest = vals.drop_last();
    let v = vals.last();
    assert(vals[vals.len() - 1] == v);
    assert(scalar_order(v, v) is Some);
    if rest.len() == 0 {
        assert(acc_steps(start, rest) == Some(start));
        lemma_order_reversed(v, v);
        assert(none_beyond(vals, v, want)) by {
            assert forall|i: int| 0 <= i < vals.len() implies scalar_order(#[trigger] vals[i], v)
                != Some(want) by {
                assert(vals[i] == v);
            }
        }
    } else {
        assert(comparable(rest)) by {
            assert forall|i: int, j: int|
                0 <= i < rest.len() && 0 <= j < rest.len() implies scalar_order(
                #[trigger] rest[i],
                #[trigger] rest[j],
            ) is Some by {
                assert(rest[i] == vals[i] && rest[j] == vals[j]);
            }
        }
        lemma_extreme(rest, least);
        let m = match acc_steps(start, rest) {
            Some(AccView::Min(m)) => m,
            Some(AccView::Max(m)) => m,
            _ => ScalarView::Null,
        };
        let k = choose|k: int| 0 <= k < rest.len() && rest[k] == m;
        assert(vals[k] == m);
        assert(scalar_order(v, m) is Some);
        lemma_single_order(v, m);
        let best = if scalar_order(v, m) == Some(want) { v } else { m };
        assert forall|i: int| 0 <= i < vals.len() implies scalar_order(#[trigger] vals[i], best)
            != Some(want) by {
            let x = vals[i];
            if i < rest.len() {
                assert(rest[i] == x);
                assert(scalar_order(rest[i], m) != Some(want));
                if best == v && scalar_order(x, v) == Some(want) {
                    if least {
                        lemma_order_steps(x, v, m);
                    } else {
                        lemma_order_reversed(x, v);
                        lemma_order_reversed(v, m);
                        lemma_order_reversed(x, m);
                        lemma_order_steps(m, v, x);
                    }
                }
            } else {
                lemma_order_reversed(v, v);
            }
        }
        assert(vals.contains(best));
    }
}

/// Law: a MIN that is updated with values that compare, in turn, holds one of them, and none of them
/// is less.
pub proof fn law_min_is_least(vals: Seq<ScalarView>)
    requires
        vals.len() > 0,
        comparable(vals),
    ensures
        acc_steps(AccView::Min(ScalarView::Null), vals) matches Some(AccView::Min(m))
            && vals.contains(m) && none_beyond(vals, m, Order::Less),
{
    lemma_extreme(vals, true);
}

/// Law: a MAX that is updated with values that compare, in turn, holds one of them, and none of them
/// is greater.
pub proof fn law_max_is_greatest(vals: Seq<ScalarView>)
    requires
        vals.len() > 0,
        comparable(vals),
    ensures
        acc_steps(AccView::Max(ScalarView::Null), vals) matches Some(AccView::Max(m))
            && vals.contains(m) && none_beyond(vals, m, Order::Greater),
{
    lemma_extreme(vals, false);
}

/// Two values of a list that none is beyond compare as equal.
proof fn lemma_same_extreme(vals: Seq<ScalarView>, m: ScalarView, n: ScalarView, want: Order)
    requires
        comparable(vals),
        vals.contains(m),
        vals.contains(n),
        none_beyond(vals, m, want),
        none_beyond(vals, n, want),
        want != Order::Equal,
    ensures
        scalar_order(m, n) == Some(Order::Equal),
{
    let i = choose|i: int| 0 <= i < vals.len() && vals[i] == m;
    let j = choose|j: int| 0 <= j < vals.len() && vals[j] == n;
    assert(scalar_order(vals[i], vals[j]) is Some);
    assert(scalar_order(vals[i], n) != Some(want));
    assert(scalar_order(vals[j], m) != Some(want));
    lemma_order_reversed(m, n);
}

/// Two lists of the same values: what is in the one is in the other.
pub open spec fn same_values(a: Seq<ScalarView>, b: Seq<ScalarView>) -> bool {
    forall|v: ScalarView| #[trigger] a.contains(v) <==> b.contains(v)
}

/// What is found in and not beyond one list is so in another of the same values.
proof fn lemma_extreme_moves(a: Seq<ScalarView>, b: Seq<ScalarView>, m: ScalarView, want: Order)
    requires
        same_values(a, b),
        b.contains(m),
        none_beyond(b, m, want),
    ensures
        a.contains(m),
        none_beyond(a, m, want),
{
    assert forall|i: int| 0 <= i < a.len() implies scalar_order(#[trigger] a[i], m) != Some(want) by {
        assert(a.contains(a[i]));
        assert(b.contains(a[i]));
        let j = choose|j: int| 0 <= j < b.len() && b[j] == a[i];
        assert(scalar_order(b[j], m) != Some(want));
    }
}

/// Law: in which order a MIN or a MAX is updated with values that compare does not matter, up to
/// values that compare as equal.
pub proof fn law_extremes_in_any_order(a: Seq<ScalarView>, b: Seq<ScalarView>)
    requires
        a.len() > 0,
        b.len() > 0,
        comparable(a),
        comparable(b),
        same_values(a, b),
    ensures
        match (
            acc_steps(AccView::Min(ScalarView::Null), a),
            acc_steps(AccView::Min(ScalarView::Null), b),
        ) {
            (Some(AccView::Min(m)), Some(AccView::Min(n))) => scalar_order(m, n) == Some(
                Order::Equal,
            ),
            _ => false,
        },
        match (
            acc_steps(AccView::Max(ScalarView::Null), a),
            acc_steps(AccView::Max(ScalarView::Null), b),
        ) {
            (Some(AccView::Max(m)), Some(AccView::Max(n))) => scalar_order(m, n) == Some(
                Order::Equal,
            ),
            _ => false,
        },
{
    law_min_is_least(a);
    law_min_is_least(b);
    law_max_is_greatest(a);
    law_max_is_greatest(b);
    let m = acc_steps(AccView::Min(ScalarView::Null), a)->Some_0->Min_0;
    let n = acc_steps(AccView::Min(ScalarView::Null), b)->Some_0->Min_0;
    lemma_extreme_moves(a, b, n, Order::Less);
    lemma_same_extreme(a, m, n, Order::Less);
    let m = acc_steps(AccView::Max(ScalarView::Null), a)->Some_0->Max_0;
    let n = acc_steps(AccView::Max(ScalarView::Null), b)->Some_0->Max_0;
    lemma_extreme_moves(a, b, n, Order::Greater);
    lemma_same_extreme(a, m, n, Order::Greater);
}

} // verus!
