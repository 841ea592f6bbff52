//! What the operators do to the rows that they are given.

use vstd::prelude::*;
use vstd::multiset::Multiset;
use crate::executor::accumulator::{key_sorted, merged, slice_order, step_order, AccView};
use crate::executor::aggregate::{gathered, started_all, stepped_all};
use crate::executor::batch::kernels::{lemma_sort_order, sort_order, sortable};
use crate::executor::batch::ordering::{cell_order, is_permutation, lemma_below_len, row_order};
use crate::executor::batch::{BatchView, ColumnView, Outcome};
use crate::executor::join::{joined_rows, lemma_joined_rows, lemma_rows_with, rows_with};
use crate::executor::keys::key_at;
use crate::executor::limit_exec::limit_stream;
use crate::executor::{End, Stream};
use crate::executor::batch::{first_rows, Cell};
use crate::order::{lemma_order_reversed, lemma_order_steps, reversed, scalar_order, Order};
use crate::planner::logical_plan::{AggFunc, SortView};
use crate::semantics::{rows_at, sort_columns, sorted_of, value_in};
use crate::types::{FieldView, ScalarView};

verus! {

/// How many rows the batches hold together.
pub open spec fn row_count(bs: Seq<BatchView>) -> nat
    decreases bs.len(),
{
    if bs.len() == 0 {
        0
    } else {
        row_count(bs.drop_last()) + bs.last().rows
    }
}

proof fn lemma_row_count_front(b: BatchView, bs: Seq<BatchView>)
    ensures
        row_count(seq![b] + bs) == b.rows + row_count(bs),
    decreases bs.len(),
{
    if bs.len() == 0 {
        let one = seq![b] + bs;
        assert(one.drop_last() =~= Seq::empty());
        assert(one.last() == b);
        assert(row_count(one.drop_last()) == 0);
    } else {
        lemma_row_count_front(b, bs.drop_last());
        assert((seq![b] + bs).drop_last() =~= seq![b] + bs.drop_last());
        assert((seq![b] + bs).last() == bs.last());
    }
}

/// Law: a limit gives no more rows than it allows, and all of the input's rows where they are no
/// more than that and the input ends well.
pub proof fn law_limit_caps(n: nat, s: Stream)
    ensures
        row_count(limit_stream(n, s).batches) <= n,
        s.end == End::Done ==> limit_stream(n, s).end == End::Done && row_count(
            limit_stream(n, s).batches,
        ) == if row_count(s.batches) <= n { row_count(s.batches) } else { n },
    decreases s.batches.len(),
{
    if s.batches.len() > 0 {
        let b = s.batches[0];
        assert(s.batches =~= seq![b] + s.rest().batches);
        lemma_row_count_front(b, s.rest().batches);
        if n > 0 {
            if b.rows <= n {
                let left = (n - b.rows) as nat;
                law_limit_caps(left, s.rest());
                assert(limit_stream(n, s).batches =~= seq![b] + limit_stream(left, s.rest()).batches);
                lemma_row_count_front(b, limit_stream(left, s.rest()).batches);
            } else {
                let x = first_rows(b, n);
                let none = Seq::<BatchView>::empty();
                assert(limit_stream(n, s).batches =~= seq![x] + none);
                lemma_row_count_front(x, none);
            }
        }
    }
}

/// Rows taken in the order of a permutation are the same rows.
proof fn lemma_rows_at_multiset(rows: Seq<Seq<Cell>>, order: Seq<usize>)
    requires
        is_permutation(order, rows.len()),
    ensures
        rows_at(rows, order).to_multiset() == rows.to_multiset(),
    decreases rows.len(),
{
    broadcast use vstd::seq_lib::group_to_multiset_ensures;
    if rows.len() == 0 {
        assert(rows_at(rows, order) =~= rows);
    } else {
        let n = rows.len();
        let top = n - 1;
        if !(exists|k: int| 0 <= k < order.len() && order[k] == top) {
            assert forall|i: int| 0 <= i < order.len() implies #[trigger] order[i] < top by {
                assert(order[i] != top);
            }
            lemma_below_len(order, top as nat);
        }
        let k = choose|k: int| 0 <= k < order.len() && order[k] == top;
        let rest = order.remove(k);
        let init = rows.drop_last();
        assert forall|i: int| 0 <= i < rest.len() implies #[trigger] rest[i] < top by {
            let j = if i < k { i } else { i + 1 };
            assert(rest[i] == order[j]);
            assert(order[j] != order[k]);
        }
        assert forall|i: int, j: int|
            0 <= i < rest.len() && 0 <= j < rest.len() && i != j implies rest[i] != rest[j] by {
            let x = if i < k { i } else { i + 1 };
            let y = if j < k { j } else { j + 1 };
            assert(order[x] != order[y]);
        }
        lemma_rows_at_multiset(init, rest);
        let whole = rows_at(rows, order);
        assert(whole.remove(k) =~= rows_at(init, rest));
        assert(whole[k] == rows.last());
        assert(whole.remove(k).to_multiset() =~= whole.to_multiset().remove(whole[k]));
        assert(whole.contains(whole[k]));
        assert(whole.to_multiset().count(whole[k]) > 0);
        assert(whole.to_multiset() =~= whole.remove(k).to_multiset().insert(whole[k]));
        assert(init.push(rows.last()) =~= rows);
        assert(rows.to_multiset() =~= init.to_multiset().insert(rows.last()));
    }
}

/// Law: sorting keeps every row as often as it occurs.
pub proof fn law_sort_keeps_rows(es: Seq<SortView>, fields: Seq<FieldView>, rows: Seq<Seq<Cell>>)
    ensures
        sorted_of(es, fields, rows).to_multiset() == rows.to_multiset(),
{
    let order = sort_order(sort_columns(es, fields, rows));
    if rows.len() > 0 && is_permutation(order, rows.len()) {
        lemma_rows_at_multiset(rows, order);
    }
}

/// Where a row stands to another by some sort keys: by the first in which they differ.
pub open spec fn rows_order(
    es: Seq<SortView>,
    fields: Seq<FieldView>,
    x: Seq<Cell>,
    y: Seq<Cell>,
) -> Order
    decreases es.len(),
{
    if es.len() == 0 {
        Order::Equal
    } else {
        match cell_order(
            value_in(es[0].expr, fields, x),
            value_in(es[0].expr, fields, y),
            !es[0].asc,
        ) {
            Order::Equal => rows_order(es.skip(1), fields, x, y),
            o => o,
        }
    }
}

/// Rows stand to each other as the sort keys of their numbers do.
proof fn lemma_rows_order(
    es: Seq<SortView>,
    fields: Seq<FieldView>,
    rows: Seq<Seq<Cell>>,
    a: int,
    b: int,
)
    requires
        0 <= a < rows.len(),
        0 <= b < rows.len(),
    ensures
        row_order(sort_columns(es, fields, rows), a, b) == rows_order(
            es,
            fields,
            rows[a],
            rows[b],
        ),
    decreases es.len(),
{
    if es.len() > 0 {
        lemma_rows_order(es.skip(1), fields, rows, a, b);
        assert(sort_columns(es, fields, rows).skip(1) =~= sort_columns(es.skip(1), fields, rows));
    }
}

/// Law: sorting puts no row before one that the sort keys put before it.
pub proof fn law_sort_puts_in_order(es: Seq<SortView>, fields: Seq<FieldView>, rows: Seq<Seq<Cell>>)
    requires
        sortable(sort_columns(es, fields, rows)),
        rows.len() <= usize::MAX,
    ensures
        sorted_of(es, fields, rows).len() == rows.len(),
        forall|i: int, j: int|
            0 <= i < j < rows.len() ==> rows_order(
                es,
                fields,
                #[trigger] sorted_of(es, fields, rows)[i],
                #[trigger] sorted_of(es, fields, rows)[j],
            ) != Order::Greater,
{
    let keys = sort_columns(es, fields, rows);
    let order = sort_order(keys);
    let out = sorted_of(es, fields, rows);
    lemma_sort_order(keys);
    if rows.len() > 0 {
        assert(out == rows_at(rows, order));
        assert forall|i: int, j: int| 0 <= i < j < rows.len() implies rows_order(
            es,
            fields,
            #[trigger] out[i],
            #[trigger] out[j],
        ) != Order::Greater by {
            lemma_rows_order(es, fields, rows, order[i] as int, order[j] as int);
        }
    }
}

/// Every row with the key is among the rows with the key.
proof fn lemma_rows_with_all(key: Seq<ScalarView>, keys: Seq<Seq<ScalarView>>, j: int)
    requires
        keys.len() <= usize::MAX,
        0 <= j < keys.len(),
        keys[j] == key,
    ensures
        exists|i: int| 0 <= i < rows_with(key, keys).len() && #[trigger] rows_with(key, keys)[i] == j,
    decreases keys.len(),
{
    let init = keys.drop_last();
    let all = rows_with(key, keys);
    if j == keys.len() - 1 {
        assert(all[all.len() - 1] == j);
    } else {
        lemma_rows_with_all(key, init, j);
        let i = choose|i: int|
            0 <= i < rows_with(key, init).len() && #[trigger] rows_with(key, init)[i] == j;
        assert(all[i] == j);
    }
}

/// Law: an inner join pairs a left row with a right row if, and only if, their keys are equal.
pub proof fn law_join_pairs(left: Seq<Seq<ScalarView>>, right: Seq<Seq<ScalarView>>)
    requires
        left.len() <= usize::MAX,
        right.len() <= usize::MAX,
    ensures
        joined_rows(left, right).0.len() == joined_rows(left, right).1.len(),
        forall|k: int|
            0 <= k < joined_rows(left, right).0.len() ==> {
                let i = #[trigger] joined_rows(left, right).0[k];
                let j = joined_rows(left, right).1[k];
                i < left.len() && j < right.len() && left[i as int] == right[j as int]
            },
        forall|i: int, j: int|
            0 <= i < left.len() && 0 <= j < right.len() && #[trigger] left[i] == #[trigger] right[j]
                ==> exists|k: int|
                0 <= k < joined_rows(left, right).0.len() && joined_rows(left, right).1[k] == j
                    && #[trigger] joined_rows(left, right).0[k] == i,
    decreases left.len(),
{
    lemma_joined_rows(left, right);
    if left.len() > 0 {
        let init = left.drop_last();
        law_join_pairs(init, right);
        lemma_rows_with(left.last(), right);
        let rest = joined_rows(init, right);
        let found = rows_with(left.last(), right);
        let all = joined_rows(left, right);
        assert forall|k: int| 0 <= k < all.0.len() implies {
            let i = #[trigger] all.0[k];
            let j = all.1[k];
            i < left.len() && j < right.len() && left[i as int] == right[j as int]
        } by {
            if k < rest.0.len() {
                assert(all.0[k] == rest.0[k]);
                assert(all.1[k] == rest.1[k]);
                assert(init[rest.0[k] as int] == left[rest.0[k] as int]);
            } else {
                let f = k - rest.0.len();
                assert(all.1[k] == found[f]);
            }
        }
        assert forall|i: int, j: int|
            0 <= i < left.len() && 0 <= j < right.len() && #[trigger] left[i] == #[trigger] right[j] implies exists|
            k: int,
        | 0 <= k < all.0.len() && all.1[k] == j && #[trigger] all.0[k] == i by {
            if i < init.len() {
                assert(init[i] == left[i]);
                let k = choose|k: int|
                    0 <= k < rest.0.len() && rest.1[k] == j && #[trigger] rest.0[k] == i;
                assert(all.0[k] == i && all.1[k] == j);
            } else {
                lemma_rows_with_all(left.last(), right, j);
                let f = choose|f: int| 0 <= f < found.len() && #[trigger] found[f] == j;
                let k = rest.0.len() + f;
                assert(all.1[k] == j);
                assert(all.0[k] == i);
            }
        }
    }
}

/// How many of the first `rows` rows have the key.
pub open spec fn rows_having(key: Seq<ScalarView>, keys: Seq<ColumnView>, rows: nat) -> nat
    decreases rows,
{
    if rows == 0 {
        0
    } else {
        rows_having(key, keys, (rows - 1) as nat) + if key_at(keys, rows - 1) == key {
            1nat
        } else {
            0nat
        }
    }
}

/// What the rows with the key, among the first `rows` rows, come to in the accumulators.
pub open spec fn accumulated(
    key: Seq<ScalarView>,
    keys: Seq<ColumnView>,
    args: Seq<ColumnView>,
    funcs: Seq<AggFunc>,
    rows: nat,
) -> Seq<AccView>
    decreases rows,
{
    if rows == 0 {
        Seq::empty()
    } else {
        let row = rows - 1;
        let before = (rows - 1) as nat;
        if key_at(keys, row) != key {
            accumulated(key, keys, args, funcs, before)
        } else if rows_having(key, keys, before) == 0 {
            stepped_all(started_all(funcs, key_at(args, row)), key_at(args, row))
        } else {
            stepped_all(accumulated(key, keys, args, funcs, before), key_at(args, row))
        }
    }
}

/// Law: the groups are the distinct keys of the rows, and each group gathers exactly the rows with
/// its key, in their order.
pub proof fn law_groups_gather_rows(
    keys: Seq<ColumnView>,
    args: Seq<ColumnView>,
    funcs: Seq<AggFunc>,
    rows: nat,
)
    ensures
        gathered(keys, args, funcs, rows) matches Outcome::Value(g) ==> {
            &&& g.keys.len() == g.accs.len()
            &&& g.keys.no_duplicates()
            &&& forall|key: Seq<ScalarView>|
                g.keys.contains(key) == (#[trigger] rows_having(key, keys, rows) > 0)
            &&& forall|i: int|
                0 <= i < g.keys.len() ==> #[trigger] g.accs[i] == accumulated(
                    g.keys[i],
                    keys,
                    args,
                    funcs,
                    rows,
                )
        },
    decreases rows,
{
    if rows > 0 {
        let before = (rows - 1) as nat;
        let row = rows - 1;
        law_groups_gather_rows(keys, args, funcs, before);
        match (gathered(keys, args, funcs, rows), gathered(keys, args, funcs, before)) {
            (Outcome::Value(g), Outcome::Value(h)) => {
                let key = key_at(keys, row);
                let vals = key_at(args, row);
                assert(rows_having(key, keys, rows) > 0);
                assert(h.keys.contains(key) == (rows_having(key, keys, before) > 0));
                if h.keys.contains(key) {
                    let at = h.keys.index_of(key);
                    assert(h.keys[at] == key);
                    assert forall|i: int| 0 <= i < g.keys.len() implies #[trigger] g.accs[i]
                        == accumulated(g.keys[i], keys, args, funcs, rows) by {
                        assert(h.accs[i] == accumulated(h.keys[i], keys, args, funcs, before));
                        if i != at {
                            assert(h.keys[i] != h.keys[at]);
                        }
                    }
                    assert forall|k: Seq<ScalarView>| g.keys.contains(k) == (#[trigger] rows_having(
                        k,
                        keys,
                        rows,
                    ) > 0) by {
                        assert(h.keys.contains(k) == (rows_having(k, keys, before) > 0));
                    }
                } else {
                    assert(g.keys =~= h.keys.push(key));
                    assert(g.keys[h.keys.len() as int] == key);
                    assert(g.keys.no_duplicates()) by {
                        assert forall|i: int, j: int|
                            0 <= i < g.keys.len() && 0 <= j < g.keys.len() && i != j implies g.keys[i]
                            != g.keys[j] by {
                            if i == h.keys.len() {
                                assert(h.keys.contains(h.keys[j]));
                            } else if j == h.keys.len() {
                                assert(h.keys.contains(h.keys[i]));
                            }
                        }
                    }
                    assert forall|i: int| 0 <= i < g.keys.len() implies #[trigger] g.accs[i]
                        == accumulated(g.keys[i], keys, args, funcs, rows) by {
                        if i < h.keys.len() {
                            assert(h.accs[i] == accumulated(h.keys[i], keys, args, funcs, before));
                            assert(h.keys.contains(h.keys[i]));
                        }
                    }
                    assert forall|k: Seq<ScalarView>| g.keys.contains(k) == (#[trigger] rows_having(
                        k,
                        keys,
                        rows,
                    ) > 0) by {
                        assert(h.keys.contains(k) == (rows_having(k, keys, before) > 0));
                        if h.keys.contains(k) {
                            let i = choose|i: int| 0 <= i < h.keys.len() && h.keys[i] == k;
                            assert(g.keys[i] == k);
                        }
                        if g.keys.contains(k) && k != key {
                            let i = choose|i: int| 0 <= i < g.keys.len() && g.keys[i] == k;
                            assert(h.keys[i] == k);
                        }
                    }
                }
            },
            _ => {},
        }
    } else {
        match gathered(keys, args, funcs, rows) {
            Outcome::Value(g) => {
                assert(g.keys =~= Seq::empty());
            },
            _ => {},
        }
    }
}

/// Law: COUNT counts the rows of its group.
pub proof fn law_count_counts(
    key: Seq<ScalarView>,
    keys: Seq<ColumnView>,
    args: Seq<ColumnView>,
    funcs: Seq<AggFunc>,
    rows: nat,
    f: int,
)
    requires
        rows <= i64::MAX,
        0 <= f < funcs.len(),
        funcs[f] == AggFunc::Count,
        rows_having(key, keys, rows) > 0,
    ensures
        accumulated(key, keys, args, funcs, rows).len() == funcs.len(),
        accumulated(key, keys, args, funcs, rows)[f] == AccView::Count(
            rows_having(key, keys, rows) as i64,
        ),
        rows_having(key, keys, rows) <= rows,
    decreases rows,
{
    let before = (rows - 1) as nat;
    lemma_having_len(key, keys, before);
    if key_at(keys, rows - 1) != key || rows_having(key, keys, before) > 0 {
        law_count_counts(key, keys, args, funcs, before, f);
    }
}

proof fn lemma_having_len(key: Seq<ScalarView>, keys: Seq<ColumnView>, rows: nat)
    ensures
        rows_having(key, keys, rows) <= rows,
    decreases rows,
{
    if rows > 0 {
        lemma_having_len(key, keys, (rows - 1) as nat);
    }
}

/// The keys compare with each other place by place: in each place they hold scalars of one kind or
/// NULL, and no NaN.
pub open spec fn keys_compare(keys: Seq<Seq<ScalarView>>) -> bool {
    forall|i: int, j: int|
        0 <= i < keys.len() && 0 <= j < keys.len() ==> places_compare(
            #[trigger] keys[i],
            #[trigger] keys[j],
        )
}

/// Two keys compare place by place.
pub open spec fn places_compare(a: Seq<ScalarView>, b: Seq<ScalarView>) -> bool {
    &&& a.len() == b.len()
    &&& forall|c: int|
        0 <= c < a.len() ==> #[trigger] a[c] == ScalarView::Null || b[c] == ScalarView::Null
            || scalar_order(a[c], b[c]) is Some
}

proof fn lemma_step_steps(x: ScalarView, y: ScalarView, z: ScalarView)
    requires
        x == ScalarView::Null || y == ScalarView::Null || scalar_order(x, y) is Some,
        y == ScalarView::Null || z == ScalarView::Null || scalar_order(y, z) is Some,
        x == ScalarView::Null || z == ScalarView::Null || scalar_order(x, z) is Some,
        step_order(x, y) != Some(Order::Greater),
        step_order(y, z) != Some(Order::Greater),
    ensures
        step_order(x, y) is Some,
        step_order(y, z) is Some,
        step_order(x, z) is Some,
        step_order(x, z) != Some(Order::Greater),
        step_order(x, z) == Some(Order::Equal) ==> step_order(x, y) == Some(Order::Equal)
            && step_order(y, z) == Some(Order::Equal),
        step_order(x, y) == Some(Order::Equal) && step_order(y, z) == Some(Order::Equal)
            ==> step_order(x, z) == Some(Order::Equal),
{
    if x != ScalarView::Null && y != ScalarView::Null && z != ScalarView::Null {
        lemma_order_steps(x, y, z);
        lemma_order_reversed(x, y);
        lemma_order_reversed(y, z);
        lemma_order_reversed(x, z);
        if scalar_order(x, y) == Some(Order::Equal) && scalar_order(y, z) == Some(Order::Equal) {
            lemma_order_steps(z, y, x);
        }
    }
}

proof fn lemma_slice_steps(a: Seq<ScalarView>, b: Seq<ScalarView>, c: Seq<ScalarView>)
    requires
        places_compare(a, b),
        places_compare(b, c),
        places_compare(a, c),
        slice_order(a, b) != Order::Greater,
        slice_order(b, c) != Order::Greater,
    ensures
        slice_order(a, c) != Order::Greater,
    decreases a.len(),
{
    if a.len() > 0 {
        assert(a[0] == ScalarView::Null || b[0] == ScalarView::Null || scalar_order(a[0], b[0]) is Some);
        assert(b[0] == ScalarView::Null || c[0] == ScalarView::Null || scalar_order(b[0], c[0]) is Some);
        assert(a[0] == ScalarView::Null || c[0] == ScalarView::Null || scalar_order(a[0], c[0]) is Some);
        lemma_step_steps(a[0], b[0], c[0]);
        lemma_rest_compare(a, b);
        lemma_rest_compare(b, c);
        lemma_rest_compare(a, c);
        if step_order(a[0], c[0]) == Some(Order::Equal) {
            lemma_slice_steps(a.skip(1), b.skip(1), c.skip(1));
        }
    }
}

proof fn lemma_rest_compare(a: Seq<ScalarView>, b: Seq<ScalarView>)
    requires
        places_compare(a, b),
        a.len() > 0,
    ensures
        places_compare(a.skip(1), b.skip(1)),
{
    let x = a.skip(1);
    let y = b.skip(1);
    assert forall|c: int| 0 <= c < x.len() implies #[trigger] x[c] == ScalarView::Null || y[c]
        == ScalarView::Null || scalar_order(x[c], y[c]) is Some by {
        assert(x[c] == a[c + 1]);
        assert(y[c] == b[c + 1]);
    }
}

proof fn lemma_slice_reversed(a: Seq<ScalarView>, b: Seq<ScalarView>)
    requires
        places_compare(a, b),
    ensures
        slice_order(b, a) == reversed(slice_order(a, b)),
    decreases a.len(),
{
    if a.len() > 0 {
        assert(a[0] == ScalarView::Null || b[0] == ScalarView::Null || scalar_order(a[0], b[0]) is Some);
        lemma_order_reversed(a[0], b[0]);
        lemma_rest_compare(a, b);
        lemma_slice_reversed(a.skip(1), b.skip(1));
    }
}

/// No row comes after a row that its key puts before it.
pub open spec fn in_key_order(rows: Seq<usize>, keys: Seq<Seq<ScalarView>>) -> bool {
    forall|i: int, j: int|
        0 <= i < j < rows.len() ==> slice_order(
            keys[#[trigger] rows[i] as int],
            keys[#[trigger] rows[j] as int],
        ) != Order::Greater
}

proof fn lemma_merged(a: Seq<usize>, b: Seq<usize>, keys: Seq<Seq<ScalarView>>)
    requires
        forall|i: int| 0 <= i < a.len() ==> #[trigger] a[i] < keys.len(),
        forall|i: int| 0 <= i < b.len() ==> #[trigger] b[i] < keys.len(),
    ensures
        merged(a, b, keys).to_multiset() == a.to_multiset().add(b.to_multiset()),
        merged(a, b, keys).len() == a.len() + b.len(),
        forall|i: int|
            0 <= i < merged(a, b, keys).len() ==> a.contains(#[trigger] merged(a, b, keys)[i])
                || b.contains(merged(a, b, keys)[i]),
    decreases a.len() + b.len(),
{
    broadcast use vstd::seq_lib::group_to_multiset_ensures;
    let all = merged(a, b, keys);
    if a.len() == 0 {
        assert(a =~= Seq::empty());
        assert(a.to_multiset() =~= Multiset::empty());
        assert(all.to_multiset() =~= a.to_multiset().add(b.to_multiset()));
        assert forall|i: int| 0 <= i < all.len() implies a.contains(#[trigger] all[i]) || b.contains(
            all[i],
        ) by {
            assert(b[i] == all[i]);
        }
    } else if b.len() == 0 {
        assert(b =~= Seq::empty());
        assert(b.to_multiset() =~= Multiset::empty());
        assert(all.to_multiset() =~= a.to_multiset().add(b.to_multiset()));
        assert forall|i: int| 0 <= i < all.len() implies a.contains(#[trigger] all[i]) || b.contains(
            all[i],
        ) by {
            assert(a[i] == all[i]);
        }
    } else {
        let right = slice_order(keys[a[0] as int], keys[b[0] as int]) == Order::Greater;
        let x = if right { a } else { a.skip(1) };
        let y = if right { b.skip(1) } else { b };
        let head = if right { b[0] } else { a[0] };
        let tail = merged(x, y, keys);
        lemma_merged(x, y, keys);
        assert(all =~= seq![head] + tail);
        vstd::seq_lib::lemma_multiset_commutative(seq![head], tail);
        assert(a =~= seq![a[0]] + a.skip(1));
        assert(b =~= seq![b[0]] + b.skip(1));
        vstd::seq_lib::lemma_multiset_commutative(seq![a[0]], a.skip(1));
        vstd::seq_lib::lemma_multiset_commutative(seq![b[0]], b.skip(1));
        assert(all.to_multiset() =~= a.to_multiset().add(b.to_multiset()));
        assert forall|i: int| 0 <= i < all.len() implies a.contains(#[trigger] all[i]) || b.contains(
            all[i],
        ) by {
            lemma_merged_member(a, b, x, y, all, tail, head, i);
        }
    }
}

proof fn lemma_merged_order(a: Seq<usize>, b: Seq<usize>, keys: Seq<Seq<ScalarView>>)
    requires
        forall|i: int| 0 <= i < a.len() ==> #[trigger] a[i] < keys.len(),
        forall|i: int| 0 <= i < b.len() ==> #[trigger] b[i] < keys.len(),
        keys_compare(keys),
        in_key_order(a, keys),
        in_key_order(b, keys),
    ensures
        in_key_order(merged(a, b, keys), keys),
    decreases a.len() + b.len(),
{
    if a.len() > 0 && b.len() > 0 {
        let all = merged(a, b, keys);
        let right = slice_order(keys[a[0] as int], keys[b[0] as int]) == Order::Greater;
        let x = if right { a } else { a.skip(1) };
        let y = if right { b.skip(1) } else { b };
        let head = if right { b[0] } else { a[0] };
        let tail = merged(x, y, keys);
        assert(all =~= seq![head] + tail);
        lemma_merged(x, y, keys);
        assert(in_key_order(x, keys)) by {
            lemma_rest_in_order(a, keys);
        }
        assert(in_key_order(y, keys)) by {
            lemma_rest_in_order(b, keys);
        }
        lemma_merged_order(x, y, keys);
        assert(slice_order(keys[head as int], keys[a[0] as int]) != Order::Greater && slice_order(
            keys[head as int],
            keys[b[0] as int],
        ) != Order::Greater) by {
            lemma_slice_reversed(keys[a[0] as int], keys[b[0] as int]);
            lemma_after_head(a, keys, 0);
            lemma_after_head(b, keys, 0);
        }
        assert forall|i: int, j: int| 0 <= i < j < all.len() implies slice_order(
            keys[#[trigger] all[i] as int],
            keys[#[trigger] all[j] as int],
        ) != Order::Greater by {
            let v = tail[j - 1];
            assert(all[j] == v);
            if i > 0 {
                assert(all[i] == tail[i - 1]);
            } else {
                lemma_merged_member(a, b, x, y, all, tail, head, j);
                if a.contains(v) {
                    lemma_before_all(head, a, keys, v);
                } else {
                    lemma_before_all(head, b, keys, v);
                }
            }
        }
    }
}

/// A list in order goes on in order after its first row.
proof fn lemma_rest_in_order(rows: Seq<usize>, keys: Seq<Seq<ScalarView>>)
    requires
        rows.len() > 0,
        in_key_order(rows, keys),
    ensures
        in_key_order(rows.skip(1), keys),
{
    let rest = rows.skip(1);
    assert forall|i: int, j: int| 0 <= i < j < rest.len() implies slice_order(
        keys[#[trigger] rest[i] as int],
        keys[#[trigger] rest[j] as int],
    ) != Order::Greater by {
        assert(rest[i] == rows[i + 1]);
        assert(rest[j] == rows[j + 1]);
    }
}

/// A row that is not after the first row of a list in order is not after any of its rows.
proof fn lemma_before_all(head: usize, rows: Seq<usize>, keys: Seq<Seq<ScalarView>>, v: usize)
    requires
        rows.contains(v),
        head < keys.len(),
        forall|i: int| 0 <= i < rows.len() ==> #[trigger] rows[i] < keys.len(),
        keys_compare(keys),
        in_key_order(rows, keys),
        slice_order(keys[head as int], keys[rows[0] as int]) != Order::Greater,
    ensures
        slice_order(keys[head as int], keys[v as int]) != Order::Greater,
{
    let at = choose|k: int| 0 <= k < rows.len() && rows[k] == v;
    lemma_after_head(rows, keys, at);
    lemma_slice_steps(keys[head as int], keys[rows[0] as int], keys[v as int]);
}

/// A row of two lists that begin with `head`, or go on after it, is a row of the lists.
proof fn lemma_merged_member(
    a: Seq<usize>,
    b: Seq<usize>,
    x: Seq<usize>,
    y: Seq<usize>,
    all: Seq<usize>,
    tail: Seq<usize>,
    head: usize,
    i: int,
)
    requires
        a.len() > 0,
        b.len() > 0,
        all == seq![head] + tail,
        (x == a && y == b.skip(1) && head == b[0]) || (x == a.skip(1) && y == b && head == a[0]),
        0 <= i < all.len(),
        forall|k: int| 0 <= k < tail.len() ==> x.contains(#[trigger] tail[k]) || y.contains(tail[k]),
    ensures
        a.contains(all[i]) || b.contains(all[i]),
{
    if i == 0 {
        assert(all[0] == head);
        assert(a.contains(a[0]));
        assert(b.contains(b[0]));
    } else {
        let v = tail[i - 1];
        assert(all[i] == v);
        if x.contains(v) {
            let k = choose|k: int| 0 <= k < x.len() && x[k] == v;
            assert(a[if x == a { k } else { k + 1 }] == v);
        } else {
            let k = choose|k: int| 0 <= k < y.len() && y[k] == v;
            assert(b[if y == b { k } else { k + 1 }] == v);
        }
    }
}

/// The first row of a list in order is not after any of its rows.
proof fn lemma_after_head(rows: Seq<usize>, keys: Seq<Seq<ScalarView>>, at: int)
    requires
        0 <= at < rows.len(),
        forall|i: int| 0 <= i < rows.len() ==> #[trigger] rows[i] < keys.len(),
        keys_compare(keys),
        in_key_order(rows, keys),
    ensures
        slice_order(keys[rows[0] as int], keys[rows[at] as int]) != Order::Greater,
{
    if at == 0 {
        let k = keys[rows[0] as int];
        assert(places_compare(k, k));
        lemma_slice_reversed(k, k);
    }
}

/// Law: sorting rows by their keys keeps every row, and puts the rows in the order of their keys
/// where the keys compare.
pub proof fn law_keys_sort(rows: Seq<usize>, keys: Seq<Seq<ScalarView>>)
    requires
        forall|i: int| 0 <= i < rows.len() ==> #[trigger] rows[i] < keys.len(),
    ensures
        key_sorted(rows, keys).to_multiset() == rows.to_multiset(),
        keys_compare(keys) ==> in_key_order(key_sorted(rows, keys), keys),
    decreases rows.len(),
{
    if rows.len() > 1 {
        let half = (rows.len() / 2) as int;
        let a = rows.take(half);
        let b = rows.skip(half);
        law_keys_sort(a, keys);
        law_keys_sort(b, keys);
        crate::executor::accumulator::lemma_key_sorted_below(a, keys, keys.len());
        crate::executor::accumulator::lemma_key_sorted_below(b, keys, keys.len());
        lemma_merged(key_sorted(a, keys), key_sorted(b, keys), keys);
        if keys_compare(keys) {
            lemma_merged_order(key_sorted(a, keys), key_sorted(b, keys), keys);
        }
        vstd::seq_lib::lemma_multiset_commutative(a, b);
        assert(a + b =~= rows);
    }
}

} // verus!
