//! The order in which rows are sorted.

use vstd::prelude::*;
use crate::executor::batch::kernels::{sortable, value_order, SortKeyView};
use crate::executor::batch::{fits, null_cell, well_typed, Cell};
use crate::order::{
    lemma_list_order, lemma_list_order_steps, lemma_text_order, lemma_text_order_steps, reversed,
    Order,
};
use crate::types::ScalarView;

verus! {

/// Where a cell stands to another in a sort: NULLs last either way.
pub open spec fn cell_order(x: Cell, y: Cell, descending: bool) -> Order {
    match value_order(x, y) {
        Some(o) => if descending { reversed(o) } else { o },
        None => if x == null_cell() && y == null_cell() {
            Order::Equal
        } else if y == null_cell() {
            Order::Less
        } else {
            Order::Greater
        },
    }
}

/// Where a row stands to another by one key.
pub open spec fn key_order(k: SortKeyView, a: int, b: int) -> Order {
    cell_order(k.column.cells[a], k.column.cells[b], k.descending)
}

/// Where a row stands to another: by the first key in which they differ.
pub open spec fn row_order(keys: Seq<SortKeyView>, a: int, b: int) -> Order
    decreases keys.len(),
{
    if keys.len() == 0 {
        Order::Equal
    } else {
        match key_order(keys[0], a, b) {
            Order::Equal => row_order(keys.skip(1), a, b),
            o => o,
        }
    }
}

/// `rows` lists the numbers below `n`, each once.
pub open spec fn is_permutation(rows: Seq<usize>, n: nat) -> bool {
    &&& rows.len() == n
    &&& rows.no_duplicates()
    &&& forall|i: int| 0 <= i < rows.len() ==> (#[trigger] rows[i]) < n
}

/// No row comes before one that the keys put before it.
pub open spec fn in_order(keys: Seq<SortKeyView>, rows: Seq<usize>) -> bool {
    forall|i: int, j: int|
        0 <= i < j < rows.len() ==> row_order(
            keys,
            #[trigger] rows[i] as int,
            #[trigger] rows[j] as int,
        ) != Order::Greater
}

/// A row put into rows in order: before the first that it is not after.
pub open spec fn placed(keys: Seq<SortKeyView>, row: usize, rows: Seq<usize>) -> Seq<usize>
    decreases rows.len(),
{
    if rows.len() == 0 {
        seq![row]
    } else if row_order(keys, row as int, rows[0] as int) == Order::Greater {
        seq![rows[0]] + placed(keys, row, rows.skip(1))
    } else {
        seq![row] + rows
    }
}

/// The first `n` rows in order.
pub open spec fn rows_in_order(keys: Seq<SortKeyView>, n: nat) -> Seq<usize>
    decreases n,
{
    if n == 0 {
        Seq::empty()
    } else {
        placed(keys, (n - 1) as usize, rows_in_order(keys, (n - 1) as nat))
    }
}

/// The cells of a column can be told where they stand.
spec fn comparable(x: Cell, y: Cell) -> bool {
    x == null_cell() || y == null_cell() || value_order(x, y) is Some
}

/// Where three cells of one column stand to each other.
proof fn lemma_cell_steps(x: Cell, y: Cell, z: Cell, descending: bool)
    requires
        comparable(x, y),
        comparable(y, z),
        comparable(x, z),
    ensures
        cell_order(y, x, descending) == reversed(cell_order(x, y, descending)),
        cell_order(x, y, descending) != Order::Greater && cell_order(y, z, descending)
            != Order::Greater ==> cell_order(x, z, descending) != Order::Greater && (cell_order(
            x,
            z,
            descending,
        ) == Order::Equal <==> cell_order(x, y, descending) == Order::Equal && cell_order(
            y,
            z,
            descending,
        ) == Order::Equal),
{
    match (x, y) {
        (Cell::Scalar(ScalarView::Utf8(a)), Cell::Scalar(ScalarView::Utf8(b))) => {
            lemma_text_order(a, b);
            match z {
                Cell::Scalar(ScalarView::Utf8(c)) => {
                    lemma_text_order(b, c);
                    lemma_text_order(a, c);
                    lemma_text_order(b, a);
                    lemma_text_order(c, b);
                    lemma_text_order(c, a);
                    if descending {
                        if cell_order(x, y, descending) != Order::Greater && cell_order(
                            y,
                            z,
                            descending,
                        ) != Order::Greater {
                            lemma_text_order_steps(c, b, a);
                        }
                    } else if cell_order(x, y, descending) != Order::Greater && cell_order(
                        y,
                        z,
                        descending,
                    ) != Order::Greater {
                        lemma_text_order_steps(a, b, c);
                    }
                },
                _ => {},
            }
        },
        (Cell::Opaque(a), Cell::Opaque(b)) => {
            lemma_list_order(a, b);
            match z {
                Cell::Opaque(c) => {
                    lemma_list_order(b, c);
                    lemma_list_order(a, c);
                    lemma_list_order(b, a);
                    lemma_list_order(c, b);
                    lemma_list_order(c, a);
                    if cell_order(x, y, descending) != Order::Greater && cell_order(
                        y,
                        z,
                        descending,
                    ) != Order::Greater {
                        if descending {
                            lemma_list_order_steps(c, b, a);
                        } else {
                            lemma_list_order_steps(a, b, c);
                        }
                    }
                },
                _ => {},
            }
        },
        _ => {},
    }
}

/// The cells of a sortable column can be told where they stand.
proof fn lemma_comparable(k: SortKeyView, a: int, b: int)
    requires
        sortable(seq![k]),
        0 <= a < k.column.cells.len(),
        0 <= b < k.column.cells.len(),
    ensures
        comparable(k.column.cells[a], k.column.cells[b]),
{
    assert(seq![k][0] == k);
    assert(well_typed(k.column));
    assert(fits(k.column.data_type, k.column.cells[a]));
    assert(fits(k.column.data_type, k.column.cells[b]));
}

/// Part of sortable keys is sortable.
proof fn lemma_sortable_parts(keys: Seq<SortKeyView>)
    requires
        sortable(keys),
    ensures
        sortable(seq![keys[0]]),
        keys.len() > 1 ==> sortable(keys.skip(1)) && keys.skip(1)[0].column.cells.len()
            == keys[0].column.cells.len(),
{
    let one = seq![keys[0]];
    assert(one[0] == keys[0]);
    let rest = keys.skip(1);
    if keys.len() > 1 {
        assert(rest[0] == keys[1]);
        assert forall|i: int| 0 <= i < rest.len() implies (#[trigger] rest[i]) == keys[i + 1] by {}
    }
}

/// Where three rows stand to each other.
proof fn lemma_row_steps(keys: Seq<SortKeyView>, a: int, b: int, c: int)
    requires
        sortable(keys),
        0 <= a < keys[0].column.cells.len(),
        0 <= b < keys[0].column.cells.len(),
        0 <= c < keys[0].column.cells.len(),
    ensures
        row_order(keys, b, a) == reversed(row_order(keys, a, b)),
        row_order(keys, a, b) != Order::Greater && row_order(keys, b, c) != Order::Greater
            ==> row_order(keys, a, c) != Order::Greater,
    decreases keys.len(),
{
    let k = keys[0];
    lemma_sortable_parts(keys);
    lemma_comparable(k, a, b);
    lemma_comparable(k, b, c);
    lemma_comparable(k, a, c);
    lemma_cell_steps(k.column.cells[a], k.column.cells[b], k.column.cells[c], k.descending);
    let rest = keys.skip(1);
    if keys.len() > 1 {
        lemma_row_steps(rest, a, b, c);
    } else {
        assert(row_order(rest, a, b) == Order::Equal);
        assert(row_order(rest, b, a) == Order::Equal);
        assert(row_order(rest, b, c) == Order::Equal);
        assert(row_order(rest, a, c) == Order::Equal);
    }
}

/// Putting a row into rows adds that row and no other.
proof fn lemma_placed(keys: Seq<SortKeyView>, row: usize, rows: Seq<usize>)
    ensures
        placed(keys, row, rows).len() == rows.len() + 1,
        forall|i: int|
            0 <= i < placed(keys, row, rows).len() ==> #[trigger] placed(keys, row, rows)[i] == row
                || rows.contains(placed(keys, row, rows)[i]),
        rows.no_duplicates() && !rows.contains(row) ==> placed(keys, row, rows).no_duplicates(),
    decreases rows.len(),
{
    let all = placed(keys, row, rows);
    if rows.len() == 0 {
    } else if row_order(keys, row as int, rows[0] as int) == Order::Greater {
        let rest = rows.skip(1);
        let tail = placed(keys, row, rest);
        lemma_placed(keys, row, rest);
        assert(all =~= seq![rows[0]] + tail);
        assert forall|i: int| 0 <= i < all.len() implies #[trigger] all[i] == row || rows.contains(
            all[i],
        ) by {
            if i == 0 {
                assert(all[0] == rows[0]);
            } else {
                assert(all[i] == tail[i - 1]);
                if rest.contains(tail[i - 1]) {
                    let k = choose|k: int| 0 <= k < rest.len() && rest[k] == tail[i - 1];
                    assert(rows[k + 1] == all[i]);
                }
            }
        }
        if rows.no_duplicates() && !rows.contains(row) {
            assert(rest.no_duplicates()) by {
                assert forall|i: int, j: int|
                    0 <= i < rest.len() && 0 <= j < rest.len() && i != j implies rest[i]
                    != rest[j] by {
                    assert(rows[i + 1] != rows[j + 1]);
                }
            }
            assert(!rest.contains(row)) by {
                if rest.contains(row) {
                    let k = choose|k: int| 0 <= k < rest.len() && rest[k] == row;
                    assert(rows[k + 1] == row);
                }
            }
            assert(rows.contains(rows[0]));
            assert forall|j: int| 0 <= j < tail.len() implies #[trigger] tail[j] != rows[0] by {
                if rest.contains(tail[j]) {
                    let k = choose|k: int| 0 <= k < rest.len() && rest[k] == tail[j];
                    assert(rows[k + 1] != rows[0]);
                }
            }
            assert forall|i: int, j: int|
                0 <= i < all.len() && 0 <= j < all.len() && i != j implies all[i] != all[j] by {
                if i == 0 {
                    assert(all[j] == tail[j - 1]);
                } else if j == 0 {
                    assert(all[i] == tail[i - 1]);
                } else {
                    assert(all[i] == tail[i - 1] && all[j] == tail[j - 1]);
                }
            }
        }
    } else {
        assert(all =~= seq![row] + rows);
        assert forall|i: int| 0 <= i < all.len() implies #[trigger] all[i] == row || rows.contains(
            all[i],
        ) by {
            if i > 0 {
                assert(all[i] == rows[i - 1]);
            }
        }
        if rows.no_duplicates() && !rows.contains(row) {
            assert forall|i: int, j: int|
                0 <= i < all.len() && 0 <= j < all.len() && i != j implies all[i] != all[j] by {
                if i == 0 {
                    assert(rows.contains(rows[j - 1]));
                } else if j == 0 {
                    assert(rows.contains(rows[i - 1]));
                } else {
                    assert(rows[i - 1] != rows[j - 1]);
                }
            }
        }
    }
}

/// Putting a row into rows in order keeps them in order.
proof fn lemma_placed_in_order(keys: Seq<SortKeyView>, row: usize, rows: Seq<usize>)
    requires
        sortable(keys),
        row < keys[0].column.cells.len(),
        forall|i: int| 0 <= i < rows.len() ==> #[trigger] rows[i] < keys[0].column.cells.len(),
        in_order(keys, rows),
    ensures
        in_order(keys, placed(keys, row, rows)),
    decreases rows.len(),
{
    let all = placed(keys, row, rows);
    if rows.len() == 0 {
    } else if row_order(keys, row as int, rows[0] as int) == Order::Greater {
        let rest = rows.skip(1);
        let tail = placed(keys, row, rest);
        assert forall|i: int| 0 <= i < rest.len() implies #[trigger] rest[i]
            < keys[0].column.cells.len() by {
            assert(rest[i] == rows[i + 1]);
        }
        assert(in_order(keys, rest)) by {
            assert forall|i: int, j: int| 0 <= i < j < rest.len() implies row_order(
                keys,
                #[trigger] rest[i] as int,
                #[trigger] rest[j] as int,
            ) != Order::Greater by {
                assert(rest[i] == rows[i + 1] && rest[j] == rows[j + 1]);
            }
        }
        lemma_placed_in_order(keys, row, rest);
        lemma_placed(keys, row, rest);
        assert(all =~= seq![rows[0]] + tail);
        lemma_row_steps(keys, row as int, rows[0] as int, rows[0] as int);
        assert forall|i: int, j: int| 0 <= i < j < all.len() implies row_order(
            keys,
            #[trigger] all[i] as int,
            #[trigger] all[j] as int,
        ) != Order::Greater by {
            assert(all[j] == tail[j - 1]);
            if i > 0 {
                assert(all[i] == tail[i - 1]);
            } else if rest.contains(tail[j - 1]) {
                let k = choose|k: int| 0 <= k < rest.len() && rest[k] == tail[j - 1];
                assert(rows[k + 1] == all[j]);
            }
        }
    } else {
        assert(all =~= seq![row] + rows);
        assert forall|i: int, j: int| 0 <= i < j < all.len() implies row_order(
            keys,
            #[trigger] all[i] as int,
            #[trigger] all[j] as int,
        ) != Order::Greater by {
            assert(all[j] == rows[j - 1]);
            if i > 0 {
                assert(all[i] == rows[i - 1]);
            } else {
                lemma_row_steps(keys, row as int, rows[0] as int, rows[j - 1] as int);
                if j - 1 == 0 {
                } else {
                    assert(row_order(keys, rows[0] as int, rows[j - 1] as int) != Order::Greater);
                }
            }
        }
    }
}

/// The first rows in order are those rows, each once, and in order where they can be sorted.
pub proof fn lemma_rows_in_order(keys: Seq<SortKeyView>, n: nat)
    requires
        n <= usize::MAX,
    ensures
        is_permutation(rows_in_order(keys, n), n),
        sortable(keys) && n <= keys[0].column.cells.len() ==> in_order(
            keys,
            rows_in_order(keys, n),
        ),
    decreases n,
{
    if n > 0 {
        let m = (n - 1) as nat;
        let before = rows_in_order(keys, m);
        lemma_rows_in_order(keys, m);
        lemma_placed(keys, m as usize, before);
        assert(!before.contains(m as usize));
        let all = rows_in_order(keys, n);
        assert forall|i: int| 0 <= i < all.len() implies (#[trigger] all[i]) < n by {
            if before.contains(all[i]) {
                let k = choose|k: int| 0 <= k < before.len() && before[k] == all[i];
                assert(before[k] < m);
            }
        }
        if sortable(keys) && n <= keys[0].column.cells.len() {
            assert forall|i: int| 0 <= i < before.len() implies #[trigger] before[i]
                < keys[0].column.cells.len() by {
                assert(before[i] < m);
            }
            lemma_placed_in_order(keys, m as usize, before);
        }
    }
}

/// No two of the first `n` rows are alike by the keys.
pub open spec fn tells_apart(keys: Seq<SortKeyView>, n: nat) -> bool {
    forall|a: int, b: int|
        0 <= a < n && 0 <= b < n && #[trigger] row_order(keys, a, b) == Order::Equal ==> a == b
}

/// By a further key, rows stand as by the first keys, unless those do not tell them apart.
pub proof fn lemma_last_key(keys: Seq<SortKeyView>, k: SortKeyView, a: int, b: int)
    ensures
        row_order(keys.push(k), a, b) == if row_order(keys, a, b) == Order::Equal {
            key_order(k, a, b)
        } else {
            row_order(keys, a, b)
        },
    decreases keys.len(),
{
    let all = keys.push(k);
    if keys.len() == 0 {
        assert(all.skip(1) =~= Seq::empty());
        assert(row_order(all.skip(1), a, b) == Order::Equal);
    } else {
        assert(all[0] == keys[0]);
        assert(all.skip(1) =~= keys.skip(1).push(k));
        lemma_last_key(keys.skip(1), k, a, b);
    }
}

/// Rows that are in order by more keys are so by fewer.
pub proof fn lemma_more_keys(keys: Seq<SortKeyView>, k: SortKeyView, rows: Seq<usize>)
    requires
        in_order(keys.push(k), rows),
    ensures
        in_order(keys, rows),
{
    assert forall|i: int, j: int| 0 <= i < j < rows.len() implies row_order(
        keys,
        #[trigger] rows[i] as int,
        #[trigger] rows[j] as int,
    ) != Order::Greater by {
        lemma_last_key(keys, k, rows[i] as int, rows[j] as int);
    }
}

/// A list of the numbers below `n`, each once, holds every one of them.
pub proof fn lemma_holds_all(rows: Seq<usize>, n: nat, v: usize)
    requires
        is_permutation(rows, n),
        v < n,
    ensures
        rows.contains(v),
{
    if !rows.contains(v) {
        let more = rows.push(v);
        assert forall|i: int, j: int|
            0 <= i < more.len() && 0 <= j < more.len() && i != j implies more[i] != more[j] by {
            if i == rows.len() {
                assert(rows.contains(rows[j]));
            } else if j == rows.len() {
                assert(rows.contains(rows[i]));
            }
        }
        lemma_below_len(more, n);
    }
}

/// Numbers below a bound, each once, are no more than the bound.
pub proof fn lemma_below_len(rows: Seq<usize>, n: nat)
    requires
        rows.no_duplicates(),
        forall|i: int| 0 <= i < rows.len() ==> #[trigger] rows[i] < n,
    ensures
        rows.len() <= n,
    decreases n,
{
    if n == 0 {
        if rows.len() > 0 {
            assert(rows[0] < n);
        }
    } else {
        let top = n - 1;
        if exists|k: int| 0 <= k < rows.len() && rows[k] == top {
            let k = choose|k: int| 0 <= k < rows.len() && rows[k] == top;
            let rest = rows.remove(k);
            assert forall|i: int| 0 <= i < rest.len() implies #[trigger] rest[i] < top by {
                let j = if i < k { i } else { i + 1 };
                assert(rest[i] == rows[j]);
                assert(rows[j] != rows[k]);
            }
            assert(rest.no_duplicates()) by {
                assert forall|i: int, j: int|
                    0 <= i < rest.len() && 0 <= j < rest.len() && i != j implies rest[i]
                    != rest[j] by {
                    let x = if i < k { i } else { i + 1 };
                    let y = if j < k { j } else { j + 1 };
                    assert(rows[x] != rows[y]);
                }
            }
            lemma_below_len(rest, top as nat);
        } else {
            assert forall|i: int| 0 <= i < rows.len() implies #[trigger] rows[i] < top by {
                assert(rows[i] != top);
            }
            lemma_below_len(rows, top as nat);
        }
    }
}

/// Two lists in order that agree up to `i` agree at `i`.
proof fn lemma_next_agrees(
    keys: Seq<SortKeyView>,
    p: Seq<usize>,
    q: Seq<usize>,
    n: nat,
    i: int,
)
    requires
        sortable(keys),
        n <= keys[0].column.cells.len(),
        tells_apart(keys, n),
        is_permutation(p, n),
        is_permutation(q, n),
        in_order(keys, p),
        in_order(keys, q),
        0 <= i < n,
        forall|k: int| 0 <= k < i ==> p[k] == q[k],
    ensures
        p[i] == q[i],
{
    if p[i] != q[i] {
        lemma_holds_all(p, n, q[i]);
        lemma_holds_all(q, n, p[i]);
        let j = choose|j: int| 0 <= j < p.len() && p[j] == q[i];
        let k = choose|k: int| 0 <= k < q.len() && q[k] == p[i];
        assert(j > i) by {
            if j < i {
                assert(q[j] == q[i]);
            }
        }
        assert(k > i) by {
            if k < i {
                assert(p[k] == p[i]);
            }
        }
        let a = p[i] as int;
        let b = q[i] as int;
        assert(row_order(keys, p[i] as int, p[j] as int) != Order::Greater);
        assert(row_order(keys, q[i] as int, q[k] as int) != Order::Greater);
        lemma_row_steps(keys, a, b, a);
        assert(row_order(keys, a, b) == Order::Equal);
    }
}

/// There is one order of rows that the keys tell apart.
pub proof fn lemma_one_order(keys: Seq<SortKeyView>, p: Seq<usize>, q: Seq<usize>, n: nat)
    requires
        sortable(keys),
        n <= keys[0].column.cells.len(),
        tells_apart(keys, n),
        is_permutation(p, n),
        is_permutation(q, n),
        in_order(keys, p),
        in_order(keys, q),
    ensures
        p == q,
{
    lemma_agree_up_to(keys, p, q, n, n as int);
    assert(p =~= q);
}

proof fn lemma_agree_up_to(
    keys: Seq<SortKeyView>,
    p: Seq<usize>,
    q: Seq<usize>,
    n: nat,
    i: int,
)
    requires
        sortable(keys),
        n <= keys[0].column.cells.len(),
        tells_apart(keys, n),
        is_permutation(p, n),
        is_permutation(q, n),
        in_order(keys, p),
        in_order(keys, q),
        0 <= i <= n,
    ensures
        forall|k: int| 0 <= k < i ==> p[k] == q[k],
    decreases i,
{
    if i > 0 {
        lemma_agree_up_to(keys, p, q, n, i - 1);
        lemma_next_agrees(keys, p, q, n, i - 1);
    }
}

} // verus!
