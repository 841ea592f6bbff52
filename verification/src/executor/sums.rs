//! Sums of floats, in whatever order they are added.

use vstd::prelude::*;
use crate::executor::batch::Cell;
use crate::float::{float_sum, same_float};
use crate::types::ScalarView;

verus! {

/// An order and bracketing in which the values of some rows are added, beginning with zeros.
pub enum SumTree {
    /// Zero.
    Zero,
    /// The value of a row.
    Row(int),
    /// The sum of two sums.
    Plus(Box<SumTree>, Box<SumTree>),
}

/// What adding in this order gives.
pub open spec fn tree_sum(t: SumTree, cells: Seq<Cell>) -> u64
    decreases t,
{
    match t {
        SumTree::Zero => 0,
        SumTree::Row(i) => match cells[i] {
            Cell::Scalar(ScalarView::Float64(x)) => x,
            _ => 0,
        },
        SumTree::Plus(a, b) => float_sum(tree_sum(*a, cells), tree_sum(*b, cells)),
    }
}

/// The rows whose values are added.
pub open spec fn tree_rows(t: SumTree) -> Seq<int>
    decreases t,
{
    match t {
        SumTree::Zero => Seq::empty(),
        SumTree::Row(i) => seq![i],
        SumTree::Plus(a, b) => tree_rows(*a) + tree_rows(*b),
    }
}

/// The row holds a float.
pub open spec fn holds_float(cells: Seq<Cell>, i: int) -> bool {
    0 <= i < cells.len() && cells[i] matches Cell::Scalar(ScalarView::Float64(_))
}

/// Every float is added, each once.
pub open spec fn adds_all(t: SumTree, cells: Seq<Cell>) -> bool {
    &&& tree_rows(t).no_duplicates()
    &&& forall|i: int| #[trigger] tree_rows(t).contains(i) <==> holds_float(cells, i)
}

/// The number is what adding up the floats gives in some order, but for which NaN it is.
pub open spec fn is_sum(cells: Seq<Cell>, total: u64) -> bool {
    exists|t: SumTree| #[trigger] adds_all(t, cells) && same_float(tree_sum(t, cells), total)
}

/// How the sums of floats come out in the operators of a plan, from the topmost aggregation or join
/// down. Which order Arrow adds in depends on the machine.
pub enum Sums {
    /// Nothing is foreseen.
    Nowhere,
    /// In one aggregation, and in the first and the second input.
    Somewhere { own: Seq<u64>, first: Box<Sums>, second: Box<Sums> },
}

impl Sums {
    /// In the aggregation itself, of `n` aggregates.
    pub open spec fn totals(self, n: nat) -> Seq<u64> {
        let own = match self {
            Sums::Nowhere => Seq::empty(),
            Sums::Somewhere { own, .. } => own,
        };
        Seq::new(n, |i: int| if i < own.len() { own[i] } else { 0 })
    }

    /// In the first input.
    pub open spec fn first(self) -> Sums {
        match self {
            Sums::Nowhere => Sums::Nowhere,
            Sums::Somewhere { first, .. } => *first,
        }
    }

    /// In the second input.
    pub open spec fn second(self) -> Sums {
        match self {
            Sums::Nowhere => Sums::Nowhere,
            Sums::Somewhere { second, .. } => *second,
        }
    }
}

/// The sums of an aggregation and its inputs.
pub open spec fn sums(own: Seq<u64>, first: Sums, second: Sums) -> Sums {
    Sums::Somewhere { own, first: Box::new(first), second: Box::new(second) }
}

/// The floats added one after the other.
pub open spec fn plain_tree(cells: Seq<Cell>) -> SumTree
    decreases cells.len(),
{
    if cells.len() == 0 {
        SumTree::Zero
    } else {
        let rest = plain_tree(cells.drop_last());
        if holds_float(cells, cells.len() - 1) {
            SumTree::Plus(Box::new(rest), Box::new(SumTree::Row(cells.len() - 1)))
        } else {
            rest
        }
    }
}

/// The sum of the floats: `guess`, where it is their sum in some order.
pub open spec fn float_total(cells: Seq<Cell>, guess: u64) -> u64 {
    if is_sum(cells, guess) { guess } else { tree_sum(plain_tree(cells), cells) }
}

/// Adding one after the other adds every float.
proof fn lemma_plain_tree(cells: Seq<Cell>)
    ensures
        adds_all(plain_tree(cells), cells),
    decreases cells.len(),
{
    let t = plain_tree(cells);
    if cells.len() > 0 {
        let init = cells.drop_last();
        let n = cells.len() - 1;
        let rest = plain_tree(init);
        lemma_plain_tree(init);
        let a = tree_rows(rest);
        assert forall|i: int| holds_float(init, i) == (holds_float(cells, i) && i != n) by {}
        if holds_float(cells, n) {
            assert(tree_rows(SumTree::Row(n)) == seq![n]);
            let all = tree_rows(t);
            assert(all == a + seq![n]);
            assert(!a.contains(n));
            assert forall|i: int, j: int|
                0 <= i < all.len() && 0 <= j < all.len() && i != j implies all[i] != all[j] by {
                if i == a.len() {
                    assert(a.contains(a[j]));
                } else if j == a.len() {
                    assert(a.contains(a[i]));
                }
            }
            assert forall|i: int| #[trigger] all.contains(i) <==> holds_float(cells, i) by {
                if all.contains(i) {
                    let k = choose|k: int| 0 <= k < all.len() && all[k] == i;
                    if k < a.len() {
                        assert(a[k] == i);
                        assert(a.contains(i));
                    }
                }
                if holds_float(cells, i) {
                    if i == n {
                        assert(all[a.len() as int] == i);
                    } else {
                        assert(a.contains(i));
                        let k = choose|k: int| 0 <= k < a.len() && a[k] == i;
                        assert(all[k] == i);
                    }
                }
            }
        } else {
            assert forall|i: int| #[trigger] tree_rows(t).contains(i) <==> holds_float(cells, i) by {
                assert(a.contains(i) <==> holds_float(init, i));
            }
        }
    } else {
        assert(tree_rows(t) =~= Seq::empty());
    }
}

/// Law: what stands for the sum of a column of floats is their sum in some order.
pub proof fn law_total_is_sum(cells: Seq<Cell>, guess: u64)
    ensures
        is_sum(cells, float_total(cells, guess)),
{
    lemma_plain_tree(cells);
    assert(adds_all(plain_tree(cells), cells));
}

} // verus!
