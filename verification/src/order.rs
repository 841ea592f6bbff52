//! How scalars compare.

use vstd::prelude::*;
use crate::float::{float_below, float_is_nan, is_nan, place};
use crate::text::chars_of;
use crate::types::{ScalarValue, ScalarView};

verus! {

/// How one value stands to another.
#[derive(Debug, Clone, Copy, PartialEq, Eq, Structural)]
pub enum Order {
    /// Before the other.
    Less,
    /// At the same place.
    Equal,
    /// After the other.
    Greater,
}

/// How one integer stands to another.
pub open spec fn int_order(a: int, b: int) -> Order {
    if a < b { Order::Less } else if a == b { Order::Equal } else { Order::Greater }
}

/// How one text stands to another: by the first character in which they differ.
pub open spec fn text_order(a: Seq<char>, b: Seq<char>) -> Order
    decreases a.len(),
{
    if a.len() == 0 {
        if b.len() == 0 { Order::Equal } else { Order::Less }
    } else if b.len() == 0 {
        Order::Greater
    } else if a[0] != b[0] {
        int_order(a[0] as int, b[0] as int)
    } else {
        text_order(a.skip(1), b.skip(1))
    }
}

/// How one list of numbers stands to another: by the first number in which they differ.
pub open spec fn list_order(a: Seq<int>, b: Seq<int>) -> Order
    decreases a.len(),
{
    if a.len() == 0 {
        if b.len() == 0 { Order::Equal } else { Order::Less }
    } else if b.len() == 0 {
        Order::Greater
    } else if a[0] != b[0] {
        int_order(a[0], b[0])
    } else {
        list_order(a.skip(1), b.skip(1))
    }
}

/// Exchanging two lists reverses their order, and only equal lists are at one place.
pub proof fn lemma_list_order(a: Seq<int>, b: Seq<int>)
    ensures
        list_order(b, a) == reversed(list_order(a, b)),
        list_order(a, b) == Order::Equal <==> a == b,
    decreases a.len(),
{
    if a.len() > 0 && b.len() > 0 && a[0] == b[0] {
        lemma_list_order(a.skip(1), b.skip(1));
        if a.skip(1) == b.skip(1) {
            assert(a =~= seq![a[0]] + a.skip(1));
            assert(b =~= seq![b[0]] + b.skip(1));
        }
    } else if a.len() == 0 && b.len() == 0 {
        assert(a =~= b);
    }
}

/// A list before a second, itself not after a third, is before the third.
pub proof fn lemma_list_order_steps(a: Seq<int>, b: Seq<int>, c: Seq<int>)
    requires
        list_order(a, b) != Order::Greater,
        list_order(b, c) != Order::Greater,
    ensures
        list_order(a, c) != Order::Greater,
        list_order(a, b) == Order::Less || list_order(b, c) == Order::Less ==> list_order(a, c)
            == Order::Less,
    decreases a.len(),
{
    if a.len() > 0 && b.len() > 0 && c.len() > 0 && a[0] == b[0] && b[0] == c[0] {
        lemma_list_order_steps(a.skip(1), b.skip(1), c.skip(1));
    }
}

/// FALSE comes before TRUE.
pub open spec fn bool_order(a: bool, b: bool) -> Order {
    if a == b { Order::Equal } else if b { Order::Less } else { Order::Greater }
}

/// How two scalars of one kind compare; nothing else compares, nor does NULL or NaN.
pub open spec fn scalar_order(a: ScalarView, b: ScalarView) -> Option<Order> {
    match (a, b) {
        (ScalarView::Int64(x), ScalarView::Int64(y)) => Some(int_order(x as int, y as int)),
        (ScalarView::Float64(x), ScalarView::Float64(y)) => if is_nan(x) || is_nan(y) {
            None
        } else {
            Some(int_order(place(x), place(y)))
        },
        (ScalarView::Utf8(x), ScalarView::Utf8(y)) => Some(text_order(x, y)),
        (ScalarView::Boolean(x), ScalarView::Boolean(y)) => Some(bool_order(x, y)),
        _ => None,
    }
}

/// The opposite order.
pub open spec fn reversed(o: Order) -> Order {
    match o {
        Order::Less => Order::Greater,
        Order::Equal => Order::Equal,
        Order::Greater => Order::Less,
    }
}

/// Exchanging two texts reverses their order, and only equal texts are at one place.
pub proof fn lemma_text_order(a: Seq<char>, b: Seq<char>)
    ensures
        text_order(b, a) == reversed(text_order(a, b)),
        text_order(a, b) == Order::Equal <==> a == b,
    decreases a.len(),
{
    if a.len() > 0 && b.len() > 0 && a[0] == b[0] {
        lemma_text_order(a.skip(1), b.skip(1));
        if a.skip(1) == b.skip(1) {
            assert(a =~= seq![a[0]] + a.skip(1));
            assert(b =~= seq![b[0]] + b.skip(1));
        }
    } else if a.len() == 0 && b.len() == 0 {
        assert(a =~= b);
    }
}

/// A text before a second, itself not after a third, is before the third.
pub proof fn lemma_text_order_steps(a: Seq<char>, b: Seq<char>, c: Seq<char>)
    requires
        text_order(a, b) != Order::Greater,
        text_order(b, c) != Order::Greater,
    ensures
        text_order(a, c) != Order::Greater,
        text_order(a, b) == Order::Less || text_order(b, c) == Order::Less ==> text_order(a, c)
            == Order::Less,
    decreases a.len(),
{
    if a.len() > 0 && b.len() > 0 && c.len() > 0 && a[0] == b[0] && b[0] == c[0] {
        lemma_text_order_steps(a.skip(1), b.skip(1), c.skip(1));
    }
}

/// How scalars compare is carried from one to the next.
pub proof fn lemma_order_steps(a: ScalarView, b: ScalarView, c: ScalarView)
    requires
        scalar_order(a, b) == Some(Order::Less) || scalar_order(a, b) == Some(Order::Equal),
        scalar_order(b, c) is Some,
    ensures
        scalar_order(a, c) is Some,
        scalar_order(b, c) != Some(Order::Greater) ==> scalar_order(a, c) != Some(Order::Greater),
        scalar_order(b, c) == Some(Order::Less) ==> scalar_order(a, c) == Some(Order::Less),
        scalar_order(a, b) == Some(Order::Less) && scalar_order(b, c) == Some(Order::Equal)
            ==> scalar_order(a, c) == Some(Order::Less),
{
    match (a, b, c) {
        (ScalarView::Utf8(x), ScalarView::Utf8(y), ScalarView::Utf8(z)) => {
            if text_order(y, z) != Order::Greater {
                lemma_text_order_steps(x, y, z);
            }
        },
        _ => {},
    }
}

/// Exchanging two scalars reverses their order.
pub proof fn lemma_order_reversed(a: ScalarView, b: ScalarView)
    ensures
        match (scalar_order(a, b), scalar_order(b, a)) {
            (Some(x), Some(y)) => y == reversed(x),
            (None, None) => true,
            _ => false,
        },
{
    match (a, b) {
        (ScalarView::Utf8(x), ScalarView::Utf8(y)) => {
            lemma_text_order(x, y);
        },
        _ => {},
    }
}

/// Compares two texts.
pub fn compare_texts(a: &str, b: &str) -> (r: Order)
    ensures
        r == text_order(a@, b@),
{
    let v = chars_of(a);
    let w = chars_of(b);
    let mut i: usize = 0;
    proof {
        assert(v@.skip(0) =~= v@);
        assert(w@.skip(0) =~= w@);
    }
    while i < v.len() && i < w.len()
        invariant
            i <= v.len(),
            i <= w.len(),
            v@ == a@,
            w@ == b@,
            text_order(a@, b@) == text_order(v@.skip(i as int), w@.skip(i as int)),
        decreases v.len() - i,
    {
        let x: char = v[i];
        let y: char = w[i];
        if x < y {
            return Order::Less;
        }
        if x > y {
            return Order::Greater;
        }
        proof {
            assert(v@.skip(i as int).skip(1) =~= v@.skip(i + 1));
            assert(w@.skip(i as int).skip(1) =~= w@.skip(i + 1));
        }
        i = i + 1;
    }
    if i < v.len() {
        Order::Greater
    } else if i < w.len() {
        Order::Less
    } else {
        Order::Equal
    }
}

/// Compares two scalars of one kind.
pub fn compare_scalars(a: &ScalarValue, b: &ScalarValue) -> (r: Option<Order>)
    ensures
        r == scalar_order(a@, b@),
{
    match (a, b) {
        (ScalarValue::Int64(x), ScalarValue::Int64(y)) => {
            if *x < *y {
                Some(Order::Less)
            } else if *x == *y {
                Some(Order::Equal)
            } else {
                Some(Order::Greater)
            }
        },
        (ScalarValue::Float64(x), ScalarValue::Float64(y)) => {
            if float_is_nan(*x) || float_is_nan(*y) {
                None
            } else if float_below(*x, *y) {
                Some(Order::Less)
            } else if float_below(*y, *x) {
                Some(Order::Greater)
            } else {
                Some(Order::Equal)
            }
        },
        (ScalarValue::Utf8(x), ScalarValue::Utf8(y)) => {
            Some(compare_texts(x.as_str(), y.as_str()))
        },
        (ScalarValue::Boolean(x), ScalarValue::Boolean(y)) => {
            if *x == *y {
                Some(Order::Equal)
            } else if *y {
                Some(Order::Less)
            } else {
                Some(Order::Greater)
            }
        },
        _ => None,
    }
}

} // verus!
