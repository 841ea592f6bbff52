//! Sets of column names, and the columns an expression reads.

use vstd::prelude::*;
use crate::planner::logical_plan::{column_key, key_of, Expr, ExprView};
use crate::types::{lemma_views_push, names, views, Schema};

verus! {

/// A set of column names.
#[derive(Debug)]
pub struct ColumnSet {
    names: Vec<String>,
}

impl View for ColumnSet {
    type V = Set<Seq<char>>;

    closed spec fn view(&self) -> Set<Seq<char>> {
        views(self.names@).to_set()
    }
}

impl ColumnSet {
    /// No name is held twice.
    #[verifier::type_invariant]
    spec fn distinct(&self) -> bool {
        views(self.names@).no_duplicates()
    }

    /// The empty set.
    pub fn new() -> (r: ColumnSet)
        ensures
            r@ == Set::<Seq<char>>::empty(),
    {
        let r = ColumnSet { names: Vec::new() };
        proof {
            assert(r@ =~= Set::empty());
        }
        r
    }

    /// Whether `name` is in the set.
    pub fn contains(&self, name: &str) -> (r: bool)
        ensures
            r == self@.contains(name@),
    {
        let mut i: usize = 0;
        while i < self.names.len()
            invariant
                i <= self.names.len(),
                forall|j: int| 0 <= j < i ==> views(self.names@)[j] != name@,
            decreases self.names.len() - i,
        {
            if *self.names[i].as_str() == *name {
                proof {
                    assert(views(self.names@)[i as int] == name@);
                }
                return true;
            }
            i = i + 1;
        }
        false
    }

    /// The names, each once.
    pub fn names(&self) -> (r: &Vec<String>)
        ensures
            views(r@).to_set() == self@,
            views(r@).no_duplicates(),
    {
        proof {
            use_type_invariant(self);
        }
        &self.names
    }

    /// The number of names in the set.
    pub fn len(&self) -> (r: usize)
        ensures
            r == self@.len(),
    {
        proof {
            use_type_invariant(self);
            views(self.names@).unique_seq_to_set();
        }
        self.names.len()
    }

    /// Adds `name`.
    pub fn insert(&mut self, name: String)
        ensures
            final(self)@ == old(self)@.insert(name@),
    {
        if self.contains(name.as_str()) {
            proof {
                assert(self@ =~= self@.insert(name@));
            }
            return;
        }
        proof {
            use_type_invariant(&*self);
        }
        let ghost before = self.names@;
        let mut grown: Vec<String> = Vec::new();
        std::mem::swap(&mut grown, &mut self.names);
        grown.push(name);
        proof {
            lemma_views_push(before, name);
            let after = views(before).push(name@);
            assert forall|n: Seq<char>| views(before).to_set().insert(name@).contains(n)
                implies after.contains(n) by {
                if n == name@ {
                    assert(after[before.len() as int] == n);
                } else {
                    let k = choose|k: int| 0 <= k < before.len() && views(before)[k] == n;
                    assert(after[k] == n);
                }
            }
            assert(after.to_set() =~= views(before).to_set().insert(name@));
            assert(after.no_duplicates());
        }
        self.names = grown;
    }

    /// Adds every name of `other`.
    pub fn extend(&mut self, other: &ColumnSet)
        ensures
            final(self)@ == old(self)@.union(other@),
    {
        let mut i: usize = 0;
        let ghost before = self@;
        proof {
            assert(before =~= before.union(views(other.names@).take(0).to_set()));
        }
        while i < other.names.len()
            invariant
                i <= other.names.len(),
                self@ == before.union(views(other.names@).take(i as int).to_set()),
            decreases other.names.len() - i,
        {
            proof {
                let t = views(other.names@);
                lemma_take_to_set(t, i as int);
                assert(before.union(t.take(i as int).to_set().insert(t[i as int]))
                    =~= before.union(t.take(i as int).to_set()).insert(t[i as int]));
            }
            self.insert(other.names[i].clone());
            i = i + 1;
        }
        proof {
            assert(views(other.names@).take(i as int) =~= views(other.names@));
        }
    }

    /// Whether every name is in the other set too.
    pub fn is_within(&self, other: &ColumnSet) -> (r: bool)
        ensures
            r == self@.subset_of(other@),
    {
        let list = self.names();
        let ghost all = views(list@);
        let mut i: usize = 0;
        while i < list.len()
            invariant
                i <= list.len(),
                all == views(list@),
                all.to_set() == self@,
                forall|k: int| 0 <= k < i ==> other@.contains(#[trigger] all[k]),
            decreases list.len() - i,
        {
            proof {
                assert(all[i as int] == list[i as int]@);
            }
            if !other.contains(list[i].as_str()) {
                proof {
                    assert(all.to_set().contains(all[i as int]));
                }
                return false;
            }
            i = i + 1;
        }
        proof {
            assert forall|n: Seq<char>| self@.contains(n) implies other@.contains(n) by {
                assert(all.to_set().contains(n));
                let k = choose|k: int| 0 <= k < all.len() && all[k] == n;
                assert(other@.contains(all[k]));
            }
        }
        true
    }

    /// Whether the two sets share a name.
    pub fn meets(&self, other: &ColumnSet) -> (r: bool)
        ensures
            r == sets_meet(self@, other@),
    {
        let mut i: usize = 0;
        while i < self.names.len()
            invariant
                i <= self.names.len(),
                forall|j: int| 0 <= j < i ==> !other@.contains(#[trigger] views(self.names@)[j]),
            decreases self.names.len() - i,
        {
            if other.contains(self.names[i].as_str()) {
                proof {
                    let n = views(self.names@)[i as int];
                    assert(self@.contains(n) && other@.contains(n));
                }
                return true;
            }
            i = i + 1;
        }
        proof {
            if sets_meet(self@, other@) {
                let n = choose|n: Seq<char>| #![auto] self@.contains(n) && other@.contains(n);
                let j = choose|j: int| 0 <= j < self.names.len() && views(self.names@)[j] == n;
                assert(!other@.contains(views(self.names@)[j]));
            }
        }
        false
    }

    /// The names of the fields of `schema` from index `from` up to, not including, `to`.
    pub fn of_fields(schema: &Schema, from: usize, to: usize) -> (r: ColumnSet)
        requires
            from <= to <= schema.fields.len(),
        ensures
            r@ == names(schema@).subrange(from as int, to as int).to_set(),
    {
        let mut out = ColumnSet::new();
        let mut i: usize = from;
        proof {
            assert(out@ =~= names(schema@).subrange(from as int, from as int).to_set());
        }
        while i < to
            invariant
                from <= i <= to <= schema.fields.len(),
                out@ == names(schema@).subrange(from as int, i as int).to_set(),
            decreases to - i,
        {
            proof {
                let t = names(schema@).subrange(from as int, i + 1);
                lemma_take_to_set(t, i - from);
                assert(t.take(i - from) =~= names(schema@).subrange(from as int, i as int));
                assert(t.take(i + 1 - from) =~= t);
            }
            out.insert(schema.fields[i].name.clone());
            i = i + 1;
        }
        out
    }
}

impl Clone for ColumnSet {
    fn clone(&self) -> (r: ColumnSet)
        ensures
            r@ == self@,
    {
        let mut r = ColumnSet::new();
        r.extend(self);
        proof {
            assert(r@ =~= self@);
        }
        r
    }
}

/// The two sets share an element.
pub open spec fn sets_meet(a: Set<Seq<char>>, b: Set<Seq<char>>) -> bool {
    exists|n: Seq<char>| #![auto] a.contains(n) && b.contains(n)
}

/// One more element of a sequence is one more element of its set.
pub proof fn lemma_take_to_set(t: Seq<Seq<char>>, i: int)
    requires
        0 <= i < t.len(),
    ensures
        t.take(i + 1).to_set() == t.take(i).to_set().insert(t[i]),
{
    let a = t.take(i + 1);
    let b = t.take(i);
    assert forall|n: Seq<char>| a.to_set().contains(n) <==> b.to_set().insert(t[i]).contains(n) by {
        if a.contains(n) {
            let k = choose|k: int| 0 <= k < a.len() && a[k] == n;
            if k < i {
                assert(b[k] == n);
            }
        }
        if b.contains(n) {
            let k = choose|k: int| 0 <= k < b.len() && b[k] == n;
            assert(a[k] == n);
        }
        if n == t[i] {
            assert(a[i] == n);
        }
    }
    assert(a.to_set() =~= b.to_set().insert(t[i]));
}

/// The keys of the columns that an expression reads.
pub open spec fn columns(e: ExprView) -> Set<Seq<char>>
    decreases e,
{
    match e {
        ExprView::Column { name, relation } => set![key_of(name, relation)],
        ExprView::Literal(_) => Set::empty(),
        ExprView::Binary { left, right, .. } => columns(*left).union(columns(*right)),
        ExprView::Aggregate { arg, .. } => columns(*arg),
        ExprView::Alias { expr, .. } => columns(*expr),
        ExprView::Wildcard => Set::empty(),
    }
}

/// The keys of the columns that some of the expressions read.
pub open spec fn columns_of_all(es: Seq<ExprView>) -> Set<Seq<char>>
    decreases es.len(),
{
    if es.len() == 0 {
        Set::empty()
    } else {
        columns_of_all(es.drop_last()).union(columns(es.last()))
    }
}

/// Collects distinct column keys referenced by an expression (including qualifiers).
pub fn collect_columns(expr: &Expr) -> (r: ColumnSet)
    ensures
        r@ == columns(expr@),
{
    let mut out = ColumnSet::new();
    collect_columns_rec(expr, &mut out);
    proof {
        assert(Set::<Seq<char>>::empty().union(columns(expr@)) =~= columns(expr@));
    }
    out
}

fn collect_columns_rec(expr: &Expr, out: &mut ColumnSet)
    ensures
        final(out)@ == old(out)@.union(columns(expr@)),
    decreases expr,
{
    let ghost before = out@;
    match expr {
        Expr::Column { name, relation } => {
            out.insert(column_key(name.as_str(), relation.as_ref()));
        },
        Expr::BinaryExpr { left, op: _, right } => {
            collect_columns_rec(left, out);
            collect_columns_rec(right, out);
        },
        Expr::AggregateFunc { arg, .. } => {
            collect_columns_rec(arg, out);
        },
        Expr::Alias { expr, name: _ } => {
            collect_columns_rec(expr, out);
        },
        Expr::Literal(_) | Expr::Wildcard => {},
    }
    proof {
        assert(out@ =~= before.union(columns(expr@)));
    }
}

} // verus!
