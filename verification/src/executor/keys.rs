//! Keys of several scalars: reading them from columns, and finding them again.

use vstd::prelude::*;
use std::collections::HashMap;
use crate::executor::batch::{scalar_in, Column, ColumnView};
use crate::text::chars_of;
use crate::types::{views, ScalarValue, ScalarView};

verus! {

/// One more number mixed into a hash.
pub open spec fn mixed(h: u64, x: u64) -> u64 {
    ((h * 0x9e37_79b9_7f4a_7c15 + x) % 0x1_0000_0000_0000_0000) as u64
}

fn mix(h: u64, x: u64) -> (r: u64)
    ensures
        r == mixed(h, x),
{
    let wide: u128 = h as u128 * 0x9e37_79b9_7f4a_7c15 + x as u128;
    (wide % 0x1_0000_0000_0000_0000) as u64
}

/// The hash of a text, continued from `h`.
pub open spec fn text_hash(h: u64, s: Seq<char>) -> u64
    decreases s.len(),
{
    if s.len() == 0 { h } else { mixed(text_hash(h, s.drop_last()), s.last() as u64) }
}

/// The hash of a scalar, continued from `h`.
pub open spec fn scalar_hash(h: u64, s: ScalarView) -> u64 {
    match s {
        ScalarView::Int64(v) => mixed(mixed(h, 1), (v as int % 0x1_0000_0000_0000_0000) as u64),
        ScalarView::Float64(v) => mixed(mixed(h, 2), v),
        ScalarView::Utf8(v) => text_hash(mixed(h, 3), v),
        ScalarView::Boolean(v) => mixed(mixed(h, 4), if v { 1 } else { 0 }),
        ScalarView::Null => mixed(h, 5),
    }
}

/// The hash of a key.
pub open spec fn key_hash(key: Seq<ScalarView>) -> u64
    decreases key.len(),
{
    if key.len() == 0 { 0 } else { scalar_hash(key_hash(key.drop_last()), key.last()) }
}

fn hash_text(h: u64, s: &str) -> (r: u64)
    ensures
        r == text_hash(h, s@),
{
    let v = chars_of(s);
    let mut out: u64 = h;
    let mut i: usize = 0;
    proof {
        assert(v@.take(0) =~= Seq::empty());
    }
    while i < v.len()
        invariant
            i <= v.len(),
            out == text_hash(h, v@.take(i as int)),
        decreases v.len() - i,
    {
        proof {
            assert(v@.take(i + 1).drop_last() =~= v@.take(i as int));
        }
        let c: char = v[i];
        out = mix(out, c as u64);
        i = i + 1;
    }
    proof {
        assert(v@.take(v.len() as int) =~= v@);
    }
    out
}

fn hash_scalar(h: u64, s: &ScalarValue) -> (r: u64)
    ensures
        r == scalar_hash(h, s@),
{
    match s {
        ScalarValue::Int64(v) => {
            let bits: u64 = if *v >= 0 { *v as u64 } else { u64::MAX - ((-(*v + 1)) as u64) };
            mix(mix(h, 1), bits)
        },
        ScalarValue::Float64(v) => mix(mix(h, 2), *v),
        ScalarValue::Utf8(v) => hash_text(mix(h, 3), v.as_str()),
        ScalarValue::Boolean(v) => mix(mix(h, 4), if *v { 1 } else { 0 }),
        ScalarValue::Null => mix(h, 5),
    }
}

fn hash_key(key: &Vec<ScalarValue>) -> (r: u64)
    ensures
        r == key_hash(views(key@)),
{
    let ghost all = views(key@);
    let mut out: u64 = 0;
    let mut i: usize = 0;
    proof {
        assert(all.take(0) =~= Seq::empty());
    }
    while i < key.len()
        invariant
            i <= key.len(),
            all == views(key@),
            out == key_hash(all.take(i as int)),
        decreases key.len() - i,
    {
        proof {
            assert(all.take(i + 1).drop_last() =~= all.take(i as int));
        }
        out = hash_scalar(out, &key[i]);
        i = i + 1;
    }
    proof {
        assert(all.take(key.len() as int) =~= all);
    }
    out
}

/// Whether two keys are equal.
pub fn same_key(a: &Vec<ScalarValue>, b: &Vec<ScalarValue>) -> (r: bool)
    ensures
        r == (views(a@) == views(b@)),
{
    if a.len() != b.len() {
        proof {
            assert(views(a@).len() != views(b@).len());
        }
        return false;
    }
    let mut i: usize = 0;
    while i < a.len()
        invariant
            i <= a.len(),
            a.len() == b.len(),
            forall|k: int| 0 <= k < i ==> #[trigger] views(a@)[k] == views(b@)[k],
        decreases a.len() - i,
    {
        if !(a[i] == b[i]) {
            proof {
                assert(views(a@)[i as int] != views(b@)[i as int]);
            }
            return false;
        }
        i = i + 1;
    }
    proof {
        assert(views(a@) =~= views(b@));
    }
    true
}

/// The values of some keys.
pub open spec fn key_views(keys: Seq<Vec<ScalarValue>>) -> Seq<Seq<ScalarView>> {
    Seq::new(keys.len(), |i: int| views(keys[i]@))
}

/// Distinct keys, numbered in the order in which they came.
pub struct KeyTable {
    keys: Vec<Vec<ScalarValue>>,
    buckets: HashMap<u64, Vec<usize>>,
}

impl View for KeyTable {
    type V = Seq<Seq<ScalarView>>;

    closed spec fn view(&self) -> Seq<Seq<ScalarView>> {
        key_views(self.keys@)
    }
}

impl KeyTable {
    /// No key is held twice, and each is found under its hash.
    pub closed spec fn wf(&self) -> bool {
        &&& self@.no_duplicates()
        &&& forall|i: int|
            0 <= i < self.keys.len() ==> {
                let h = key_hash(#[trigger] self@[i]);
                self.buckets@.dom().contains(h) && self.buckets@[h]@.contains(i as usize)
            }
        &&& forall|h: u64, k: int|
            self.buckets@.dom().contains(h) && 0 <= k < self.buckets@[h]@.len()
                ==> #[trigger] self.buckets@[h]@[k] < self.keys.len()
    }

    /// No key is held twice.
    pub proof fn lemma_distinct(&self)
        requires
            self.wf(),
        ensures
            self@.no_duplicates(),
    {
    }

    /// A table without keys.
    pub fn new() -> (r: KeyTable)
        ensures
            r.wf(),
            r@ == Seq::<Seq<ScalarView>>::empty(),
    {
        broadcast use vstd::std_specs::hash::group_hash_axioms;

        let r = KeyTable { keys: Vec::new(), buckets: HashMap::new() };
        proof {
            assert(r@ =~= Seq::empty());
        }
        r
    }

    /// The keys, in the order in which they came.
    pub fn keys(&self) -> (r: &Vec<Vec<ScalarValue>>)
        ensures
            key_views(r@) == self@,
            r.len() == self@.len(),
    {
        &self.keys
    }

    /// The number of a key.
    pub fn find(&self, key: &Vec<ScalarValue>) -> (r: Option<usize>)
        requires
            self.wf(),
        ensures
            match r {
                Some(i) => i < self@.len() && self@[i as int] == views(key@),
                None => !self@.contains(views(key@)),
            },
    {
        broadcast use vstd::std_specs::hash::group_hash_axioms;

        let h: u64 = hash_key(key);
        match self.buckets.get(&h) {
            None => {
                proof {
                    if self@.contains(views(key@)) {
                        let i = choose|i: int| 0 <= i < self@.len() && self@[i] == views(key@);
                        assert(key_hash(self@[i]) == h);
                    }
                }
                None
            },
            Some(list) => {
                let mut j: usize = 0;
                while j < list.len()
                    invariant
                        j <= list.len(),
                        self.wf(),
                        self.buckets@.dom().contains(h),
                        *list == self.buckets@[h],
                        h == key_hash(views(key@)),
                        forall|k: int|
                            0 <= k < j ==> self@[#[trigger] list@[k] as int] != views(key@),
                    decreases list.len() - j,
                {
                    let id: usize = list[j];
                    proof {
                        assert(self.buckets@[h]@[j as int] < self.keys.len());
                    }
                    if same_key(&self.keys[id], key) {
                        return Some(id);
                    }
                    j = j + 1;
                }
                proof {
                    if self@.contains(views(key@)) {
                        let i = choose|i: int| 0 <= i < self@.len() && self@[i] == views(key@);
                        assert(key_hash(self@[i]) == h);
                        let k = choose|k: int|
                            0 <= k < list@.len() && list@[k] == i as usize;
                        assert(self@[list@[k] as int] != views(key@));
                    }
                }
                None
            },
        }
    }

    /// Adds a key that is not in the table.
    pub fn insert(&mut self, key: Vec<ScalarValue>)
        requires
            old(self).wf(),
            !old(self)@.contains(views(key@)),
        ensures
            final(self).wf(),
            final(self)@ == old(self)@.push(views(key@)),
    {
        broadcast use vstd::std_specs::hash::group_hash_axioms;

        let ghost before = *self;
        let h: u64 = hash_key(&key);
        let id: usize = self.keys.len();
        let mut list: Vec<usize> = match self.buckets.remove(&h) {
            Some(v) => v,
            None => Vec::new(),
        };
        let ghost was = list@;
        list.push(id);
        self.buckets.insert(h, list);
        self.keys.push(key);
        proof {
            assert(self@ =~= before@.push(views(key@)));
            assert forall|i: int| 0 <= i < self.keys.len() implies {
                let g = key_hash(#[trigger] self@[i]);
                self.buckets@.dom().contains(g) && self.buckets@[g]@.contains(i as usize)
            } by {
                let g = key_hash(self@[i]);
                if i < before.keys.len() {
                    assert(self@[i] == before@[i]);
                    assert(before.buckets@[g]@.contains(i as usize));
                    if g == h {
                        assert(was.contains(i as usize));
                        let k = choose|k: int| 0 <= k < was.len() && was[k] == i as usize;
                        assert(self.buckets@[h]@[k] == i as usize);
                    }
                } else {
                    assert(self.buckets@[h]@[was.len() as int] == id);
                }
            }
            assert forall|g: u64, k: int|
                self.buckets@.dom().contains(g) && 0 <= k < self.buckets@[g]@.len()
                implies #[trigger] self.buckets@[g]@[k] < self.keys.len() by {
                if g == h {
                    if k < was.len() {
                        assert(before.buckets@[h]@[k] < before.keys.len());
                    }
                } else {
                    assert(before.buckets@[g]@[k] < before.keys.len());
                }
            }
            assert(self@.no_duplicates()) by {
                assert forall|i: int, j: int| 0 <= i < j < self@.len() implies self@[i] != self@[j] by {
                    if j == before@.len() {
                        assert(before@[i] == self@[i]);
                        assert(before@.contains(self@[i]));
                    }
                }
            }
        }
    }
}

/// Every column holds a scalar in this row.
pub open spec fn row_readable(columns: Seq<ColumnView>, row: int) -> bool {
    forall|c: int| 0 <= c < columns.len() ==> scalar_in(#[trigger] columns[c], row) is Some
}

/// The key in a row: the scalar of each column.
pub open spec fn key_at(columns: Seq<ColumnView>, row: int) -> Seq<ScalarView> {
    Seq::new(columns.len(), |c: int| scalar_in(columns[c], row)->Some_0)
}

/// The key in each row.
pub open spec fn keys_of(columns: Seq<ColumnView>, rows: nat) -> Seq<Seq<ScalarView>> {
    Seq::new(rows, |r: int| key_at(columns, r))
}

/// Every column holds a scalar in every row.
pub open spec fn all_readable(columns: Seq<ColumnView>, rows: nat) -> bool {
    forall|r: int| 0 <= r < rows ==> #[trigger] row_readable(columns, r)
}

/// The first column that holds no scalar in this row.
pub open spec fn first_unreadable(columns: Seq<ColumnView>, row: int) -> int
    decreases columns.len(),
{
    if columns.len() == 0 || scalar_in(columns[0], row) is None {
        0
    } else {
        1 + first_unreadable(columns.skip(1), row)
    }
}

/// The first column that holds no scalar is a column where some holds none.
pub proof fn lemma_first_unreadable(columns: Seq<ColumnView>, row: int, k: int)
    requires
        0 <= k < columns.len(),
        scalar_in(columns[k], row) is None,
        forall|c: int| 0 <= c < k ==> scalar_in(#[trigger] columns[c], row) is Some,
    ensures
        first_unreadable(columns, row) == k,
    decreases columns.len(),
{
    if k > 0 {
        let t = columns.skip(1);
        assert(t[k - 1] == columns[k]);
        assert forall|c: int| 0 <= c < k - 1 implies scalar_in(#[trigger] t[c], row) is Some by {
            assert(t[c] == columns[c + 1]);
        }
        assert(scalar_in(columns[0], row) is Some);
        lemma_first_unreadable(t, row, k - 1);
    }
}

/// Reads the key in a row, or gives the index of the first column that holds no scalar there.
pub fn read_key(columns: &Vec<Column>, row: usize) -> (r: Result<Vec<ScalarValue>, usize>)
    requires
        forall|i: int| 0 <= i < columns.len() ==> row < (#[trigger] columns[i])@.cells.len(),
    ensures
        match r {
            Ok(key) => row_readable(views(columns@), row as int) && views(key@) == key_at(
                views(columns@),
                row as int,
            ),
            Err(c) => c < columns.len() && !row_readable(views(columns@), row as int) && c
                == first_unreadable(views(columns@), row as int),
        },
{
    let ghost all = views(columns@);
    let mut key: Vec<ScalarValue> = Vec::new();
    let mut i: usize = 0;
    while i < columns.len()
        invariant
            i <= columns.len(),
            all == views(columns@),
            key.len() == i,
            forall|k: int| 0 <= k < columns.len() ==> row < (#[trigger] columns[k])@.cells.len(),
            forall|c: int| 0 <= c < i ==> scalar_in(#[trigger] all[c], row as int) is Some,
            forall|c: int|
                0 <= c < i ==> (#[trigger] key[c])@ == scalar_in(all[c], row as int)->Some_0,
        decreases columns.len() - i,
    {
        proof {
            assert(all[i as int] == columns[i as int]@);
        }
        match columns[i].scalar(row) {
            Some(s) => {
                key.push(s);
            },
            None => {
                proof {
                    lemma_first_unreadable(all, row as int, i as int);
                }
                return Err(i);
            },
        }
        i = i + 1;
    }
    proof {
        assert(views(key@) =~= key_at(all, row as int));
    }
    Ok(key)
}

} // verus!
