//! Logical schema and scalar value types shared across planner and execution.

use vstd::prelude::*;
use arrow::datatypes::DataType as ArrowType;
use crate::error::ArborError;
use crate::error::ErrorView;
use crate::text::join3;

verus! {

/// An Arrow type that the engine only carries along.
#[verifier::external_type_specification]
#[verifier::external_body]
pub struct ExArrowType(ArrowType);

/// `Clone` of Arrow's `DataType`: the copy is the same type.
pub assume_specification[ <ArrowType as Clone>::clone ](t: &ArrowType) -> (r: ArrowType)
    ensures
        r == *t,
;

/// `PartialEq` of Arrow's `DataType`: whether two types are the same.
pub assume_specification[ <ArrowType as PartialEq>::eq ](a: &ArrowType, b: &ArrowType) -> (r: bool)
    ensures
        r == (*a == *b),
;

/// The elements of a sequence, each by its view.
pub open spec fn views<T: View>(s: Seq<T>) -> Seq<T::V> {
    Seq::new(s.len(), |i: int| s[i]@)
}

/// The view of a sequence that grew by one element.
pub broadcast proof fn lemma_views_push<T: View>(s: Seq<T>, x: T)
    ensures
        #[trigger] views(s.push(x)) == views(s).push(x@),
{
    assert(views(s.push(x)) =~= views(s).push(x@));
}

/// Column type.
#[derive(Debug)]
pub enum DataType {
    /// 64-bit signed integers.
    Int64,
    /// 64-bit floats.
    Float64,
    /// UTF-8 strings.
    Utf8,
    /// Booleans.
    Boolean,
    /// Nothing but NULL.
    Null,
    /// Any other Arrow type.
    Other(ArrowType),
}

impl Clone for DataType {
    fn clone(&self) -> (r: DataType)
        ensures
            r == *self,
    {
        match self {
            DataType::Int64 => DataType::Int64,
            DataType::Float64 => DataType::Float64,
            DataType::Utf8 => DataType::Utf8,
            DataType::Boolean => DataType::Boolean,
            DataType::Null => DataType::Null,
            DataType::Other(t) => DataType::Other(t.clone()),
        }
    }
}

impl PartialEq for DataType {
    fn eq(&self, other: &DataType) -> (r: bool) {
        match (self, other) {
            (DataType::Int64, DataType::Int64) => true,
            (DataType::Float64, DataType::Float64) => true,
            (DataType::Utf8, DataType::Utf8) => true,
            (DataType::Boolean, DataType::Boolean) => true,
            (DataType::Null, DataType::Null) => true,
            (DataType::Other(a), DataType::Other(b)) => *a == *b,
            _ => false,
        }
    }
}

impl vstd::std_specs::cmp::PartialEqSpecImpl for DataType {
    open spec fn obeys_eq_spec() -> bool {
        true
    }

    open spec fn eq_spec(&self, other: &DataType) -> bool {
        *self == *other
    }
}

impl Eq for DataType {}

/// A single scalar value used in expressions and aggregation keys.
#[derive(Debug, Hash)]
pub enum ScalarValue {
    /// 64-bit signed integer.
    Int64(i64),
    /// 64-bit float, held as its IEEE 754 bits.
    Float64(u64),
    /// UTF-8 string.
    Utf8(String),
    /// Boolean.
    Boolean(bool),
    /// SQL NULL.
    Null,
}

/// The value of a [`ScalarValue`].
pub enum ScalarView {
    Int64(i64),
    Float64(u64),
    Utf8(Seq<char>),
    Boolean(bool),
    Null,
}

impl View for ScalarValue {
    type V = ScalarView;

    open spec fn view(&self) -> ScalarView {
        match self {
            ScalarValue::Int64(v) => ScalarView::Int64(*v),
            ScalarValue::Float64(v) => ScalarView::Float64(*v),
            ScalarValue::Utf8(v) => ScalarView::Utf8(v@),
            ScalarValue::Boolean(v) => ScalarView::Boolean(*v),
            ScalarValue::Null => ScalarView::Null,
        }
    }
}

impl Clone for ScalarValue {
    fn clone(&self) -> (r: ScalarValue)
        ensures
            r == *self,
    {
        match self {
            ScalarValue::Int64(v) => ScalarValue::Int64(*v),
            ScalarValue::Float64(v) => ScalarValue::Float64(*v),
            ScalarValue::Utf8(v) => ScalarValue::Utf8(v.clone()),
            ScalarValue::Boolean(v) => ScalarValue::Boolean(*v),
            ScalarValue::Null => ScalarValue::Null,
        }
    }
}

impl PartialEq for ScalarValue {
    fn eq(&self, other: &ScalarValue) -> (r: bool) {
        match (self, other) {
            (ScalarValue::Int64(a), ScalarValue::Int64(b)) => *a == *b,
            (ScalarValue::Float64(a), ScalarValue::Float64(b)) => *a == *b,
            (ScalarValue::Utf8(a), ScalarValue::Utf8(b)) => *a == *b,
            (ScalarValue::Boolean(a), ScalarValue::Boolean(b)) => *a == *b,
            (ScalarValue::Null, ScalarValue::Null) => true,
            _ => false,
        }
    }
}

impl vstd::std_specs::cmp::PartialEqSpecImpl for ScalarValue {
    open spec fn obeys_eq_spec() -> bool {
        true
    }

    open spec fn eq_spec(&self, other: &ScalarValue) -> bool {
        self@ == other@
    }
}

impl Eq for ScalarValue {}

/// Named field with its type.
#[derive(Debug)]
pub struct Field {
    /// Column name.
    pub name: String,
    /// Type of this field.
    pub data_type: DataType,
}

/// The value of a [`Field`].
pub struct FieldView {
    pub name: Seq<char>,
    pub data_type: DataType,
}

impl View for Field {
    type V = FieldView;

    open spec fn view(&self) -> FieldView {
        FieldView { name: self.name@, data_type: self.data_type }
    }
}

impl Clone for Field {
    fn clone(&self) -> (r: Field)
        ensures
            r == *self,
    {
        Field { name: self.name.clone(), data_type: self.data_type.clone() }
    }
}

impl PartialEq for Field {
    fn eq(&self, other: &Field) -> (r: bool) {
        self.name == other.name && self.data_type == other.data_type
    }
}

impl vstd::std_specs::cmp::PartialEqSpecImpl for Field {
    open spec fn obeys_eq_spec() -> bool {
        true
    }

    open spec fn eq_spec(&self, other: &Field) -> bool {
        self@ == other@
    }
}

impl Eq for Field {}

/// Ordered list of fields describing a relation.
#[derive(Debug)]
pub struct Schema {
    /// Fields in column order.
    pub fields: Vec<Field>,
}

/// The names of a list of fields, in order.
pub open spec fn names(fields: Seq<FieldView>) -> Seq<Seq<char>> {
    Seq::new(fields.len(), |i: int| fields[i].name)
}

impl View for Schema {
    type V = Seq<FieldView>;

    open spec fn view(&self) -> Seq<FieldView> {
        views(self.fields@)
    }
}

impl Clone for Schema {
    fn clone(&self) -> (r: Schema)
        ensures
            r@ == self@,
    {
        let fields = self.fields.clone();
        let r = Schema { fields };
        proof {
            assert(r@ =~= self@);
        }
        r
    }
}

impl PartialEq for Schema {
    fn eq(&self, other: &Schema) -> (r: bool) {
        let n: usize = self.fields.len();
        if n != other.fields.len() {
            proof {
                assert(self@.len() != other@.len());
            }
            return false;
        }
        let mut i: usize = 0;
        while i < n
            invariant
                n == self.fields.len(),
                n == other.fields.len(),
                i <= n,
                forall|j: int| 0 <= j < i ==> #[trigger] self@[j] == other@[j],
            decreases n - i,
        {
            if !(self.fields[i] == other.fields[i]) {
                proof {
                    assert(self@[i as int] != other@[i as int]);
                }
                return false;
            }
            i = i + 1;
        }
        proof {
            assert(self@ =~= other@);
        }
        true
    }
}

impl vstd::std_specs::cmp::PartialEqSpecImpl for Schema {
    open spec fn obeys_eq_spec() -> bool {
        true
    }

    open spec fn eq_spec(&self, other: &Schema) -> bool {
        self@ == other@
    }
}

impl Eq for Schema {}

/// The first position of `name` in a list of names.
pub open spec fn position(list: Seq<Seq<char>>, name: Seq<char>) -> Option<int>
    decreases list.len(),
{
    if list.len() == 0 {
        None
    } else if list[0] == name {
        Some(0)
    } else {
        match position(list.skip(1), name) {
            Some(i) => Some(i + 1),
            None => None,
        }
    }
}

/// `position` finds the least index that holds the name, exactly when one does.
pub proof fn lemma_position(list: Seq<Seq<char>>, name: Seq<char>)
    ensures
        match position(list, name) {
            Some(i) => 0 <= i < list.len() && list[i] == name && forall|j: int|
                0 <= j < i ==> list[j] != name,
            None => !list.contains(name),
        },
    decreases list.len(),
{
    if list.len() > 0 && list[0] != name {
        let t = list.skip(1);
        lemma_position(t, name);
        match position(t, name) {
            Some(i) => {
                assert forall|j: int| 0 <= j < i + 1 implies list[j] != name by {
                    if j > 0 {
                        assert(t[j - 1] == list[j]);
                    }
                }
            },
            None => {
                if list.contains(name) {
                    let k = choose|k: int| 0 <= k < list.len() && list[k] == name;
                    assert(t[k - 1] == name);
                }
            },
        }
    }
}

/// The least index that holds a name is its position.
pub proof fn lemma_position_is(list: Seq<Seq<char>>, name: Seq<char>, i: int)
    requires
        0 <= i < list.len(),
        list[i] == name,
        forall|j: int| 0 <= j < i ==> list[j] != name,
    ensures
        position(list, name) == Some(i),
{
    lemma_position(list, name);
    assert(list.contains(list[i]));
    let p = position(list, name)->Some_0;
    if p < i {
        assert(list[p] != name);
    }
    if i < p {
        assert(list[i] != name);
    }
}

impl Schema {
    /// The column names, in order.
    pub open spec fn names(&self) -> Seq<Seq<char>> {
        names(self@)
    }

    /// Looks up a field by name (case-sensitive); returns index and field if found.
    pub fn field_by_name(&self, name: &str) -> (r: Option<(usize, &Field)>)
        ensures
            match r {
                Some((i, f)) => position(self.names(), name@) == Some(i as int) && i
                    < self.fields.len() && *f == self.fields[i as int],
                None => position(self.names(), name@) is None,
            },
    {
        let n: usize = self.fields.len();
        let mut i: usize = 0;
        while i < n
            invariant
                n == self.fields.len(),
                i <= n,
                forall|j: int| 0 <= j < i ==> self.names()[j] != name@,
            decreases n - i,
        {
            if *self.fields[i].name.as_str() == *name {
                proof {
                    lemma_position_is(self.names(), name@, i as int);
                }
                return Some((i, &self.fields[i]));
            }
            i = i + 1;
        }
        proof {
            lemma_position(self.names(), name@);
        }
        None
    }

    /// Returns the index of column `name` or a plan error if not found.
    pub fn index_of(&self, name: &str) -> (r: Result<usize, ArborError>)
        ensures
            match r {
                Ok(i) => position(self.names(), name@) == Some(i as int) && i < self.fields.len(),
                Err(e) => position(self.names(), name@) is None && e@ == ErrorView::Plan(
                    "unknown column '"@ + name@ + "' in schema"@,
                ),
            },
    {
        match self.field_by_name(name) {
            Some((i, _)) => Ok(i),
            None => Err(ArborError::Plan(join3("unknown column '", name, "' in schema"))),
        }
    }
}

/// Table name to relation schema (e.g. built from Parquet files in a directory).
#[derive(Debug)]
pub struct Catalog {
    entries: Vec<(String, Schema)>,
}

impl View for Catalog {
    type V = Map<Seq<char>, Seq<FieldView>>;

    closed spec fn view(&self) -> Map<Seq<char>, Seq<FieldView>> {
        Map::new(
            |k: Seq<char>| exists|i: int| 0 <= i < self.entries.len() && (#[trigger] self.entries[i]).0@ == k,
            |k: Seq<char>| self.entries[self.slot(k)].1@,
        )
    }
}

impl Catalog {
    /// No table is listed twice.
    #[verifier::type_invariant]
    spec fn distinct(&self) -> bool {
        forall|i: int, j: int| 0 <= i < self.entries.len() && 0 <= j < self.entries.len() && i != j
            ==> (#[trigger] self.entries[i]).0@ != (#[trigger] self.entries[j]).0@
    }

    spec fn slot(&self, k: Seq<char>) -> int {
        choose|i: int| 0 <= i < self.entries.len() && (#[trigger] self.entries[i]).0@ == k
    }

    /// A catalog without tables.
    pub fn new() -> (r: Catalog)
        ensures
            r@ == Map::<Seq<char>, Seq<FieldView>>::empty(),
    {
        let r = Catalog { entries: Vec::new() };
        proof {
            assert(r@ =~= Map::empty());
        }
        r
    }

    fn find(&self, name: &str) -> (r: Option<usize>)
        ensures
            match r {
                Some(i) => i < self.entries.len() && self.entries[i as int].0@ == name@
                    && self@.dom().contains(name@) && self@[name@] == self.entries[i as int].1@,
                None => !self@.dom().contains(name@),
            },
    {
        proof {
            use_type_invariant(self);
        }
        let n: usize = self.entries.len();
        let mut i: usize = 0;
        while i < n
            invariant
                n == self.entries.len(),
                i <= n,
                self.distinct(),
                forall|j: int| 0 <= j < i ==> (#[trigger] self.entries[j]).0@ != name@,
            decreases n - i,
        {
            if *self.entries[i].0.as_str() == *name {
                return Some(i);
            }
            i = i + 1;
        }
        None
    }

    /// The schema listed under `name`.
    pub fn get(&self, name: &str) -> (r: Option<&Schema>)
        ensures
            match r {
                Some(s) => self@.dom().contains(name@) && s@ == self@[name@],
                None => !self@.dom().contains(name@),
            },
    {
        match self.find(name) {
            Some(i) => Some(&self.entries[i].1),
            None => None,
        }
    }

    /// Whether a table is listed under `name`.
    pub fn contains_key(&self, name: &str) -> (r: bool)
        ensures
            r == self@.dom().contains(name@),
    {
        self.find(name).is_some()
    }

    /// Lists `schema` under `name`, in place of what was listed there.
    pub fn insert(&mut self, name: String, schema: Schema)
        ensures
            final(self)@ == old(self)@.insert(name@, schema@),
    {
        let at = self.find(name.as_str());
        let mut entries: Vec<(String, Schema)> = Vec::new();
        proof {
            use_type_invariant(&*self);
        }
        let ghost before = self.entries@;
        let ghost was = *self;
        std::mem::swap(&mut entries, &mut self.entries);
        match at {
            Some(i) => {
                entries.set(i, (name, schema));
            },
            None => {
                entries.push((name, schema));
            },
        }
        self.entries = entries;
        proof {
            let i = match at { Some(i) => i as int, None => before.len() as int };
            assert(self.entries[i].0@ == name@);
            assert forall|k: Seq<char>| self@.dom().contains(k) <==> was@.insert(name@, schema@).dom().contains(k) by {
                if was@.dom().contains(k) && k != name@ {
                    let j = was.slot(k);
                    assert(self.entries[j].0@ == k);
                }
                if self@.dom().contains(k) && k != name@ {
                    let j = self.slot(k);
                    assert(was.entries[j].0@ == k);
                }
            }
            assert forall|k: Seq<char>| self@.dom().contains(k) implies self@[k] == was@.insert(name@, schema@)[k] by {
                let j = self.slot(k);
                assert(self.entries[j].0@ == k);
                if k == name@ {
                    assert(j == i);
                } else {
                    assert(was.entries[j].0@ == k);
                    assert(was.slot(k) == j);
                }
            }
            assert(self@ =~= was@.insert(name@, schema@));
        }
    }
}

} // verus!
