//! Record batches and their columns: what they hold, and the Arrow operations on them.

pub mod kernels;
pub mod ordering;

use vstd::prelude::*;
use std::sync::Arc;
use arrow::array::make_array;
use arrow::array::Array;
use arrow::array::ArrayData;
use arrow::array::ArrayRef;
use arrow::array::AsArray;
use arrow::array::BinaryArray;
use arrow::array::BooleanArray;
use arrow::array::Float64Array;
use arrow::array::Int64Array;
use arrow::array::RecordBatch;
use arrow::array::RecordBatchOptions;
use arrow::array::StringArray;
use arrow::compute::concat_batches;
use arrow::compute::filter_record_batch;
use arrow::datatypes::ArrowPrimitiveType;
use arrow::datatypes::DataType as ArrowType;
use arrow::datatypes::Field as ArrowField;
use arrow::datatypes::Float64Type;
use arrow::datatypes::Int64Type;
use arrow::datatypes::Schema as ArrowSchema;
use arrow::datatypes::TimeUnit;
use arrow::error::ArrowError;
use crate::error::{ArborError, ErrorView};
use vstd::utf8::encode_utf8;
use crate::types::{views, DataType, Field, FieldView, ScalarValue, ScalarView, Schema};

verus! {

/// Why an Arrow operation failed.
#[verifier::external_type_specification]
#[verifier::external_body]
pub struct ExArrowError(ArrowError);

/// The buffers of a column, as Arrow exchanges them.
#[verifier::external_type_specification]
#[verifier::external_body]
pub struct ExArrayData(ArrayData);

/// An Arrow schema.
#[verifier::external_type_specification]
#[verifier::external_body]
pub struct ExArrowSchema(ArrowSchema);

/// One value of a column: a scalar, or a value of a type that is only carried along. Such a value
/// is given by the numbers that Arrow compares it by: its bytes, or the one number that it is. For
/// a float that is its place in the total order, in which +0 comes at 0 and -0 just before.
pub enum Cell {
    Scalar(ScalarView),
    Opaque(Seq<int>),
}

/// What a column holds.
pub struct ColumnView {
    pub data_type: DataType,
    pub cells: Seq<Cell>,
}

/// What a record batch holds.
pub struct BatchView {
    pub fields: Seq<FieldView>,
    pub columns: Seq<ColumnView>,
    pub rows: nat,
}

/// A column of values: an Arrow array. In a column of texts or bytes a NULL takes up no bytes.
#[verifier::external_body]
pub struct Column {
    inner: ArrayRef,
}

/// Rows of named columns: an Arrow record batch.
#[verifier::external_body]
pub struct Batch {
    inner: RecordBatch,
}

/// What an Arrow array holds.
pub uninterp spec fn column_content(c: Column) -> ColumnView;

/// What an Arrow record batch holds.
pub uninterp spec fn batch_content(b: Batch) -> BatchView;

/// What exchanged buffers hold.
pub uninterp spec fn data_content(d: ArrayData) -> ColumnView;

/// The type of an Arrow type.
pub uninterp spec fn plain_type(t: ArrowType) -> DataType;

/// The number type that an Arrow type is.
pub uninterp spec fn number_form(t: ArrowType) -> TypeForm;

/// The type of times that an Arrow type is.
pub uninterp spec fn time_form(t: ArrowType) -> TypeForm;

/// The type of bytes, texts or decimals that an Arrow type is.
pub uninterp spec fn bytes_form(t: ArrowType) -> TypeForm;

/// The type made of others that an Arrow type is.
pub uninterp spec fn nested_form(t: ArrowType) -> TypeForm;

/// The fields of an Arrow schema.
pub uninterp spec fn schema_fields(s: ArrowSchema) -> Seq<FieldView>;

/// The text of an Arrow type that is not made of others.
pub uninterp spec fn arrow_type_text(t: ArrowType) -> Seq<char>;

/// The text of an Arrow error.
pub uninterp spec fn arrow_error_text(e: ArrowError) -> Seq<char>;

impl View for Column {
    type V = ColumnView;

    open spec fn view(&self) -> ColumnView {
        column_content(*self)
    }
}

impl View for Batch {
    type V = BatchView;

    open spec fn view(&self) -> BatchView {
        batch_content(*self)
    }
}

/// The variants of Arrow's `DataType`.
#[derive(Debug, Clone, Copy, PartialEq, Eq, Structural)]
pub enum TypeForm {
    Boolean,
    Int8,
    Int16,
    Int32,
    Int64,
    UInt8,
    UInt16,
    UInt32,
    UInt64,
    Float16,
    Float32,
    Float64,
    Timestamp,
    Date32,
    Date64,
    Time32Second,
    Time32Millisecond,
    Time32Microsecond,
    Time32Nanosecond,
    Time64Second,
    Time64Millisecond,
    Time64Microsecond,
    Time64Nanosecond,
    Duration,
    Interval,
    Null,
    Binary,
    LargeBinary,
    /// With the number of bytes.
    FixedSizeBinary(i32),
    BinaryView,
    Utf8,
    LargeUtf8,
    Utf8View,
    /// With precision and scale.
    Decimal128(u8, i8),
    /// With precision and scale.
    Decimal256(u8, i8),
    List,
    LargeList,
    FixedSizeList,
    ListView,
    LargeListView,
    Struct,
    Union,
    Mapping,
    Dictionary,
    RunEndEncoded,
    /// None of the variants that were asked for.
    Unlisted,
}

/// The variant of an Arrow type.
pub open spec fn form_of(t: ArrowType) -> TypeForm {
    if number_form(t) != TypeForm::Unlisted {
        number_form(t)
    } else if time_form(t) != TypeForm::Unlisted {
        time_form(t)
    } else if bytes_form(t) != TypeForm::Unlisted {
        bytes_form(t)
    } else {
        nested_form(t)
    }
}

/// What a type is for the operations on columns.
#[derive(Debug, Clone, Copy, PartialEq, Eq, Structural)]
pub enum TypeClass {
    /// A type of values that take up the same room, or that are found by 64-bit offsets.
    Plain,
    /// Bytes that are found by 32-bit offsets.
    Bytes,
    /// A type made of others, or one that some operation does not know: views, run-end encoding,
    /// unions, and times in a unit that has no array.
    Unknown,
}

/// What the variants are for the operations on columns.
pub open spec fn class_of_form(f: TypeForm) -> TypeClass {
    match f {
        TypeForm::Binary => TypeClass::Bytes,
        TypeForm::FixedSizeBinary(n) => if n > 0 { TypeClass::Plain } else { TypeClass::Unknown },
        TypeForm::Time32Microsecond | TypeForm::Time32Nanosecond => TypeClass::Unknown,
        TypeForm::Time64Second | TypeForm::Time64Millisecond => TypeClass::Unknown,
        TypeForm::BinaryView | TypeForm::Utf8View => TypeClass::Unknown,
        TypeForm::List | TypeForm::LargeList | TypeForm::FixedSizeList => TypeClass::Unknown,
        TypeForm::ListView | TypeForm::LargeListView | TypeForm::Struct => TypeClass::Unknown,
        TypeForm::Union | TypeForm::Mapping | TypeForm::Dictionary => TypeClass::Unknown,
        TypeForm::RunEndEncoded | TypeForm::Unlisted => TypeClass::Unknown,
        _ => TypeClass::Plain,
    }
}

/// The variant is one that is made of other types.
pub open spec fn is_nested(f: TypeForm) -> bool {
    match f {
        TypeForm::List | TypeForm::LargeList | TypeForm::FixedSizeList | TypeForm::ListView => true,
        TypeForm::LargeListView | TypeForm::Struct | TypeForm::Union | TypeForm::Mapping => true,
        TypeForm::Dictionary | TypeForm::RunEndEncoded | TypeForm::Unlisted => true,
        _ => false,
    }
}

/// What an Arrow type is for the operations on columns.
pub open spec fn class_of(t: ArrowType) -> TypeClass {
    class_of_form(form_of(t))
}

/// Columns of this type can be carried through every operator.
pub open spec fn carries(t: DataType) -> bool {
    match t {
        DataType::Other(a) => class_of(a) != TypeClass::Unknown,
        _ => true,
    }
}

/// The type is one of bytes that are found by 32-bit offsets, and no text.
pub open spec fn is_bytes(t: DataType) -> bool {
    match t {
        DataType::Other(a) => class_of(a) == TypeClass::Bytes,
        _ => false,
    }
}

/// The type is one of those that the engine computes with.
pub open spec fn is_basic(t: DataType) -> bool {
    !(t is Other)
}

/// The type, with an Arrow type that has a name of its own under that name.
pub open spec fn normal_type(t: DataType) -> DataType {
    match t {
        DataType::Other(a) => plain_type(a),
        _ => t,
    }
}

/// The fields, with their types in normal form.
pub open spec fn normal_fields(fields: Seq<FieldView>) -> Seq<FieldView> {
    Seq::new(
        fields.len(),
        |i: int| FieldView { name: fields[i].name, data_type: normal_type(fields[i].data_type) },
    )
}

/// The NULL cell.
pub open spec fn null_cell() -> Cell {
    Cell::Scalar(ScalarView::Null)
}

/// A cell that holds a truth value.
pub open spec fn bool_cell(b: bool) -> Cell {
    Cell::Scalar(ScalarView::Boolean(b))
}

/// The cell can stand in a column of this type.
pub open spec fn fits(t: DataType, c: Cell) -> bool {
    c == null_cell() || match t {
        DataType::Int64 => c matches Cell::Scalar(ScalarView::Int64(_)),
        DataType::Float64 => c matches Cell::Scalar(ScalarView::Float64(_)),
        DataType::Utf8 => c matches Cell::Scalar(ScalarView::Utf8(_)),
        DataType::Boolean => c matches Cell::Scalar(ScalarView::Boolean(_)),
        DataType::Null => false,
        DataType::Other(_) => c is Opaque,
    }
}

/// Every cell of the column fits its type.
pub open spec fn well_typed(c: ColumnView) -> bool {
    forall|i: int| 0 <= i < c.cells.len() ==> fits(c.data_type, #[trigger] c.cells[i])
}

/// There is a column for each field, of its type and with all rows.
pub open spec fn columns_match(
    fields: Seq<FieldView>,
    columns: Seq<ColumnView>,
    rows: nat,
) -> bool {
    &&& columns.len() == fields.len()
    &&& forall|i: int|
        0 <= i < columns.len() ==> {
            &&& (#[trigger] columns[i]).cells.len() == rows
            &&& columns[i].data_type == fields[i].data_type
            &&& well_typed(columns[i])
        }
}

/// Fields and columns agree, and every column has all rows.
pub open spec fn sound(b: BatchView) -> bool {
    columns_match(b.fields, b.columns, b.rows)
}

/// Every column of the batch can be carried through every operator.
pub open spec fn carried(b: BatchView) -> bool {
    forall|i: int| 0 <= i < b.fields.len() ==> carries((#[trigger] b.fields[i]).data_type)
}

/// How an operation that may fail comes out.
pub enum Outcome<T> {
    /// It gives this value.
    Value(T),
    /// It fails in this way.
    Fault(Fault),
    /// It gives some value or fails: which one is left open.
    Open,
}

/// How an operation fails.
pub enum Fault {
    /// With this error.
    Said(ErrorView),
    /// With an execution error in Arrow's words.
    Arrow,
}

/// The error is the one of the fault.
pub open spec fn told(e: ArborError, f: Fault) -> bool {
    match f {
        Fault::Said(v) => e@ == v,
        Fault::Arrow => e is Execution,
    }
}

/// The result is the one of the outcome.
pub open spec fn agrees<T: View>(r: Result<T, ArborError>, o: Outcome<T::V>) -> bool {
    match o {
        Outcome::Value(v) => r matches Ok(x) && x@ == v,
        Outcome::Fault(f) => r matches Err(e) && told(e, f),
        Outcome::Open => true,
    }
}

/// `Display` of `ArrowError`.
#[verifier::external_body]
fn arrow_error_words(e: &ArrowError) -> (r: String)
    ensures
        r@ == arrow_error_text(*e),
{
    e.to_string()
}

/// An Arrow error as an error of the engine.
pub fn execution_error(e: ArrowError) -> (r: ArborError)
    ensures
        r@ == ErrorView::Execution(arrow_error_text(e)),
{
    ArborError::Execution(arrow_error_words(&e))
}

/// Arrow's `DataType` as a [`DataType`].
#[verifier::external_body]
fn type_from_arrow(t: &ArrowType) -> (r: DataType)
    ensures
        r == plain_type(*t),
        r matches DataType::Other(a) ==> a == *t,
{
    match t {
        ArrowType::Int64 => DataType::Int64,
        ArrowType::Float64 => DataType::Float64,
        ArrowType::Utf8 => DataType::Utf8,
        ArrowType::Boolean => DataType::Boolean,
        ArrowType::Null => DataType::Null,
        other => DataType::Other(other.clone()),
    }
}

/// A [`DataType`] as Arrow's `DataType`.
#[verifier::external_body]
fn type_to_arrow(t: &DataType) -> (r: ArrowType)
    ensures
        plain_type(r) == normal_type(*t),
{
    match t {
        DataType::Int64 => ArrowType::Int64,
        DataType::Float64 => ArrowType::Float64,
        DataType::Utf8 => ArrowType::Utf8,
        DataType::Boolean => ArrowType::Boolean,
        DataType::Null => ArrowType::Null,
        DataType::Other(a) => a.clone(),
    }
}

/// The variants of Arrow's `DataType` that hold truth values and numbers.
#[verifier::external_body]
fn open_number(t: &ArrowType) -> (r: TypeForm)
    ensures
        r == number_form(*t),
{
    match t {
        ArrowType::Boolean => TypeForm::Boolean,
        ArrowType::Int8 => TypeForm::Int8,
        ArrowType::Int16 => TypeForm::Int16,
        ArrowType::Int32 => TypeForm::Int32,
        ArrowType::Int64 => TypeForm::Int64,
        ArrowType::UInt8 => TypeForm::UInt8,
        ArrowType::UInt16 => TypeForm::UInt16,
        ArrowType::UInt32 => TypeForm::UInt32,
        ArrowType::UInt64 => TypeForm::UInt64,
        ArrowType::Float16 => TypeForm::Float16,
        ArrowType::Float32 => TypeForm::Float32,
        ArrowType::Float64 => TypeForm::Float64,
        _ => TypeForm::Unlisted,
    }
}

/// The variants of Arrow's `DataType` that hold times, by their `TimeUnit` where a rule asks for it.
#[verifier::external_body]
fn open_time(t: &ArrowType) -> (r: TypeForm)
    ensures
        r == time_form(*t),
{
    match t {
        ArrowType::Timestamp(..) => TypeForm::Timestamp,
        ArrowType::Date32 => TypeForm::Date32, ArrowType::Date64 => TypeForm::Date64,
        ArrowType::Time32(TimeUnit::Second) => TypeForm::Time32Second,
        ArrowType::Time32(TimeUnit::Millisecond) => TypeForm::Time32Millisecond,
        ArrowType::Time32(TimeUnit::Microsecond) => TypeForm::Time32Microsecond,
        ArrowType::Time32(TimeUnit::Nanosecond) => TypeForm::Time32Nanosecond,
        ArrowType::Time64(TimeUnit::Second) => TypeForm::Time64Second,
        ArrowType::Time64(TimeUnit::Millisecond) => TypeForm::Time64Millisecond,
        ArrowType::Time64(TimeUnit::Microsecond) => TypeForm::Time64Microsecond,
        ArrowType::Time64(TimeUnit::Nanosecond) => TypeForm::Time64Nanosecond,
        ArrowType::Duration(_) => TypeForm::Duration,
        ArrowType::Interval(_) => TypeForm::Interval, _ => TypeForm::Unlisted,
    }
}

/// The variants of Arrow's `DataType` that hold nothing, bytes, texts and decimals.
#[verifier::external_body]
fn open_bytes(t: &ArrowType) -> (r: TypeForm)
    ensures
        r == bytes_form(*t),
{
    match t {
        ArrowType::Null => TypeForm::Null,
        ArrowType::Binary => TypeForm::Binary,
        ArrowType::LargeBinary => TypeForm::LargeBinary,
        ArrowType::FixedSizeBinary(n) => TypeForm::FixedSizeBinary(*n),
        ArrowType::BinaryView => TypeForm::BinaryView,
        ArrowType::Utf8 => TypeForm::Utf8,
        ArrowType::LargeUtf8 => TypeForm::LargeUtf8,
        ArrowType::Utf8View => TypeForm::Utf8View,
        ArrowType::Decimal128(p, s) => TypeForm::Decimal128(*p, *s),
        ArrowType::Decimal256(p, s) => TypeForm::Decimal256(*p, *s),
        _ => TypeForm::Unlisted,
    }
}

/// The variants of Arrow's `DataType` that are made of others.
#[verifier::external_body]
fn open_nested(t: &ArrowType) -> (r: TypeForm)
    ensures
        r == nested_form(*t),
{
    match t {
        ArrowType::List(_) => TypeForm::List,
        ArrowType::LargeList(_) => TypeForm::LargeList,
        ArrowType::FixedSizeList(..) => TypeForm::FixedSizeList,
        ArrowType::ListView(_) => TypeForm::ListView,
        ArrowType::LargeListView(_) => TypeForm::LargeListView,
        ArrowType::Struct(_) => TypeForm::Struct,
        ArrowType::Union(..) => TypeForm::Union,
        ArrowType::Map(..) => TypeForm::Mapping,
        ArrowType::Dictionary(..) => TypeForm::Dictionary,
        ArrowType::RunEndEncoded(..) => TypeForm::RunEndEncoded,
        _ => TypeForm::Unlisted,
    }
}

/// The variant of an Arrow type.
pub(crate) fn type_form(t: &ArrowType) -> (r: TypeForm)
    ensures
        r == form_of(*t),
{
    let number = open_number(t);
    if !(number == TypeForm::Unlisted) {
        return number;
    }
    let time = open_time(t);
    if !(time == TypeForm::Unlisted) {
        return time;
    }
    let bytes = open_bytes(t);
    if !(bytes == TypeForm::Unlisted) {
        return bytes;
    }
    open_nested(t)
}

/// What an Arrow type is for the operations on columns.
fn type_class(t: &ArrowType) -> (r: TypeClass)
    ensures
        r == class_of(*t),
{
    match type_form(t) {
        TypeForm::Binary => TypeClass::Bytes,
        TypeForm::FixedSizeBinary(n) => if n > 0 { TypeClass::Plain } else { TypeClass::Unknown },
        TypeForm::Time32Microsecond | TypeForm::Time32Nanosecond => TypeClass::Unknown,
        TypeForm::Time64Second | TypeForm::Time64Millisecond => TypeClass::Unknown,
        TypeForm::BinaryView | TypeForm::Utf8View => TypeClass::Unknown,
        TypeForm::List | TypeForm::LargeList | TypeForm::FixedSizeList => TypeClass::Unknown,
        TypeForm::ListView | TypeForm::LargeListView | TypeForm::Struct => TypeClass::Unknown,
        TypeForm::Union | TypeForm::Mapping | TypeForm::Dictionary => TypeClass::Unknown,
        TypeForm::RunEndEncoded | TypeForm::Unlisted => TypeClass::Unknown,
        _ => TypeClass::Plain,
    }
}

/// The type has a name that depends on nothing but the type: it is not made of others.
pub open spec fn named(t: DataType) -> bool {
    match t {
        DataType::Other(a) => !is_nested(form_of(a)),
        _ => true,
    }
}

/// The name of a type.
pub open spec fn type_text(t: DataType) -> Seq<char> {
    match t {
        DataType::Int64 => "Int64"@,
        DataType::Float64 => "Float64"@,
        DataType::Utf8 => "Utf8"@,
        DataType::Boolean => "Boolean"@,
        DataType::Null => "Null"@,
        DataType::Other(a) => arrow_type_text(a),
    }
}

/// `Display` of Arrow's `DataType`. The text of a type that is made of others shows more than the type
/// and is left open.
#[verifier::external_body]
fn arrow_type_words(t: &ArrowType) -> (r: String)
    ensures
        !is_nested(form_of(*t)) ==> r@ == arrow_type_text(*t),
{
    t.to_string()
}

impl DataType {
    /// This type in normal form.
    pub fn normalized(&self) -> (r: DataType)
        ensures
            r == normal_type(*self),
    {
        match self {
            DataType::Other(a) => type_from_arrow(a),
            _ => self.clone(),
        }
    }

    /// The name of this type. That of a type which is made of others is left open.
    pub fn describe(&self) -> (r: String)
        ensures
            named(*self) ==> r@ == type_text(*self),
    {
        match self {
            DataType::Int64 => "Int64".to_string(),
            DataType::Float64 => "Float64".to_string(),
            DataType::Utf8 => "Utf8".to_string(),
            DataType::Boolean => "Boolean".to_string(),
            DataType::Null => "Null".to_string(),
            DataType::Other(a) => arrow_type_words(a),
        }
    }

    /// Whether columns of this type can be carried through every operator.
    pub fn is_carried(&self) -> (r: bool)
        ensures
            r == carries(*self),
    {
        match self {
            DataType::Other(a) => !(type_class(a) == TypeClass::Unknown),
            _ => true,
        }
    }

    /// Whether the type is one of bytes that are found by 32-bit offsets, and no text.
    pub fn is_bytes(&self) -> (r: bool)
        ensures
            r == is_bytes(*self),
    {
        match self {
            DataType::Other(a) => type_class(a) == TypeClass::Bytes,
            _ => false,
        }
    }
}

/// The fields of Arrow's `Schema`, by name and type, the types in normal form.
#[verifier::external_body]
fn open_schema(s: &ArrowSchema) -> (r: Vec<Field>)
    ensures
        views(r@) == schema_fields(*s),
        normal_fields(views(r@)) == views(r@),
{
    let field = |f: &Arc<ArrowField>| {
        Field { name: f.name().to_string(), data_type: type_from_arrow(f.data_type()) }
    };
    s.fields().iter().map(field).collect()
}

/// Arrow's `Schema` with these fields, all of them nullable.
#[verifier::external_body]
fn build_schema(fields: &Vec<Field>) -> (r: ArrowSchema)
    ensures
        schema_fields(r) == normal_fields(views(fields@)),
{
    let field = |f: &Field| ArrowField::new(f.name.as_str(), type_to_arrow(&f.data_type), true);
    ArrowSchema::new(fields.iter().map(field).collect::<Vec<_>>())
}

impl Schema {
    /// The schema of an Arrow schema.
    pub fn from_arrow(arrow: &ArrowSchema) -> (r: Schema)
        ensures
            r@ == schema_fields(*arrow),
            normal_fields(r@) == r@,
    {
        Schema { fields: open_schema(arrow) }
    }

    /// The Arrow schema of this schema, with nullable fields.
    pub fn to_arrow(&self) -> (r: ArrowSchema)
        ensures
            schema_fields(r) == normal_fields(self@),
    {
        build_schema(&self.fields)
    }
}

/// Law: a schema in normal form comes back from Arrow as it went there, with its names, its types and
/// their order.
pub proof fn law_schema_survives_arrow(s: Seq<FieldView>, arrow: ArrowSchema, back: Seq<FieldView>)
    requires
        normal_fields(s) == s,
        schema_fields(arrow) == normal_fields(s),
        back == schema_fields(arrow),
    ensures
        back == s,
{
}

impl Clone for Column {
    /// `Clone` of `ArrayRef`: the same array.
    #[verifier::external_body]
    fn clone(&self) -> (r: Column)
        ensures
            column_content(r) == column_content(*self),
    {
        Column { inner: self.inner.clone() }
    }
}

impl Clone for Batch {
    /// `Clone` of `RecordBatch`: the same rows.
    #[verifier::external_body]
    fn clone(&self) -> (r: Batch)
        ensures
            batch_content(r) == batch_content(*self),
    {
        Batch { inner: self.inner.clone() }
    }
}

/// `ArrayData::data_type`.
#[verifier::external_body]
fn data_type_of(d: &ArrayData) -> (r: DataType)
    ensures
        r == data_content(*d).data_type,
{
    type_from_arrow(d.data_type())
}

/// `make_array`: a column with what the buffers hold.
#[verifier::external_body]
fn column_of_data(d: ArrayData) -> (r: Column)
    requires
        carries(data_content(d).data_type),
        data_content(d).data_type != DataType::Utf8,
        !is_bytes(data_content(d).data_type),
    ensures
        r@ == data_content(d),
{
    Column { inner: make_array(d) }
}

/// `StringArray::from` and `from_iter`: a column of the texts that the buffers hold, put together
/// anew, so that NULLs take up no bytes.
#[verifier::external_body]
fn column_of_text_data(d: ArrayData) -> (r: Column)
    requires
        data_content(d).data_type == DataType::Utf8,
    ensures
        r@ == data_content(d),
{
    Column { inner: Arc::new(StringArray::from(d).iter().collect::<StringArray>()) }
}

/// `BinaryArray::from` and `from_iter`: a column of the bytes that the buffers hold, put together
/// anew, so that NULLs take up no bytes.
#[verifier::external_body]
fn column_of_byte_data(d: ArrayData) -> (r: Column)
    requires
        is_bytes(data_content(d).data_type),
    ensures
        r@ == data_content(d),
{
    Column { inner: Arc::new(BinaryArray::from(d).iter().collect::<BinaryArray>()) }
}

/// `Array::to_data`: the buffers of a column.
#[verifier::external_body]
fn data_of_column(c: &Column) -> (r: ArrayData)
    ensures
        data_content(r) == c@,
{
    c.inner.to_data()
}

/// `Array::data_type`.
#[verifier::external_body]
fn type_of_column(c: &Column) -> (r: DataType)
    ensures
        r == c@.data_type,
{
    type_from_arrow(c.inner.data_type())
}

/// `Array::len`.
#[verifier::external_body]
fn len_of_column(c: &Column) -> (r: usize)
    ensures
        r == c@.cells.len(),
{
    c.inner.len()
}

/// `Array::is_null`. What is not NULL in a column of a carried type is opaque.
#[verifier::external_body]
fn null_at(c: &Column, i: usize) -> (r: bool)
    requires
        i < c@.cells.len(),
        c@.data_type != DataType::Null,
    ensures
        r == (c@.cells[i as int] == null_cell()),
        !r && c@.data_type is Other ==> c@.cells[i as int] is Opaque,
{
    c.inner.is_null(i)
}

/// `Array::null_count`, which counts nothing in a column of the NULL type.
#[verifier::external_body]
fn nulls_of_column(c: &Column) -> (r: usize)
    ensures
        r == marked_nulls(c@),
{
    c.inner.null_count()
}

/// `PrimitiveArray::value` of an integer column.
#[verifier::external_body]
fn int_at(c: &Column, i: usize) -> (r: i64)
    requires
        i < c@.cells.len(),
        c@.data_type == DataType::Int64,
    ensures
        c@.cells[i as int] != null_cell() ==> c@.cells[i as int] == Cell::Scalar(
            ScalarView::Int64(r),
        ),
{
    c.inner.as_primitive::<Int64Type>().value(i)
}

/// `PrimitiveArray::value` of a float column, as bits.
#[verifier::external_body]
fn float_at(c: &Column, i: usize) -> (r: u64)
    requires
        i < c@.cells.len(),
        c@.data_type == DataType::Float64,
    ensures
        c@.cells[i as int] != null_cell() ==> c@.cells[i as int] == Cell::Scalar(
            ScalarView::Float64(r),
        ),
{
    c.inner.as_primitive::<Float64Type>().value(i).to_bits()
}

/// `GenericByteArray::value` of a text column.
#[verifier::external_body]
fn text_at(c: &Column, i: usize) -> (r: String)
    requires
        i < c@.cells.len(),
        c@.data_type == DataType::Utf8,
    ensures
        c@.cells[i as int] != null_cell() ==> c@.cells[i as int] == Cell::Scalar(
            ScalarView::Utf8(r@),
        ),
{
    c.inner.as_string::<i32>().value(i).to_string()
}

/// `BooleanArray::value`.
#[verifier::external_body]
fn bool_at(c: &Column, i: usize) -> (r: bool)
    requires
        i < c@.cells.len(),
        c@.data_type == DataType::Boolean,
    ensures
        c@.cells[i as int] != null_cell() ==> c@.cells[i as int] == bool_cell(r),
{
    c.inner.as_boolean().value(i)
}

/// An optional integer as a cell.
pub open spec fn int_cell(v: Option<i64>) -> Cell {
    match v {
        Some(n) => Cell::Scalar(ScalarView::Int64(n)),
        None => null_cell(),
    }
}

/// An optional float as a cell.
pub open spec fn float_cell(v: Option<u64>) -> Cell {
    match v {
        Some(n) => Cell::Scalar(ScalarView::Float64(n)),
        None => null_cell(),
    }
}

/// An optional text as a cell.
pub open spec fn text_cell(v: Option<String>) -> Cell {
    match v {
        Some(s) => Cell::Scalar(ScalarView::Utf8(s@)),
        None => null_cell(),
    }
}

/// An optional truth value as a cell.
pub open spec fn truth_cell(v: Option<bool>) -> Cell {
    match v {
        Some(b) => bool_cell(b),
        None => null_cell(),
    }
}

/// The number of bytes of a text.
pub open spec fn text_size(s: Seq<char>) -> nat {
    encode_utf8(s).len()
}

/// The number of bytes of the text, or of the bytes, in a cell.
pub open spec fn cell_size(c: Cell) -> nat {
    match c {
        Cell::Scalar(ScalarView::Utf8(s)) => text_size(s),
        Cell::Opaque(v) => v.len(),
        _ => 0,
    }
}

/// The number of bytes in some cells of texts or bytes.
pub open spec fn cells_size(cells: Seq<Cell>) -> nat
    decreases cells.len(),
{
    if cells.len() == 0 {
        0
    } else {
        cells_size(cells.drop_last()) + cell_size(cells.last())
    }
}

/// Values of the type are found by 32-bit offsets.
pub open spec fn is_offset(t: DataType) -> bool {
    t == DataType::Utf8 || is_bytes(t)
}

/// The cells hold more texts or bytes than 32-bit offsets reach.
pub open spec fn oversized(t: DataType, cells: Seq<Cell>) -> bool {
    is_offset(t) && cells_size(cells) > i32::MAX
}

/// The error for more text than a column can hold.
pub open spec fn too_much_text() -> ErrorView {
    ErrorView::Execution("too much text for one column"@)
}

/// Fewer cells hold no more text.
pub proof fn lemma_cells_size(cells: Seq<Cell>, k: int)
    requires
        0 <= k <= cells.len(),
    ensures
        cells_size(cells.take(k)) <= cells_size(cells),
    decreases cells.len(),
{
    if k < cells.len() {
        lemma_cells_size(cells.drop_last(), k);
        assert(cells.drop_last().take(k) =~= cells.take(k));
    } else {
        assert(cells.take(k) =~= cells);
    }
}

/// The text of two lists of cells together.
pub proof fn lemma_cells_size_concat(a: Seq<Cell>, b: Seq<Cell>)
    ensures
        cells_size(a + b) == cells_size(a) + cells_size(b),
    decreases b.len(),
{
    if b.len() == 0 {
        assert(a + b =~= a);
    } else {
        lemma_cells_size_concat(a, b.drop_last());
        assert((a + b).drop_last() =~= a + b.drop_last());
        assert((a + b).last() == b.last());
    }
}

/// `Int64Array::from`: a column of integers.
#[verifier::external_body]
fn column_of_ints(v: Vec<Option<i64>>) -> (r: Column)
    ensures
        r@ == (ColumnView {
            data_type: DataType::Int64,
            cells: Seq::new(v@.len(), |i: int| int_cell(v@[i])),
        }),
{
    Column { inner: Arc::new(Int64Array::from(v)) }
}

/// `Float64Array::from_iter`: a column of floats, given as bits.
#[verifier::external_body]
fn column_of_floats(v: Vec<Option<u64>>) -> (r: Column)
    ensures
        r@ == (ColumnView {
            data_type: DataType::Float64,
            cells: Seq::new(v@.len(), |i: int| float_cell(v@[i])),
        }),
{
    let float = |b: Option<u64>| b.map(<Float64Type as ArrowPrimitiveType>::Native::from_bits);
    Column { inner: Arc::new(v.into_iter().map(float).collect::<Float64Array>()) }
}

/// `StringArray::from`: a column of texts. More bytes than 32-bit offsets reach would make it panic.
#[verifier::external_body]
fn column_of_texts(v: Vec<Option<String>>) -> (r: Column)
    requires
        !oversized(DataType::Utf8, Seq::new(v@.len(), |i: int| text_cell(v@[i]))),
    ensures
        r@ == (ColumnView {
            data_type: DataType::Utf8,
            cells: Seq::new(v@.len(), |i: int| text_cell(v@[i])),
        }),
{
    Column { inner: Arc::new(StringArray::from(v)) }
}

/// `BooleanArray::from`: a column of truth values.
#[verifier::external_body]
fn column_of_truths(v: Vec<Option<bool>>) -> (r: Column)
    ensures
        r@ == (ColumnView {
            data_type: DataType::Boolean,
            cells: Seq::new(v@.len(), |i: int| truth_cell(v@[i])),
        }),
{
    Column { inner: Arc::new(BooleanArray::from(v)) }
}

/// The number of NULLs.
pub open spec fn null_count(cells: Seq<Cell>) -> nat
    decreases cells.len(),
{
    if cells.len() == 0 {
        0
    } else {
        null_count(cells.drop_last()) + if cells.last() == null_cell() { 1nat } else { 0nat }
    }
}

/// The number of values that are marked NULL; a column of the NULL type marks none.
pub open spec fn marked_nulls(c: ColumnView) -> nat {
    if c.data_type == DataType::Null { 0 } else { null_count(c.cells) }
}

/// There are at most as many NULLs as cells.
pub proof fn lemma_null_count(cells: Seq<Cell>)
    ensures
        null_count(cells) <= cells.len(),
    decreases cells.len(),
{
    if cells.len() > 0 {
        lemma_null_count(cells.drop_last());
    }
}

/// The scalar at a row, where the column holds scalars; a column of the NULL type holds none.
pub open spec fn scalar_in(c: ColumnView, row: int) -> Option<ScalarView> {
    if c.data_type == DataType::Null {
        None
    } else {
        match c.cells[row] {
            Cell::Scalar(s) => Some(s),
            Cell::Opaque(_) => None,
        }
    }
}

/// How making a column of texts comes out.
pub open spec fn texts_column(cells: Seq<Cell>) -> Outcome<ColumnView> {
    if oversized(DataType::Utf8, cells) {
        Outcome::Fault(Fault::Said(too_much_text()))
    } else {
        Outcome::Value(ColumnView { data_type: DataType::Utf8, cells })
    }
}

impl Column {
    /// A column over exchanged buffers, where the operators can carry its type.
    pub fn from_data(data: ArrayData) -> (r: Option<Column>)
        ensures
            match r {
                Some(c) => carries(data_content(data).data_type) && c@ == data_content(data),
                None => !carries(data_content(data).data_type),
            },
    {
        if !data_type_of(&data).is_carried() {
            return None;
        }
        match data_type_of(&data) {
            DataType::Utf8 => Some(column_of_text_data(data)),
            t => if t.is_bytes() {
                Some(column_of_byte_data(data))
            } else {
                Some(column_of_data(data))
            },
        }
    }

    /// The buffers of this column.
    pub fn to_data(&self) -> (r: ArrayData)
        ensures
            data_content(r) == self@,
    {
        data_of_column(self)
    }

    /// The type of the values.
    pub fn data_type(&self) -> (r: DataType)
        ensures
            r == self@.data_type,
    {
        type_of_column(self)
    }

    /// The number of values.
    pub fn len(&self) -> (r: usize)
        ensures
            r == self@.cells.len(),
    {
        len_of_column(self)
    }

    /// The value at `row`, where the column holds scalars.
    pub fn scalar(&self, row: usize) -> (r: Option<ScalarValue>)
        requires
            row < self@.cells.len(),
        ensures
            match r {
                Some(s) => scalar_in(self@, row as int) == Some(s@),
                None => scalar_in(self@, row as int) is None,
            },
    {
        let t = self.data_type();
        match t {
            DataType::Null => {
                return None;
            },
            _ => {},
        }
        if null_at(self, row) {
            return Some(ScalarValue::Null);
        }
        match t {
            DataType::Int64 => Some(ScalarValue::Int64(int_at(self, row))),
            DataType::Float64 => Some(ScalarValue::Float64(float_at(self, row))),
            DataType::Utf8 => Some(ScalarValue::Utf8(text_at(self, row))),
            DataType::Boolean => Some(ScalarValue::Boolean(bool_at(self, row))),
            _ => None,
        }
    }

    /// The number of values that are marked NULL.
    pub fn null_count(&self) -> (r: usize)
        ensures
            r == marked_nulls(self@),
    {
        nulls_of_column(self)
    }

    /// A column of integers.
    pub fn of_ints(v: Vec<Option<i64>>) -> (r: Column)
        ensures
            r@ == (ColumnView {
                data_type: DataType::Int64,
                cells: Seq::new(v@.len(), |i: int| int_cell(v@[i])),
            }),
    {
        column_of_ints(v)
    }

    /// A column of floats, given as bits.
    pub fn of_floats(v: Vec<Option<u64>>) -> (r: Column)
        ensures
            r@ == (ColumnView {
                data_type: DataType::Float64,
                cells: Seq::new(v@.len(), |i: int| float_cell(v@[i])),
            }),
    {
        column_of_floats(v)
    }

    /// A column of texts, unless they are more than a column can hold.
    pub fn of_texts(v: Vec<Option<String>>) -> (r: Result<Column, ArborError>)
        ensures
            agrees(r, texts_column(Seq::new(v@.len(), |i: int| text_cell(v@[i])))),
    {
        let ghost cells = Seq::new(v@.len(), |i: int| text_cell(v@[i]));
        let mut room: usize = 0x7fff_ffff;
        let mut i: usize = 0;
        proof {
            assert(cells.take(0) =~= Seq::empty());
        }
        while i < v.len()
            invariant
                i <= v.len(),
                cells == Seq::new(v@.len(), |i: int| text_cell(v@[i])),
                room <= i32::MAX,
                cells_size(cells.take(i as int)) == i32::MAX - room,
            decreases v.len() - i,
        {
            proof {
                assert(cells.take(i + 1).drop_last() =~= cells.take(i as int));
                assert(cells.take(i + 1).last() == text_cell(v@[i as int]));
            }
            let n: usize = match &v[i] {
                Some(s) => s.as_str().as_bytes().len(),
                None => 0,
            };
            if n > room {
                proof {
                    lemma_cells_size(cells, i + 1);
                }
                return Err(ArborError::Execution("too much text for one column".to_string()));
            }
            room = room - n;
            i = i + 1;
        }
        proof {
            assert(cells.take(i as int) =~= cells);
        }
        Ok(column_of_texts(v))
    }

    /// A column of truth values.
    pub fn of_truths(v: Vec<Option<bool>>) -> (r: Column)
        ensures
            r@ == (ColumnView {
                data_type: DataType::Boolean,
                cells: Seq::new(v@.len(), |i: int| truth_cell(v@[i])),
            }),
    {
        column_of_truths(v)
    }
}

/// The batch of some fields and columns, where they agree. Without columns the number of rows has
/// to be given.
pub open spec fn assembled(
    fields: Seq<FieldView>,
    columns: Seq<ColumnView>,
    rows: Option<nat>,
) -> Option<BatchView> {
    let n = match rows {
        Some(n) => n,
        None => if columns.len() == 0 { 0 } else { columns[0].cells.len() },
    };
    if fields.len() != columns.len() || (rows is None && columns.len() == 0) {
        None
    } else if exists|i: int| 0 <= i < columns.len() && (#[trigger] columns[i]).cells.len() != n {
        None
    } else if exists|i: int|
        0 <= i < columns.len() && (#[trigger] columns[i]).data_type != normal_type(
            fields[i].data_type,
        ) {
        None
    } else {
        Some(BatchView { fields: normal_fields(fields), columns, rows: n })
    }
}

/// `RecordBatch::try_new_with_options` over nullable fields: succeeds where fields and columns
/// agree in number, length and type, and the number of rows is known.
#[verifier::external_body]
fn assemble(schema: &Schema, columns: &Vec<Column>, rows: Option<usize>) -> (r: Result<
    Batch,
    ArrowError,
>)
    ensures
        match r {
            Ok(b) => assembled(
                schema@,
                views(columns@),
                match rows {
                    Some(n) => Some(n as nat),
                    None => None,
                },
            ) == Some(b@),
            Err(_) => assembled(
                schema@,
                views(columns@),
                match rows {
                    Some(n) => Some(n as nat),
                    None => None,
                },
            ) is None,
        },
{
    let arrays: Vec<ArrayRef> = columns.iter().map(|c| c.inner.clone()).collect();
    let options = RecordBatchOptions::new().with_row_count(rows);
    RecordBatch::try_new_with_options(Arc::new(build_schema(&schema.fields)), arrays, &options)
        .map(|b| Batch { inner: b })
}

/// `RecordBatch::schema`: a field for each column, which has the field's type and the batch's
/// length, and holds values of that type only.
#[verifier::external_body]
fn schema_of_batch(b: &Batch) -> (r: Schema)
    ensures
        r@ == b@.fields,
        columns_match(r@, b@.columns, b@.rows),
{
    Schema { fields: open_schema(b.inner.schema().as_ref()) }
}

/// `RecordBatch::num_rows`.
#[verifier::external_body]
fn rows_of_batch(b: &Batch) -> (r: usize)
    ensures
        r == b@.rows,
{
    b.inner.num_rows()
}

/// `RecordBatch::column`.
#[verifier::external_body]
fn column_of_batch(b: &Batch, i: usize) -> (r: Column)
    requires
        i < b@.columns.len(),
    ensures
        r@ == b@.columns[i as int],
{
    Column { inner: b.inner.column(i).clone() }
}

/// The cells that the mask marks TRUE, in order.
pub open spec fn masked(cells: Seq<Cell>, mask: Seq<Cell>) -> Seq<Cell>
    decreases cells.len(),
{
    if cells.len() == 0 || mask.len() == 0 {
        Seq::empty()
    } else {
        let rest = masked(cells.drop_last(), mask.drop_last());
        if mask.last() == bool_cell(true) { rest.push(cells.last()) } else { rest }
    }
}

/// The number of cells of the mask that are TRUE.
pub open spec fn true_count(mask: Seq<Cell>) -> nat
    decreases mask.len(),
{
    if mask.len() == 0 {
        0
    } else {
        true_count(mask.drop_last()) + if mask.last() == bool_cell(true) { 1nat } else { 0nat }
    }
}

/// The rows of a batch that the mask marks TRUE.
pub open spec fn filtered_batch(b: BatchView, mask: Seq<Cell>) -> BatchView {
    BatchView {
        fields: b.fields,
        columns: Seq::new(
            b.columns.len(),
            |i: int|
                ColumnView {
                    data_type: b.columns[i].data_type,
                    cells: masked(b.columns[i].cells, mask),
                },
        ),
        rows: true_count(mask),
    }
}

/// `filter_record_batch`: the rows that the mask marks TRUE.
#[verifier::external_body]
fn filter_batch(b: &Batch, mask: &Column) -> (r: Result<Batch, ArrowError>)
    requires
        carried(b@),
        mask@.data_type == DataType::Boolean,
        mask@.cells.len() == b@.rows,
    ensures
        match r {
            Ok(x) => x@ == filtered_batch(b@, mask@.cells),
            Err(_) => false,
        },
{
    filter_record_batch(&b.inner, mask.inner.as_boolean()).map(|x| Batch { inner: x })
}

/// The first rows of a batch.
pub open spec fn first_rows(b: BatchView, n: nat) -> BatchView {
    BatchView {
        fields: b.fields,
        columns: Seq::new(
            b.columns.len(),
            |i: int|
                ColumnView {
                    data_type: b.columns[i].data_type,
                    cells: b.columns[i].cells.take(n as int),
                },
        ),
        rows: n,
    }
}

/// `RecordBatch::slice` from the first row on.
#[verifier::external_body]
fn slice_batch(b: &Batch, n: usize) -> (r: Batch)
    requires
        n <= b@.rows,
    ensures
        r@ == first_rows(b@, n as nat),
{
    Batch { inner: b.inner.slice(0, n) }
}

/// The rows of several batches together.
pub open spec fn total_rows(bs: Seq<BatchView>) -> nat
    decreases bs.len(),
{
    if bs.len() == 0 { 0 } else { total_rows(bs.drop_last()) + bs.last().rows }
}

/// One column of several batches, one below the other.
pub open spec fn stacked(bs: Seq<BatchView>, column: int) -> Seq<Cell>
    decreases bs.len(),
{
    if bs.len() == 0 {
        Seq::empty()
    } else {
        stacked(bs.drop_last(), column) + bs.last().columns[column].cells
    }
}

/// Several batches, one below the other, under the fields of the first.
pub open spec fn stacked_batch(bs: Seq<BatchView>) -> BatchView {
    BatchView {
        fields: bs[0].fields,
        columns: Seq::new(
            bs[0].fields.len(),
            |i: int|
                ColumnView { data_type: bs[0].fields[i].data_type, cells: stacked(bs, i) },
        ),
        rows: total_rows(bs),
    }
}

/// Every batch has the columns of the first, and perhaps more.
pub open spec fn wide_enough(bs: Seq<BatchView>) -> bool {
    forall|k: int| 0 <= k < bs.len() ==> (#[trigger] bs[k]).fields.len() >= bs[0].fields.len()
}

/// The columns of every batch have the types of those of the first.
pub open spec fn same_types(bs: Seq<BatchView>) -> bool {
    forall|k: int, i: int|
        0 <= k < bs.len() && 0 <= i < bs[0].fields.len() ==> #[trigger] bs[k].fields[i].data_type
            == bs[0].fields[i].data_type
}

/// Some column of the batches together holds more than a column can.
pub open spec fn overflowing(bs: Seq<BatchView>) -> bool {
    exists|i: int|
        0 <= i < bs[0].fields.len() && oversized(
            bs[0].fields[i].data_type,
            #[trigger] stacked(bs, i),
        )
}

/// How putting batches one below the other comes out.
pub open spec fn concatenated(bs: Seq<BatchView>) -> Outcome<BatchView> {
    if !wide_enough(bs) {
        Outcome::Fault(Fault::Said(ErrorView::Execution("batches differ in their columns"@)))
    } else if bs[0].fields.len() == 0 && total_rows(bs) > usize::MAX {
        Outcome::Fault(Fault::Said(ErrorView::Execution("too many rows"@)))
    } else if !same_types(bs) {
        Outcome::Fault(Fault::Arrow)
    } else if overflowing(bs) {
        Outcome::Fault(Fault::Said(too_much_text()))
    } else {
        Outcome::Value(stacked_batch(bs))
    }
}

/// `GenericByteArray::value_length` in a column of texts: the bytes of a text.
#[verifier::external_body]
fn text_bytes_at(c: &Column, row: usize) -> (r: usize)
    requires
        row < c@.cells.len(),
        c@.data_type == DataType::Utf8,
        c@.cells[row as int] != null_cell(),
    ensures
        r == cell_size(c@.cells[row as int]),
{
    c.inner.as_string::<i32>().value_length(row) as usize
}

/// `GenericByteArray::value_length` in a column of bytes.
#[verifier::external_body]
fn bytes_at(c: &Column, row: usize) -> (r: usize)
    requires
        row < c@.cells.len(),
        is_bytes(c@.data_type),
        c@.cells[row as int] != null_cell(),
    ensures
        r == cell_size(c@.cells[row as int]),
{
    c.inner.as_binary::<i32>().value_length(row) as usize
}

/// The bytes that a column of a batch takes up behind 32-bit offsets.
pub open spec fn offset_size(b: BatchView, column: int) -> nat {
    if is_offset(b.columns[column].data_type) { cells_size(b.columns[column].cells) } else { 0 }
}

/// The bytes that a column of several batches takes up behind 32-bit offsets.
pub open spec fn offset_sizes(bs: Seq<BatchView>, column: int) -> nat
    decreases bs.len(),
{
    if bs.len() == 0 {
        0
    } else {
        offset_sizes(bs.drop_last(), column) + offset_size(bs.last(), column)
    }
}

/// `concat_batches` under the fields of the first batch, made nullable: fails where a column
/// changes its type. More bytes in a column than 32-bit offsets reach would make it panic.
#[verifier::external_body]
fn stack_batches(schema: &Schema, bs: &Vec<Batch>) -> (r: Result<Batch, ArrowError>)
    requires
        bs@.len() > 0,
        schema@ == bs@[0]@.fields,
        forall|k: int| 0 <= k < bs@.len() ==> carried((#[trigger] bs@[k])@),
        wide_enough(views(bs@)),
        schema@.len() == 0 ==> total_rows(views(bs@)) <= usize::MAX,
        forall|i: int|
            0 <= i < schema@.len() ==> #[trigger] offset_sizes(views(bs@), i) <= i32::MAX,
    ensures
        match r {
            Ok(b) => same_types(views(bs@)) && b@ == stacked_batch(views(bs@)),
            Err(_) => !same_types(views(bs@)),
        },
{
    concat_batches(&Arc::new(build_schema(&schema.fields)), bs.iter().map(|b| &b.inner))
        .map(|b| Batch { inner: b })
}

/// The bytes that a column of a batch takes up behind 32-bit offsets, or nothing where they are
/// more than `room`.
fn measure(b: &Batch, column: usize, room: usize) -> (r: Option<usize>)
    requires
        sound(b@),
        column < b@.columns.len(),
    ensures
        match r {
            Some(n) => n <= room && n == offset_size(b@, column as int),
            None => offset_size(b@, column as int) > room,
        },
{
    let c = b.column(column);
    let n: usize = b.num_rows();
    let bytes: bool = match c.data_type() {
        DataType::Utf8 => false,
        other => {
            if !other.is_bytes() {
                return Some(0);
            }
            true
        },
    };
    let ghost cells = b@.columns[column as int].cells;
    proof {
        assert(cells.len() == b@.rows);
        assert(cells.take(0) =~= Seq::empty());
        assert(well_typed(b@.columns[column as int]));
    }
    let mut used: usize = 0;
    let mut i: usize = 0;
    while i < n
        invariant
            i <= n,
            c@ == b@.columns[column as int],
            cells == c@.cells,
            cells.len() == n,
            used <= room,
            bytes == is_bytes(c@.data_type),
            !bytes ==> c@.data_type == DataType::Utf8,
            used == cells_size(cells.take(i as int)),
        decreases n - i,
    {
        proof {
            assert(cells.take(i + 1).drop_last() =~= cells.take(i as int));
            assert(cells.take(i + 1).last() == cells[i as int]);
        }
        let more: usize = if null_at(&c, i) {
            0
        } else if bytes {
            bytes_at(&c, i)
        } else {
            text_bytes_at(&c, i)
        };
        if more > room - used {
            proof {
                lemma_cells_size(cells, i + 1);
            }
            return None;
        }
        used = used + more;
        i = i + 1;
    }
    proof {
        assert(cells.take(n as int) =~= cells);
    }
    Some(used)
}

/// More batches take up no fewer bytes.
proof fn lemma_offset_sizes(bs: Seq<BatchView>, column: int, k: int)
    requires
        0 <= k <= bs.len(),
    ensures
        offset_sizes(bs.take(k), column) <= offset_sizes(bs, column),
    decreases bs.len(),
{
    if k < bs.len() {
        lemma_offset_sizes(bs.drop_last(), column, k);
        assert(bs.drop_last().take(k) =~= bs.take(k));
    } else {
        assert(bs.take(k) =~= bs);
    }
}

/// Whether no column of the batches together takes up more bytes than 32-bit offsets reach.
fn fits_together(bs: &Vec<Batch>, width: usize) -> (r: bool)
    requires
        forall|k: int|
            0 <= k < bs.len() ==> sound((#[trigger] bs[k])@) && width <= bs[k]@.columns.len(),
    ensures
        r <==> forall|i: int|
            0 <= i < width ==> #[trigger] offset_sizes(views(bs@), i) <= i32::MAX,
{
    let ghost all = views(bs@);
    let mut column: usize = 0;
    while column < width
        invariant
            column <= width,
            all == views(bs@),
            forall|k: int|
                0 <= k < bs.len() ==> sound((#[trigger] bs[k])@) && width <= bs[k]@.columns.len(),
            forall|i: int| 0 <= i < column ==> #[trigger] offset_sizes(all, i) <= i32::MAX,
        decreases width - column,
    {
        let mut room: usize = 0x7fff_ffff;
        let mut k: usize = 0;
        proof {
            assert(all.take(0) =~= Seq::empty());
        }
        while k < bs.len()
            invariant
                k <= bs.len(),
                column < width,
                all == views(bs@),
                forall|k: int|
                    0 <= k < bs.len() ==> sound((#[trigger] bs[k])@) && width
                        <= bs[k]@.columns.len(),
                room <= i32::MAX,
                offset_sizes(all.take(k as int), column as int) == i32::MAX - room,
            decreases bs.len() - k,
        {
            proof {
                assert(all.take(k + 1).drop_last() =~= all.take(k as int));
                assert(all.take(k + 1).last() == bs[k as int]@);
            }
            match measure(&bs[k], column, room) {
                Some(n) => {
                    room = room - n;
                },
                None => {
                    proof {
                        lemma_offset_sizes(all, column as int, k + 1);
                    }
                    return false;
                },
            }
            k = k + 1;
        }
        proof {
            assert(all.take(k as int) =~= all);
        }
        column = column + 1;
    }
    true
}

/// A column of batches of the same types takes up what its cells do, where it has offsets.
proof fn lemma_same_column(bs: Seq<BatchView>, column: int, t: DataType)
    requires
        forall|k: int|
            0 <= k < bs.len() ==> sound(#[trigger] bs[k]) && column < bs[k].fields.len()
                && bs[k].fields[column].data_type == t,
        0 <= column,
    ensures
        offset_sizes(bs, column) == if is_offset(t) { cells_size(stacked(bs, column)) } else { 0 },
    decreases bs.len(),
{
    if bs.len() > 0 {
        let init = bs.drop_last();
        assert forall|k: int| 0 <= k < init.len() implies sound(#[trigger] init[k]) && column
            < init[k].fields.len() && init[k].fields[column].data_type == t by {
            assert(init[k] == bs[k]);
        }
        lemma_same_column(init, column, t);
        assert(sound(bs[bs.len() - 1]));
        let c = bs.last().columns[column];
        assert(c.data_type == t);
        lemma_cells_size_concat(stacked(init, column), c.cells);
    }
}

impl Batch {
    /// A batch of some fields and columns. Without columns the number of rows has to be given.
    pub fn try_new(schema: &Schema, columns: &Vec<Column>, rows: Option<usize>) -> (r: Result<
        Batch,
        ArborError,
    >)
        ensures
            agrees(
                r,
                match assembled(
                    schema@,
                    views(columns@),
                    match rows {
                        Some(n) => Some(n as nat),
                        None => None,
                    },
                ) {
                    Some(b) => Outcome::Value(b),
                    None => Outcome::Fault(Fault::Arrow),
                },
            ),
    {
        match assemble(schema, columns, rows) {
            Ok(b) => Ok(b),
            Err(e) => Err(execution_error(e)),
        }
    }

    /// The fields.
    pub fn schema(&self) -> (r: Schema)
        ensures
            r@ == self@.fields,
            sound(self@),
    {
        schema_of_batch(self)
    }

    /// The number of rows.
    pub fn num_rows(&self) -> (r: usize)
        ensures
            r == self@.rows,
    {
        rows_of_batch(self)
    }

    /// The number of columns.
    pub fn num_columns(&self) -> (r: usize)
        ensures
            r == self@.columns.len(),
            sound(self@),
    {
        self.schema().fields.len()
    }

    /// One column.
    pub fn column(&self, i: usize) -> (r: Column)
        requires
            i < self@.columns.len(),
        ensures
            r@ == self@.columns[i as int],
    {
        column_of_batch(self, i)
    }

    /// Whether every column can be carried through every operator.
    pub fn is_carried(&self) -> (r: bool)
        ensures
            r == carried(self@),
    {
        let schema = self.schema();
        let mut i: usize = 0;
        while i < schema.fields.len()
            invariant
                i <= schema.fields.len(),
                schema@ == self@.fields,
                forall|k: int|
                    0 <= k < i ==> carries((#[trigger] self@.fields[k]).data_type),
            decreases schema.fields.len() - i,
        {
            proof {
                assert(schema@[i as int].data_type == schema.fields[i as int].data_type);
            }
            if !schema.fields[i].data_type.is_carried() {
                proof {
                    assert(!carries(self@.fields[i as int].data_type));
                }
                return false;
            }
            i = i + 1;
        }
        true
    }

    /// The rows that `mask` marks TRUE.
    pub fn filter(&self, mask: &Column) -> (r: Result<Batch, ArborError>)
        requires
            carried(self@),
            mask@.data_type == DataType::Boolean,
            mask@.cells.len() == self@.rows,
        ensures
            r matches Ok(x) && x@ == filtered_batch(self@, mask@.cells),
    {
        match filter_batch(self, mask) {
            Ok(b) => Ok(b),
            Err(e) => Err(execution_error(e)),
        }
    }

    /// The first `n` rows.
    pub fn head(&self, n: usize) -> (r: Batch)
        requires
            n <= self@.rows,
        ensures
            r@ == first_rows(self@, n as nat),
    {
        slice_batch(self, n)
    }

    /// Several batches, one below the other.
    pub fn concat(bs: &Vec<Batch>) -> (r: Result<Batch, ArborError>)
        requires
            bs.len() > 0,
            forall|k: int| 0 <= k < bs.len() ==> carried((#[trigger] bs[k])@),
        ensures
            agrees(r, concatenated(views(bs@))),
            r matches Ok(b) ==> b@ == stacked_batch(views(bs@)),
    {
        let ghost all = views(bs@);
        let schema = bs[0].schema();
        let width: usize = schema.fields.len();
        let mut i: usize = 0;
        let mut rows: usize = 0;
        proof {
            assert(all.take(0) =~= Seq::empty());
            assert(all[0] == bs[0]@);
        }
        while i < bs.len()
            invariant
                i <= bs.len(),
                bs.len() > 0,
                all == views(bs@),
                width == all[0].fields.len(),
                width == 0 ==> rows == total_rows(all.take(i as int)),
                forall|k: int| 0 <= k < i ==> (#[trigger] all[k]).fields.len() >= width,
                forall|k: int| 0 <= k < i ==> sound((#[trigger] bs[k])@),
            decreases bs.len() - i,
        {
            proof {
                assert(all[i as int] == bs[i as int]@);
                let t = all.take(i + 1);
                assert(t.drop_last() =~= all.take(i as int));
                assert(t.last() == all[i as int]);
            }
            if bs[i].num_columns() < width {
                proof {
                    assert(!(all[i as int].fields.len() >= all[0].fields.len()));
                }
                return Err(ArborError::Execution("batches differ in their columns".to_string()));
            }
            if width == 0 {
                let n: usize = bs[i].num_rows();
                if n > usize::MAX - rows {
                    proof {
                        lemma_total_rows(all, i + 1);
                        assert(wide_enough(all));
                    }
                    return Err(ArborError::Execution("too many rows".to_string()));
                }
                rows = rows + n;
            }
            i = i + 1;
        }
        proof {
            assert(all.take(bs.len() as int) =~= all);
            assert(wide_enough(all));
            assert forall|k: int| 0 <= k < bs.len() implies sound((#[trigger] bs[k])@) && width
                <= bs[k]@.columns.len() by {
                assert(all[k] == bs[k]@);
            }
        }
        if !fits_together(bs, width) {
            proof {
                let i = choose|i: int|
                    0 <= i < width && #[trigger] offset_sizes(all, i) > i32::MAX;
                if same_types(all) {
                    let t = all[0].fields[i].data_type;
                    assert forall|k: int| 0 <= k < all.len() implies sound(#[trigger] all[k]) && i
                        < all[k].fields.len() && all[k].fields[i].data_type == t by {
                        assert(all[k] == bs[k]@);
                    }
                    lemma_same_column(all, i, t);
                    assert(oversized(t, stacked(all, i)));
                }
            }
            return Err(ArborError::Execution("too much text for one column".to_string()));
        }
        proof {
            if same_types(all) {
                assert forall|i: int| 0 <= i < width implies !oversized(
                    all[0].fields[i].data_type,
                    #[trigger] stacked(all, i),
                ) by {
                    let t = all[0].fields[i].data_type;
                    assert forall|k: int| 0 <= k < all.len() implies sound(#[trigger] all[k]) && i
                        < all[k].fields.len() && all[k].fields[i].data_type == t by {
                        assert(all[k] == bs[k]@);
                    }
                    lemma_same_column(all, i, t);
                    assert(offset_sizes(all, i) <= i32::MAX);
                }
            }
        }
        match stack_batches(&schema, bs) {
            Ok(b) => Ok(b),
            Err(e) => Err(execution_error(e)),
        }
    }
}

/// More batches have no fewer rows.
pub proof fn lemma_total_rows(bs: Seq<BatchView>, k: int)
    requires
        0 <= k <= bs.len(),
    ensures
        total_rows(bs.take(k)) <= total_rows(bs),
    decreases bs.len(),
{
    if k < bs.len() {
        lemma_total_rows(bs.drop_last(), k);
        assert(bs.drop_last().take(k) =~= bs.take(k));
    } else {
        assert(bs.take(k) =~= bs);
    }
}

} // verus!
