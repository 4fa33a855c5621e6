//! Arrow arrays and record batches, and the operations on them that reading needs.
//!
//! What this module says of the Arrow crates is trusted: Verus sees the contracts and not the
//! bodies behind them.

use crate::schema::DataType;
use arrow_array::types::{Int32Type, Int64Type};
use arrow_array::{
    Array, ArrayRef, Int32Array, Int64Array, LargeListArray, ListArray, PrimitiveArray,
    RecordBatch, StructArray, UInt64Array,
};
use arrow_schema::{ArrowError, DataType as ArrowType, Field as ArrowField, Schema as ArrowSchema};
use std::sync::Arc;
use vstd::prelude::*;

verus! {

/// An Arrow field. [`field_name`] and [`field_nullable`] name what it declares.
#[verifier::external_type_specification]
#[verifier::external_body]
pub struct ExArrowField(ArrowField);

/// The error of the Arrow crates.
#[verifier::external_type_specification]
#[verifier::external_body]
pub struct ExArrowError(ArrowError);

/// A shared Arrow array. The names below say what an array holds; two columns are the same where
/// they hold the same, wherever it is held.
#[verifier::external_body]
pub struct Column {
    pub array: ArrayRef,
}

/// An Arrow record batch. [`batch_fields`], [`batch_columns`] and [`batch_rows`] name what it
/// holds.
#[verifier::external_body]
pub struct Batch {
    pub batch: RecordBatch,
}

/// The number of elements of an array, nulls included.
pub uninterp spec fn column_len(column: Column) -> nat;

/// The number of null elements of an array.
pub uninterp spec fn column_nulls(column: Column) -> nat;

/// Whether `ArrayData::validate` accepts the data of an array.
pub uninterp spec fn column_valid(column: Column) -> bool;

/// The values of an array of 32 bit integers, those of null slots included; `None` where the
/// array is of another type.
pub uninterp spec fn int32_values(column: Column) -> Option<Seq<i32>>;

/// The values of an array of 64 bit integers, those of null slots included; `None` where the
/// array is of another type.
pub uninterp spec fn int64_values(column: Column) -> Option<Seq<i64>>;

/// The values of an array of unsigned 64 bit integers, those of null slots included; `None`
/// where the array is of another type.
pub uninterp spec fn uint64_values(column: Column) -> Option<Seq<u64>>;

/// The child arrays of a struct array, in the order of its fields.
pub uninterp spec fn struct_children(column: Column) -> Seq<Column>;

/// The offsets of a list array with 32 bit offsets, and the values that they cut into lists.
pub uninterp spec fn list_parts(column: Column) -> (Seq<i32>, Column);

/// The offsets of a list array with 64 bit offsets, and the values that they cut into lists.
pub uninterp spec fn large_list_parts(column: Column) -> (Seq<i64>, Column);

/// The name of a field.
pub uninterp spec fn field_name(field: ArrowField) -> Seq<char>;

/// Whether a field may hold nulls.
pub uninterp spec fn field_nullable(field: ArrowField) -> bool;

/// The layout of the data type that a field declares, as far as the data type alone tells it.
pub uninterp spec fn field_layout(field: ArrowField) -> DataType;

/// Whether the metadata of a field is empty.
pub uninterp spec fn field_bare(field: ArrowField) -> bool;

/// The fields of the struct type that a field declares; `None` where it declares another type.
pub uninterp spec fn struct_fields(field: ArrowField) -> Option<Seq<ArrowField>>;

/// The field of the items of the list type with 32 bit offsets that a field declares; `None`
/// where it declares another type.
pub uninterp spec fn list_item(field: ArrowField) -> Option<ArrowField>;

/// The field of the items of the list type with 64 bit offsets that a field declares; `None`
/// where it declares another type.
pub uninterp spec fn large_list_item(field: ArrowField) -> Option<ArrowField>;

/// The `==` of `Field`.
pub uninterp spec fn fields_equal(field: ArrowField, other: ArrowField) -> bool;

/// Whether the data type that a field declares equals the data type of an array.
pub uninterp spec fn type_matches(field: ArrowField, column: Column) -> bool;

/// The fields of the schema of a record batch.
pub uninterp spec fn batch_fields(batch: Batch) -> Seq<ArrowField>;

/// The columns of a record batch.
pub uninterp spec fn batch_columns(batch: Batch) -> Seq<Column>;

/// The number of rows of a record batch.
pub uninterp spec fn batch_rows(batch: Batch) -> nat;

/// The struct array that `StructArray::from` makes of fields and their arrays.
pub uninterp spec fn struct_column(fields: Seq<ArrowField>, columns: Seq<Column>) -> Column;

/// The field that `Field::new` makes of a name, the data type of an array, and whether it may
/// hold nulls.
pub uninterp spec fn item_field(name: Seq<char>, values: Column, nullable: bool) -> ArrowField;

/// What building a list array with 32 bit offsets gives.
pub uninterp spec fn list_column(item: ArrowField, offsets: Seq<i32>, values: Column) -> Result<
    Column,
    ArrowError,
>;

/// What building a list array with 64 bit offsets gives.
pub uninterp spec fn large_list_column(
    item: ArrowField,
    offsets: Seq<i64>,
    values: Column,
) -> Result<Column, ArrowError>;

/// The array that `UInt64Array::from_iter_values` makes of its values.
pub uninterp spec fn uint64_column(values: Seq<u64>) -> Column;

/// The field that `Field::new` makes of a name, for unsigned 64 bit integers without nulls.
pub uninterp spec fn uint64_field(name: Seq<char>) -> ArrowField;

/// What `RecordBatch::try_new` gives.
pub uninterp spec fn record_batch(fields: Seq<ArrowField>, columns: Seq<Column>) -> Result<
    Batch,
    ArrowError,
>;

/// Whether an array can stand for a field among arrays of `len` elements.
pub open spec fn column_fits(field: ArrowField, column: Column, len: nat) -> bool {
    &&& column_len(column) == len
    &&& type_matches(field, column)
    &&& field_nullable(field) || column_nulls(column) == 0
}

/// Whether arrays can stand side by side for fields: one for each, all of one length.
pub open spec fn columns_fit(fields: Seq<ArrowField>, columns: Seq<Column>) -> bool {
    &&& fields.len() == columns.len()
    &&& forall|i: int|
        0 <= i < columns.len() ==> #[trigger] column_fits(
            fields[i],
            columns[i],
            column_len(columns[0]),
        )
}

/// Whether arrays make a record batch: there is one, and they fit the fields.
pub open spec fn makes_batch(fields: Seq<ArrowField>, columns: Seq<Column>) -> bool {
    columns.len() > 0 && columns_fit(fields, columns)
}

/// Whether offsets cut `len` values into lists: none is negative or past the values, and none
/// is below the one before it.
pub open spec fn offsets_cut(offsets: Seq<int>, len: nat) -> bool {
    &&& forall|i: int| 0 <= i < offsets.len() ==> 0 <= #[trigger] offsets[i] <= len
    &&& forall|i: int, j: int| 0 <= i <= j < offsets.len() ==> offsets[i] <= offsets[j]
}

/// Whether offsets and values make a list array: the values are valid, and the offsets cut them.
pub open spec fn makes_list(offsets: Seq<int>, values: Column) -> bool {
    column_valid(values) && offsets_cut(offsets, column_len(values))
}

/// Whether `ArrayData::validate` accepts the data of each array.
pub open spec fn columns_valid(columns: Seq<Column>) -> bool {
    forall|i: int| 0 <= i < columns.len() ==> column_valid(#[trigger] columns[i])
}

/// Whether a field is the one that was given, or equal to it by the `==` of `Field`.
pub open spec fn same_field(field: ArrowField, given: ArrowField) -> bool {
    field == given || fields_equal(field, given)
}

/// Whether a declared field, if there is one, is the one that was given.
pub open spec fn declares(declared: Option<ArrowField>, given: ArrowField) -> bool {
    declared matches Some(field) && same_field(field, given)
}

/// Whether declared fields, if there are any, are those that were given.
pub open spec fn declares_all(declared: Option<Seq<ArrowField>>, given: Seq<ArrowField>) -> bool {
    declared matches Some(fields) && fields.len() == given.len() && forall|i: int|
        0 <= i < given.len() ==> same_field(#[trigger] fields[i], given[i])
}

/// Whether a field is one for values like these, without metadata.
pub open spec fn describes(
    field: ArrowField,
    name: Seq<char>,
    values: Column,
    nullable: bool,
) -> bool {
    &&& field_name(field) == name
    &&& type_matches(field, values)
    &&& field_nullable(field) == nullable
    &&& field_bare(field)
}

/// The offsets as mathematical integers.
pub open spec fn ints32(offsets: Seq<i32>) -> Seq<int> {
    offsets.map_values(|offset: i32| offset as int)
}

/// The offsets as mathematical integers.
pub open spec fn ints64(offsets: Seq<i64>) -> Seq<int> {
    offsets.map_values(|offset: i64| offset as int)
}

/// Every value less the scalar, wrapping around where that leaves the type.
pub open spec fn less_scalar32(values: Seq<i32>, scalar: i32) -> Seq<i32> {
    values.map_values(|value: i32| value.wrapping_sub(scalar))
}

/// Every value less the scalar, wrapping around where that leaves the type.
pub open spec fn less_scalar64(values: Seq<i64>, scalar: i64) -> Seq<i64> {
    values.map_values(|value: i64| value.wrapping_sub(scalar))
}

/// The clone that `Field` derives: an equal field.
pub assume_specification[ <ArrowField as Clone>::clone ](field: &ArrowField) -> (clone: ArrowField)
    ensures
        clone == *field,
;

/// `Array::len`: the number of elements.
#[verifier::external_body]
fn array_len(column: &Column) -> (len: usize)
    ensures
        len == column_len(*column),
{
    column.array.len()
}

/// `Array::null_count`: the number of nulls.
#[verifier::external_body]
fn array_null_count(column: &Column) -> (count: usize)
    ensures
        count == column_nulls(*column),
{
    column.array.null_count()
}

/// `Field::is_nullable`: whether the field may hold nulls.
#[verifier::external_body]
fn is_nullable(field: &ArrowField) -> (nullable: bool)
    ensures
        nullable == field_nullable(*field),
{
    field.is_nullable()
}

/// The variant of the `DataType` that a field declares (`Field::data_type`); all that have no
/// layout of their own are `Other`.
#[verifier::external_body]
pub(crate) fn layout(field: &ArrowField) -> (layout: DataType)
    ensures
        layout == field_layout(*field),
        !(layout is FixedStride),
{
    match field.data_type() {
        ArrowType::Utf8 => DataType::Utf8,
        ArrowType::LargeUtf8 => DataType::LargeUtf8,
        ArrowType::Binary => DataType::Binary,
        ArrowType::LargeBinary => DataType::LargeBinary,
        ArrowType::Struct(_) => DataType::Struct,
        ArrowType::Dictionary(_, _) => DataType::Dictionary,
        ArrowType::List(_) => DataType::List,
        ArrowType::LargeList(_) => DataType::LargeList,
        _ => DataType::Other,
    }
}

/// The `==` of `DataType`, on the type that a field declares (`Field::data_type`) and the type
/// of an array (`Array::data_type`).
#[verifier::external_body]
fn same_type(field: &ArrowField, column: &Column) -> (same: bool)
    ensures
        same == type_matches(*field, *column),
{
    field.data_type() == column.array.data_type()
}

/// The downcast of `as_primitive_array`, with `None` in place of its panic, then
/// `PrimitiveArray::values`: the values of an array of 32 bit integers, as many as it has
/// elements.
#[verifier::external_body]
pub(crate) fn int32_array_values(column: &Column) -> (values: Option<Vec<i32>>)
    ensures
        values is Some <==> int32_values(*column) is Some,
        values matches Some(v) ==> int32_values(*column) == Some(v@) && v@.len() == column_len(
            *column,
        ),
{
    let array = column.array.as_any().downcast_ref::<PrimitiveArray<Int32Type>>();
    array.map(|a| a.values().to_vec())
}

/// The downcast of `as_primitive_array`, with `None` in place of its panic, then
/// `PrimitiveArray::values`: the values of an array of 64 bit integers, as many as it has
/// elements.
#[verifier::external_body]
pub(crate) fn int64_array_values(column: &Column) -> (values: Option<Vec<i64>>)
    ensures
        values is Some <==> int64_values(*column) is Some,
        values matches Some(v) ==> int64_values(*column) == Some(v@) && v@.len() == column_len(
            *column,
        ),
{
    let array = column.array.as_any().downcast_ref::<PrimitiveArray<Int64Type>>();
    array.map(|a| a.values().to_vec())
}

/// `arrow_arith::arithmetic::subtract_scalar` on an array without nulls: it never fails, and
/// wraps around.
#[verifier::external_body]
pub(crate) fn subtract_scalar32(values: &Vec<i32>, scalar: i32) -> (difference: Result<
    Vec<i32>,
    ArrowError,
>)
    ensures
        difference is Ok,
        difference->Ok_0@ == less_scalar32(values@, scalar),
{
    let array = Int32Array::from(values.clone());
    let difference = arrow_arith::arithmetic::subtract_scalar(&array, scalar)?;
    Ok(difference.values().to_vec())
}

/// `arrow_arith::arithmetic::subtract_scalar` on an array without nulls: it never fails, and
/// wraps around.
#[verifier::external_body]
pub(crate) fn subtract_scalar64(values: &Vec<i64>, scalar: i64) -> (difference: Result<
    Vec<i64>,
    ArrowError,
>)
    ensures
        difference is Ok,
        difference->Ok_0@ == less_scalar64(values@, scalar),
{
    let array = Int64Array::from(values.clone());
    let difference = arrow_arith::arithmetic::subtract_scalar(&array, scalar)?;
    Ok(difference.values().to_vec())
}

/// `StructArray::from` on fields and their arrays: a struct array without nulls of its own, whose
/// type is the struct type of the fields. `ArrayData::validate` accepts it where it accepts the
/// children. It panics where the arrays do not fit the fields.
#[verifier::external_body]
pub(crate) fn struct_array(fields: Vec<ArrowField>, columns: Vec<Column>) -> (column: Column)
    requires
        columns_fit(fields@, columns@),
    ensures
        column == struct_column(fields@, columns@),
        struct_children(column) == columns@,
        column_len(column) == if columns@.len() == 0 {
            0
        } else {
            column_len(columns@[0])
        },
        column_nulls(column) == 0,
        column_valid(column) <==> columns_valid(columns@),
        forall|field: ArrowField| #[trigger]
            type_matches(field, column) <==> declares_all(struct_fields(field), fields@),
{
    let arrays = columns.into_iter().map(|column| column.array);
    let children: Vec<(ArrowField, ArrayRef)> = fields.into_iter().zip(arrays).collect();
    Column { array: Arc::new(StructArray::from(children)) }
}

/// `Field::new` with the data type of an array (`Array::data_type`): a field without metadata.
/// The `==` of `Field` compares names, data types, nullability and metadata.
#[verifier::external_body]
pub(crate) fn new_item_field(name: &str, values: &Column, nullable: bool) -> (field: ArrowField)
    ensures
        field == item_field(name@, *values, nullable),
        field_bare(field),
        describes(field, name@, *values, nullable),
        forall|other: ArrowField| #[trigger]
            fields_equal(other, field) <==> describes(other, name@, *values, nullable),
{
    ArrowField::new(name, values.array.data_type().clone(), nullable)
}

/// `ArrayDataBuilder::build`, then `ListArray::from`: an array of `len` lists without nulls of its
/// own, whose lists are the values between one offset and the next, and whose type is the list
/// type of `item`. It succeeds where `ArrayData::validate` accepts the values and the offsets cut
/// them, and fails otherwise. `ArrayData::validate` then accepts the lists.
#[verifier::external_body]
pub(crate) fn list_array(
    item: ArrowField,
    len: usize,
    offsets: Vec<i32>,
    values: &Column,
) -> (list: Result<Column, ArrowError>)
    requires
        offsets@.len() == len + 1,
        type_matches(item, *values),
        field_nullable(item),
    ensures
        list == list_column(item, offsets@, *values),
        list is Ok <==> makes_list(ints32(offsets@), *values),
        list matches Ok(column) ==> {
            &&& list_parts(column) == (offsets@, *values)
            &&& column_len(column) == len
            &&& column_nulls(column) == 0
            &&& column_valid(column)
            &&& forall|field: ArrowField| #[trigger]
                type_matches(field, column) <==> declares(list_item(field), item)
        },
{
    let builder = Int32Array::from(offsets).into_data().into_builder().len(len);
    let builder = builder.data_type(ArrowType::List(Box::new(item)));
    let data = builder.add_child_data(values.array.data().clone()).build()?;
    Ok(Column { array: Arc::new(ListArray::from(data)) })
}

/// `ArrayDataBuilder::build`, then `LargeListArray::from`: as [`list_array`], with 64 bit
/// offsets.
#[verifier::external_body]
pub(crate) fn large_list_array(
    item: ArrowField,
    len: usize,
    offsets: Vec<i64>,
    values: &Column,
) -> (list: Result<Column, ArrowError>)
    requires
        offsets@.len() == len + 1,
        type_matches(item, *values),
        field_nullable(item),
    ensures
        list == large_list_column(item, offsets@, *values),
        list is Ok <==> makes_list(ints64(offsets@), *values),
        list matches Ok(column) ==> {
            &&& large_list_parts(column) == (offsets@, *values)
            &&& column_len(column) == len
            &&& column_nulls(column) == 0
            &&& column_valid(column)
            &&& forall|field: ArrowField| #[trigger]
                type_matches(field, column) <==> declares(large_list_item(field), item)
        },
{
    let builder = Int64Array::from(offsets).into_data().into_builder().len(len);
    let builder = builder.data_type(ArrowType::LargeList(Box::new(item)));
    let data = builder.add_child_data(values.array.data().clone()).build()?;
    Ok(Column { array: Arc::new(LargeListArray::from(data)) })
}

/// `UInt64Array::from_iter_values`: an array of the values, without nulls.
#[verifier::external_body]
pub(crate) fn uint64_array(values: Vec<u64>) -> (column: Column)
    ensures
        column == uint64_column(values@),
        uint64_values(column) == Some(values@),
        column_len(column) == values@.len(),
        column_nulls(column) == 0,
{
    Column { array: Arc::new(UInt64Array::from_iter_values(values)) }
}

/// `Field::new` for unsigned 64 bit integers without nulls: every array of unsigned 64 bit
/// integers has its type.
#[verifier::external_body]
pub(crate) fn new_uint64_field(name: &str) -> (field: ArrowField)
    ensures
        field == uint64_field(name@),
        field_name(field) == name@,
        !field_nullable(field),
        forall|column: Column|
            #![trigger type_matches(field, column)]
            uint64_values(column) is Some ==> type_matches(field, column),
{
    ArrowField::new(name, ArrowType::UInt64, false)
}

/// `RecordBatch::try_new`: a batch of the columns, whose schema has the fields. It succeeds
/// where there is a column and the columns fit the fields, and fails otherwise.
#[verifier::external_body]
pub(crate) fn new_record_batch(fields: Vec<ArrowField>, columns: &Vec<Column>) -> (batch: Result<
    Batch,
    ArrowError,
>)
    ensures
        batch == record_batch(fields@, columns@),
        batch is Ok <==> makes_batch(fields@, columns@),
        batch matches Ok(b) ==> {
            &&& batch_fields(b) == fields@
            &&& batch_columns(b) == columns@
            &&& batch_rows(b) == column_len(columns@[0])
        },
{
    let arrays = columns.iter().map(|column| column.array.clone());
    let batch = RecordBatch::try_new(Arc::new(ArrowSchema::new(fields)), arrays.collect())?;
    Ok(Batch { batch })
}

/// `RecordBatch::num_rows`: the number of rows.
#[verifier::external_body]
pub(crate) fn num_rows(batch: &Batch) -> (rows: usize)
    ensures
        rows == batch_rows(*batch),
{
    batch.batch.num_rows()
}

/// Whether the columns fit the fields.
pub fn check_columns(fields: &Vec<ArrowField>, columns: &Vec<Column>) -> (fit: bool)
    ensures
        fit == columns_fit(fields@, columns@),
{
    if fields.len() != columns.len() {
        return false;
    }
    let mut i: usize = 0;
    while i < columns.len()
        invariant
            i <= columns@.len(),
            fields@.len() == columns@.len(),
            forall|j: int|
                0 <= j < i ==> #[trigger] column_fits(
                    fields@[j],
                    columns@[j],
                    column_len(columns@[0]),
                ),
        decreases columns@.len() - i,
    {
        let field = &fields[i];
        let column = &columns[i];
        let fits = array_len(column) == array_len(&columns[0]) && same_type(field, column) && (
        is_nullable(field) || array_null_count(column) == 0);
        if !fits {
            assert(!column_fits(fields@[i as int], columns@[i as int], column_len(columns@[0])));
            return false;
        }
        i += 1;
    }
    true
}

} // verus!
