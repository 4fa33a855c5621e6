//! What reading a column or a batch comes to, given the pages that storage hands in.
//!
//! The columns of a batch are read one page after the other, depth first: the definitions here
//! take the replies of storage so far and say which page comes next, or what has come of the
//! reading.

use crate::arrow::{
    batch_columns, batch_fields, batch_rows, column_len, column_nulls, column_valid, columns_fit,
    columns_valid, declares, declares_all, describes, field_name, field_nullable, fields_equal,
    int32_values, int64_values, ints32, ints64, item_field, large_list_column, large_list_item,
    large_list_parts, less_scalar32, less_scalar64, list_column, list_item, list_parts,
    makes_batch, makes_list, record_batch, struct_children, struct_column, struct_fields,
    type_matches, uint64_column, uint64_field, uint64_values, Batch, Column,
};
use crate::error::{missing_page_message, ErrorView};
use crate::format::PageInfo;
use crate::row_id::{batch_row_ids, numberable};
use crate::schema::{arrow_fields, DataType, Field};
use arrow_schema::Field as ArrowField;
use vstd::prelude::*;

verus! {

/// How the bytes of a page become an array.
#[derive(Clone, Copy, Debug, PartialEq, Eq, Structural)]
pub enum PageKind {
    /// Values of the type of the field, all of one size.
    FixedStride,
    /// Strings or byte strings of the type of the field.
    Binary,
    /// Keys into the dictionary of the field.
    Dictionary,
    /// The positions of lists, as 32 bit integers.
    ListPositions,
    /// The positions of lists, as 64 bit integers.
    LargeListPositions,
}

/// A page to be read from storage.
pub struct Fetch {
    pub field: Field,
    pub kind: PageKind,
    pub page: PageInfo,
}

/// Why reading breaks off: the schema is one that cannot be read, or what storage replied does not
/// fit it. Callers treat this as a broken promise, not as an error of the file.
#[derive(Clone, Copy, Debug, PartialEq, Eq, Structural)]
pub enum Defect {
    /// The type of the field of this id is not supported.
    UnsupportedType(i32),
    /// The values of the dictionary of the field are not at hand.
    NoDictionary,
    /// The field is a list without a child field.
    NoItemField,
    /// The positions of lists are not integers of the size that was asked for.
    NotPositions,
    /// A page of positions is empty.
    NoPositions,
    /// The arrays of the children of a struct do not fit together.
    ChildMismatch,
    /// The rows of the batch cannot be numbered.
    RowIdOverflow,
}

/// What reading one column has come to.
pub enum Walk {
    /// This page comes next.
    Fetch(Fetch),
    /// The column, and the replies that it did not use.
    Read(Column, Seq<Column>),
    Failed(ErrorView),
    Broken(Defect),
}

/// What reading several columns has come to.
pub enum Walks {
    /// This page comes next.
    Fetch(Fetch),
    /// The columns, and the replies that they did not use.
    Read(Seq<Column>, Seq<Column>),
    Failed(ErrorView),
    Broken(Defect),
}

/// What reading a batch has come to.
pub enum Outcome {
    /// This page comes next.
    Fetch(Fetch),
    Finished(Batch),
    Failed(ErrorView),
    Broken(Defect),
}

/// The pages of a file, by field and batch.
pub type Pages = Map<(i32, i32), PageInfo>;

/// The name of the field of the items of a list.
pub open spec fn item_name() -> Seq<char> {
    "item"@
}

/// The field of the items of a list of these values: nullable, and named `item`.
pub open spec fn list_item_field(values: Column) -> ArrowField {
    item_field(item_name(), values, true)
}

/// The name of the column of row ids.
pub open spec fn row_id_name() -> Seq<char> {
    "_rowid"@
}

/// The page of a field in a batch, or what is wrong where it is not listed.
pub open spec fn page_of(field: Field, batch_id: i32, pages: Pages) -> Result<PageInfo, ErrorView> {
    if pages.contains_key((field.id, batch_id)) {
        Ok(pages[(field.id, batch_id)])
    } else {
        Err(ErrorView::IO(missing_page_message(field.name@, field.id, batch_id)))
    }
}

/// Whether the dictionary of a field is at hand.
pub open spec fn has_dictionary(field: Field) -> bool {
    field.dictionary matches Some(dictionary) && dictionary.values is Some
}

/// Reads the page of a field: the first reply is what it holds.
pub open spec fn page_walk(
    field: Field,
    kind: PageKind,
    batch_id: i32,
    pages: Pages,
    replies: Seq<Column>,
) -> Walk {
    match page_of(field, batch_id, pages) {
        Err(error) => Walk::Failed(error),
        Ok(page) => if kind == PageKind::Dictionary && !has_dictionary(field) {
            Walk::Broken(Defect::NoDictionary)
        } else if replies.len() == 0 {
            Walk::Fetch(Fetch { field, kind, page })
        } else {
            Walk::Read(replies[0], replies.skip(1))
        },
    }
}

/// The positions of lists, less the first of them: where each list starts among the values
/// that were read, and where the last one ends.
pub open spec fn list_offsets(positions: Column) -> Result<Seq<i32>, Defect> {
    match int32_values(positions) {
        None => Err(Defect::NotPositions),
        Some(values) => if values.len() == 0 {
            Err(Defect::NoPositions)
        } else {
            Ok(less_scalar32(values, values[0]))
        },
    }
}

/// As [`list_offsets`], with 64 bit positions.
pub open spec fn large_list_offsets(positions: Column) -> Result<Seq<i64>, Defect> {
    match int64_values(positions) {
        None => Err(Defect::NotPositions),
        Some(values) => if values.len() == 0 {
            Err(Defect::NoPositions)
        } else {
            Ok(less_scalar64(values, values[0]))
        },
    }
}

/// Reads the column of a field in a batch.
pub open spec fn array_walk(
    field: Field,
    batch_id: i32,
    pages: Pages,
    replies: Seq<Column>,
) -> Walk
    decreases field,
{
    match field.data_type {
        DataType::FixedStride => page_walk(
            field,
            PageKind::FixedStride,
            batch_id,
            pages,
            replies,
        ),
        DataType::Utf8 | DataType::LargeUtf8 | DataType::Binary | DataType::LargeBinary => {
            page_walk(field, PageKind::Binary, batch_id, pages, replies)
        },
        DataType::Dictionary => page_walk(field, PageKind::Dictionary, batch_id, pages, replies),
        DataType::Struct => match arrays_walk(field.children@, batch_id, pages, replies) {
            Walks::Read(columns, rest) => if columns_fit(
                arrow_fields(field.children@),
                columns,
            ) {
                Walk::Read(struct_column(arrow_fields(field.children@), columns), rest)
            } else {
                Walk::Broken(Defect::ChildMismatch)
            },
            Walks::Fetch(fetch) => Walk::Fetch(fetch),
            Walks::Failed(error) => Walk::Failed(error),
            Walks::Broken(defect) => Walk::Broken(defect),
        },
        DataType::List => match page_walk(
            field,
            PageKind::ListPositions,
            batch_id,
            pages,
            replies,
        ) {
            Walk::Read(positions, rest) => match list_offsets(positions) {
                Err(defect) => Walk::Broken(defect),
                Ok(offsets) => if field.children@.len() == 0 {
                    Walk::Broken(Defect::NoItemField)
                } else {
                    match array_walk(field.children@[0], batch_id, pages, rest) {
                        Walk::Read(values, rest) => {
                            let list = list_column(list_item_field(values), offsets, values);
                            if makes_list(ints32(offsets), values) {
                                Walk::Read(list->Ok_0, rest)
                            } else {
                                Walk::Failed(ErrorView::Arrow(list->Err_0))
                            }
                        },
                        other => other,
                    }
                },
            },
            other => other,
        },
        DataType::LargeList => match page_walk(
            field,
            PageKind::LargeListPositions,
            batch_id,
            pages,
            replies,
        ) {
            Walk::Read(positions, rest) => match large_list_offsets(positions) {
                Err(defect) => Walk::Broken(defect),
                Ok(offsets) => if field.children@.len() == 0 {
                    Walk::Broken(Defect::NoItemField)
                } else {
                    match array_walk(field.children@[0], batch_id, pages, rest) {
                        Walk::Read(values, rest) => {
                            let list = large_list_column(list_item_field(values), offsets, values);
                            if makes_list(ints64(offsets), values) {
                                Walk::Read(list->Ok_0, rest)
                            } else {
                                Walk::Failed(ErrorView::Arrow(list->Err_0))
                            }
                        },
                        other => other,
                    }
                },
            },
            other => other,
        },
        DataType::Other => Walk::Broken(Defect::UnsupportedType(field.id)),
    }
}

/// Reads the columns of fields in a batch, one after the other.
pub open spec fn arrays_walk(
    fields: Seq<Field>,
    batch_id: i32,
    pages: Pages,
    replies: Seq<Column>,
) -> Walks
    decreases fields,
{
    if fields.len() == 0 {
        Walks::Read(Seq::empty(), replies)
    } else {
        match arrays_walk(fields.drop_last(), batch_id, pages, replies) {
            Walks::Read(columns, rest) => match array_walk(fields.last(), batch_id, pages, rest) {
                Walk::Read(column, rest) => Walks::Read(columns.push(column), rest),
                Walk::Fetch(fetch) => Walks::Fetch(fetch),
                Walk::Failed(error) => Walks::Failed(error),
                Walk::Broken(defect) => Walks::Broken(defect),
            },
            other => other,
        }
    }
}

/// How the page of a field becomes its column, where that is all that the column takes.
pub open spec fn one_page(field: Field) -> Option<PageKind> {
    match field.data_type {
        DataType::FixedStride => Some(PageKind::FixedStride),
        DataType::Utf8 | DataType::LargeUtf8 | DataType::Binary | DataType::LargeBinary => Some(
            PageKind::Binary,
        ),
        DataType::Dictionary => Some(PageKind::Dictionary),
        _ => None,
    }
}

/// The pages that the column of a field takes, in the order in which they are read. The list
/// of a field without children ends with its positions.
pub open spec fn field_pages(field: Field) -> Seq<(Field, PageKind)>
    decreases field,
{
    match field.data_type {
        DataType::FixedStride => seq![(field, PageKind::FixedStride)],
        DataType::Utf8 | DataType::LargeUtf8 | DataType::Binary | DataType::LargeBinary => {
            seq![(field, PageKind::Binary)]
        },
        DataType::Dictionary => seq![(field, PageKind::Dictionary)],
        DataType::Struct => all_pages(field.children@),
        DataType::List => if field.children@.len() == 0 {
            seq![(field, PageKind::ListPositions)]
        } else {
            seq![(field, PageKind::ListPositions)] + field_pages(field.children@[0])
        },
        DataType::LargeList => if field.children@.len() == 0 {
            seq![(field, PageKind::LargeListPositions)]
        } else {
            seq![(field, PageKind::LargeListPositions)] + field_pages(field.children@[0])
        },
        DataType::Other => Seq::empty(),
    }
}

/// The pages that the columns of fields take, in the order in which they are read.
pub open spec fn all_pages(fields: Seq<Field>) -> Seq<(Field, PageKind)>
    decreases fields,
{
    if fields.len() == 0 {
        Seq::empty()
    } else {
        all_pages(fields.drop_last()) + field_pages(fields.last())
    }
}

/// Whether a struct array has these children, as many elements as they have, the struct type of
/// these fields, and no nulls of its own, and is valid where they are.
pub open spec fn is_struct_of(
    column: Column,
    fields: Seq<ArrowField>,
    children: Seq<Column>,
) -> bool {
    &&& struct_children(column) == children
    &&& column_len(column) == if children.len() == 0 {
        0
    } else {
        column_len(children[0])
    }
    &&& column_nulls(column) == 0
    &&& column_valid(column) <==> columns_valid(children)
    &&& forall|field: ArrowField| #[trigger]
        type_matches(field, column) <==> declares_all(struct_fields(field), fields)
}

/// Whether a list array is valid, is what these offsets cut out of these values, has the list
/// type of this item field, and has no nulls of its own.
pub open spec fn is_list_of(
    column: Column,
    item: ArrowField,
    offsets: Seq<i32>,
    values: Column,
) -> bool {
    &&& list_parts(column) == (offsets, values)
    &&& column_len(column) == offsets.len() - 1
    &&& column_nulls(column) == 0
    &&& column_valid(column)
    &&& makes_list(ints32(offsets), values)
    &&& forall|field: ArrowField| #[trigger]
        type_matches(field, column) <==> declares(list_item(field), item)
}

/// As [`is_list_of`], with 64 bit offsets.
pub open spec fn is_large_list_of(
    column: Column,
    item: ArrowField,
    offsets: Seq<i64>,
    values: Column,
) -> bool {
    &&& large_list_parts(column) == (offsets, values)
    &&& column_len(column) == offsets.len() - 1
    &&& column_nulls(column) == 0
    &&& column_valid(column)
    &&& makes_list(ints64(offsets), values)
    &&& forall|field: ArrowField| #[trigger]
        type_matches(field, column) <==> declares(large_list_item(field), item)
}

/// Whether a field is the one of the items of a list of these values: named `item`, of their
/// type, nullable and without metadata, and equal to the fields of which the same holds.
pub open spec fn is_item_of(item: ArrowField, values: Column) -> bool {
    &&& describes(item, item_name(), values, true)
    &&& forall|field: ArrowField| #[trigger]
        fields_equal(field, item) <==> describes(field, item_name(), values, true)
}

/// Whether Arrow makes struct arrays of these columns as it should, if it makes any.
pub open spec fn struct_sound(children: Seq<Field>, columns: Seq<Column>) -> bool {
    let fields = arrow_fields(children);
    columns_fit(fields, columns) ==> is_struct_of(struct_column(fields, columns), fields, columns)
}

/// Whether Arrow makes lists of these values as it should, if it makes any.
pub open spec fn list_sound(offsets: Seq<i32>, values: Column) -> bool {
    let item = list_item_field(values);
    &&& is_item_of(item, values)
    &&& makes_list(ints32(offsets), values) ==> is_list_of(
        list_column(item, offsets, values)->Ok_0,
        item,
        offsets,
        values,
    )
}

/// As [`list_sound`], with 64 bit offsets.
pub open spec fn large_list_sound(offsets: Seq<i64>, values: Column) -> bool {
    let item = list_item_field(values);
    &&& is_item_of(item, values)
    &&& makes_list(ints64(offsets), values) ==> is_large_list_of(
        large_list_column(item, offsets, values)->Ok_0,
        item,
        offsets,
        values,
    )
}

/// Whether all that Arrow makes when the column of a field is read is made as it should be.
pub open spec fn array_sound(
    field: Field,
    batch_id: i32,
    pages: Pages,
    replies: Seq<Column>,
) -> bool
    decreases field,
{
    match field.data_type {
        DataType::Struct => {
            &&& arrays_sound(field.children@, batch_id, pages, replies)
            &&& arrays_walk(field.children@, batch_id, pages, replies) matches Walks::Read(
                columns,
                _,
            ) ==> struct_sound(field.children@, columns)
        },
        DataType::List => match page_walk(
            field,
            PageKind::ListPositions,
            batch_id,
            pages,
            replies,
        ) {
            Walk::Read(positions, rest) => match list_offsets(positions) {
                Ok(offsets) => field.children@.len() > 0 ==> {
                    let item = field.children@[0];
                    &&& array_sound(item, batch_id, pages, rest)
                    &&& array_walk(item, batch_id, pages, rest) matches Walk::Read(values, _)
                        ==> list_sound(offsets, values)
                },
                Err(_) => true,
            },
            _ => true,
        },
        DataType::LargeList => match page_walk(
            field,
            PageKind::LargeListPositions,
            batch_id,
            pages,
            replies,
        ) {
            Walk::Read(positions, rest) => match large_list_offsets(positions) {
                Ok(offsets) => field.children@.len() > 0 ==> {
                    let item = field.children@[0];
                    &&& array_sound(item, batch_id, pages, rest)
                    &&& array_walk(item, batch_id, pages, rest) matches Walk::Read(values, _)
                        ==> large_list_sound(offsets, values)
                },
                Err(_) => true,
            },
            _ => true,
        },
        _ => true,
    }
}

/// Whether all that Arrow makes when the columns of fields are read is made as it should be.
pub open spec fn arrays_sound(
    fields: Seq<Field>,
    batch_id: i32,
    pages: Pages,
    replies: Seq<Column>,
) -> bool
    decreases fields,
{
    if fields.len() == 0 {
        true
    } else {
        &&& arrays_sound(fields.drop_last(), batch_id, pages, replies)
        &&& arrays_walk(fields.drop_last(), batch_id, pages, replies) matches Walks::Read(_, rest)
            ==> array_sound(fields.last(), batch_id, pages, rest)
    }
}

/// Whether a column is what the pages of its field hold: one page itself, the columns of the
/// children side by side, or the values of lists with the offsets that cut them.
pub open spec fn column_made(field: Field, column: Column, replies: Seq<Column>) -> bool
    decreases field,
{
    match field.data_type {
        DataType::Struct => {
            &&& columns_made(field.children@, struct_children(column), replies)
            &&& columns_fit(arrow_fields(field.children@), struct_children(column))
            &&& is_struct_of(column, arrow_fields(field.children@), struct_children(column))
        },
        DataType::List => {
            &&& field.children@.len() > 0
            &&& replies.len() > 0
            &&& list_offsets(replies[0]) == Ok::<Seq<i32>, Defect>(list_parts(column).0)
            &&& column_made(field.children@[0], list_parts(column).1, replies.skip(1))
            &&& is_list_of(
                column,
                list_item_field(list_parts(column).1),
                list_parts(column).0,
                list_parts(column).1,
            )
            &&& is_item_of(list_item_field(list_parts(column).1), list_parts(column).1)
        },
        DataType::LargeList => {
            &&& field.children@.len() > 0
            &&& replies.len() > 0
            &&& large_list_offsets(replies[0]) == Ok::<Seq<i64>, Defect>(large_list_parts(column).0)
            &&& column_made(field.children@[0], large_list_parts(column).1, replies.skip(1))
            &&& is_large_list_of(
                column,
                list_item_field(large_list_parts(column).1),
                large_list_parts(column).0,
                large_list_parts(column).1,
            )
            &&& is_item_of(list_item_field(large_list_parts(column).1), large_list_parts(column).1)
        },
        DataType::Other => false,
        _ => replies == seq![column],
    }
}

/// Whether columns are what the pages of their fields hold, those of one field after those of
/// the other.
pub open spec fn columns_made(
    fields: Seq<Field>,
    columns: Seq<Column>,
    replies: Seq<Column>,
) -> bool
    decreases fields,
{
    if fields.len() == 0 {
        columns.len() == 0 && replies.len() == 0
    } else {
        let before = replies.len() - field_pages(fields.last()).len();
        &&& columns.len() == fields.len()
        &&& before >= 0
        &&& columns_made(fields.drop_last(), columns.drop_last(), replies.take(before))
        &&& column_made(fields.last(), columns.last(), replies.skip(before))
    }
}

/// What to read of a batch, and how.
pub struct Job {
    pub fields: Seq<Field>,
    pub batch_id: i32,
    pub pages: Pages,
    pub fragment_id: u64,
    pub batch_offset: i32,
    pub with_row_id: bool,
}

/// The record batch of columns of a job.
pub open spec fn assemble(job: Job, columns: Seq<Column>) -> Outcome {
    let batch = record_batch(arrow_fields(job.fields), columns);
    if !makes_batch(arrow_fields(job.fields), columns) {
        Outcome::Failed(ErrorView::Arrow(batch->Err_0))
    } else if job.with_row_id {
        with_row_ids(job, columns, column_len(columns[0]) as usize)
    } else {
        Outcome::Finished(batch->Ok_0)
    }
}

/// The record batch of columns of a job, all of `num_rows` rows, with a last column of row ids.
/// There are fewer ids than rows where there are more rows than a 32 bit number can count.
pub open spec fn with_row_ids(job: Job, columns: Seq<Column>, num_rows: usize) -> Outcome {
    let ids = batch_row_ids(job.fragment_id, job.batch_offset, num_rows);
    let batch = record_batch(
        arrow_fields(job.fields).push(uint64_field(row_id_name())),
        columns.push(uint64_column(ids)),
    );
    if !numberable(job.fragment_id, job.batch_offset, num_rows) {
        Outcome::Broken(Defect::RowIdOverflow)
    } else if num_rows > i32::MAX {
        Outcome::Failed(ErrorView::Arrow(batch->Err_0))
    } else {
        Outcome::Finished(batch->Ok_0)
    }
}

/// Reads a batch.
pub open spec fn batch_outcome(job: Job, replies: Seq<Column>) -> Outcome {
    match arrays_walk(job.fields, job.batch_id, job.pages, replies) {
        Walks::Read(columns, _) => assemble(job, columns),
        Walks::Fetch(fetch) => Outcome::Fetch(fetch),
        Walks::Failed(error) => Outcome::Failed(error),
        Walks::Broken(defect) => Outcome::Broken(defect),
    }
}

/// The fields of the record batch of a job.
pub open spec fn fields_of(job: Job) -> Seq<ArrowField> {
    if job.with_row_id {
        arrow_fields(job.fields).push(uint64_field(row_id_name()))
    } else {
        arrow_fields(job.fields)
    }
}

/// Whether columns become a record batch: they fit the fields, and their rows can be numbered
/// if that is asked for.
pub open spec fn assembles(job: Job, columns: Seq<Column>) -> bool {
    &&& makes_batch(arrow_fields(job.fields), columns)
    &&& job.with_row_id ==> {
        &&& column_len(columns[0]) <= i32::MAX
        &&& numberable(job.fragment_id, job.batch_offset, column_len(columns[0]) as usize)
    }
}

/// Whether a record batch holds these columns and, if that is asked for, a last column named
/// `_rowid` of the ids of its rows.
pub open spec fn holds(batch: Batch, job: Job, columns: Seq<Column>) -> bool {
    &&& batch_fields(batch) == fields_of(job)
    &&& batch_rows(batch) == column_len(columns[0])
    &&& if job.with_row_id {
        &&& batch_columns(batch).len() == columns.len() + 1
        &&& batch_columns(batch).drop_last() == columns
        &&& field_name(batch_fields(batch).last()) == row_id_name()
        &&& !field_nullable(batch_fields(batch).last())
        &&& uint64_values(batch_columns(batch).last()) == Some(
            batch_row_ids(job.fragment_id, job.batch_offset, column_len(columns[0]) as usize),
        )
        &&& column_nulls(batch_columns(batch).last()) == 0
    } else {
        batch_columns(batch) == columns
    }
}

/// The columns that reading fields gives.
pub open spec fn columns_of(job: Job, replies: Seq<Column>) -> Seq<Column> {
    arrays_walk(job.fields, job.batch_id, job.pages, replies)->Read_0
}

/// Whether reading a batch succeeds with these replies: the columns of all fields are read,
/// and become a record batch.
pub open spec fn succeeds(job: Job, replies: Seq<Column>) -> bool {
    &&& arrays_walk(job.fields, job.batch_id, job.pages, replies) is Read
    &&& assembles(job, columns_of(job, replies))
}

} // verus!
