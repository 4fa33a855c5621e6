//! What holds of the arrays that Arrow makes, and of pages that fit the fields they belong to.

use crate::arrow::{
    column_len, column_nulls, column_valid, field_bare, field_name, field_nullable, ints32, ints64,
    large_list_item, large_list_parts, list_item, list_parts, offsets_cut, struct_children,
    struct_fields, type_matches, Column,
};
use crate::batch::Progress;
use crate::column_laws::law_columns_fit;
use crate::fits::{field_fits, field_valid, fields_fit, fields_valid, rows_in};
use crate::laws::law_rows_numbered;
use crate::made::lemma_columns_len;
use crate::schema::{arrow_fields, DataType, Field};
use crate::walk::{
    array_sound, array_walk, arrays_sound, arrays_walk, field_pages, large_list_offsets,
    list_offsets, Defect, Job, Pages, Walk, Walks,
};
use arrow_schema::Field as ArrowField;
use vstd::prelude::*;

verus! {

/// Whatever reading a batch comes to, Arrow has made what it should on the way; and it is finished
/// where the pages fit the fields, all give one number of rows, and these, with row ids, start at a
/// row that is not negative and end before the greatest 32 bit number.
pub proof fn law_fitting_batch(progress: Progress, job: Job, replies: Seq<Column>)
    requires
        progress.is_progress(job, replies),
    ensures
        arrays_sound(job.fields, job.batch_id, job.pages, replies),
        ({
            let first = job.fields[0];
            let rows = rows_in(first, replies.take(field_pages(first).len() as int));
            &&& job.fields.len() > 0
            &&& fields_fit(job.fields, job.batch_id, job.pages, replies, rows)
            &&& job.with_row_id ==> job.batch_offset >= 0 && job.batch_offset + rows <= i32::MAX
        }) ==> progress is Finished,
{
    let first = job.fields[0];
    let rows = rows_in(first, replies.take(field_pages(first).len() as int));
    if rows <= i32::MAX {
        law_rows_numbered(job.fragment_id, job.batch_offset, rows as usize);
    }
}

/// What Arrow makes for fields is what it makes for each of them, of the replies that those before
/// it left.
pub proof fn law_sound_in_turn(
    fields: Seq<Field>,
    field: Field,
    batch_id: i32,
    pages: Pages,
    replies: Seq<Column>,
)
    requires
        arrays_sound(fields.push(field), batch_id, pages, replies),
    ensures
        arrays_sound(fields, batch_id, pages, replies),
        arrays_walk(fields, batch_id, pages, replies) matches Walks::Read(_, rest) ==> array_sound(
            field,
            batch_id,
            pages,
            rest,
        ),
{
    assert(fields.push(field).drop_last() =~= fields);
}

/// A struct array that Arrow makes while a column is read has the columns of the children, as many
/// rows as each of them, no nulls of its own, and the struct type of the children, and is valid
/// where they are.
pub proof fn law_struct_sound(
    field: Field,
    batch_id: i32,
    pages: Pages,
    replies: Seq<Column>,
    declared: ArrowField,
)
    requires
        field.data_type == DataType::Struct,
        array_sound(field, batch_id, pages, replies),
    ensures
        arrays_sound(field.children@, batch_id, pages, replies),
        array_walk(field, batch_id, pages, replies) matches Walk::Read(column, _) ==> {
            let columns = struct_children(column);
            &&& arrays_walk(field.children@, batch_id, pages, replies) matches Walks::Read(
                read,
                _,
            ) && read == columns
            &&& columns.len() == field.children@.len()
            &&& forall|i: int|
                0 <= i < columns.len() ==> column_len(#[trigger] columns[i]) == column_len(column)
            &&& columns.len() == 0 ==> column_len(column) == 0
            &&& column_nulls(column) == 0
            &&& column_valid(column) <==> forall|i: int|
                0 <= i < columns.len() ==> column_valid(#[trigger] columns[i])
            &&& struct_fields(declared) == Some(
                field.children@.map_values(|child: Field| child.arrow),
            ) ==> type_matches(declared, column)
            &&& type_matches(declared, column) ==> {
                &&& struct_fields(declared) matches Some(fields)
                &&& fields.len() == columns.len()
            }
        },
{
    match arrays_walk(field.children@, batch_id, pages, replies) {
        Walks::Read(columns, _) => {
            law_columns_fit(field.children@, columns);
            lemma_columns_len(field.children@, batch_id, pages, replies);
            assert(arrow_fields(field.children@) =~= field.children@.map_values(
                |child: Field| child.arrow,
            ));
        },
        _ => {},
    }
}

/// Lists that Arrow makes while a column is read are what the offsets cut out of the values, are
/// valid, and have the type of a list of nullable items named `item`, without metadata, of the type
/// of the values.
pub proof fn law_list_sound(
    field: Field,
    batch_id: i32,
    pages: Pages,
    replies: Seq<Column>,
    declared: ArrowField,
)
    requires
        field.data_type == DataType::List,
        array_sound(field, batch_id, pages, replies),
    ensures
        array_walk(field, batch_id, pages, replies) matches Walk::Read(column, _) ==> {
            let offsets = list_parts(column).0;
            let values = list_parts(column).1;
            &&& array_sound(field.children@[0], batch_id, pages, replies.skip(1))
            &&& list_offsets(replies[0]) == Ok::<_, Defect>(offsets)
            &&& array_walk(field.children@[0], batch_id, pages, replies.skip(1)) matches Walk::Read(
                read,
                _,
            ) && read == values
            &&& column_len(column) == offsets.len() - 1
            &&& column_nulls(column) == 0
            &&& column_valid(column)
            &&& (list_item(declared) matches Some(item) && field_name(item) == "item"@
                && field_nullable(item) && field_bare(item) && type_matches(item, values))
                ==> type_matches(declared, column)
            &&& type_matches(declared, column) ==> list_item(declared) is Some
        },
{
}

/// As [`law_list_sound`], with 64 bit positions.
pub proof fn law_large_list_sound(
    field: Field,
    batch_id: i32,
    pages: Pages,
    replies: Seq<Column>,
    declared: ArrowField,
)
    requires
        field.data_type == DataType::LargeList,
        array_sound(field, batch_id, pages, replies),
    ensures
        array_walk(field, batch_id, pages, replies) matches Walk::Read(column, _) ==> {
            let offsets = large_list_parts(column).0;
            let values = large_list_parts(column).1;
            &&& array_sound(field.children@[0], batch_id, pages, replies.skip(1))
            &&& large_list_offsets(replies[0]) == Ok::<_, Defect>(offsets)
            &&& array_walk(field.children@[0], batch_id, pages, replies.skip(1)) matches Walk::Read(
                read,
                _,
            ) && read == values
            &&& column_len(column) == offsets.len() - 1
            &&& column_nulls(column) == 0
            &&& column_valid(column)
            &&& (large_list_item(declared) matches Some(item) && field_name(item) == "item"@
                && field_nullable(item) && field_bare(item) && type_matches(item, values))
                ==> type_matches(declared, column)
            &&& type_matches(declared, column) ==> large_list_item(declared) is Some
        },
{
}

/// The page of a plain field fits it where it is listed, has the type of the field, has no nulls
/// where the field has none and, where it takes a dictionary, that is loaded.
pub proof fn law_plain_fits(field: Field, batch_id: i32, pages: Pages, column: Column)
    requires
        field.data_type != DataType::Struct,
        field.data_type != DataType::List,
        field.data_type != DataType::LargeList,
        field.data_type != DataType::Other,
    ensures
        rows_in(field, seq![column]) == column_len(column),
        field_valid(field, seq![column]) <==> column_valid(column),
        field_fits(field, batch_id, pages, seq![column]) <==> {
            &&& pages.contains_key((field.id, batch_id))
            &&& field.data_type == DataType::Dictionary ==> {
                &&& field.dictionary matches Some(dictionary)
                &&& dictionary.values is Some
            }
            &&& type_matches(field.arrow, column)
            &&& column_nulls(column) > 0 ==> field_nullable(field.arrow)
        },
{
}

/// The pages of a struct field fit it where those of the children fit them, all of one number of
/// rows, which is that of the first, and where its type is the struct type of the children.
pub proof fn law_struct_fits(field: Field, batch_id: i32, pages: Pages, replies: Seq<Column>)
    requires
        field.data_type == DataType::Struct,
    ensures
        field.children@.len() == 0 ==> rows_in(field, replies) == 0,
        field.children@.len() > 0 ==> rows_in(field, replies) == rows_in(
            field.children@[0],
            replies.take(field_pages(field.children@[0]).len() as int),
        ),
        field_valid(field, replies) <==> fields_valid(field.children@, replies),
        field_fits(field, batch_id, pages, replies) <==> {
            &&& struct_fields(field.arrow) == Some(
                field.children@.map_values(|child: Field| child.arrow),
            )
            &&& fields_fit(field.children@, batch_id, pages, replies, rows_in(field, replies))
        },
{
    assert(arrow_fields(field.children@) =~= field.children@.map_values(
        |child: Field| child.arrow,
    ));
}

/// The pages of a list field fit it where the positions are listed, are integers of their size,
/// and cut the rows of the items, whose pages fit the one child field and are valid; and where the
/// type of the field is that of a list of the child field, which is named `item`, is nullable and
/// has no metadata. There is a row for every two neighbouring positions.
pub proof fn law_list_fits(
    field: Field,
    batch_id: i32,
    pages: Pages,
    replies: Seq<Column>,
    offsets: Seq<i32>,
)
    requires
        field.data_type == DataType::List,
        replies.len() > 0,
        list_offsets(replies[0]) == Ok::<_, Defect>(offsets),
        field.children@.len() > 0,
    ensures
        ({
            let item = field.children@[0];
            let rest = replies.skip(1);
            &&& rows_in(field, replies) == offsets.len() - 1
            &&& field_valid(field, replies)
            &&& field_fits(field, batch_id, pages, replies) <==> {
                &&& pages.contains_key((field.id, batch_id))
                &&& list_item(field.arrow) == Some(item.arrow)
                &&& field_name(item.arrow) == "item"@
                &&& field_nullable(item.arrow)
                &&& field_bare(item.arrow)
                &&& field_fits(item, batch_id, pages, rest)
                &&& field_valid(item, rest)
                &&& forall|i: int|
                    0 <= i < offsets.len() ==> 0 <= #[trigger] offsets[i] <= rows_in(item, rest)
                &&& forall|i: int, j: int|
                    0 <= i <= j < offsets.len() ==> offsets[i] <= offsets[j]
            }
        }),
{
    let rows = rows_in(field.children@[0], replies.skip(1));
    let all = ints32(offsets);
    assert(forall|i: int| 0 <= i < offsets.len() ==> all[i] == #[trigger] offsets[i]);
    if offsets_cut(all, rows) {
        assert forall|i: int| 0 <= i < offsets.len() implies 0 <= #[trigger] offsets[i] <= rows by {
            assert(0 <= all[i] <= rows);
        }
        assert forall|i: int, j: int| 0 <= i <= j < offsets.len() implies offsets[i]
            <= offsets[j] by {
            assert(all[i] <= all[j]);
        }
    }
}

/// As [`law_list_fits`], with 64 bit positions.
pub proof fn law_large_list_fits(
    field: Field,
    batch_id: i32,
    pages: Pages,
    replies: Seq<Column>,
    offsets: Seq<i64>,
)
    requires
        field.data_type == DataType::LargeList,
        replies.len() > 0,
        large_list_offsets(replies[0]) == Ok::<_, Defect>(offsets),
        field.children@.len() > 0,
    ensures
        ({
            let item = field.children@[0];
            let rest = replies.skip(1);
            &&& rows_in(field, replies) == offsets.len() - 1
            &&& field_valid(field, replies)
            &&& field_fits(field, batch_id, pages, replies) <==> {
                &&& pages.contains_key((field.id, batch_id))
                &&& large_list_item(field.arrow) == Some(item.arrow)
                &&& field_name(item.arrow) == "item"@
                &&& field_nullable(item.arrow)
                &&& field_bare(item.arrow)
                &&& field_fits(item, batch_id, pages, rest)
                &&& field_valid(item, rest)
                &&& forall|i: int|
                    0 <= i < offsets.len() ==> 0 <= #[trigger] offsets[i] <= rows_in(item, rest)
                &&& forall|i: int, j: int|
                    0 <= i <= j < offsets.len() ==> offsets[i] <= offsets[j]
            }
        }),
{
    let rows = rows_in(field.children@[0], replies.skip(1));
    let all = ints64(offsets);
    assert(forall|i: int| 0 <= i < offsets.len() ==> all[i] == #[trigger] offsets[i]);
    if offsets_cut(all, rows) {
        assert forall|i: int| 0 <= i < offsets.len() implies 0 <= #[trigger] offsets[i] <= rows by {
            assert(0 <= all[i] <= rows);
        }
        assert forall|i: int, j: int| 0 <= i <= j < offsets.len() implies offsets[i]
            <= offsets[j] by {
            assert(all[i] <= all[j]);
        }
    }
}

/// Pages fit fields where those of each field fit it, one field after the other, and give the rows
/// that are asked for.
pub proof fn law_fits_in_turn(
    fields: Seq<Field>,
    field: Field,
    batch_id: i32,
    pages: Pages,
    replies: Seq<Column>,
    own: Seq<Column>,
    rows: nat,
)
    requires
        own.len() == field_pages(field).len(),
    ensures
        fields_fit(Seq::<Field>::empty(), batch_id, pages, Seq::empty(), rows),
        fields_valid(Seq::<Field>::empty(), Seq::empty()),
        fields_fit(fields.push(field), batch_id, pages, replies + own, rows) <==> {
            &&& fields_fit(fields, batch_id, pages, replies, rows)
            &&& field_fits(field, batch_id, pages, own)
            &&& rows_in(field, own) == rows
        },
        fields_valid(fields.push(field), replies + own) <==> {
            &&& fields_valid(fields, replies)
            &&& field_valid(field, own)
        },
{
    assert(fields.push(field).drop_last() =~= fields);
    assert((replies + own).take(replies.len() as int) =~= replies);
    assert((replies + own).skip(replies.len() as int) =~= own);
}

} // verus!
