//! When reading a batch succeeds, in terms of the pages that storage holds.

use crate::arrow::{
    column_fits, column_len, column_valid, columns_fit, columns_valid, field_bare, field_name,
    field_nullable, int32_values, int64_values, ints32, ints64, large_list_item, list_item,
    offsets_cut, struct_fields, Column,
};
use crate::row_id::numberable;
use crate::schema::{arrow_fields, DataType, Field};
use crate::walk::{
    array_sound, array_walk, arrays_sound, arrays_walk, columns_of, field_pages,
    has_dictionary, item_name, large_list_offsets, list_offsets, one_page, succeeds, Job, Pages,
    Walk, Walks,
};
use arrow_schema::Field as ArrowField;
use vstd::prelude::*;

verus! {

/// The number of rows of a column, from the pages of its field.
pub open spec fn rows_in(field: Field, replies: Seq<Column>) -> nat
    decreases field,
{
    match field.data_type {
        DataType::Struct => if field.children@.len() == 0 {
            0
        } else {
            let first = field.children@[0];
            rows_in(first, replies.take(field_pages(first).len() as int))
        },
        DataType::List => (int32_values(replies[0])->0.len() - 1) as nat,
        DataType::LargeList => (int64_values(replies[0])->0.len() - 1) as nat,
        _ => column_len(replies[0]),
    }
}

/// Whether the pages of a field hold valid arrays. A list is valid where it can be made.
pub open spec fn field_valid(field: Field, replies: Seq<Column>) -> bool
    decreases field,
{
    match field.data_type {
        DataType::Struct => fields_valid(field.children@, replies),
        DataType::List | DataType::LargeList => true,
        _ => column_valid(replies[0]),
    }
}

/// Whether the pages of fields hold valid arrays.
pub open spec fn fields_valid(fields: Seq<Field>, replies: Seq<Column>) -> bool
    decreases fields,
{
    if fields.len() == 0 {
        true
    } else {
        let before = replies.len() - field_pages(fields.last()).len();
        &&& fields_valid(fields.drop_last(), replies.take(before))
        &&& field_valid(fields.last(), replies.skip(before))
    }
}

/// Whether a field may be the item field of a list.
pub open spec fn is_item_field(field: ArrowField) -> bool {
    field_name(field) == item_name() && field_nullable(field) && field_bare(field)
}

/// Whether the pages of a field in a batch are listed, hold arrays of the type that the field
/// declares, without nulls where it has none, and hold positions that cut the values of lists.
pub open spec fn field_fits(
    field: Field,
    batch_id: i32,
    pages: Pages,
    replies: Seq<Column>,
) -> bool
    decreases field,
{
    match field.data_type {
        DataType::Struct => {
            let rows = rows_in(field, replies);
            &&& struct_fields(field.arrow) == Some(arrow_fields(field.children@))
            &&& fields_fit(field.children@, batch_id, pages, replies, rows)
        },
        DataType::List => {
            let item = field.children@[0];
            let rest = replies.skip(1);
            &&& field.children@.len() > 0
            &&& replies.len() > 0
            &&& pages.contains_key((field.id, batch_id))
            &&& list_item(field.arrow) == Some(item.arrow)
            &&& is_item_field(item.arrow)
            &&& field_fits(item, batch_id, pages, rest)
            &&& field_valid(item, rest)
            &&& list_offsets(replies[0]) matches Ok(offsets) && offsets_cut(
                ints32(offsets),
                rows_in(item, rest),
            )
        },
        DataType::LargeList => {
            let item = field.children@[0];
            let rest = replies.skip(1);
            &&& field.children@.len() > 0
            &&& replies.len() > 0
            &&& pages.contains_key((field.id, batch_id))
            &&& large_list_item(field.arrow) == Some(item.arrow)
            &&& is_item_field(item.arrow)
            &&& field_fits(item, batch_id, pages, rest)
            &&& field_valid(item, rest)
            &&& large_list_offsets(replies[0]) matches Ok(offsets) && offsets_cut(
                ints64(offsets),
                rows_in(item, rest),
            )
        },
        _ => {
            &&& one_page(field) is Some
            &&& replies.len() == 1
            &&& pages.contains_key((field.id, batch_id))
            &&& field.data_type is Dictionary ==> has_dictionary(field)
            &&& column_fits(field.arrow, replies[0], column_len(replies[0]))
        },
    }
}

/// Whether the pages of fields in a batch fit them, and all give `rows` rows.
pub open spec fn fields_fit(
    fields: Seq<Field>,
    batch_id: i32,
    pages: Pages,
    replies: Seq<Column>,
    rows: nat,
) -> bool
    decreases fields,
{
    if fields.len() == 0 {
        replies.len() == 0
    } else {
        let before = replies.len() - field_pages(fields.last()).len();
        &&& before >= 0
        &&& fields_fit(fields.drop_last(), batch_id, pages, replies.take(before), rows)
        &&& field_fits(fields.last(), batch_id, pages, replies.skip(before))
        &&& rows_in(fields.last(), replies.skip(before)) == rows
    }
}

/// Whether the pages of a batch fit its fields, give one number of rows and, if row ids are asked
/// for, the rows can be numbered.
pub open spec fn batch_fits(job: Job, replies: Seq<Column>) -> bool {
    let first = job.fields[0];
    let rows = rows_in(first, replies.take(field_pages(first).len() as int));
    &&& job.fields.len() > 0
    &&& fields_fit(job.fields, job.batch_id, job.pages, replies, rows)
    &&& job.with_row_id ==> {
        &&& rows <= i32::MAX
        &&& numberable(job.fragment_id, job.batch_offset, rows as usize)
    }
}

/// Where the pages of a field fit it, its column is read, and fits it too.
proof fn lemma_field_fits(
    field: Field,
    batch_id: i32,
    pages: Pages,
    own: Seq<Column>,
    more: Seq<Column>,
)
    requires
        field_fits(field, batch_id, pages, own),
        array_sound(field, batch_id, pages, own + more),
    ensures
        array_walk(field, batch_id, pages, own + more) matches Walk::Read(column, left) && {
            &&& left == more
            &&& column_fits(field.arrow, column, rows_in(field, own))
            &&& column_valid(column) <==> field_valid(field, own)
        },
    decreases field,
{
    let replies = own + more;
    match field.data_type {
        DataType::Struct => {
            let fields = arrow_fields(field.children@);
            let rows = rows_in(field, own);
            lemma_fields_fit(field.children@, batch_id, pages, own, more, rows);
            match arrays_walk(field.children@, batch_id, pages, replies) {
                Walks::Read(columns, _) => {
                    assert forall|i: int| 0 <= i < columns.len() implies #[trigger] column_fits(
                        fields[i],
                        columns[i],
                        column_len(columns[0]),
                    ) by {
                        assert(column_fits(fields[0], columns[0], rows));
                        assert(column_fits(fields[i], columns[i], rows));
                    }
                    assert(columns_fit(fields, columns));
                    if columns.len() > 0 {
                        assert(column_fits(fields[0], columns[0], rows));
                    }
                },
                _ => {},
            }
        },
        DataType::List | DataType::LargeList => {
            let item = field.children@[0];
            let rest = own.skip(1);
            assert(replies[0] == own[0]);
            assert(replies.skip(1) =~= rest + more);
            lemma_field_fits(item, batch_id, pages, rest, more);
        },
        _ => {
            assert(replies[0] == own[0]);
            assert(replies.skip(1) =~= more);
        },
    }
}

/// Where the pages of fields fit them, their columns are read, and fit them too.
proof fn lemma_fields_fit(
    fields: Seq<Field>,
    batch_id: i32,
    pages: Pages,
    own: Seq<Column>,
    more: Seq<Column>,
    rows: nat,
)
    requires
        fields_fit(fields, batch_id, pages, own, rows),
        arrays_sound(fields, batch_id, pages, own + more),
    ensures
        arrays_walk(fields, batch_id, pages, own + more) matches Walks::Read(columns, left) && {
            &&& left == more
            &&& columns.len() == fields.len()
            &&& forall|i: int|
                0 <= i < columns.len() ==> #[trigger] column_fits(
                    arrow_fields(fields)[i],
                    columns[i],
                    rows,
                )
            &&& columns_valid(columns) <==> fields_valid(fields, own)
        },
    decreases fields,
{
    if fields.len() == 0 {
        assert(own + more =~= more);
    } else {
        let before = own.len() - field_pages(fields.last()).len();
        let first = own.take(before);
        let last = own.skip(before);
        let others = fields.drop_last();
        assert(own + more =~= first + (last + more));
        lemma_fields_fit(others, batch_id, pages, first, last + more, rows);
        lemma_field_fits(fields.last(), batch_id, pages, last, more);
        match arrays_walk(others, batch_id, pages, own + more) {
            Walks::Read(read, _) => {
                match array_walk(fields.last(), batch_id, pages, last + more) {
                    Walk::Read(column, _) => {
                        let columns = read.push(column);
                        assert forall|i: int|
                            0 <= i < columns.len() implies #[trigger] column_fits(
                            arrow_fields(fields)[i],
                            columns[i],
                            rows,
                        ) by {
                            if i < read.len() {
                                assert(column_fits(arrow_fields(others)[i], read[i], rows));
                            }
                        }
                        if columns_valid(columns) {
                            assert forall|i: int| 0 <= i < read.len() implies column_valid(
                                #[trigger] read[i],
                            ) by {
                                assert(columns[i] == read[i]);
                            }
                            assert(columns[read.len() as int] == column);
                        }
                    },
                    _ => {},
                }
            },
            _ => {},
        }
    }
}

/// Where the pages of a batch fit its fields, and Arrow makes what it should, reading the batch
/// succeeds.
pub(crate) proof fn lemma_batch_fits(job: Job, replies: Seq<Column>)
    requires
        batch_fits(job, replies),
        arrays_sound(job.fields, job.batch_id, job.pages, replies),
    ensures
        succeeds(job, replies),
{
    let first = job.fields[0];
    let rows = rows_in(first, replies.take(field_pages(first).len() as int));
    let fields = arrow_fields(job.fields);
    assert(replies + Seq::<Column>::empty() =~= replies);
    lemma_fields_fit(job.fields, job.batch_id, job.pages, replies, Seq::empty(), rows);
    let columns = columns_of(job, replies);
    assert(column_fits(fields[0], columns[0], rows));
    assert forall|i: int| 0 <= i < columns.len() implies #[trigger] column_fits(
        fields[i],
        columns[i],
        column_len(columns[0]),
    ) by {
        assert(column_fits(fields[i], columns[i], rows));
    }
}

} // verus!
