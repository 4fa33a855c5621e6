//! Columns are what their pages hold.

use crate::arrow::Column;
use crate::schema::{DataType, Field};
use crate::walk::{
    all_pages, array_sound, array_walk, arrays_sound, arrays_walk, column_made, columns_made,
    field_pages, Fetch, PageKind, Pages, Walk, Walks,
};
use vstd::prelude::*;

verus! {

/// Whether a request is for a listed page, and for the page after those that were read.
pub(crate) open(crate) spec fn in_order(
    fetch: Fetch,
    order: Seq<(Field, PageKind)>,
    replies: Seq<Column>,
    batch_id: i32,
    pages: Pages,
) -> bool {
    &&& replies.len() < order.len()
    &&& order[replies.len() as int] == (fetch.field, fetch.kind)
    &&& pages.contains_key((fetch.field.id, batch_id))
    &&& pages[(fetch.field.id, batch_id)] == fetch.page
}

/// A column uses a reply for each of its pages, in order.
pub(crate) proof fn lemma_field_order(
    field: Field,
    batch_id: i32,
    pages: Pages,
    replies: Seq<Column>,
)
    ensures
        match array_walk(field, batch_id, pages, replies) {
            Walk::Fetch(fetch) => in_order(fetch, field_pages(field), replies, batch_id, pages),
            Walk::Read(_, left) => {
                &&& field_pages(field).len() <= replies.len()
                &&& left == replies.skip(field_pages(field).len() as int)
            },
            _ => true,
        },
    decreases field,
{
    match field.data_type {
        DataType::Struct => {
            lemma_fields_order(field.children@, batch_id, pages, replies);
        },
        DataType::List | DataType::LargeList => {
            if field.children@.len() > 0 && replies.len() > 0 {
                let item = field.children@[0];
                let rest = replies.skip(1);
                lemma_field_order(item, batch_id, pages, rest);
                let own = field_pages(item).len() as int;
                assert(own <= rest.len() ==> rest.skip(own) =~= replies.skip(1 + own));
            }
        },
        _ => {},
    }
}

/// Columns use a reply for each of their pages, in order.
pub(crate) proof fn lemma_fields_order(
    fields: Seq<Field>,
    batch_id: i32,
    pages: Pages,
    replies: Seq<Column>,
)
    ensures
        match arrays_walk(fields, batch_id, pages, replies) {
            Walks::Fetch(fetch) => in_order(fetch, all_pages(fields), replies, batch_id, pages),
            Walks::Read(_, left) => {
                &&& all_pages(fields).len() <= replies.len()
                &&& left == replies.skip(all_pages(fields).len() as int)
            },
            _ => true,
        },
    decreases fields,
{
    if fields.len() == 0 {
        assert(replies.skip(0) =~= replies);
    } else {
        lemma_fields_order(fields.drop_last(), batch_id, pages, replies);
        match arrays_walk(fields.drop_last(), batch_id, pages, replies) {
            Walks::Read(_, rest) => {
                let before = all_pages(fields.drop_last()).len() as int;
                lemma_field_order(fields.last(), batch_id, pages, rest);
                let own = field_pages(fields.last()).len() as int;
                assert(before + own <= replies.len() ==> rest.skip(own) =~= replies.skip(
                    before + own,
                ));
            },
            _ => {},
        }
    }
}

/// Reading fields gives a column for each of them.
pub(crate) proof fn lemma_columns_len(
    fields: Seq<Field>,
    batch_id: i32,
    pages: Pages,
    replies: Seq<Column>,
)
    ensures
        arrays_walk(fields, batch_id, pages, replies) matches Walks::Read(columns, _)
            ==> columns.len() == fields.len(),
    decreases fields.len(),
{
    if fields.len() > 0 {
        lemma_columns_len(fields.drop_last(), batch_id, pages, replies);
    }
}

/// A column is what the pages of its field hold.
proof fn lemma_field_made(field: Field, batch_id: i32, pages: Pages, replies: Seq<Column>)
    requires
        array_sound(field, batch_id, pages, replies),
    ensures
        array_walk(field, batch_id, pages, replies) matches Walk::Read(column, _) ==> column_made(
            field,
            column,
            replies.take(field_pages(field).len() as int),
        ),
    decreases field,
{
    lemma_field_order(field, batch_id, pages, replies);
    let own = replies.take(field_pages(field).len() as int);
    match array_walk(field, batch_id, pages, replies) {
        Walk::Read(column, _) => match field.data_type {
            DataType::Struct => {
                lemma_fields_made(field.children@, batch_id, pages, replies);
            },
            DataType::List | DataType::LargeList => {
                let rest = replies.skip(1);
                let item = field.children@[0];
                lemma_field_made(item, batch_id, pages, rest);
                lemma_field_order(item, batch_id, pages, rest);
                assert(own.skip(1) =~= rest.take(field_pages(item).len() as int));
                assert(own[0] == replies[0]);
            },
            _ => {
                assert(own =~= seq![column]);
            },
        },
        _ => {},
    }
}

/// Columns are what the pages of their fields hold.
pub(crate) proof fn lemma_fields_made(
    fields: Seq<Field>,
    batch_id: i32,
    pages: Pages,
    replies: Seq<Column>,
)
    requires
        arrays_sound(fields, batch_id, pages, replies),
    ensures
        arrays_walk(fields, batch_id, pages, replies) matches Walks::Read(columns, _)
            ==> columns_made(fields, columns, replies.take(all_pages(fields).len() as int)),
    decreases fields,
{
    lemma_fields_order(fields, batch_id, pages, replies);
    if fields.len() > 0 {
        match arrays_walk(fields, batch_id, pages, replies) {
            Walks::Read(columns, _) => {
                let all = replies.take(all_pages(fields).len() as int);
                let before = all_pages(fields.drop_last()).len() as int;
                let rest = replies.skip(before);
                lemma_fields_order(fields.drop_last(), batch_id, pages, replies);
                lemma_fields_made(fields.drop_last(), batch_id, pages, replies);
                lemma_field_made(fields.last(), batch_id, pages, rest);
                let own = field_pages(fields.last()).len() as int;
                assert(all.take(before) =~= replies.take(before));
                assert(all.skip(before) =~= rest.take(own));
                match arrays_walk(fields.drop_last(), batch_id, pages, replies) {
                    Walks::Read(read, left) => {
                        assert(columns.drop_last() =~= read);
                        lemma_columns_len(fields.drop_last(), batch_id, pages, replies);
                    },
                    _ => {},
                }
            },
            _ => {},
        }
    }
}

} // verus!
