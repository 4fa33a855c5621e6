//! What holds of reading as a whole.

use crate::arrow::{
    large_list_parts, less_scalar32, less_scalar64, list_parts, struct_children, Column,
};
use crate::error::{missing_batch_message, missing_page_message, ErrorView};
use crate::format::batch_count;
use crate::made::{lemma_columns_len, lemma_field_order, lemma_fields_order};
use crate::manifest::{manifest_bytes, position_in, within_tail};
use crate::open::{metadata_location, tail_begin, MetadataLocation};
use crate::reader::{stream_item, FileReader, StreamItem};
use crate::row_id::{batch_row_ids, numberable, row_id};
use crate::schema::{DataType, Field};
use crate::walk::{
    all_pages, array_walk, arrays_walk, assemble, assembles, batch_outcome, column_made,
    columns_made, columns_of, field_pages, has_dictionary, one_page, page_walk, succeeds, Defect,
    Fetch, Job, Outcome, Pages, Walk, Walks,
};
use vstd::prelude::*;

verus! {

/// The pages of a batch are read in the order of the schema, depth first, each once: after `n`
/// replies it is the turn of the page `n`, where the page table lists it. So reading a batch
/// never asks for more pages than its fields have.
pub proof fn law_pages_in_order(job: Job, replies: Seq<Column>)
    ensures
        batch_outcome(job, replies) matches Outcome::Fetch(fetch) ==> {
            &&& replies.len() < all_pages(job.fields).len()
            &&& all_pages(job.fields)[replies.len() as int] == (fetch.field, fetch.kind)
            &&& job.pages.contains_key((fetch.field.id, job.batch_id))
            &&& job.pages[(fetch.field.id, job.batch_id)] == fetch.page
        },
{
    lemma_fields_order(job.fields, job.batch_id, job.pages, replies);
}

proof fn lemma_field_pages_used(field: Field, column: Column, replies: Seq<Column>)
    requires
        column_made(field, column, replies),
    ensures
        replies.len() == field_pages(field).len(),
    decreases field,
{
    match field.data_type {
        DataType::Struct => {
            law_every_page_used(field.children@, struct_children(column), replies);
        },
        DataType::List => {
            lemma_field_pages_used(field.children@[0], list_parts(column).1, replies.skip(1));
        },
        DataType::LargeList => {
            lemma_field_pages_used(field.children@[0], large_list_parts(column).1, replies.skip(1));
        },
        _ => {},
    }
}

/// Columns that are what the pages of their fields hold use every page of every field: there is
/// a column for each field and a reply for each page.
pub proof fn law_every_page_used(fields: Seq<Field>, columns: Seq<Column>, replies: Seq<Column>)
    requires
        columns_made(fields, columns, replies),
    ensures
        columns.len() == fields.len(),
        replies.len() == all_pages(fields).len(),
    decreases fields,
{
    if fields.len() > 0 {
        let before = replies.len() - field_pages(fields.last()).len();
        law_every_page_used(fields.drop_last(), columns.drop_last(), replies.take(before));
        lemma_field_pages_used(fields.last(), columns.last(), replies.skip(before));
    }
}

/// Whether the column of every field is one page, which is listed and, where that takes a
/// dictionary, can be decoded.
pub open spec fn plain(job: Job) -> bool {
    forall|i: int|
        #![trigger job.fields[i]]
        0 <= i < job.fields.len() ==> {
            &&& one_page(job.fields[i]) is Some
            &&& job.pages.contains_key((job.fields[i].id, job.batch_id))
            &&& job.fields[i].data_type is Dictionary ==> has_dictionary(job.fields[i])
        }
}

proof fn lemma_plain(job: Job, count: int, replies: Seq<Column>)
    requires
        plain(job),
        0 <= count <= job.fields.len(),
    ensures
        arrays_walk(job.fields.take(count), job.batch_id, job.pages, replies)
            == if replies.len() < count {
            let field = job.fields[replies.len() as int];
            let page = job.pages[(field.id, job.batch_id)];
            Walks::Fetch(Fetch { field, kind: one_page(field)->0, page })
        } else {
            Walks::Read(replies.take(count), replies.skip(count))
        },
    decreases count,
{
    let fields = job.fields.take(count);
    if count == 0 {
        assert(replies.take(0) =~= Seq::<Column>::empty());
        assert(replies.skip(0) =~= replies);
    } else {
        lemma_plain(job, count - 1, replies);
        assert(fields.drop_last() =~= job.fields.take(count - 1));
        let last = job.fields[count - 1];
        let rest = replies.skip(count - 1);
        assert(fields.last() == last);
        assert(array_walk(last, job.batch_id, job.pages, rest) == page_walk(
            last,
            one_page(last)->0,
            job.batch_id,
            job.pages,
            rest,
        ));
        if replies.len() >= count {
            assert(rest[0] == replies[count - 1]);
            assert(rest.skip(1) =~= replies.skip(count));
            assert(replies.take(count - 1).push(replies[count - 1]) =~= replies.take(count));
        }
    }
}

/// Where every column is one page, reading a batch asks for the pages of the fields, one after
/// the other, and then gives back exactly what storage replied: it succeeds if and only if these
/// columns become a record batch.
pub proof fn law_plain_batch(job: Job, replies: Seq<Column>)
    requires
        plain(job),
        replies.len() <= job.fields.len(),
    ensures
        replies.len() < job.fields.len() ==> {
            let field = job.fields[replies.len() as int];
            let page = job.pages[(field.id, job.batch_id)];
            batch_outcome(job, replies) == Outcome::Fetch(
                Fetch { field, kind: one_page(field)->0, page },
            )
        },
        replies.len() == job.fields.len() ==> {
            &&& columns_of(job, replies) == replies
            &&& batch_outcome(job, replies) == assemble(job, replies)
            &&& succeeds(job, replies) <==> assembles(job, replies)
        },
{
    lemma_plain(job, job.fields.len() as int, replies);
    assert(job.fields.take(job.fields.len() as int) =~= job.fields);
    assert(replies.take(replies.len() as int) =~= replies);
}

/// A column that was read, or cannot be, is not changed by further replies.
proof fn lemma_field_settled(
    field: Field,
    batch_id: i32,
    pages: Pages,
    replies: Seq<Column>,
    more: Seq<Column>,
)
    ensures
        match array_walk(field, batch_id, pages, replies) {
            Walk::Fetch(_) => true,
            Walk::Read(column, left) => array_walk(field, batch_id, pages, replies + more)
                == Walk::Read(column, left + more),
            other => array_walk(field, batch_id, pages, replies + more) == other,
        },
    decreases field,
{
    if replies.len() > 0 {
        assert((replies + more).skip(1) =~= replies.skip(1) + more);
        assert((replies + more)[0] == replies[0]);
    }
    match field.data_type {
        DataType::Struct => {
            lemma_fields_settled(field.children@, batch_id, pages, replies, more);
        },
        DataType::List | DataType::LargeList => {
            if field.children@.len() > 0 && replies.len() > 0 {
                lemma_field_settled(field.children@[0], batch_id, pages, replies.skip(1), more);
            }
        },
        _ => {},
    }
}

/// Columns that were read, or cannot be, are not changed by further replies.
proof fn lemma_fields_settled(
    fields: Seq<Field>,
    batch_id: i32,
    pages: Pages,
    replies: Seq<Column>,
    more: Seq<Column>,
)
    ensures
        match arrays_walk(fields, batch_id, pages, replies) {
            Walks::Fetch(_) => true,
            Walks::Read(columns, left) => arrays_walk(fields, batch_id, pages, replies + more)
                == Walks::Read(columns, left + more),
            other => arrays_walk(fields, batch_id, pages, replies + more) == other,
        },
    decreases fields,
{
    if fields.len() > 0 {
        lemma_fields_settled(fields.drop_last(), batch_id, pages, replies, more);
        match arrays_walk(fields.drop_last(), batch_id, pages, replies) {
            Walks::Read(_, rest) => {
                lemma_field_settled(fields.last(), batch_id, pages, rest, more);
            },
            _ => {},
        }
    }
}

/// The replies for the pages of the field `i`, among the replies for the pages of all fields.
pub open spec fn replies_of(fields: Seq<Field>, replies: Seq<Column>, i: int) -> Seq<Column> {
    let start = all_pages(fields.take(i)).len() as int;
    replies.subrange(start, start + field_pages(fields[i]).len())
}

proof fn lemma_column_at(
    fields: Seq<Field>,
    batch_id: i32,
    pages: Pages,
    replies: Seq<Column>,
    i: int,
)
    requires
        arrays_walk(fields, batch_id, pages, replies) is Read,
        0 <= i < fields.len(),
    ensures
        all_pages(fields.take(i)).len() <= replies.len(),
        array_walk(
            fields[i],
            batch_id,
            pages,
            replies.skip(all_pages(fields.take(i)).len() as int),
        ) matches Walk::Read(column, _) && column == arrays_walk(
            fields,
            batch_id,
            pages,
            replies,
        )->Read_0[i],
    decreases fields.len(),
{
    let others = fields.drop_last();
    lemma_columns_len(others, batch_id, pages, replies);
    lemma_fields_order(others, batch_id, pages, replies);
    if i == fields.len() - 1 {
        assert(fields.take(i) =~= others);
    } else {
        lemma_column_at(others, batch_id, pages, replies, i);
        assert(others.take(i) =~= fields.take(i));
    }
}

/// A column of a batch is what reading its field alone gives, from the replies for its own pages.
pub proof fn law_column_alone(job: Job, replies: Seq<Column>, i: int)
    requires
        arrays_walk(job.fields, job.batch_id, job.pages, replies) is Read,
        0 <= i < job.fields.len(),
    ensures
        array_walk(job.fields[i], job.batch_id, job.pages, replies_of(job.fields, replies, i))
            == Walk::Read(columns_of(job, replies)[i], Seq::empty()),
{
    let field = job.fields[i];
    lemma_column_at(job.fields, job.batch_id, job.pages, replies, i);
    let rest = replies.skip(all_pages(job.fields.take(i)).len() as int);
    lemma_field_order(field, job.batch_id, job.pages, rest);
    let count = field_pages(field).len() as int;
    let own = replies_of(job.fields, replies, i);
    let more = rest.skip(count);
    assert(rest =~= own + more);
    lemma_field_order(field, job.batch_id, job.pages, own);
    lemma_field_settled(field, job.batch_id, job.pages, own, more);
    assert(own.skip(count) =~= Seq::<Column>::empty());
}

/// A column depends only on its own field and batch: two projections of a file that share a field
/// give the same column of it, where storage replies the same for its pages.
pub proof fn law_projection(
    job: Job,
    replies: Seq<Column>,
    i: int,
    other: Job,
    other_replies: Seq<Column>,
    j: int,
)
    requires
        arrays_walk(job.fields, job.batch_id, job.pages, replies) is Read,
        arrays_walk(other.fields, other.batch_id, other.pages, other_replies) is Read,
        0 <= i < job.fields.len(),
        0 <= j < other.fields.len(),
        job.fields[i] == other.fields[j],
        job.batch_id == other.batch_id,
        job.pages == other.pages,
        replies_of(job.fields, replies, i) == replies_of(other.fields, other_replies, j),
    ensures
        columns_of(job, replies)[i] == columns_of(other, other_replies)[j],
{
    law_column_alone(job, replies, i);
    law_column_alone(other, other_replies, j);
}

/// What reading a batch came to without asking for a further page stays so, whatever further
/// replies there are.
pub proof fn law_settled(job: Job, replies: Seq<Column>, more: Seq<Column>)
    requires
        !(batch_outcome(job, replies) is Fetch),
    ensures
        batch_outcome(job, replies + more) == batch_outcome(job, replies),
{
    lemma_fields_settled(job.fields, job.batch_id, job.pages, replies, more);
}

/// The fields at the top of a schema and the fields below them.
pub open spec fn fields_below(fields: Seq<Field>) -> Set<Field>
    decreases fields,
{
    if fields.len() == 0 {
        Set::empty()
    } else {
        fields_below(fields.drop_last()).union(with_fields_below(fields.last()))
    }
}

/// A field and the fields below it.
pub open spec fn with_fields_below(field: Field) -> Set<Field>
    decreases field,
{
    fields_below(field.children@).insert(field)
}

/// Whether an error says that the page of one of the fields is not listed, which it is not.
pub open spec fn names_missing_page(
    error: ErrorView,
    fields: Set<Field>,
    batch_id: i32,
    pages: Pages,
) -> bool {
    exists|field: Field|
        {
            &&& #[trigger] fields.contains(field)
            &&& !pages.contains_key((field.id, batch_id))
            &&& error == ErrorView::IO(missing_page_message(field.name@, field.id, batch_id))
        }
}

/// A field is among the fields that it is one of.
proof fn lemma_below(fields: Seq<Field>, i: int)
    requires
        0 <= i < fields.len(),
    ensures
        with_fields_below(fields[i]).subset_of(fields_below(fields)),
    decreases fields.len(),
{
    if i < fields.len() - 1 {
        lemma_below(fields.drop_last(), i);
        assert(fields.drop_last()[i] == fields[i]);
    }
}

/// An error about one set of fields is one about a greater set.
proof fn lemma_names_more(
    error: ErrorView,
    fields: Set<Field>,
    all: Set<Field>,
    batch_id: i32,
    pages: Pages,
)
    requires
        fields.subset_of(all),
        names_missing_page(error, fields, batch_id, pages),
    ensures
        names_missing_page(error, all, batch_id, pages),
{
    let field = choose|field: Field|
        {
            &&& #[trigger] fields.contains(field)
            &&& !pages.contains_key((field.id, batch_id))
            &&& error == ErrorView::IO(missing_page_message(field.name@, field.id, batch_id))
        };
    assert(all.contains(field));
}

/// A column fails for a page that is not listed, or because Arrow refuses it.
proof fn lemma_field_failure(field: Field, batch_id: i32, pages: Pages, replies: Seq<Column>)
    ensures
        array_walk(field, batch_id, pages, replies) matches Walk::Failed(error) ==> error is Arrow
            || names_missing_page(error, with_fields_below(field), batch_id, pages),
    decreases field,
{
    let all = with_fields_below(field);
    assert(all.contains(field));
    match field.data_type {
        DataType::Struct => {
            lemma_fields_failure(field.children@, batch_id, pages, replies);
            if let Walk::Failed(error) = array_walk(field, batch_id, pages, replies) {
                if !(error is Arrow) {
                    lemma_names_more(error, fields_below(field.children@), all, batch_id, pages);
                }
            }
        },
        DataType::List | DataType::LargeList => {
            if field.children@.len() > 0 && replies.len() > 0 {
                let item = field.children@[0];
                let rest = replies.skip(1);
                lemma_field_failure(item, batch_id, pages, rest);
                lemma_below(field.children@, 0);
                if let Walk::Failed(error) = array_walk(item, batch_id, pages, rest) {
                    if !(error is Arrow) {
                        lemma_names_more(error, with_fields_below(item), all, batch_id, pages);
                    }
                }
            }
        },
        _ => {},
    }
}

/// Columns fail for a page that is not listed, or because Arrow refuses one.
proof fn lemma_fields_failure(
    fields: Seq<Field>,
    batch_id: i32,
    pages: Pages,
    replies: Seq<Column>,
)
    ensures
        arrays_walk(fields, batch_id, pages, replies) matches Walks::Failed(error)
            ==> error is Arrow || names_missing_page(error, fields_below(fields), batch_id, pages),
    decreases fields,
{
    if fields.len() > 0 {
        let all = fields_below(fields);
        let before = fields_below(fields.drop_last());
        let last = with_fields_below(fields.last());
        assert(all == before.union(last));
        lemma_fields_failure(fields.drop_last(), batch_id, pages, replies);
        match arrays_walk(fields.drop_last(), batch_id, pages, replies) {
            Walks::Read(_, rest) => {
                lemma_field_failure(fields.last(), batch_id, pages, rest);
                if let Walk::Failed(error) = array_walk(fields.last(), batch_id, pages, rest) {
                    if !(error is Arrow) {
                        lemma_names_more(error, last, all, batch_id, pages);
                    }
                }
            },
            Walks::Failed(error) => {
                if !(error is Arrow) {
                    lemma_names_more(error, before, all, batch_id, pages);
                }
            },
            _ => {},
        }
    }
}

/// Reading a batch fails only for a page of its schema that the page table does not list, which
/// the error names, or because Arrow refuses to build an array or the batch.
pub proof fn law_failures(job: Job, replies: Seq<Column>)
    ensures
        batch_outcome(job, replies) matches Outcome::Failed(error) ==> error is Arrow
            || names_missing_page(error, fields_below(job.fields), job.batch_id, job.pages),
{
    lemma_fields_failure(job.fields, job.batch_id, job.pages, replies);
}

/// Whether the column of a field can be read if its pages hold what they should: every type is
/// supported, every dictionary is at hand, and every list has a child field.
pub open spec fn field_readable(field: Field) -> bool
    decreases field,
{
    match field.data_type {
        DataType::Struct => fields_readable(field.children@),
        DataType::Dictionary => has_dictionary(field),
        DataType::List | DataType::LargeList => {
            field.children@.len() > 0 && field_readable(field.children@[0])
        },
        DataType::Other => false,
        _ => true,
    }
}

/// Whether the columns of fields can be read if their pages hold what they should.
pub open spec fn fields_readable(fields: Seq<Field>) -> bool
    decreases fields,
{
    fields.len() == 0 || fields_readable(fields.drop_last()) && field_readable(fields.last())
}

/// Whether a defect lies in what storage replied.
pub open spec fn is_data_defect(defect: Defect) -> bool {
    defect is NotPositions || defect is NoPositions || defect is ChildMismatch
        || defect is RowIdOverflow
}

proof fn lemma_field_defects(field: Field, batch_id: i32, pages: Pages, replies: Seq<Column>)
    requires
        field_readable(field),
    ensures
        array_walk(field, batch_id, pages, replies) matches Walk::Broken(defect)
            ==> is_data_defect(defect),
    decreases field,
{
    match field.data_type {
        DataType::Struct => {
            lemma_fields_defects(field.children@, batch_id, pages, replies);
        },
        DataType::List | DataType::LargeList => {
            if replies.len() > 0 {
                lemma_field_defects(field.children@[0], batch_id, pages, replies.skip(1));
            }
        },
        _ => {},
    }
}

proof fn lemma_fields_defects(
    fields: Seq<Field>,
    batch_id: i32,
    pages: Pages,
    replies: Seq<Column>,
)
    requires
        fields_readable(fields),
    ensures
        arrays_walk(fields, batch_id, pages, replies) matches Walks::Broken(defect)
            ==> is_data_defect(defect),
    decreases fields,
{
    if fields.len() > 0 {
        lemma_fields_defects(fields.drop_last(), batch_id, pages, replies);
        match arrays_walk(fields.drop_last(), batch_id, pages, replies) {
            Walks::Read(_, rest) => {
                lemma_field_defects(fields.last(), batch_id, pages, rest);
            },
            _ => {},
        }
    }
}

/// Where the columns of a schema can be read, reading a batch breaks off only for what storage
/// replied.
pub proof fn law_readable_schema(job: Job, replies: Seq<Column>)
    requires
        fields_readable(job.fields),
    ensures
        batch_outcome(job, replies) matches Outcome::Broken(defect) ==> is_data_defect(defect),
{
    lemma_fields_defects(job.fields, job.batch_id, job.pages, replies);
}

/// Asking for row ids changes neither which pages are read nor how reading them fails: it
/// matters only once all columns have been read.
pub proof fn law_row_ids_come_last(job: Job, replies: Seq<Column>)
    ensures
        ({
            let plain = Job { with_row_id: false, ..job };
            arrays_walk(job.fields, job.batch_id, job.pages, replies) is Read || batch_outcome(
                job,
                replies,
            ) == batch_outcome(plain, replies)
        }),
        ({
            let plain = Job { with_row_id: false, ..job };
            batch_outcome(job, replies) is Fetch <==> batch_outcome(plain, replies) is Fetch
        }),
{
}

/// A row id tells its fragment and its offset: its upper half is the fragment, its lower half
/// the offset.
pub proof fn law_row_id_parts(fragment_id: u64, offset: i32)
    requires
        offset >= 0,
    ensures
        0 <= row_id(fragment_id, offset) <= u64::MAX,
        row_id(fragment_id, offset) / 0x1_0000_0000 == fragment_id as int % 0x1_0000_0000,
        row_id(fragment_id, offset) % 0x1_0000_0000 == offset,
{
}

/// A row id is the fragment times two to the power of 32, plus the offset, up to a multiple of
/// two to the power of 64.
pub proof fn law_row_id(fragment_id: u64, offset: i32)
    ensures
        0 <= row_id(fragment_id, offset),
        (row_id(fragment_id, offset) - fragment_id * 0x1_0000_0000 - offset)
            % 0x1_0000_0000_0000_0000 == 0,
        row_id(fragment_id, offset) > u64::MAX <==> offset < 0 && fragment_id as int
            % 0x1_0000_0000 != 0,
{
    let low = fragment_id as int % 0x1_0000_0000;
    let high = fragment_id as int / 0x1_0000_0000;
    assert(fragment_id == high * 0x1_0000_0000 + low);
}

/// The rows of a batch can be numbered, in every fragment, from any row on that is not negative,
/// as long as they end before the greatest 32 bit number; and no further, but in a fragment whose
/// id has no lower half, where a negative row counts from the end.
pub proof fn law_rows_numbered(fragment_id: u64, batch_offset: i32, num_rows: usize)
    requires
        num_rows <= i32::MAX,
    ensures
        batch_offset >= 0 && batch_offset + num_rows <= i32::MAX ==> numberable(
            fragment_id,
            batch_offset,
            num_rows,
        ),
        numberable(fragment_id, batch_offset, num_rows) <==> {
            &&& batch_offset + num_rows <= i32::MAX
            &&& batch_offset >= 0 || num_rows == 0 || fragment_id as int % 0x1_0000_0000 == 0
        },
        numberable(fragment_id, batch_offset, num_rows) ==> batch_row_ids(
            fragment_id,
            batch_offset,
            num_rows,
        ).len() == num_rows,
        numberable(fragment_id, batch_offset, num_rows) ==> forall|i: int|
            0 <= i < num_rows ==> {
                let id = (fragment_id % 0x1_0000_0000) * 0x1_0000_0000 + batch_offset + i;
                let given = #[trigger] batch_row_ids(fragment_id, batch_offset, num_rows)[i];
                given == id || given == id + 0x1_0000_0000_0000_0000
            },
{
    assert forall|offset: i32| #![trigger row_id(fragment_id, offset)]
        row_id(fragment_id, offset) <= u64::MAX <==> offset >= 0 || fragment_id as int
            % 0x1_0000_0000 == 0 by {
        law_row_id(fragment_id, offset);
    }
    if num_rows > 0 && batch_offset < 0 && fragment_id as int % 0x1_0000_0000 != 0 {
        assert(row_id(fragment_id, batch_offset) > u64::MAX);
    }
    if numberable(fragment_id, batch_offset, num_rows) {
        assert forall|i: int| 0 <= i < num_rows implies {
            let id = (fragment_id % 0x1_0000_0000) * 0x1_0000_0000 + batch_offset + i;
            let given = #[trigger] batch_row_ids(fragment_id, batch_offset, num_rows)[i];
            given == id || given == id + 0x1_0000_0000_0000_0000
        } by {
            assert(row_id(fragment_id, (batch_offset + i) as i32) <= u64::MAX);
        }
    }
}

/// More rows than a 32 bit number can count count as what their number is up to a multiple of two
/// to the power of 32, `wrapped`: there are as many ids as that says, none where it is negative.
pub proof fn law_rows_wrap(fragment_id: u64, batch_offset: i32, num_rows: usize, wrapped: i32)
    requires
        (num_rows - wrapped) % 0x1_0000_0000 == 0,
    ensures
        numberable(fragment_id, batch_offset, num_rows) <==> {
            &&& i32::MIN <= batch_offset + wrapped <= i32::MAX
            &&& batch_offset >= 0 || wrapped <= 0 || fragment_id as int % 0x1_0000_0000 == 0
        },
        batch_row_ids(fragment_id, batch_offset, num_rows).len() == if wrapped < 0 {
            0
        } else {
            wrapped as int
        },
{
    let n: u64 = num_rows as u64;
    assert(num_rows as i32 == n as i32);
    assert((n as i32) as i64 == if (n % 0x1_0000_0000u64) < 0x8000_0000u64 {
        (n % 0x1_0000_0000u64) as i64
    } else {
        ((n % 0x1_0000_0000u64) - 0x1_0000_0000u64) as i64
    }) by (bit_vector);
    assert(num_rows as i32 == wrapped);
    assert forall|offset: i32| #![trigger row_id(fragment_id, offset)]
        row_id(fragment_id, offset) <= u64::MAX <==> offset >= 0 || fragment_id as int
            % 0x1_0000_0000 == 0 by {
        law_row_id(fragment_id, offset);
    }
    if wrapped > 0 && batch_offset < 0 && fragment_id as int % 0x1_0000_0000 != 0 {
        assert(row_id(fragment_id, batch_offset) > u64::MAX);
    }
}

/// No two rows of a dataset share a row id.
pub proof fn law_row_ids_distinct(
    fragment: u64,
    offset: i32,
    other_fragment: u64,
    other_offset: i32,
)
    requires
        fragment < 0x1_0000_0000,
        other_fragment < 0x1_0000_0000,
        offset >= 0,
        other_offset >= 0,
        row_id(fragment, offset) == row_id(other_fragment, other_offset),
    ensures
        fragment == other_fragment,
        offset == other_offset,
{
    law_row_id_parts(fragment, offset);
    law_row_id_parts(other_fragment, other_offset);
}

/// The row ids of a batch are consecutive numbers.
pub proof fn law_row_ids_consecutive(fragment_id: u64, batch_offset: i32, num_rows: usize, i: int)
    requires
        batch_offset >= 0,
        batch_offset + num_rows <= i32::MAX,
        0 <= i < num_rows,
    ensures
        batch_row_ids(fragment_id, batch_offset, num_rows).len() == num_rows,
        batch_row_ids(fragment_id, batch_offset, num_rows)[i] == row_id(fragment_id, batch_offset)
            + i,
{
    law_row_id_parts(fragment_id, batch_offset);
    law_row_id_parts(fragment_id, (batch_offset + i) as i32);
}

/// Where a batch starts at the row at which the one before it ends, its row ids go on where
/// those of the one before it stop.
pub proof fn law_row_ids_go_on(
    fragment_id: u64,
    batch_offset: i32,
    num_rows: usize,
    next_rows: usize,
)
    requires
        batch_offset >= 0,
        batch_offset + num_rows + next_rows <= i32::MAX,
    ensures
        batch_row_ids(fragment_id, batch_offset, num_rows) + batch_row_ids(
            fragment_id,
            (batch_offset + num_rows) as i32,
            next_rows,
        ) == batch_row_ids(fragment_id, batch_offset, (num_rows + next_rows) as usize),
{
    assert(batch_row_ids(fragment_id, batch_offset, num_rows) + batch_row_ids(
        fragment_id,
        (batch_offset + num_rows) as i32,
        next_rows,
    ) =~= batch_row_ids(fragment_id, batch_offset, (num_rows + next_rows) as usize));
}

/// The row ids of the first `count` batches between the offsets, one batch after the other.
pub open spec fn stream_row_ids(fragment_id: u64, offsets: Seq<i32>, count: int) -> Seq<u64>
    decreases count,
{
    if count <= 0 {
        Seq::empty()
    } else {
        let rows = (offsets[count] - offsets[count - 1]) as usize;
        stream_row_ids(fragment_id, offsets, count - 1) + batch_row_ids(
            fragment_id,
            offsets[count - 1],
            rows,
        )
    }
}

/// Where every batch starts at the row at which the one before it ends, the row ids of the
/// batches of a stream, one after the other, are consecutive numbers: those of one batch of all
/// the rows.
pub proof fn law_stream_row_ids(fragment_id: u64, offsets: Seq<i32>, count: int)
    requires
        0 <= count <= batch_count(offsets),
        offsets.len() > 0,
        offsets[0] >= 0,
        forall|i: int, j: int| 0 <= i <= j < offsets.len() ==> offsets[i] <= offsets[j],
    ensures
        stream_row_ids(fragment_id, offsets, count) == batch_row_ids(
            fragment_id,
            offsets[0],
            (offsets[count] - offsets[0]) as usize,
        ),
        stream_row_ids(fragment_id, offsets, count).len() == offsets[count] - offsets[0],
        forall|i: int|
            #![trigger stream_row_ids(fragment_id, offsets, count)[i]]
            0 <= i < offsets[count] - offsets[0] ==> stream_row_ids(fragment_id, offsets, count)[i]
                == row_id(fragment_id, offsets[0]) + i,
    decreases count,
{
    let total = (offsets[count] - offsets[0]) as usize;
    if count == 0 {
        assert(stream_row_ids(fragment_id, offsets, count) =~= batch_row_ids(
            fragment_id,
            offsets[0],
            total,
        ));
    } else {
        law_stream_row_ids(fragment_id, offsets, count - 1);
        assert(offsets[0] <= offsets[count - 1] <= offsets[count]);
        law_row_ids_go_on(
            fragment_id,
            offsets[0],
            (offsets[count - 1] - offsets[0]) as usize,
            (offsets[count] - offsets[count - 1]) as usize,
        );
    }
    assert forall|i: int|
        #![trigger stream_row_ids(fragment_id, offsets, count)[i]]
        0 <= i < offsets[count] - offsets[0] implies stream_row_ids(fragment_id, offsets, count)[i]
        == row_id(fragment_id, offsets[0]) + i by {
        law_row_ids_consecutive(fragment_id, offsets[0], total, i);
    }
}

/// The offsets of lists start at zero, and each list keeps its length, where the positions do
/// not decrease and lie within the range of their type.
pub proof fn law_list_offsets(positions: Seq<i32>, i: int, j: int)
    requires
        0 <= i <= j < positions.len(),
        forall|a: int, b: int| 0 <= a <= b < positions.len() ==> positions[a] <= positions[b],
        positions.last() - positions[0] <= i32::MAX,
    ensures
        less_scalar32(positions, positions[0]).len() == positions.len(),
        less_scalar32(positions, positions[0])[0] == 0,
        less_scalar32(positions, positions[0])[j] - less_scalar32(positions, positions[0])[i]
            == positions[j] - positions[i],
{
}

/// As [`law_list_offsets`], with 64 bit positions.
pub proof fn law_large_list_offsets(positions: Seq<i64>, i: int, j: int)
    requires
        0 <= i <= j < positions.len(),
        forall|a: int, b: int| 0 <= a <= b < positions.len() ==> positions[a] <= positions[b],
        positions.last() - positions[0] <= i64::MAX,
    ensures
        less_scalar64(positions, positions[0]).len() == positions.len(),
        less_scalar64(positions, positions[0])[0] == 0,
        less_scalar64(positions, positions[0])[j] - less_scalar64(positions, positions[0])[i]
            == positions[j] - positions[i],
{
}

/// A stream gives every batch of the file, in order, and ends after the last one.
pub proof fn law_stream(offsets: Seq<i32>, batch_id: i32)
    requires
        offsets.len() > 0,
        batch_count(offsets) <= i32::MAX,
        0 <= batch_id <= batch_count(offsets),
    ensures
        stream_item(offsets, batch_id) == if batch_id < batch_count(offsets) {
            StreamItem::Batch(offsets[batch_id as int])
        } else {
            StreamItem::End
        },
{
}

/// A file without batch offsets has no batches, and every item of its stream is an error.
pub proof fn law_stream_without_offsets(offsets: Seq<i32>, batch_id: i32)
    requires
        offsets.len() == 0,
    ensures
        batch_count(offsets) == 0,
        stream_item(offsets, batch_id) == StreamItem::Missing,
{
}

/// A batch for which the file has no offset is refused, whatever storage would reply. The id
/// after the last batch has an offset: the row at which that batch ends.
pub proof fn law_missing_batch(reader: FileReader, batch_id: i32, replies: Seq<Column>)
    requires
        batch_id < 0 || batch_id >= reader.metadata().batch_offsets@.len(),
    ensures
        reader.outcome(batch_id, replies) == Outcome::Failed(
            ErrorView::IO(missing_batch_message(batch_id)),
        ),
{
}

/// Where the tail of a file was read as asked, the metadata is where it is looked for: it is
/// decoded from the tail exactly where the tail has its first byte, and what is decoded is then
/// what the file holds from the metadata position on.
pub proof fn law_metadata_found(file: Seq<u8>, prefetch_size: usize, metadata_pos: usize)
    requires
        file.len() <= usize::MAX,
        metadata_pos <= file.len(),
    ensures
        ({
            let file_size = file.len() as usize;
            let begin = tail_begin(file_size, prefetch_size);
            let tail = file.skip(begin);
            match metadata_location(file_size, tail.len() as usize, metadata_pos) {
                MetadataLocation::Unread(position) => position == metadata_pos && position < begin,
                MetadataLocation::InTail(offset) => {
                    &&& begin <= metadata_pos
                    &&& offset <= tail.len()
                    &&& tail.skip(offset as int) == file.skip(metadata_pos as int)
                },
            }
        }),
        file.len() - tail_begin(file.len() as usize, prefetch_size) <= prefetch_size,
        file.len() - tail_begin(file.len() as usize, prefetch_size) == if file.len()
            < prefetch_size {
            file.len() as int
        } else {
            prefetch_size as int
        },
{
    let file_size = file.len() as usize;
    let begin = tail_begin(file_size, prefetch_size);
    let tail = file.skip(begin);
    if metadata_pos >= begin {
        let offset = metadata_pos - begin;
        assert(tail.skip(offset) =~= file.skip(metadata_pos as int));
    }
}

/// The encoded manifest is what the file holds between the length of the manifest, at its
/// position, and the last sixteen bytes, however much of the end of the file was read.
pub proof fn law_manifest_found(file: Seq<u8>, tail_len: int)
    requires
        file.len() <= usize::MAX,
        16 <= tail_len <= file.len(),
        within_tail(
            file.len() as usize,
            tail_len as nat,
            position_in(file.skip(file.len() - tail_len)),
        ),
    ensures
        position_in(file.skip(file.len() - tail_len)) == position_in(file),
        manifest_bytes(file.len() as usize, file.skip(file.len() - tail_len)) == file.subrange(
            position_in(file) + 4,
            file.len() - 16,
        ),
{
    let tail = file.skip(file.len() - tail_len);
    assert(tail.subrange(tail.len() - 16, tail.len() - 8) =~= file.subrange(
        file.len() - 16,
        file.len() - 8,
    ));
    assert(manifest_bytes(file.len() as usize, tail) =~= file.subrange(
        position_in(file) + 4,
        file.len() - 16,
    ));
}

} // verus!
