//! What holds of reading columns, and of making record batches of them.
//!
//! The laws here say what becomes of a field of each type, in terms of its pages, its children
//! and the replies of storage.

use crate::arrow::{
    batch_columns, batch_fields, batch_rows, column_fits, column_len, column_nulls, column_valid,
    columns_fit, field_name, field_nullable, int32_values, int64_values, ints32, ints64,
    item_field, large_list_column, large_list_parts, less_scalar32, less_scalar64, list_column,
    list_parts, makes_batch, makes_list, struct_children, struct_column, type_matches,
    uint64_values, Column,
};
use crate::batch::{BatchJob, Progress};
use crate::error::{missing_page_message, ErrorView};
use crate::format::PageInfo;
use crate::laws::law_rows_numbered;
use crate::made::lemma_columns_len;
use crate::row_id::{batch_row_ids, row_id};
use crate::schema::{arrow_fields, DataType, Field};
use crate::walk::{
    all_pages, array_walk, arrays_walk, assemble, assembles, batch_outcome, column_made,
    columns_made, columns_of, field_pages, large_list_offsets, list_offsets, one_page,
    page_of, succeeds, Defect, Fetch, Job, Outcome, PageKind, Pages, Walk, Walks,
};
use vstd::prelude::*;

verus! {

/// Whether pages of this kind hold columns, or the positions of columns, of this type.
pub open spec fn kind_suits(kind: PageKind, data_type: DataType) -> bool {
    &&& kind is FixedStride <==> data_type is FixedStride
    &&& kind is Binary <==> (data_type is Utf8 || data_type is LargeUtf8 || data_type is Binary
        || data_type is LargeBinary)
    &&& kind is Dictionary <==> data_type is Dictionary
    &&& kind is ListPositions <==> data_type is List
    &&& kind is LargeListPositions <==> data_type is LargeList
}

/// Each kind of page suits the types that are decoded in its way, and no others.
pub proof fn law_kinds(kind: PageKind, data_type: DataType)
    ensures
        kind_suits(PageKind::FixedStride, data_type) <==> data_type == DataType::FixedStride,
        kind_suits(PageKind::Binary, data_type) <==> {
            ||| data_type == DataType::Utf8
            ||| data_type == DataType::LargeUtf8
            ||| data_type == DataType::Binary
            ||| data_type == DataType::LargeBinary
        },
        kind_suits(PageKind::Dictionary, data_type) <==> data_type == DataType::Dictionary,
        kind_suits(PageKind::ListPositions, data_type) <==> data_type == DataType::List,
        kind_suits(PageKind::LargeListPositions, data_type) <==> data_type == DataType::LargeList,
        kind_suits(kind, data_type) ==> data_type != DataType::Struct && data_type
            != DataType::Other,
{
}

proof fn lemma_field_request(field: Field, batch_id: i32, pages: Pages, replies: Seq<Column>)
    ensures
        array_walk(field, batch_id, pages, replies) matches Walk::Fetch(fetch) ==> {
            &&& kind_suits(fetch.kind, fetch.field.data_type)
            &&& pages.contains_key((fetch.field.id, batch_id))
            &&& pages[(fetch.field.id, batch_id)] == fetch.page
        },
    decreases field,
{
    match field.data_type {
        DataType::Struct => {
            lemma_fields_request(field.children@, batch_id, pages, replies);
        },
        DataType::List | DataType::LargeList => {
            if field.children@.len() > 0 && replies.len() > 0 {
                lemma_field_request(field.children@[0], batch_id, pages, replies.skip(1));
            }
        },
        _ => {},
    }
}

proof fn lemma_fields_request(
    fields: Seq<Field>,
    batch_id: i32,
    pages: Pages,
    replies: Seq<Column>,
)
    ensures
        arrays_walk(fields, batch_id, pages, replies) matches Walks::Fetch(fetch) ==> {
            &&& kind_suits(fetch.kind, fetch.field.data_type)
            &&& pages.contains_key((fetch.field.id, batch_id))
            &&& pages[(fetch.field.id, batch_id)] == fetch.page
        },
    decreases fields,
{
    if fields.len() > 0 {
        lemma_fields_request(fields.drop_last(), batch_id, pages, replies);
        match arrays_walk(fields.drop_last(), batch_id, pages, replies) {
            Walks::Read(_, rest) => {
                lemma_field_request(fields.last(), batch_id, pages, rest);
            },
            _ => {},
        }
    }
}

/// Every page is asked for as the type of its field demands: strings and byte strings as such,
/// values of one size as such, keys of a dictionary as such, and the positions of lists in the
/// size of their type. It is asked for where the page table lists it.
pub proof fn law_requests(job: Job, replies: Seq<Column>)
    ensures
        batch_outcome(job, replies) matches Outcome::Fetch(fetch) ==> {
            &&& (fetch.kind == PageKind::FixedStride <==> fetch.field.data_type
                == DataType::FixedStride)
            &&& (fetch.kind == PageKind::Binary <==> {
                ||| fetch.field.data_type == DataType::Utf8
                ||| fetch.field.data_type == DataType::LargeUtf8
                ||| fetch.field.data_type == DataType::Binary
                ||| fetch.field.data_type == DataType::LargeBinary
            })
            &&& (fetch.kind == PageKind::Dictionary <==> fetch.field.data_type
                == DataType::Dictionary)
            &&& (fetch.kind == PageKind::ListPositions <==> fetch.field.data_type
                == DataType::List)
            &&& (fetch.kind == PageKind::LargeListPositions <==> fetch.field.data_type
                == DataType::LargeList)
            &&& job.pages.contains_key((fetch.field.id, job.batch_id))
            &&& job.pages[(fetch.field.id, job.batch_id)] == fetch.page
        },
{
    lemma_fields_request(job.fields, job.batch_id, job.pages, replies);
}

/// What a caller is told is what reading comes to; and what a caller is asked to read is a listed
/// page, to be decoded as the type of its field demands.
pub proof fn law_progress(progress: Progress, job: Job, replies: Seq<Column>)
    requires
        progress.is_progress(job, replies),
    ensures
        progress is Finished <==> batch_outcome(job, replies) is Finished,
        progress matches Progress::Finished(batch) ==> batch_outcome(job, replies)
            == Outcome::Finished(batch),
        progress matches Progress::Failed(error) ==> batch_outcome(job, replies)
            == Outcome::Failed(error@),
        progress matches Progress::Broken(defect) ==> batch_outcome(job, replies)
            == Outcome::Broken(defect),
        progress matches Progress::Fetch(request, read) ==> {
            &&& batch_outcome(job, replies) == Outcome::Fetch(
                (Fetch { field: *request.field, kind: request.kind, page: request.page }),
            )
            &&& kind_suits(request.kind, request.field.data_type)
            &&& job.pages.contains_key((request.field.id, job.batch_id))
            &&& job.pages[(request.field.id, job.batch_id)] == request.page
            &&& read.job() == job
            &&& read.replies() == replies
        },
{
    lemma_fields_request(job.fields, job.batch_id, job.pages, replies);
}

/// What a job of reading stands for is what it holds.
pub proof fn law_job(job: BatchJob)
    ensures
        job@.fields == job.fields@,
        job@.batch_id == job.batch_id,
        job@.pages == job.page_table@,
        job@.fragment_id == job.fragment_id,
        job@.batch_offset == job.batch_offset,
        job@.with_row_id == job.with_row_id,
{
}

/// A page is found where it is listed for its field and batch, and is missing otherwise.
pub proof fn law_page_of(field: Field, batch_id: i32, pages: Pages)
    ensures
        pages.contains_key((field.id, batch_id)) ==> page_of(field, batch_id, pages) == Ok::<
            _,
            ErrorView,
        >(pages[(field.id, batch_id)]),
        !pages.contains_key((field.id, batch_id)) ==> page_of(field, batch_id, pages) == Err::<
            PageInfo,
            _,
        >(ErrorView::IO(missing_page_message(field.name@, field.id, batch_id))),
{
}

/// The column of a plain field is one page: without a reply the page is asked for, and otherwise
/// the first reply is the column. A page that is not listed fails, and one that needs a
/// dictionary breaks off without it.
pub proof fn law_plain_field(field: Field, batch_id: i32, pages: Pages, replies: Seq<Column>)
    requires
        field.data_type != DataType::Struct,
        field.data_type != DataType::List,
        field.data_type != DataType::LargeList,
        field.data_type != DataType::Other,
    ensures
        ({
            let walk = array_walk(field, batch_id, pages, replies);
            let listed = pages.contains_key((field.id, batch_id));
            let ready = field.data_type == DataType::Dictionary ==> {
                &&& field.dictionary matches Some(dictionary)
                &&& dictionary.values is Some
            };
            &&& walk is Failed <==> !listed
            &&& walk matches Walk::Failed(error) ==> error == ErrorView::IO(
                missing_page_message(field.name@, field.id, batch_id),
            )
            &&& walk is Broken <==> listed && !ready
            &&& walk matches Walk::Broken(defect) ==> defect == Defect::NoDictionary
            &&& walk is Fetch <==> listed && ready && replies.len() == 0
            &&& walk matches Walk::Fetch(fetch) ==> {
                &&& fetch.field == field
                &&& fetch.page == pages[(field.id, batch_id)]
                &&& kind_suits(fetch.kind, field.data_type)
            }
            &&& walk matches Walk::Read(column, left) ==> replies == seq![column] + left
        }),
        one_page(field) matches Some(kind) && kind_suits(kind, field.data_type),
{
    if replies.len() > 0 {
        assert(seq![replies[0]] + replies.skip(1) =~= replies);
    }
}

/// Only plain fields take one page.
pub proof fn law_one_page(field: Field)
    ensures
        one_page(field) is None <==> {
            ||| field.data_type == DataType::Struct
            ||| field.data_type == DataType::List
            ||| field.data_type == DataType::LargeList
            ||| field.data_type == DataType::Other
        },
{
}

/// A field of a type that is not supported breaks off, and names the field.
pub proof fn law_unsupported_field(field: Field, batch_id: i32, pages: Pages, replies: Seq<Column>)
    requires
        field.data_type == DataType::Other,
    ensures
        array_walk(field, batch_id, pages, replies) == Walk::Broken(
            Defect::UnsupportedType(field.id),
        ),
{
}

/// A struct column is read once the columns of all its children are, of the same replies, and
/// where these are as many as the children, all of one length, of the types of the children, and
/// without nulls where a child has none. It stops for what its children stop for.
pub proof fn law_struct_field(field: Field, batch_id: i32, pages: Pages, replies: Seq<Column>)
    requires
        field.data_type == DataType::Struct,
    ensures
        ({
            let children = field.children@;
            let walk = array_walk(field, batch_id, pages, replies);
            match arrays_walk(children, batch_id, pages, replies) {
                Walks::Read(columns, left) => {
                    let fits = forall|i: int|
                        0 <= i < children.len() ==> {
                            &&& column_len(#[trigger] columns[i]) == column_len(columns[0])
                            &&& type_matches(children[i].arrow, columns[i])
                            &&& column_nulls(columns[i]) > 0 ==> field_nullable(children[i].arrow)
                        };
                    &&& columns.len() == children.len()
                    &&& fits ==> walk == Walk::Read(
                        struct_column(children.map_values(|child: Field| child.arrow), columns),
                        left,
                    )
                    &&& !fits ==> walk == Walk::Broken(Defect::ChildMismatch)
                },
                Walks::Fetch(fetch) => walk == Walk::Fetch(fetch),
                Walks::Failed(error) => walk == Walk::Failed(error),
                Walks::Broken(defect) => walk == Walk::Broken(defect),
            }
        }),
{
    let children = field.children@;
    lemma_columns_len(children, batch_id, pages, replies);
    match arrays_walk(children, batch_id, pages, replies) {
        Walks::Read(columns, _) => {
            law_columns_fit(children, columns);
            assert(arrow_fields(children) =~= children.map_values(|child: Field| child.arrow));
        },
        _ => {},
    }
}

/// Columns fit fields where there is one for each, all are of one length, each is of the type of
/// its field, and none holds nulls that its field does not allow. They make a record batch where,
/// besides, there is a column.
pub proof fn law_columns_fit(fields: Seq<Field>, columns: Seq<Column>)
    ensures
        arrow_fields(fields).len() == fields.len(),
        forall|i: int|
            0 <= i < fields.len() ==> #[trigger] arrow_fields(fields)[i] == fields[i].arrow,
        columns_fit(arrow_fields(fields), columns) <==> {
            &&& columns.len() == fields.len()
            &&& forall|i: int|
                0 <= i < fields.len() ==> {
                    &&& column_len(#[trigger] columns[i]) == column_len(columns[0])
                    &&& type_matches(fields[i].arrow, columns[i])
                    &&& column_nulls(columns[i]) > 0 ==> field_nullable(fields[i].arrow)
                }
        },
        makes_batch(arrow_fields(fields), columns) <==> columns.len() > 0 && columns_fit(
            arrow_fields(fields),
            columns,
        ),
{
    let arrow = arrow_fields(fields);
    if columns_fit(arrow, columns) {
        assert forall|i: int| 0 <= i < fields.len() implies {
            &&& column_len(#[trigger] columns[i]) == column_len(columns[0])
            &&& type_matches(fields[i].arrow, columns[i])
            &&& column_nulls(columns[i]) > 0 ==> field_nullable(fields[i].arrow)
        } by {
            assert(column_fits(arrow[i], columns[i], column_len(columns[0])));
        }
    }
}

/// Subtracting wraps around: every difference is right up to a multiple of the range of the type.
pub proof fn law_less_scalar(values: Seq<i32>, scalar: i32, large: Seq<i64>, large_scalar: i64)
    ensures
        less_scalar32(values, scalar).len() == values.len(),
        forall|i: int|
            0 <= i < values.len() ==> {
                let difference = values[i] - scalar;
                let result = #[trigger] less_scalar32(values, scalar)[i];
                result == difference || result == difference - 0x1_0000_0000 || result == difference
                    + 0x1_0000_0000
            },
        less_scalar64(large, large_scalar).len() == large.len(),
        forall|i: int|
            0 <= i < large.len() ==> {
                let difference = large[i] - large_scalar;
                let result = #[trigger] less_scalar64(large, large_scalar)[i];
                result == difference || result == difference - 0x1_0000_0000_0000_0000 || result
                    == difference + 0x1_0000_0000_0000_0000
            },
{
}

/// The offsets of lists are the positions less the first of them, up to a multiple of the range
/// of the type. A page that does not hold positions, or holds none, gives no offsets.
pub proof fn law_positions(positions: Column)
    ensures
        int32_values(positions) is None ==> list_offsets(positions) == Err::<Seq<i32>, _>(
            Defect::NotPositions,
        ),
        int32_values(positions) matches Some(values) ==> {
            &&& values.len() == 0 ==> list_offsets(positions) == Err::<Seq<i32>, _>(
                Defect::NoPositions,
            )
            &&& values.len() > 0 ==> {
                &&& list_offsets(positions) matches Ok(offsets)
                &&& offsets.len() == values.len()
                &&& forall|i: int|
                    0 <= i < values.len() ==> {
                        let difference = values[i] - values[0];
                        #[trigger] offsets[i] == difference || offsets[i] == difference
                            - 0x1_0000_0000 || offsets[i] == difference + 0x1_0000_0000
                    }
            }
        },
{
}

/// As [`law_positions`], with 64 bit positions.
pub proof fn law_large_positions(positions: Column)
    ensures
        int64_values(positions) is None ==> large_list_offsets(positions) == Err::<Seq<i64>, _>(
            Defect::NotPositions,
        ),
        int64_values(positions) matches Some(values) ==> {
            &&& values.len() == 0 ==> large_list_offsets(positions) == Err::<Seq<i64>, _>(
                Defect::NoPositions,
            )
            &&& values.len() > 0 ==> {
                &&& large_list_offsets(positions) matches Ok(offsets)
                &&& offsets.len() == values.len()
                &&& forall|i: int|
                    0 <= i < values.len() ==> {
                        let difference = values[i] - values[0];
                        #[trigger] offsets[i] == difference || offsets[i] == difference
                            - 0x1_0000_0000_0000_0000 || offsets[i] == difference
                            + 0x1_0000_0000_0000_0000
                    }
            }
        },
{
}

/// Offsets and values make lists where the values are valid, and the offsets lie within the
/// values and do not decrease.
pub proof fn law_makes_list(offsets: Seq<i32>, large_offsets: Seq<i64>, values: Column)
    ensures
        makes_list(ints32(offsets), values) <==> {
            &&& column_valid(values)
            &&& forall|i: int| 0 <= i < offsets.len() ==> 0 <= #[trigger] offsets[i] <= column_len(
                values,
            )
            &&& forall|i: int, j: int| 0 <= i <= j < offsets.len() ==> offsets[i] <= offsets[j]
        },
        makes_list(ints64(large_offsets), values) <==> {
            &&& column_valid(values)
            &&& forall|i: int|
                0 <= i < large_offsets.len() ==> 0 <= #[trigger] large_offsets[i] <= column_len(
                    values,
                )
            &&& forall|i: int, j: int|
                0 <= i <= j < large_offsets.len() ==> large_offsets[i] <= large_offsets[j]
        },
{
    let small = ints32(offsets);
    let large = ints64(large_offsets);
    assert(forall|i: int| 0 <= i < offsets.len() ==> small[i] == #[trigger] offsets[i]);
    assert(forall|i: int| 0 <= i < large_offsets.len() ==> large[i] == #[trigger] large_offsets[i]);
    if makes_list(small, values) {
        assert forall|i: int| 0 <= i < offsets.len() implies 0 <= #[trigger] offsets[i]
            <= column_len(values) by {
            assert(0 <= small[i] <= column_len(values));
        }
        assert forall|i: int, j: int| 0 <= i <= j < offsets.len() implies offsets[i]
            <= offsets[j] by {
            assert(small[i] <= small[j]);
        }
    }
    if makes_list(large, values) {
        assert forall|i: int| 0 <= i < large_offsets.len() implies 0 <= #[trigger] large_offsets[i]
            <= column_len(values) by {
            assert(0 <= large[i] <= column_len(values));
        }
        assert forall|i: int, j: int| 0 <= i <= j < large_offsets.len() implies large_offsets[i]
            <= large_offsets[j] by {
            assert(large[i] <= large[j]);
        }
    }
}

/// A list column takes a page of positions and then the column of its one child field, of the
/// replies that follow. The positions less the first of them cut the values into lists; where they
/// do not, or the values are not valid, Arrow refuses them. It stops for what its child stops for.
/// `offsets` are the positions less the first, up to a multiple of the range of the type.
pub proof fn law_list_field(
    field: Field,
    batch_id: i32,
    pages: Pages,
    replies: Seq<Column>,
    offsets: Seq<i32>,
)
    requires
        field.data_type == DataType::List,
        replies.len() > 0 ==> (int32_values(replies[0]) matches Some(positions) ==> {
            &&& offsets.len() == positions.len()
            &&& forall|i: int|
                0 <= i < positions.len() ==> {
                    let difference = positions[i] - positions[0];
                    #[trigger] offsets[i] == difference || offsets[i] == difference - 0x1_0000_0000
                        || offsets[i] == difference + 0x1_0000_0000
                }
        }),
    ensures
        ({
            let walk = array_walk(field, batch_id, pages, replies);
            let rest = replies.skip(1);
            if !pages.contains_key((field.id, batch_id)) {
                walk == Walk::Failed(
                    ErrorView::IO(missing_page_message(field.name@, field.id, batch_id)),
                )
            } else if replies.len() == 0 {
                let page = pages[(field.id, batch_id)];
                walk == Walk::Fetch(Fetch { field, kind: PageKind::ListPositions, page })
            } else if int32_values(replies[0]) is None {
                walk == Walk::Broken(Defect::NotPositions)
            } else if offsets.len() == 0 {
                walk == Walk::Broken(Defect::NoPositions)
            } else if field.children@.len() == 0 {
                walk == Walk::Broken(Defect::NoItemField)
            } else {
                match array_walk(field.children@[0], batch_id, pages, rest) {
                    Walk::Read(values, left) => {
                        let list = list_column(
                            item_field("item"@, values, true),
                            offsets,
                            values,
                        );
                        let cut = {
                            &&& forall|i: int|
                                0 <= i < offsets.len() ==> 0 <= #[trigger] offsets[i] <= column_len(
                                    values,
                                )
                            &&& forall|i: int, j: int|
                                0 <= i <= j < offsets.len() ==> offsets[i] <= offsets[j]
                        };
                        &&& column_valid(values) && cut ==> walk == Walk::Read(list->Ok_0, left)
                        &&& !(column_valid(values) && cut) ==> walk == Walk::Failed(
                            ErrorView::Arrow(list->Err_0),
                        )
                    },
                    other => walk == other,
                }
            }
        }),
{
    if replies.len() > 0 {
        law_positions(replies[0]);
        match int32_values(replies[0]) {
            Some(positions) => {
                if positions.len() > 0 {
                    assert(list_offsets(replies[0])->Ok_0 =~= offsets);
                    match array_walk(field.children@[0], batch_id, pages, replies.skip(1)) {
                        Walk::Read(values, _) => {
                            law_makes_list(offsets, Seq::empty(), values);
                        },
                        _ => {},
                    }
                }
            },
            None => {},
        }
    }
}

/// A list column that was read has a list for every two neighbouring positions, with as many
/// values as lie between them: where the positions do not decrease, every offset is the position
/// less the first one, and the values are those that the other pages hold.
pub proof fn law_list_lengths(field: Field, column: Column, replies: Seq<Column>)
    requires
        field.data_type == DataType::List,
        column_made(field, column, replies),
    ensures
        replies.len() > 0,
        field.children@.len() > 0,
        column_made(field.children@[0], list_parts(column).1, replies.skip(1)),
        int32_values(replies[0]) matches Some(positions) && {
            let offsets = list_parts(column).0;
            &&& positions.len() > 0
            &&& offsets.len() == positions.len()
            &&& column_len(column) == positions.len() - 1
            &&& column_nulls(column) == 0
            &&& (forall|i: int, j: int|
                0 <= i <= j < positions.len() ==> positions[i] <= positions[j]) ==> {
                &&& forall|i: int|
                    0 <= i < positions.len() ==> #[trigger] offsets[i] == positions[i]
                        - positions[0]
                &&& positions.last() - positions[0] <= column_len(list_parts(column).1)
            }
        },
{
    law_positions(replies[0]);
    let offsets = list_parts(column).0;
    let values = list_parts(column).1;
    law_makes_list(offsets, Seq::empty(), values);
    match int32_values(replies[0]) {
        Some(positions) => {
            if forall|i: int, j: int|
                0 <= i <= j < positions.len() ==> positions[i] <= positions[j] {
                assert forall|i: int| 0 <= i < positions.len() implies #[trigger] offsets[i]
                    == positions[i] - positions[0] by {
                    assert(positions[0] <= positions[i]);
                    assert(0 <= offsets[i]);
                }
                assert(offsets[positions.len() - 1] == positions.last() - positions[0]);
            }
        },
        None => {},
    }
}

/// As [`law_list_field`], with 64 bit positions.
pub proof fn law_large_list_field(
    field: Field,
    batch_id: i32,
    pages: Pages,
    replies: Seq<Column>,
    offsets: Seq<i64>,
)
    requires
        field.data_type == DataType::LargeList,
        replies.len() > 0 ==> (int64_values(replies[0]) matches Some(positions) ==> {
            &&& offsets.len() == positions.len()
            &&& forall|i: int|
                0 <= i < positions.len() ==> {
                    let difference = positions[i] - positions[0];
                    #[trigger] offsets[i] == difference || offsets[i] == difference
                        - 0x1_0000_0000_0000_0000 || offsets[i] == difference
                        + 0x1_0000_0000_0000_0000
                }
        }),
    ensures
        ({
            let walk = array_walk(field, batch_id, pages, replies);
            let rest = replies.skip(1);
            if !pages.contains_key((field.id, batch_id)) {
                walk == Walk::Failed(
                    ErrorView::IO(missing_page_message(field.name@, field.id, batch_id)),
                )
            } else if replies.len() == 0 {
                let page = pages[(field.id, batch_id)];
                walk == Walk::Fetch(Fetch { field, kind: PageKind::LargeListPositions, page })
            } else if int64_values(replies[0]) is None {
                walk == Walk::Broken(Defect::NotPositions)
            } else if offsets.len() == 0 {
                walk == Walk::Broken(Defect::NoPositions)
            } else if field.children@.len() == 0 {
                walk == Walk::Broken(Defect::NoItemField)
            } else {
                match array_walk(field.children@[0], batch_id, pages, rest) {
                    Walk::Read(values, left) => {
                        let list = large_list_column(
                            item_field("item"@, values, true),
                            offsets,
                            values,
                        );
                        let cut = {
                            &&& forall|i: int|
                                0 <= i < offsets.len() ==> 0 <= #[trigger] offsets[i] <= column_len(
                                    values,
                                )
                            &&& forall|i: int, j: int|
                                0 <= i <= j < offsets.len() ==> offsets[i] <= offsets[j]
                        };
                        &&& column_valid(values) && cut ==> walk == Walk::Read(list->Ok_0, left)
                        &&& !(column_valid(values) && cut) ==> walk == Walk::Failed(
                            ErrorView::Arrow(list->Err_0),
                        )
                    },
                    other => walk == other,
                }
            }
        }),
{
    if replies.len() > 0 {
        law_large_positions(replies[0]);
        match int64_values(replies[0]) {
            Some(positions) => {
                if positions.len() > 0 {
                    assert(large_list_offsets(replies[0])->Ok_0 =~= offsets);
                    match array_walk(field.children@[0], batch_id, pages, replies.skip(1)) {
                        Walk::Read(values, _) => {
                            law_makes_list(Seq::empty(), offsets, values);
                        },
                        _ => {},
                    }
                }
            },
            None => {},
        }
    }
}

/// As [`law_list_lengths`], with 64 bit positions.
pub proof fn law_large_list_lengths(field: Field, column: Column, replies: Seq<Column>)
    requires
        field.data_type == DataType::LargeList,
        column_made(field, column, replies),
    ensures
        replies.len() > 0,
        field.children@.len() > 0,
        column_made(field.children@[0], large_list_parts(column).1, replies.skip(1)),
        int64_values(replies[0]) matches Some(positions) && {
            let offsets = large_list_parts(column).0;
            &&& positions.len() > 0
            &&& offsets.len() == positions.len()
            &&& column_len(column) == positions.len() - 1
            &&& column_nulls(column) == 0
            &&& (forall|i: int, j: int|
                0 <= i <= j < positions.len() ==> positions[i] <= positions[j]) ==> {
                &&& forall|i: int|
                    0 <= i < positions.len() ==> #[trigger] offsets[i] == positions[i]
                        - positions[0]
                &&& positions.last() - positions[0] <= column_len(large_list_parts(column).1)
            }
        },
{
    law_large_positions(replies[0]);
    let offsets = large_list_parts(column).0;
    let values = large_list_parts(column).1;
    law_makes_list(Seq::empty(), offsets, values);
    match int64_values(replies[0]) {
        Some(positions) => {
            if forall|i: int, j: int|
                0 <= i <= j < positions.len() ==> positions[i] <= positions[j] {
                assert forall|i: int| 0 <= i < positions.len() implies #[trigger] offsets[i]
                    == positions[i] - positions[0] by {
                    assert(positions[0] <= positions[i]);
                    assert(0 <= offsets[i]);
                }
                assert(offsets[positions.len() - 1] == positions.last() - positions[0]);
            }
        },
        None => {},
    }
}

/// What a plain or a struct column that was read holds: its one page, or the columns of its
/// children.
pub proof fn law_column_holds(field: Field, column: Column, replies: Seq<Column>)
    requires
        field.data_type != DataType::List,
        field.data_type != DataType::LargeList,
        column_made(field, column, replies),
    ensures
        field.data_type != DataType::Other,
        field.data_type != DataType::Struct ==> replies == seq![column],
        field.data_type == DataType::Struct ==> {
            let children = struct_children(column);
            &&& columns_made(field.children@, children, replies)
            &&& children.len() == field.children@.len()
            &&& column_nulls(column) == 0
            &&& forall|i: int|
                0 <= i < children.len() ==> column_len(#[trigger] children[i]) == column_len(column)
        },
{
    if field.data_type == DataType::Struct {
        law_columns_fit(field.children@, struct_children(column));
    }
}

/// Columns are read one after the other, each of the replies that those before it left; the first
/// that stops decides, and the fields after it do not matter.
pub proof fn law_fields_in_turn(
    fields: Seq<Field>,
    field: Field,
    batch_id: i32,
    pages: Pages,
    replies: Seq<Column>,
)
    ensures
        arrays_walk(Seq::<Field>::empty(), batch_id, pages, replies) == Walks::Read(
            Seq::empty(),
            replies,
        ),
        ({
            let walks = arrays_walk(fields.push(field), batch_id, pages, replies);
            match arrays_walk(fields, batch_id, pages, replies) {
                Walks::Read(columns, rest) => match array_walk(field, batch_id, pages, rest) {
                    Walk::Read(column, left) => walks == Walks::Read(columns.push(column), left),
                    Walk::Fetch(fetch) => walks == Walks::Fetch(fetch),
                    Walk::Failed(error) => walks == Walks::Failed(error),
                    Walk::Broken(defect) => walks == Walks::Broken(defect),
                },
                stopped => walks == stopped,
            }
        }),
{
    assert(fields.push(field).drop_last() =~= fields);
}

/// The pages of a field: none for a type that is not supported, those of the children for a
/// struct, the positions and those of the items for a list, and one for any other.
pub proof fn law_field_pages(field: Field)
    ensures
        ({
            let pages = field_pages(field);
            match field.data_type {
                DataType::Other => pages.len() == 0,
                DataType::Struct => pages == all_pages(field.children@),
                DataType::List | DataType::LargeList => {
                    &&& pages.len() > 0
                    &&& pages[0].0 == field
                    &&& kind_suits(pages[0].1, field.data_type)
                    &&& field.children@.len() == 0 ==> pages.len() == 1
                    &&& field.children@.len() > 0 ==> pages.skip(1) == field_pages(
                        field.children@[0],
                    )
                },
                _ => {
                    &&& pages.len() == 1
                    &&& pages[0].0 == field
                    &&& kind_suits(pages[0].1, field.data_type)
                },
            }
        }),
{
    if (field.data_type is List || field.data_type is LargeList) && field.children@.len() > 0 {
        assert(field_pages(field).skip(1) =~= field_pages(field.children@[0]));
    }
}

/// The pages of fields are those of each field, one field after the other.
pub proof fn law_all_pages(fields: Seq<Field>, field: Field, more: Seq<Field>)
    ensures
        all_pages(Seq::<Field>::empty()).len() == 0,
        all_pages(seq![field]) == field_pages(field),
        all_pages(fields + more) == all_pages(fields) + all_pages(more),
    decreases more.len(),
{
    assert(seq![field].drop_last() =~= Seq::<Field>::empty());
    assert(seq![field].last() == field);
    assert(all_pages(Seq::<Field>::empty()) =~= Seq::empty());
    assert(all_pages(seq![field]) =~= all_pages(Seq::<Field>::empty()) + field_pages(field));
    assert(all_pages(seq![field]) =~= field_pages(field));
    if more.len() == 0 {
        assert(fields + more =~= fields);
        assert(all_pages(fields + more) =~= all_pages(fields) + all_pages(more));
    } else {
        law_all_pages(fields, field, more.drop_last());
        assert((fields + more).drop_last() =~= fields + more.drop_last());
        assert(all_pages(fields + more) =~= all_pages(fields) + all_pages(more));
    }
}

/// Reading a batch comes to what reading its columns comes to, and then to what making a record
/// batch of them comes to.
pub proof fn law_batch(job: Job, replies: Seq<Column>)
    ensures
        ({
            let outcome = batch_outcome(job, replies);
            match arrays_walk(job.fields, job.batch_id, job.pages, replies) {
                Walks::Read(columns, _) => {
                    &&& outcome == assemble(job, columns)
                    &&& columns_of(job, replies) == columns
                },
                Walks::Fetch(fetch) => outcome == Outcome::Fetch(fetch),
                Walks::Failed(error) => outcome == Outcome::Failed(error),
                Walks::Broken(defect) => outcome == Outcome::Broken(defect),
            }
        }),
        column_len(columns_of(job, replies)[0]) <= usize::MAX ==> (succeeds(job, replies)
            <==> batch_outcome(job, replies) is Finished),
{
    law_columns_fit(job.fields, columns_of(job, replies));
    if column_len(columns_of(job, replies)[0]) <= usize::MAX {
        law_assembly(job, columns_of(job, replies));
    }
}

/// Columns become a record batch if and only if there is a column, they fit the fields and, with
/// row ids, the rows can be numbered: that is so at least from any row on that is not negative, as
/// long as the rows end before the greatest 32 bit number. Columns that do not fit are refused by
/// Arrow, and only rows that cannot be numbered break off.
pub proof fn law_assembly(job: Job, columns: Seq<Column>)
    requires
        column_len(columns[0]) <= usize::MAX,
    ensures
        ({
            let outcome = assemble(job, columns);
            let rows = column_len(columns[0]);
            let fit = {
                &&& columns.len() > 0
                &&& columns.len() == job.fields.len()
                &&& forall|i: int|
                    0 <= i < columns.len() ==> {
                        &&& column_len(#[trigger] columns[i]) == rows
                        &&& type_matches(job.fields[i].arrow, columns[i])
                        &&& column_nulls(columns[i]) > 0 ==> field_nullable(job.fields[i].arrow)
                    }
            };
            &&& assembles(job, columns) <==> outcome is Finished
            &&& !(outcome is Fetch)
            &&& !fit ==> (outcome matches Outcome::Failed(error) && error is Arrow)
            &&& fit && !job.with_row_id ==> outcome is Finished
            &&& fit && job.with_row_id && job.batch_offset >= 0 && job.batch_offset + rows
                <= i32::MAX ==> outcome is Finished
            &&& outcome matches Outcome::Broken(defect) ==> {
                &&& defect == Defect::RowIdOverflow
                &&& fit
                &&& job.with_row_id
                &&& job.batch_offset < 0 || job.batch_offset + rows > i32::MAX
            }
            &&& outcome is Finished && job.with_row_id ==> {
                &&& job.batch_offset + rows <= i32::MAX
                &&& rows > 0 && job.batch_offset < 0 ==> job.fragment_id % 0x1_0000_0000 == 0
            }
        }),
{
    law_columns_fit(job.fields, columns);
    let rows = column_len(columns[0]) as usize;
    if rows <= i32::MAX {
        law_rows_numbered(job.fragment_id, job.batch_offset, rows);
    }
}

/// What a record batch holds: the fields and columns that were read, one for each field, in
/// order, and, with row ids, one last column named `_rowid` without nulls, of one id for each row.
pub proof fn law_batch_holds(progress: Progress, job: Job, replies: Seq<Column>)
    requires
        progress.is_progress(job, replies),
    ensures
        progress matches Progress::Finished(batch) ==> {
            let columns = batch_columns(batch);
            let fields = batch_fields(batch);
            let count = job.fields.len();
            &&& arrays_walk(job.fields, job.batch_id, job.pages, replies) matches Walks::Read(
                read,
                left,
            ) && read == columns.take(count as int)
            &&& columns_made(job.fields, columns.take(count as int), replies)
            &&& columns.len() == fields.len()
            &&& fields.len() == if job.with_row_id {
                count + 1
            } else {
                count
            }
            &&& forall|i: int| 0 <= i < count ==> #[trigger] fields[i] == job.fields[i].arrow
            &&& forall|i: int|
                0 <= i < count ==> column_len(#[trigger] columns[i]) == batch_rows(batch)
            &&& job.with_row_id ==> {
                &&& field_name(fields.last()) == "_rowid"@
                &&& !field_nullable(fields.last())
                &&& column_nulls(columns.last()) == 0
                &&& uint64_values(columns.last()) matches Some(ids) && {
                    &&& ids.len() == batch_rows(batch)
                    &&& forall|i: int|
                        0 <= i < ids.len() ==> {
                            let id = (job.fragment_id % 0x1_0000_0000) * 0x1_0000_0000
                                + job.batch_offset + i;
                            #[trigger] ids[i] == id || ids[i] == id + 0x1_0000_0000_0000_0000
                        }
                }
            }
        },
{
    match progress {
        Progress::Finished(batch) => {
            let read = columns_of(job, replies);
            let columns = batch_columns(batch);
            law_columns_fit(job.fields, read);
            lemma_columns_len(job.fields, job.batch_id, job.pages, replies);
            if job.with_row_id {
                assert(columns.take(job.fields.len() as int) =~= columns.drop_last());
                let rows = column_len(read[0]);
                assert((rows as usize) as i32 == rows);
                let ids = uint64_values(columns.last())->0;
                assert(ids == batch_row_ids(job.fragment_id, job.batch_offset, rows as usize));
                assert forall|i: int| 0 <= i < ids.len() implies {
                    let id = (job.fragment_id % 0x1_0000_0000) * 0x1_0000_0000 + job.batch_offset
                        + i;
                    #[trigger] ids[i] == id || ids[i] == id + 0x1_0000_0000_0000_0000
                } by {
                    assert(row_id(job.fragment_id, (job.batch_offset + i) as i32) <= u64::MAX);
                }
            } else {
                assert(columns.take(job.fields.len() as int) =~= columns);
            }
            assert forall|i: int| 0 <= i < job.fields.len() implies column_len(
                #[trigger] columns[i],
            ) == batch_rows(batch) by {
                assert(columns[i] == columns.take(job.fields.len() as int)[i]);
                assert(column_len(read[i]) == column_len(read[0]));
            }
        },
        _ => {},
    }
}

/// Where every field is plain, its page listed and its dictionary, if it takes one, loaded, a
/// batch is what storage replies: it is read of one reply for each field, which are its columns,
/// where these are of one length, of the types of the fields, and without nulls where a field has
/// none; with row ids, the rows are to start at a row that is not negative, and to end before the
/// greatest 32 bit number.
pub proof fn law_plain_columns(job: Job, replies: Seq<Column>)
    requires
        job.fields.len() > 0,
        replies.len() == job.fields.len(),
        forall|i: int|
            0 <= i < job.fields.len() ==> {
                let field = #[trigger] job.fields[i];
                &&& field.data_type != DataType::Struct
                &&& field.data_type != DataType::List
                &&& field.data_type != DataType::LargeList
                &&& field.data_type != DataType::Other
                &&& job.pages.contains_key((field.id, job.batch_id))
                &&& field.data_type == DataType::Dictionary ==> {
                    &&& field.dictionary matches Some(dictionary)
                    &&& dictionary.values is Some
                }
                &&& column_len(replies[i]) == column_len(replies[0])
                &&& type_matches(field.arrow, replies[i])
                &&& column_nulls(replies[i]) > 0 ==> field_nullable(field.arrow)
            },
        job.with_row_id ==> job.batch_offset >= 0 && job.batch_offset + column_len(replies[0])
            <= i32::MAX,
        column_len(replies[0]) <= usize::MAX,
    ensures
        batch_outcome(job, replies) is Finished,
        columns_of(job, replies) == replies,
{
    let count = job.fields.len() as int;
    lemma_plain_columns(job, replies, count);
    assert(job.fields.take(count) =~= job.fields);
    assert(replies.take(count) =~= replies);
    law_assembly(job, replies);
    assert forall|i: int| 0 <= i < replies.len() implies {
        &&& column_len(#[trigger] replies[i]) == column_len(replies[0])
        &&& type_matches(job.fields[i].arrow, replies[i])
        &&& column_nulls(replies[i]) > 0 ==> field_nullable(job.fields[i].arrow)
    } by {
        let field = job.fields[i];
    }
}

proof fn lemma_plain_columns(job: Job, replies: Seq<Column>, count: int)
    requires
        0 <= count <= job.fields.len(),
        replies.len() == job.fields.len(),
        forall|i: int|
            0 <= i < job.fields.len() ==> {
                let field = #[trigger] job.fields[i];
                &&& field.data_type != DataType::Struct
                &&& field.data_type != DataType::List
                &&& field.data_type != DataType::LargeList
                &&& field.data_type != DataType::Other
                &&& job.pages.contains_key((field.id, job.batch_id))
                &&& field.data_type == DataType::Dictionary ==> {
                    &&& field.dictionary matches Some(dictionary)
                    &&& dictionary.values is Some
                }
            },
    ensures
        arrays_walk(job.fields.take(count), job.batch_id, job.pages, replies) == Walks::Read(
            replies.take(count),
            replies.skip(count),
        ),
    decreases count,
{
    if count == 0 {
        assert(job.fields.take(0) =~= Seq::<Field>::empty());
        assert(replies.take(0) =~= Seq::<Column>::empty());
        assert(replies.skip(0) =~= replies);
    } else {
        let before = job.fields.take(count - 1);
        let field = job.fields[count - 1];
        let rest = replies.skip(count - 1);
        lemma_plain_columns(job, replies, count - 1);
        law_plain_field(field, job.batch_id, job.pages, rest);
        law_fields_in_turn(before, field, job.batch_id, job.pages, replies);
        assert(before.push(field) =~= job.fields.take(count));
        match array_walk(field, job.batch_id, job.pages, rest) {
            Walk::Read(column, left) => {
                assert(rest[0] == column);
                assert(left =~= replies.skip(count));
                assert(replies.take(count - 1).push(column) =~= replies.take(count));
            },
            _ => {},
        }
    }
}

} // verus!
