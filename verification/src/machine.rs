//! The steps of reading columns, as a stack of tasks and a stack of columns.

use crate::arrow::{
    columns_fit, ints32, ints64, large_list_column, list_column, makes_list, struct_column, Column,
};
use crate::error::ErrorView;
use crate::schema::{arrow_fields, Field};
use crate::walk::{
    array_sound, array_walk, arrays_sound, arrays_walk, large_list_sound, list_item_field,
    list_sound, struct_sound, Defect, Pages, Walk, Walks,
};
use vstd::prelude::*;

verus! {

/// A step that is still to be done. The last of a stack of tasks comes first.
pub(crate) enum Task<'a> {
    /// Read the column of the field.
    Visit(&'a Field),
    /// Make one struct column of the columns of the children, which were read last.
    Struct(&'a Vec<Field>),
    /// Make a list column of the column that was read last.
    List(Vec<i32>),
    /// Make a list column with 64 bit offsets of the column that was read last.
    LargeList(Vec<i64>),
}

/// The view of a [`Task`].
pub(crate) enum TaskView {
    Visit(Field),
    Struct(Seq<Field>),
    List(Seq<i32>),
    LargeList(Seq<i64>),
}

impl<'a> View for Task<'a> {
    type V = TaskView;

    open(crate) spec fn view(&self) -> TaskView {
        match *self {
            Task::Visit(field) => TaskView::Visit(*field),
            Task::Struct(children) => TaskView::Struct(children@),
            Task::List(offsets) => TaskView::List(offsets@),
            Task::LargeList(offsets) => TaskView::LargeList(offsets@),
        }
    }
}

/// The views of tasks.
pub(crate) open(crate) spec fn views(tasks: Seq<Task>) -> Seq<TaskView> {
    tasks.map_values(|task: Task| task@)
}

/// What becomes of tasks, of the columns at hand, and of replies still to come.
pub(crate) open(crate) spec fn finish(
    tasks: Seq<TaskView>,
    columns: Seq<Column>,
    batch_id: i32,
    pages: Pages,
    replies: Seq<Column>,
) -> Walks
    decreases tasks.len(),
{
    if tasks.len() == 0 {
        Walks::Read(columns, replies)
    } else {
        let rest = tasks.drop_last();
        match tasks.last() {
            TaskView::Visit(field) => match array_walk(field, batch_id, pages, replies) {
                Walk::Read(column, left) => finish(
                    rest,
                    columns.push(column),
                    batch_id,
                    pages,
                    left,
                ),
                Walk::Fetch(fetch) => Walks::Fetch(fetch),
                Walk::Failed(error) => Walks::Failed(error),
                Walk::Broken(defect) => Walks::Broken(defect),
            },
            TaskView::Struct(children) => {
                let from = columns.len() - children.len();
                let fields = arrow_fields(children);
                if columns_fit(fields, columns.skip(from)) {
                    finish(
                        rest,
                        columns.take(from).push(struct_column(fields, columns.skip(from))),
                        batch_id,
                        pages,
                        replies,
                    )
                } else {
                    Walks::Broken(Defect::ChildMismatch)
                }
            },
            TaskView::List(offsets) => {
                let values = columns.last();
                let list = list_column(list_item_field(values), offsets, values);
                if makes_list(ints32(offsets), values) {
                    finish(rest, columns.drop_last().push(list->Ok_0), batch_id, pages, replies)
                } else {
                    Walks::Failed(ErrorView::Arrow(list->Err_0))
                }
            },
            TaskView::LargeList(offsets) => {
                let values = columns.last();
                let list = large_list_column(list_item_field(values), offsets, values);
                if makes_list(ints64(offsets), values) {
                    finish(rest, columns.drop_last().push(list->Ok_0), batch_id, pages, replies)
                } else {
                    Walks::Failed(ErrorView::Arrow(list->Err_0))
                }
            },
        }
    }
}

/// Whether all that Arrow makes in tasks is made as it should be.
pub(crate) open(crate) spec fn finish_sound(
    tasks: Seq<TaskView>,
    columns: Seq<Column>,
    batch_id: i32,
    pages: Pages,
    replies: Seq<Column>,
) -> bool
    decreases tasks.len(),
{
    if tasks.len() == 0 {
        true
    } else {
        let rest = tasks.drop_last();
        match tasks.last() {
            TaskView::Visit(field) => {
                &&& array_sound(field, batch_id, pages, replies)
                &&& array_walk(field, batch_id, pages, replies) matches Walk::Read(column, left)
                    ==> finish_sound(rest, columns.push(column), batch_id, pages, left)
            },
            TaskView::Struct(children) => {
                let from = columns.len() - children.len();
                let fields = arrow_fields(children);
                &&& struct_sound(children, columns.skip(from))
                &&& columns_fit(fields, columns.skip(from)) ==> finish_sound(
                    rest,
                    columns.take(from).push(struct_column(fields, columns.skip(from))),
                    batch_id,
                    pages,
                    replies,
                )
            },
            TaskView::List(offsets) => {
                let values = columns.last();
                let list = list_column(list_item_field(values), offsets, values);
                &&& list_sound(offsets, values)
                &&& makes_list(ints32(offsets), values) ==> finish_sound(
                    rest,
                    columns.drop_last().push(list->Ok_0),
                    batch_id,
                    pages,
                    replies,
                )
            },
            TaskView::LargeList(offsets) => {
                let values = columns.last();
                let list = large_list_column(list_item_field(values), offsets, values);
                &&& large_list_sound(offsets, values)
                &&& makes_list(ints64(offsets), values) ==> finish_sound(
                    rest,
                    columns.drop_last().push(list->Ok_0),
                    batch_id,
                    pages,
                    replies,
                )
            },
        }
    }
}

/// The tasks that read the fields from `from` on, one after the other.
pub(crate) open(crate) spec fn visits(fields: Seq<Field>, from: int) -> Seq<TaskView> {
    Seq::new(
        (fields.len() - from) as nat,
        |i: int| TaskView::Visit(fields[fields.len() - 1 - i]),
    )
}

/// Whether every task finds the columns that it needs, where `depth` columns are at hand.
pub(crate) open(crate) spec fn supplied(tasks: Seq<TaskView>, depth: int) -> bool
    decreases tasks.len(),
{
    if tasks.len() == 0 {
        true
    } else {
        let rest = tasks.drop_last();
        match tasks.last() {
            TaskView::Visit(_) => supplied(rest, depth + 1),
            TaskView::Struct(children) => children.len() <= depth && supplied(
                rest,
                depth - children.len() + 1,
            ),
            TaskView::List(offsets) => 1 <= depth && offsets.len() > 0 && supplied(rest, depth),
            TaskView::LargeList(offsets) => 1 <= depth && offsets.len() > 0 && supplied(
                rest,
                depth,
            ),
        }
    }
}

/// More than the number of tasks that reading a field takes.
pub(crate) open(crate) spec fn field_weight(field: Field) -> nat
    decreases field,
{
    2 + fields_weight(field.children@)
}

/// At least the number of tasks that reading fields takes.
pub(crate) open(crate) spec fn fields_weight(fields: Seq<Field>) -> nat
    decreases fields,
{
    if fields.len() == 0 {
        0
    } else {
        fields_weight(fields.drop_last()) + field_weight(fields.last())
    }
}

/// At least the number of steps that tasks take.
pub(crate) open(crate) spec fn weight(tasks: Seq<TaskView>) -> nat
    decreases tasks.len(),
{
    if tasks.len() == 0 {
        0
    } else {
        weight(tasks.drop_last()) + match tasks.last() {
            TaskView::Visit(field) => field_weight(field),
            _ => 1,
        }
    }
}

/// The fields from `from` on are read by reading the one at `from`, then those after it.
proof fn lemma_visits_split(base: Seq<TaskView>, fields: Seq<Field>, from: int)
    requires
        0 <= from < fields.len(),
    ensures
        (base + visits(fields, from)).drop_last() == base + visits(fields, from + 1),
        (base + visits(fields, from)).last() == TaskView::Visit(fields[from]),
        (base + visits(fields, from)).len() > 0,
{
    assert((base + visits(fields, from)).drop_last() =~= base + visits(fields, from + 1));
}

/// Reading fields task by task, and going on with `base`, is reading them as
/// [`arrays_walk`] does, and going on with `base`. It is stated here of the first `count` fields.
pub(crate) proof fn lemma_visits(
    base: Seq<TaskView>,
    fields: Seq<Field>,
    count: int,
    columns: Seq<Column>,
    batch_id: i32,
    pages: Pages,
    replies: Seq<Column>,
)
    requires
        0 <= count <= fields.len(),
    ensures
        finish(base + visits(fields, 0), columns, batch_id, pages, replies) == (match arrays_walk(
            fields.take(count),
            batch_id,
            pages,
            replies,
        ) {
            Walks::Read(read, left) => finish(
                base + visits(fields, count),
                columns + read,
                batch_id,
                pages,
                left,
            ),
            other => other,
        }),
        finish_sound(base + visits(fields, 0), columns, batch_id, pages, replies) == {
            &&& arrays_sound(fields.take(count), batch_id, pages, replies)
            &&& arrays_walk(fields.take(count), batch_id, pages, replies) matches Walks::Read(
                read,
                left,
            ) ==> finish_sound(
                base + visits(fields, count),
                columns + read,
                batch_id,
                pages,
                left,
            )
        },
    decreases count,
{
    if count == 0 {
        assert(fields.take(0) =~= Seq::<Field>::empty());
        assert(columns + Seq::<Column>::empty() =~= columns);
    } else {
        lemma_visits(base, fields, count - 1, columns, batch_id, pages, replies);
        lemma_visits_split(base, fields, count - 1);
        assert(fields.take(count).drop_last() =~= fields.take(count - 1));
        assert(fields.take(count).last() == fields[count - 1]);
        match arrays_walk(fields.take(count - 1), batch_id, pages, replies) {
            Walks::Read(read, left) => match array_walk(fields[count - 1], batch_id, pages, left) {
                Walk::Read(column, _) => {
                    assert((columns + read).push(column) =~= columns + read.push(column));
                },
                _ => {},
            },
            _ => {},
        }
    }
}

/// Reading fields leaves a column for each of them.
pub(crate) proof fn lemma_visits_supplied(
    base: Seq<TaskView>,
    fields: Seq<Field>,
    from: int,
    depth: int,
)
    requires
        0 <= from <= fields.len(),
        supplied(base, depth + fields.len() - from),
    ensures
        supplied(base + visits(fields, from), depth),
    decreases fields.len() - from,
{
    if from == fields.len() {
        assert(base + visits(fields, from) =~= base);
    } else {
        lemma_visits_split(base, fields, from);
        lemma_visits_supplied(base, fields, from + 1, depth + 1);
    }
}

/// The weight of the tasks that read fields is that of the fields.
pub(crate) proof fn lemma_visits_weight(base: Seq<TaskView>, fields: Seq<Field>, count: int)
    requires
        0 <= count <= fields.len(),
    ensures
        weight(base + visits(fields, 0)) == fields_weight(fields.take(count)) + weight(
            base + visits(fields, count),
        ),
    decreases count,
{
    if count == 0 {
        assert(fields.take(0) =~= Seq::<Field>::empty());
    } else {
        lemma_visits_weight(base, fields, count - 1);
        lemma_visits_split(base, fields, count - 1);
        assert(fields.take(count).drop_last() =~= fields.take(count - 1));
    }
}

/// A field weighs no more than the fields that it is one of.
pub(crate) proof fn lemma_field_weight(fields: Seq<Field>, i: int)
    requires
        0 <= i < fields.len(),
    ensures
        field_weight(fields[i]) <= fields_weight(fields),
    decreases fields.len(),
{
    if i < fields.len() - 1 {
        lemma_field_weight(fields.drop_last(), i);
    }
}

} // verus!
