//! Reading a record batch, page by page.

use crate::arrow::{
    check_columns, column_fits, column_len, columns_fit, int32_array_values, int64_array_values,
    large_list_array, less_scalar32, less_scalar64, list_array, makes_batch, new_item_field,
    new_record_batch, new_uint64_field, num_rows, struct_array, subtract_scalar32,
    subtract_scalar64, uint64_array, Batch, Column,
};
use crate::error::{missing_page, Error, ErrorView};
use crate::fits::{batch_fits, lemma_batch_fits};
use crate::format::{PageInfo, PageTable};
use crate::machine::{
    finish, finish_sound, lemma_field_weight, lemma_visits, lemma_visits_supplied,
    lemma_visits_weight, supplied, views, visits, weight, Task, TaskView,
};
use crate::made::{lemma_columns_len, lemma_fields_made, lemma_fields_order};
use crate::row_id::{can_number, row_ids};
use crate::schema::{arrow_fields, to_arrow_fields, DataType, Field, Schema};
use crate::walk::{
    all_pages, array_walk, arrays_sound, arrays_walk, assemble, assembles, batch_outcome,
    columns_made, columns_of, holds, one_page, page_of, page_walk, succeeds, with_row_ids, Defect,
    Fetch, Job, Outcome, PageKind, Walk, Walks,
};
use vstd::prelude::*;

verus! {

/// A page to be read from storage.
pub struct PageRequest<'a> {
    /// The field that the page belongs to.
    pub field: &'a Field,
    /// How the bytes of the page become an array.
    pub kind: PageKind,
    /// Where the page lies.
    pub page: PageInfo,
}

impl<'a> View for PageRequest<'a> {
    type V = Fetch;

    open spec fn view(&self) -> Fetch {
        Fetch { field: *self.field, kind: self.kind, page: self.page }
    }
}

/// Where the page of a field in a batch lies.
pub fn get_page_info<'a>(
    page_table: &'a PageTable,
    field: &'a Field,
    batch_id: i32,
) -> (info: Result<&'a PageInfo, Error>)
    ensures
        info is Ok <==> page_of(*field, batch_id, page_table@) is Ok,
        info matches Ok(page) ==> page_of(*field, batch_id, page_table@) == Ok::<
            PageInfo,
            ErrorView,
        >(*page),
        info matches Err(error) ==> page_of(*field, batch_id, page_table@) == Err::<
            PageInfo,
            ErrorView,
        >(error@),
{
    match page_table.get(field.id, batch_id) {
        Some(page) => Ok(page),
        None => Err(missing_page(&field.name, field.id, batch_id)),
    }
}

/// The positions of lists, less the first of them.
pub fn relative_offsets(positions: &Vec<i32>) -> (offsets: Result<Vec<i32>, Error>)
    requires
        positions@.len() > 0,
    ensures
        offsets is Ok,
        offsets->Ok_0@ == less_scalar32(positions@, positions@[0]),
{
    match subtract_scalar32(positions, positions[0]) {
        Ok(offsets) => Ok(offsets),
        Err(error) => Err(Error::Arrow(error)),
    }
}

/// The positions of lists, less the first of them.
pub fn large_relative_offsets(positions: &Vec<i64>) -> (offsets: Result<Vec<i64>, Error>)
    requires
        positions@.len() > 0,
    ensures
        offsets is Ok,
        offsets->Ok_0@ == less_scalar64(positions@, positions@[0]),
{
    match subtract_scalar64(positions, positions[0]) {
        Ok(offsets) => Ok(offsets),
        Err(error) => Err(Error::Arrow(error)),
    }
}

/// Puts the tasks that read fields, one after the other, on a stack.
fn push_visits<'a>(tasks: &mut Vec<Task<'a>>, fields: &'a Vec<Field>)
    ensures
        views(final(tasks)@) == views(old(tasks)@) + visits(fields@, 0),
{
    let mut i: usize = fields.len();
    assert(views(tasks@) =~= views(old(tasks)@) + visits(fields@, i as int));
    while i > 0
        invariant
            i <= fields@.len(),
            views(tasks@) == views(old(tasks)@) + visits(fields@, i as int),
        decreases i,
    {
        let ghost before = tasks@;
        i -= 1;
        tasks.push(Task::Visit(&fields[i]));
        proof {
            let task = TaskView::Visit(fields@[i as int]);
            assert(views(tasks@) =~= views(before).push(task));
            assert(visits(fields@, i as int) =~= visits(fields@, i + 1).push(task));
        }
    }
}

/// What one step of a [`Walker`] came to.
enum Step<'a> {
    Continue,
    Fetch(PageRequest<'a>),
    Failed(Error),
    Broken(Defect),
}

/// Reads columns, as far as the replies at hand allow.
struct Walker<'a> {
    batch_id: i32,
    page_table: &'a PageTable,
    tasks: Vec<Task<'a>>,
    columns: Vec<Column>,
    /// What storage replied to the last request, until it is used.
    reply: Option<Column>,
}

impl<'a> Walker<'a> {
    spec fn todo(self) -> Seq<TaskView> {
        views(self.tasks@)
    }

    spec fn at_hand(self) -> Seq<Column> {
        match self.reply {
            Some(column) => seq![column],
            None => Seq::empty(),
        }
    }

    /// What becomes of the tasks when `more` replies follow the one at hand.
    spec fn end(self, more: Seq<Column>) -> Walks {
        finish(
            self.todo(),
            self.columns@,
            self.batch_id,
            self.page_table@,
            self.at_hand() + more,
        )
    }

    /// Whether all that Arrow makes in the tasks is made as it should be.
    spec fn sound(self, more: Seq<Column>) -> bool {
        finish_sound(
            self.todo(),
            self.columns@,
            self.batch_id,
            self.page_table@,
            self.at_hand() + more,
        )
    }

    /// As [`Walker::sound`], for the walker before its last task was taken off.
    spec fn sound_with(self, task: TaskView, more: Seq<Column>) -> bool {
        finish_sound(
            self.todo().push(task),
            self.columns@,
            self.batch_id,
            self.page_table@,
            self.at_hand() + more,
        )
    }

    /// As [`Walker::end`], for the walker before its last task was taken off.
    spec fn end_with(self, task: TaskView, more: Seq<Column>) -> Walks {
        finish(
            self.todo().push(task),
            self.columns@,
            self.batch_id,
            self.page_table@,
            self.at_hand() + more,
        )
    }

    /// Whether `next` comes to the same as this walker before its last task was taken off.
    spec fn goes_on(self, task: TaskView, next: Walker<'a>, more: Seq<Column>) -> bool {
        &&& self.end_with(task, more) == next.end(more)
        &&& next.sound(more) ==> self.sound_with(task, more)
    }

    spec fn inv(self) -> bool {
        supplied(self.todo(), self.columns@.len() as int)
    }

    /// Whether `next` and `step` are right after the step `task`.
    spec fn steps(self, task: TaskView, next: Walker<'a>, step: Step<'a>) -> bool {
        &&& next.batch_id == self.batch_id
        &&& next.page_table == self.page_table
        &&& match step {
            Step::Continue => {
                &&& next.inv()
                &&& weight(next.todo()) < weight(self.todo().push(task))
                &&& forall|more: Seq<Column>| #[trigger] self.goes_on(task, next, more)
            },
            Step::Fetch(request) => {
                &&& next.todo() == self.todo().push(task)
                &&& next.columns@ == self.columns@
                &&& next.reply is None
                &&& next.inv()
                &&& forall|more: Seq<Column>| #[trigger] self.goes_on(task, next, more)
                &&& self.end_with(task, Seq::empty()) == Walks::Fetch(request@)
                &&& self.sound_with(task, Seq::empty())
            },
            Step::Failed(error) => {
                &&& self.end_with(task, Seq::empty()) == Walks::Failed(error@)
                &&& self.sound_with(task, Seq::empty())
            },
            Step::Broken(defect) => {
                &&& self.end_with(task, Seq::empty()) == Walks::Broken(defect)
                &&& self.sound_with(task, Seq::empty())
            },
        }
    }

    /// Reads a column that is one page.
    fn read_page(&mut self, field: &'a Field, kind: PageKind) -> (step: Step<'a>)
        requires
            supplied(old(self).todo(), old(self).columns@.len() as int + 1),
            one_page(*field) == Some(kind),
        ensures
            old(self).steps(TaskView::Visit(*field), *final(self), step),
    {
        let page = match get_page_info(self.page_table, field, self.batch_id) {
            Ok(page) => *page,
            Err(error) => return Step::Failed(error),
        };
        if kind == PageKind::Dictionary {
            let at_hand = match &field.dictionary {
                Some(dictionary) => dictionary.values.is_some(),
                None => false,
            };
            if !at_hand {
                return Step::Broken(Defect::NoDictionary);
            }
        }
        match self.reply.take() {
            Some(column) => {
                self.columns.push(column);
                proof {
                    let task = TaskView::Visit(*field);
                    assert(old(self).todo().push(task).drop_last() =~= self.todo());
                    assert forall|more: Seq<Column>| #[trigger]
                        old(self).goes_on(task, *self, more) by {
                        let replies = old(self).at_hand() + more;
                        assert(replies[0] == column);
                        assert(replies.skip(1) =~= self.at_hand() + more);
                    }
                }
                Step::Continue
            },
            None => {
                self.tasks.push(Task::Visit(field));
                proof {
                    assert(self.todo() =~= old(self).todo().push(TaskView::Visit(*field)));
                    assert(self.todo().drop_last() =~= old(self).todo());
                }
                Step::Fetch(PageRequest { field, kind, page })
            },
        }
    }

    /// Reads a struct column: the columns of its children, one after the other.
    fn read_struct_array(&mut self, field: &'a Field) -> (step: Step<'a>)
        requires
            supplied(old(self).todo(), old(self).columns@.len() as int + 1),
            field.data_type == DataType::Struct,
        ensures
            old(self).steps(TaskView::Visit(*field), *final(self), step),
    {
        let ghost task = TaskView::Visit(*field);
        let ghost children = field.children@;
        let ghost base = old(self).todo().push(TaskView::Struct(children));
        self.tasks.push(Task::Struct(&field.children));
        push_visits(&mut self.tasks, &field.children);
        proof {
            let count = children.len() as int;
            assert(self.todo() =~= base + visits(children, 0));
            assert(base.drop_last() =~= old(self).todo());
            assert(old(self).todo().push(task).drop_last() =~= old(self).todo());
            assert(children.take(count) =~= children);
            assert(base + visits(children, count) =~= base);
            lemma_visits_supplied(base, children, 0, self.columns@.len() as int);
            lemma_visits_weight(base, children, count);
            assert forall|more: Seq<Column>| #[trigger]
                old(self).goes_on(task, *self, more) by {
                let replies = self.at_hand() + more;
                lemma_visits(
                    base,
                    children,
                    count,
                    self.columns@,
                    self.batch_id,
                    self.page_table@,
                    replies,
                );
                lemma_columns_len(children, self.batch_id, self.page_table@, replies);
                match arrays_walk(children, self.batch_id, self.page_table@, replies) {
                    Walks::Read(read, left) => {
                        let columns = self.columns@ + read;
                        assert(columns.skip(columns.len() - count) =~= read);
                        assert(columns.take(columns.len() - count) =~= self.columns@);
                    },
                    _ => {},
                }
            }
        }
        Step::Continue
    }

    /// Reads a list column: its positions, and then the values of its lists.
    fn read_list_array(&mut self, field: &'a Field) -> (step: Step<'a>)
        requires
            supplied(old(self).todo(), old(self).columns@.len() as int + 1),
            field.data_type == DataType::List,
        ensures
            old(self).steps(TaskView::Visit(*field), *final(self), step),
    {
        let page = match get_page_info(self.page_table, field, self.batch_id) {
            Ok(page) => *page,
            Err(error) => return Step::Failed(error),
        };
        let positions = match self.reply.take() {
            Some(positions) => positions,
            None => {
                self.tasks.push(Task::Visit(field));
                proof {
                    assert(self.todo() =~= old(self).todo().push(TaskView::Visit(*field)));
                    assert(self.todo().drop_last() =~= old(self).todo());
                }
                return Step::Fetch(PageRequest { field, kind: PageKind::ListPositions, page });
            },
        };
        let ghost task = TaskView::Visit(*field);
        proof {
            assert(old(self).todo().push(task).drop_last() =~= old(self).todo());
            assert forall|more: Seq<Column>|
                page_walk(
                    *field,
                    PageKind::ListPositions,
                    self.batch_id,
                    self.page_table@,
                    #[trigger] (old(self).at_hand() + more),
                ) == Walk::Read(positions, self.at_hand() + more) by {
                let replies = old(self).at_hand() + more;
                assert(replies[0] == positions);
                assert(replies.skip(1) =~= self.at_hand() + more);
            }
        }
        let values = match int32_array_values(&positions) {
            Some(values) => values,
            None => return Step::Broken(Defect::NotPositions),
        };
        if values.len() == 0 {
            return Step::Broken(Defect::NoPositions);
        }
        let offsets = match relative_offsets(&values) {
            Ok(offsets) => offsets,
            Err(error) => return Step::Failed(error),
        };
        if field.children.len() == 0 {
            return Step::Broken(Defect::NoItemField);
        }
        self.tasks.push(Task::List(offsets));
        self.tasks.push(Task::Visit(&field.children[0]));
        proof {
            let item = field.children@[0];
            let base = old(self).todo().push(TaskView::List(offsets@));
            assert(self.todo() =~= base.push(TaskView::Visit(item)));
            assert(self.todo().drop_last() =~= base);
            assert(base.drop_last() =~= old(self).todo());
            lemma_field_weight(field.children@, 0);
            reveal_with_fuel(finish, 2);
            reveal_with_fuel(finish_sound, 2);
            reveal_with_fuel(supplied, 3);
            reveal_with_fuel(weight, 3);
            assert forall|more: Seq<Column>| #[trigger]
                old(self).goes_on(task, *self, more) by {
                match array_walk(item, self.batch_id, self.page_table@, self.at_hand() + more) {
                    Walk::Read(column, left) => {
                        let columns = self.columns@.push(column);
                        assert(columns.drop_last() =~= self.columns@);
                        assert(columns.last() == column);
                    },
                    _ => {},
                }
            }
        }
        Step::Continue
    }

    /// Reads a list column with 64 bit positions: its positions, and then the values of its lists.
    fn read_large_list_array(&mut self, field: &'a Field) -> (step: Step<'a>)
        requires
            supplied(old(self).todo(), old(self).columns@.len() as int + 1),
            field.data_type == DataType::LargeList,
        ensures
            old(self).steps(TaskView::Visit(*field), *final(self), step),
    {
        let page = match get_page_info(self.page_table, field, self.batch_id) {
            Ok(page) => *page,
            Err(error) => return Step::Failed(error),
        };
        let positions = match self.reply.take() {
            Some(positions) => positions,
            None => {
                self.tasks.push(Task::Visit(field));
                proof {
                    assert(self.todo() =~= old(self).todo().push(TaskView::Visit(*field)));
                    assert(self.todo().drop_last() =~= old(self).todo());
                }
                return Step::Fetch(PageRequest { field, kind: PageKind::LargeListPositions, page });
            },
        };
        let ghost task = TaskView::Visit(*field);
        proof {
            assert(old(self).todo().push(task).drop_last() =~= old(self).todo());
            assert forall|more: Seq<Column>|
                page_walk(
                    *field,
                    PageKind::LargeListPositions,
                    self.batch_id,
                    self.page_table@,
                    #[trigger] (old(self).at_hand() + more),
                ) == Walk::Read(positions, self.at_hand() + more) by {
                let replies = old(self).at_hand() + more;
                assert(replies[0] == positions);
                assert(replies.skip(1) =~= self.at_hand() + more);
            }
        }
        let values = match int64_array_values(&positions) {
            Some(values) => values,
            None => return Step::Broken(Defect::NotPositions),
        };
        if values.len() == 0 {
            return Step::Broken(Defect::NoPositions);
        }
        let offsets = match large_relative_offsets(&values) {
            Ok(offsets) => offsets,
            Err(error) => return Step::Failed(error),
        };
        if field.children.len() == 0 {
            return Step::Broken(Defect::NoItemField);
        }
        self.tasks.push(Task::LargeList(offsets));
        self.tasks.push(Task::Visit(&field.children[0]));
        proof {
            let item = field.children@[0];
            let base = old(self).todo().push(TaskView::LargeList(offsets@));
            assert(self.todo() =~= base.push(TaskView::Visit(item)));
            assert(self.todo().drop_last() =~= base);
            assert(base.drop_last() =~= old(self).todo());
            lemma_field_weight(field.children@, 0);
            reveal_with_fuel(finish, 2);
            reveal_with_fuel(finish_sound, 2);
            reveal_with_fuel(supplied, 3);
            reveal_with_fuel(weight, 3);
            assert forall|more: Seq<Column>| #[trigger]
                old(self).goes_on(task, *self, more) by {
                match array_walk(item, self.batch_id, self.page_table@, self.at_hand() + more) {
                    Walk::Read(column, left) => {
                        let columns = self.columns@.push(column);
                        assert(columns.drop_last() =~= self.columns@);
                        assert(columns.last() == column);
                    },
                    _ => {},
                }
            }
        }
        Step::Continue
    }

    /// Makes a struct column of the columns of the children, which were read last.
    fn make_struct(&mut self, children: &'a Vec<Field>) -> (step: Step<'a>)
        requires
            supplied(
                old(self).todo().push(TaskView::Struct(children@)),
                old(self).columns@.len() as int,
            ),
        ensures
            old(self).steps(TaskView::Struct(children@), *final(self), step),
    {
        let ghost task = TaskView::Struct(children@);
        assert(old(self).todo().push(task).drop_last() =~= old(self).todo());
        let from = self.columns.len() - children.len();
        let read = self.columns.split_off(from);
        proof {
            assert(read@ =~= old(self).columns@.skip(from as int));
            assert(self.columns@ =~= old(self).columns@.take(from as int));
        }
        let fields = to_arrow_fields(children);
        if !check_columns(&fields, &read) {
            return Step::Broken(Defect::ChildMismatch);
        }
        let column = struct_array(fields, read);
        self.columns.push(column);
        Step::Continue
    }

    /// Makes a list column of the column that was read last.
    fn make_list(&mut self, offsets: Vec<i32>) -> (step: Step<'a>)
        requires
            supplied(
                old(self).todo().push(TaskView::List(offsets@)),
                old(self).columns@.len() as int,
            ),
        ensures
            old(self).steps(TaskView::List(offsets@), *final(self), step),
    {
        let ghost task = TaskView::List(offsets@);
        assert(old(self).todo().push(task).drop_last() =~= old(self).todo());
        let values = self.columns.pop().unwrap();
        let item = new_item_field("item", &values, true);
        match list_array(item, offsets.len() - 1, offsets, &values) {
            Ok(column) => {
                self.columns.push(column);
                assert(self.columns@ =~= old(self).columns@.drop_last().push(column));
                Step::Continue
            },
            Err(error) => Step::Failed(Error::Arrow(error)),
        }
    }

    /// Makes a list column with 64 bit offsets of the column that was read last.
    fn make_large_list(&mut self, offsets: Vec<i64>) -> (step: Step<'a>)
        requires
            supplied(
                old(self).todo().push(TaskView::LargeList(offsets@)),
                old(self).columns@.len() as int,
            ),
        ensures
            old(self).steps(TaskView::LargeList(offsets@), *final(self), step),
    {
        let ghost task = TaskView::LargeList(offsets@);
        assert(old(self).todo().push(task).drop_last() =~= old(self).todo());
        let values = self.columns.pop().unwrap();
        let item = new_item_field("item", &values, true);
        match large_list_array(item, offsets.len() - 1, offsets, &values) {
            Ok(column) => {
                self.columns.push(column);
                assert(self.columns@ =~= old(self).columns@.drop_last().push(column));
                Step::Continue
            },
            Err(error) => Step::Failed(Error::Arrow(error)),
        }
    }

    /// Reads the column of a field.
    fn read_array(&mut self, field: &'a Field) -> (step: Step<'a>)
        requires
            supplied(old(self).todo(), old(self).columns@.len() as int + 1),
        ensures
            old(self).steps(TaskView::Visit(*field), *final(self), step),
    {
        match field.data_type {
            DataType::FixedStride => self.read_page(field, PageKind::FixedStride),
            DataType::Utf8 | DataType::LargeUtf8 | DataType::Binary | DataType::LargeBinary => {
                self.read_page(field, PageKind::Binary)
            },
            DataType::Struct => self.read_struct_array(field),
            DataType::Dictionary => self.read_page(field, PageKind::Dictionary),
            DataType::List => self.read_list_array(field),
            DataType::LargeList => self.read_large_list_array(field),
            DataType::Other => Step::Broken(Defect::UnsupportedType(field.id)),
        }
    }

    /// Does a task.
    fn step(&mut self, task: Task<'a>) -> (step: Step<'a>)
        requires
            supplied(old(self).todo().push(task@), old(self).columns@.len() as int),
        ensures
            old(self).steps(task@, *final(self), step),
    {
        assert(old(self).todo().push(task@).drop_last() =~= old(self).todo());
        match task {
            Task::Visit(field) => self.read_array(field),
            Task::Struct(children) => self.make_struct(children),
            Task::List(offsets) => self.make_list(offsets),
            Task::LargeList(offsets) => self.make_large_list(offsets),
        }
    }
}

/// What to read of a batch, and how.
#[derive(Clone, Copy)]
pub struct BatchJob<'a> {
    pub fields: &'a Vec<Field>,
    pub batch_id: i32,
    pub page_table: &'a PageTable,
    /// The fragment that the rows belong to.
    pub fragment_id: u64,
    /// The offset of the first row of the batch in the fragment.
    pub batch_offset: i32,
    /// Whether a last column holds the ids of the rows.
    pub with_row_id: bool,
}

impl<'a> View for BatchJob<'a> {
    type V = Job;

    open spec fn view(&self) -> Job {
        Job {
            fields: self.fields@,
            batch_id: self.batch_id,
            pages: self.page_table@,
            fragment_id: self.fragment_id,
            batch_offset: self.batch_offset,
            with_row_id: self.with_row_id,
        }
    }
}

/// A batch that is being read, and waits for the page that was asked for last.
pub struct BatchRead<'a> {
    job: BatchJob<'a>,
    tasks: Vec<Task<'a>>,
    columns: Vec<Column>,
    replies: Ghost<Seq<Column>>,
}

/// What reading a batch has come to.
pub enum Progress<'a> {
    /// Read this page, and hand it to [`BatchRead::resume`].
    Fetch(PageRequest<'a>, BatchRead<'a>),
    Finished(Batch),
    Failed(Error),
    /// Reading breaks off: the schema cannot be read, or the replies do not fit it.
    Broken(Defect),
}

impl<'a> Progress<'a> {
    /// Whether this is what reading a batch comes to after some replies. It is finished where the
    /// replies make a record batch, and so in any case where the pages fit the fields.
    pub open spec fn is_progress(self, job: Job, replies: Seq<Column>) -> bool {
        &&& match self {
            Progress::Fetch(request, read) => {
                &&& batch_outcome(job, replies) == Outcome::Fetch(request@)
                &&& read.job() == job
                &&& read.replies() == replies
            },
            Progress::Finished(batch) => {
                &&& batch_outcome(job, replies) == Outcome::Finished(batch)
                &&& holds(batch, job, columns_of(job, replies))
                &&& columns_made(job.fields, columns_of(job, replies), replies)
            },
            Progress::Failed(error) => batch_outcome(job, replies) == Outcome::Failed(error@),
            Progress::Broken(defect) => batch_outcome(job, replies) == Outcome::Broken(defect),
        }
        &&& self is Finished <==> succeeds(job, replies)
        &&& batch_fits(job, replies) ==> self is Finished
        &&& arrays_sound(job.fields, job.batch_id, job.pages, replies)
    }
}

/// Whether a walker comes to what reading fields comes to, when `more` replies follow.
spec fn reaches(job: Job, replies: Seq<Column>, walker: Walker, more: Seq<Column>) -> bool {
    let all = replies + more;
    &&& walker.end(more) == arrays_walk(job.fields, job.batch_id, job.pages, all)
    &&& walker.sound(more) ==> arrays_sound(job.fields, job.batch_id, job.pages, all)
}

/// Whether a walker does what is left of reading fields, after some replies. It has asked for
/// each of them.
spec fn leads(job: Job, replies: Seq<Column>, walker: Walker) -> bool {
    &&& walker.batch_id == job.batch_id
    &&& walker.page_table@ == job.pages
    &&& walker.inv()
    &&& replies.len() <= all_pages(job.fields).len()
    &&& forall|more: Seq<Column>| #[trigger] reaches(job, replies, walker, more)
}

/// The record batch of the columns of a job.
pub fn assemble_batch(job: BatchJob, columns: Vec<Column>) -> (progress: Result<
    Batch,
    AssemblyError,
>)
    ensures
        match progress {
            Ok(batch) => assemble(job@, columns@) == Outcome::Finished(batch),
            Err(AssemblyError::Failed(error)) => assemble(job@, columns@) == Outcome::Failed(
                error@,
            ),
            Err(AssemblyError::Broken(defect)) => assemble(job@, columns@) == Outcome::Broken(
                defect,
            ),
        },
        progress is Ok <==> assembles(job@, columns@),
        progress matches Ok(batch) ==> holds(batch, job@, columns@),
{
    match new_record_batch(to_arrow_fields(job.fields), &columns) {
        Err(error) => Err(AssemblyError::Failed(Error::Arrow(error))),
        Ok(batch) => if job.with_row_id {
            append_row_ids(job, columns, num_rows(&batch))
        } else {
            Ok(batch)
        },
    }
}

/// Why columns do not become a record batch.
pub enum AssemblyError {
    Failed(Error),
    Broken(Defect),
}

/// The record batch of the columns of a job, all of `num_rows` rows, with a last column of row
/// ids.
fn append_row_ids(job: BatchJob, columns: Vec<Column>, num_rows: usize) -> (progress: Result<
    Batch,
    AssemblyError,
>)
    requires
        job.with_row_id,
        makes_batch(arrow_fields(job@.fields), columns@),
        num_rows == column_len(columns@[0]),
    ensures
        match progress {
            Ok(batch) => with_row_ids(job@, columns@, num_rows) == Outcome::Finished(batch),
            Err(AssemblyError::Failed(error)) => with_row_ids(job@, columns@, num_rows)
                == Outcome::Failed(error@),
            Err(AssemblyError::Broken(defect)) => with_row_ids(job@, columns@, num_rows)
                == Outcome::Broken(defect),
        },
        progress is Ok <==> assembles(job@, columns@),
        progress matches Ok(batch) ==> holds(batch, job@, columns@),
{
    if !can_number(job.fragment_id, job.batch_offset, num_rows) {
        return Err(AssemblyError::Broken(Defect::RowIdOverflow));
    }
    let ids = row_ids(job.fragment_id, job.batch_offset, num_rows);
    let mut fields = to_arrow_fields(job.fields);
    fields.push(new_uint64_field("_rowid"));
    let mut all = columns;
    all.push(uint64_array(ids));
    proof {
        let base = arrow_fields(job@.fields);
        let len = column_len(columns@[0]);
        assert(all@.drop_last() =~= columns@);
        assert(all@[0] == columns@[0]);
        assert forall|i: int| 0 <= i < columns@.len() implies #[trigger] column_fits(
            fields@[i],
            all@[i],
            len,
        ) by {
            assert(column_fits(base[i], columns@[i], len));
        }
        assert(column_fits(fields@.last(), all@.last(), len) <==> num_rows <= i32::MAX);
        assert(columns_fit(fields@, all@) <==> column_fits(fields@.last(), all@.last(), len));
    }
    match new_record_batch(fields, &all) {
        Err(error) => Err(AssemblyError::Failed(Error::Arrow(error))),
        Ok(batch) => Ok(batch),
    }
}

/// Reads as far as the replies at hand allow.
fn run<'a>(
    job: BatchJob<'a>,
    walker: Walker<'a>,
    replies: Ghost<Seq<Column>>,
) -> (progress: Progress<'a>)
    requires
        walker.page_table == job.page_table,
        leads(job@, replies@, walker),
    ensures
        progress.is_progress(job@, replies@),
{
    proof {
        if batch_fits(job@, replies@) && arrays_sound(
            job@.fields,
            job@.batch_id,
            job@.pages,
            replies@,
        ) {
            lemma_batch_fits(job@, replies@);
        }
    }
    let mut walker = walker;
    assert(replies@ + Seq::<Column>::empty() =~= replies@);
    while walker.tasks.len() > 0
        invariant
            walker.page_table == job.page_table,
            leads(job@, replies@, walker),
            replies@ + Seq::<Column>::empty() == replies@,
            batch_fits(job@, replies@) && arrays_sound(
                job@.fields,
                job@.batch_id,
                job@.pages,
                replies@,
            ) ==> succeeds(job@, replies@),
        decreases weight(walker.todo()),
    {
        let ghost before = walker;
        let task = walker.tasks.pop().unwrap();
        let ghost rest = walker;
        proof {
            assert(before.todo() =~= rest.todo().push(task@));
            assert(reaches(job@, replies@, before, Seq::empty()));
        }
        match walker.step(task) {
            Step::Continue => {
                assert forall|more: Seq<Column>| #[trigger]
                    reaches(job@, replies@, walker, more) by {
                    assert(rest.goes_on(task@, walker, more));
                    assert(reaches(job@, replies@, before, more));
                }
            },
            Step::Fetch(request) => {
                proof {
                    assert forall|more: Seq<Column>| #[trigger]
                        reaches(job@, replies@, walker, more) by {
                        assert(rest.goes_on(task@, walker, more));
                        assert(reaches(job@, replies@, before, more));
                    }
                    lemma_fields_order(job@.fields, job@.batch_id, job@.pages, replies@);
                }
                let read = BatchRead {
                    job,
                    tasks: walker.tasks,
                    columns: walker.columns,
                    replies,
                };
                return Progress::Fetch(request, read);
            },
            Step::Failed(error) => {
                return Progress::Failed(error);
            },
            Step::Broken(defect) => {
                return Progress::Broken(defect);
            },
        }
    }
    proof {
        assert(reaches(job@, replies@, walker, Seq::empty()));
        lemma_fields_order(job@.fields, job@.batch_id, job@.pages, replies@);
        lemma_fields_made(job@.fields, job@.batch_id, job@.pages, replies@);
        assert(replies@.take(replies@.len() as int) =~= replies@);
    }
    match assemble_batch(job, walker.columns) {
        Ok(batch) => Progress::Finished(batch),
        Err(AssemblyError::Failed(error)) => Progress::Failed(error),
        Err(AssemblyError::Broken(defect)) => Progress::Broken(defect),
    }
}

impl<'a> BatchRead<'a> {
    /// What is being read.
    pub closed spec fn job(self) -> Job {
        self.job@
    }

    /// The replies so far.
    pub closed spec fn replies(self) -> Seq<Column> {
        self.replies@
    }

    #[verifier::type_invariant]
    spec fn inv(self) -> bool {
        &&& leads(
            self.job@,
            self.replies@,
            Walker {
                batch_id: self.job.batch_id,
                page_table: self.job.page_table,
                tasks: self.tasks,
                columns: self.columns,
                reply: None,
            },
        )
        &&& self.replies@.len() < all_pages(self.job@.fields).len()
    }

    /// Goes on reading with the page that was asked for.
    pub fn resume(self, page: Column) -> (progress: Progress<'a>)
        ensures
            progress.is_progress(self.job(), self.replies().push(page)),
    {
        proof {
            use_type_invariant(&self);
        }
        let replies: Ghost<Seq<Column>> = Ghost(self.replies@.push(page));
        let walker = Walker {
            batch_id: self.job.batch_id,
            page_table: self.job.page_table,
            tasks: self.tasks,
            columns: self.columns,
            reply: Some(page),
        };
        proof {
            let waiting = Walker {
                batch_id: self.job.batch_id,
                page_table: self.job.page_table,
                tasks: self.tasks,
                columns: self.columns,
                reply: None,
            };
            assert forall|more: Seq<Column>| #[trigger]
                reaches(self.job@, replies@, walker, more) by {
                let next = seq![page] + more;
                assert(waiting.at_hand() + next =~= walker.at_hand() + more);
                assert(replies@ + more =~= self.replies@ + next);
                assert(reaches(self.job@, self.replies@, waiting, next));
            }
        }
        run(self.job, walker, replies)
    }
}

/// Reads a batch: the columns of the fields of `schema` and, if `with_row_id`, the ids of its
/// rows.
pub fn read_batch<'a>(
    schema: &'a Schema,
    batch_id: i32,
    page_table: &'a PageTable,
    fragment_id: u64,
    batch_offset: i32,
    with_row_id: bool,
) -> (progress: Progress<'a>)
    ensures
        progress.is_progress(
            (Job {
                fields: schema.fields@,
                batch_id,
                pages: page_table@,
                fragment_id,
                batch_offset,
                with_row_id,
            }),
            Seq::empty(),
        ),
{
    let job = BatchJob {
        fields: &schema.fields,
        batch_id,
        page_table,
        fragment_id,
        batch_offset,
        with_row_id,
    };
    let mut tasks: Vec<Task<'a>> = Vec::new();
    push_visits(&mut tasks, &schema.fields);
    let walker = Walker { batch_id, page_table, tasks, columns: Vec::new(), reply: None };
    proof {
        let fields = schema.fields@;
        let count = fields.len() as int;
        let base = Seq::<TaskView>::empty();
        assert(walker.todo() =~= base + visits(fields, 0));
        assert(base + visits(fields, count) =~= base);
        assert(fields.take(count) =~= fields);
        lemma_visits_supplied(base, fields, 0, 0);
        assert forall|more: Seq<Column>| #[trigger]
            reaches(job@, Seq::empty(), walker, more) by {
            let replies = Seq::<Column>::empty() + more;
            assert(walker.at_hand() + more =~= replies);
            lemma_visits(base, fields, count, Seq::empty(), batch_id, page_table@, replies);
            match arrays_walk(fields, batch_id, page_table@, replies) {
                Walks::Read(columns, _) => {
                    assert(Seq::<Column>::empty() + columns =~= columns);
                },
                _ => {},
            }
        }
    }
    run(job, walker, Ghost(Seq::empty()))
}

} // verus!
