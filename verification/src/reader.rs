//! The reader of one data file.

use crate::arrow::Column;
use crate::batch::{read_batch, Progress};
use crate::error::{missing_batch, missing_batch_message, ErrorView};
use crate::format::{batch_count, offset_at, Metadata, PageTable};
use crate::schema::Schema;
use crate::walk::{batch_outcome, Job, Outcome};
use vstd::prelude::*;

verus! {

/// Reads the record batches of one data file.
pub struct FileReader {
    metadata: Metadata,
    page_table: PageTable,
    projection: Option<Schema>,
    /// The id of the fragment which this file belongs to. For simple file access, this can just
    /// be zero.
    fragment_id: u64,
    /// If set true, returns the row id alongside with the actual data.
    with_row_id: bool,
}

/// What a stream of batches gives for a batch id.
pub enum StreamItem {
    /// An error: the file has no batch of this id.
    Missing,
    /// The batch that starts at this row.
    Batch(i32),
    /// Nothing: the stream is at its end.
    End,
}

/// The number of batches between the offsets, as a 32 bit number.
pub open spec fn stream_length(offsets: Seq<i32>) -> i32 {
    batch_count(offsets) as i32
}

/// What a stream of the batches between the offsets gives for a batch id.
pub open spec fn stream_item(offsets: Seq<i32>, batch_id: i32) -> StreamItem {
    match offset_at(offsets, batch_id as int) {
        None => StreamItem::Missing,
        Some(offset) => if batch_id < stream_length(offsets) {
            StreamItem::Batch(offset)
        } else {
            StreamItem::End
        },
    }
}

impl FileReader {
    /// The metadata of the file.
    pub closed spec fn metadata(self) -> Metadata {
        self.metadata
    }

    /// The page table of the file.
    pub closed spec fn page_table(self) -> PageTable {
        self.page_table
    }

    /// The schema of the batches that are read.
    pub closed spec fn projection(self) -> Schema {
        self.projection->0
    }

    /// The fragment that the file belongs to.
    pub closed spec fn fragment_id(self) -> u64 {
        self.fragment_id
    }

    /// Whether batches get a column of row ids.
    pub closed spec fn returns_row_ids(self) -> bool {
        self.with_row_id
    }

    #[verifier::type_invariant]
    spec fn inv(self) -> bool {
        self.projection is Some
    }

    /// What reading the batch `batch_id` that starts at row `offset` takes.
    pub open spec fn job(self, batch_id: i32, offset: i32) -> Job {
        Job {
            fields: self.projection().fields@,
            batch_id,
            pages: self.page_table()@,
            fragment_id: self.fragment_id(),
            batch_offset: offset,
            with_row_id: self.returns_row_ids(),
        }
    }

    /// What reading the batch `batch_id` comes to after some replies.
    pub open spec fn outcome(self, batch_id: i32, replies: Seq<Column>) -> Outcome {
        match offset_at(self.metadata().batch_offsets@, batch_id as int) {
            None => Outcome::Failed(ErrorView::IO(missing_batch_message(batch_id))),
            Some(offset) => batch_outcome(self.job(batch_id, offset), replies),
        }
    }

    /// Whether this is what the first step of reading the batch `batch_id` comes to.
    pub open spec fn starts(self, batch_id: i32, progress: Progress) -> bool {
        match offset_at(self.metadata().batch_offsets@, batch_id as int) {
            None => progress matches Progress::Failed(error) && error@ == ErrorView::IO(
                missing_batch_message(batch_id),
            ),
            Some(offset) => progress.is_progress(self.job(batch_id, offset), Seq::empty()),
        }
    }

    /// A reader of a file, from what the file says of itself.
    pub(crate) fn new(
        metadata: Metadata,
        page_table: PageTable,
        schema: Schema,
        fragment_id: u64,
    ) -> (reader: FileReader)
        ensures
            reader.metadata() == metadata,
            reader.page_table() == page_table,
            reader.projection() == schema,
            reader.fragment_id() == fragment_id,
            !reader.returns_row_ids(),
    {
        FileReader {
            metadata,
            page_table,
            projection: Some(schema),
            fragment_id,
            with_row_id: false,
        }
    }

    /// Set the projection [`Schema`].
    pub fn set_projection(&mut self, schema: Schema)
        ensures
            final(self).projection() == schema,
            final(self).metadata() == old(self).metadata(),
            final(self).page_table() == old(self).page_table(),
            final(self).fragment_id() == old(self).fragment_id(),
            final(self).returns_row_ids() == old(self).returns_row_ids(),
    {
        self.projection = Some(schema)
    }

    /// Instruct the reader to return the row id column.
    pub fn with_row_id(&mut self, v: bool) -> (reader: &mut Self)
        ensures
            reader.returns_row_ids() == v,
            reader.projection() == old(self).projection(),
            reader.metadata() == old(self).metadata(),
            reader.page_table() == old(self).page_table(),
            reader.fragment_id() == old(self).fragment_id(),
            *final(self) == *final(reader),
    {
        proof {
            use_type_invariant(&*self);
        }
        self.with_row_id = v;
        self
    }

    /// Schema of the returned record batches.
    pub fn schema(&self) -> (schema: &Schema)
        ensures
            *schema == self.projection(),
    {
        proof {
            use_type_invariant(self);
        }
        self.projection.as_ref().unwrap()
    }

    /// The number of batches in the file.
    pub fn num_batches(&self) -> (count: usize)
        ensures
            count == batch_count(self.metadata().batch_offsets@),
    {
        self.metadata.num_batches()
    }

    /// Read a batch of data from the file.
    ///
    /// The schema of the batch is set by [`FileReader::schema`].
    pub fn read_batch<'a>(&'a self, batch_id: i32) -> (progress: Progress<'a>)
        ensures
            self.starts(batch_id, progress),
    {
        match self.metadata.get_offset(batch_id) {
            None => Progress::Failed(missing_batch(batch_id)),
            Some(batch_offset) => read_batch(
                self.schema(),
                batch_id,
                &self.page_table,
                self.fragment_id,
                batch_offset,
                self.with_row_id,
            ),
        }
    }

    /// A stream of the batches of the file, in order.
    ///
    /// It only does batch based scan.
    pub fn into_stream<'a>(&'a self) -> (stream: BatchStream<'a>)
        ensures
            stream.reader() == self,
            stream.batch_id() == 0,
    {
        BatchStream { reader: self, num_batches: self.num_batches() as i32, batch_id: 0 }
    }
}

/// A stream of the batches of a file.
pub struct BatchStream<'a> {
    reader: &'a FileReader,
    num_batches: i32,
    /// The batch that comes next.
    batch_id: i32,
}

impl<'a> BatchStream<'a> {
    /// The reader of the file.
    pub closed spec fn reader(self) -> &'a FileReader {
        self.reader
    }

    /// The batch that comes next.
    pub closed spec fn batch_id(self) -> i32 {
        self.batch_id
    }

    #[verifier::type_invariant]
    spec fn inv(self) -> bool {
        self.num_batches == stream_length(self.reader.metadata().batch_offsets@)
    }

    /// What the stream gives next.
    pub open spec fn item(self) -> StreamItem {
        stream_item(self.reader().metadata().batch_offsets@, self.batch_id())
    }

    /// Whether the stream can go on: it is at its end, or there is a batch id after the next one.
    pub fn can_advance(&self) -> (can: bool)
        ensures
            can == (self.batch_id() < i32::MAX || self.item() is End),
    {
        proof {
            use_type_invariant(self);
        }
        self.batch_id < i32::MAX || (self.batch_id >= self.num_batches
            && self.reader.metadata.get_offset(self.batch_id).is_some())
    }

    /// Starts to read the next batch; `None` at the end of the stream.
    pub fn next(&mut self) -> (progress: Option<Progress<'a>>)
        requires
            old(self).batch_id() < i32::MAX || old(self).item() is End,
        ensures
            final(self).reader() == old(self).reader(),
            final(self).batch_id() == if old(self).item() is End {
                old(self).batch_id() as int
            } else {
                old(self).batch_id() + 1
            },
            progress is None <==> old(self).item() is End,
            progress matches Some(p) ==> old(self).reader().starts(old(self).batch_id(), p),
    {
        proof {
            use_type_invariant(&*self);
        }
        let batch_id = self.batch_id;
        let batch_offset = match self.reader.metadata.get_offset(batch_id) {
            Some(batch_offset) => batch_offset,
            None => {
                self.batch_id = batch_id + 1;
                return Some(Progress::Failed(missing_batch(batch_id)));
            },
        };
        if batch_id < self.num_batches {
            self.batch_id = batch_id + 1;
            Some(
                read_batch(
                    self.reader.schema(),
                    batch_id,
                    &self.reader.page_table,
                    self.reader.fragment_id,
                    batch_offset,
                    self.reader.with_row_id,
                ),
            )
        } else {
            None
        }
    }
}

} // verus!
