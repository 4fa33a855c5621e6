//! Opening a data file.
//!
//! A file is opened in steps. Each step says what to read next, and takes in what was read.

use crate::format::{batch_count, Manifest, Metadata, PageTable};
use crate::reader::FileReader;
use crate::schema::{is_max_id, Schema};
use vstd::prelude::*;

verus! {

/// A file that is being opened: its bytes from `begin` to `file_size` are to be read.
pub struct Opening {
    pub file_size: usize,
    pub begin: usize,
    pub fragment_id: u64,
    pub manifest: Option<Manifest>,
}

/// Where the metadata of a file is.
#[derive(Clone, Copy, Debug, PartialEq, Eq, Structural)]
pub enum MetadataLocation {
    /// At this position of the file, which has not been read yet.
    Unread(usize),
    /// At this offset of the bytes that were read.
    InTail(usize),
}

/// A file that is being opened: its metadata is to be decoded.
pub struct MetadataPending {
    pub location: MetadataLocation,
    pub fragment_id: u64,
    pub manifest: Option<Manifest>,
}

/// What follows the metadata.
pub enum SchemaStep {
    /// The manifest at `position` is to be read, and the dictionaries of its schema are to be
    /// loaded.
    ReadManifest { position: usize, next: ManifestPending },
    /// The schema is known.
    Known(PageTablePending),
}

/// A file that is being opened: its manifest is to be read.
pub struct ManifestPending {
    pub metadata: Metadata,
    pub fragment_id: u64,
}

/// A file that is being opened: its page table is to be loaded from `position`.
pub struct PageTablePending {
    pub position: usize,
    pub num_columns: i32,
    pub num_batches: i32,
    pub metadata: Metadata,
    pub schema: Schema,
    pub fragment_id: u64,
}

/// Where reading the tail of a file begins.
pub open spec fn tail_begin(file_size: usize, prefetch_size: usize) -> int {
    if file_size < prefetch_size {
        0
    } else {
        file_size - prefetch_size
    }
}

/// Where the metadata at `metadata_pos` is, once the last `tail_len` bytes have been read.
pub open spec fn metadata_location(
    file_size: usize,
    tail_len: usize,
    metadata_pos: usize,
) -> MetadataLocation {
    if metadata_pos < file_size - tail_len {
        MetadataLocation::Unread(metadata_pos)
    } else {
        MetadataLocation::InTail((tail_len - (file_size - metadata_pos)) as usize)
    }
}

/// Whether a schema has fields, and the number after their greatest id is a 32 bit number.
pub open spec fn has_columns(schema: Schema) -> bool {
    schema.fields@.len() > 0 && !is_max_id(schema.fields@, i32::MAX)
}

/// Whether the page table of a file of this metadata and schema is asked for.
pub open spec fn asks_page_table(
    pending: PageTablePending,
    metadata: Metadata,
    schema: Schema,
    fragment_id: u64,
) -> bool {
    &&& pending.position == metadata.page_table_position
    &&& exists|max: i32|
        #![trigger is_max_id(schema.fields@, max)]
        is_max_id(schema.fields@, max) && pending.num_columns == max + 1
    &&& pending.num_batches == batch_count(metadata.batch_offsets@) as i32
    &&& pending.metadata == metadata
    &&& pending.schema == schema
    &&& pending.fragment_id == fragment_id
}

impl FileReader {
    /// Starts to open a data file of a fragment. Where the manifest is given, the one in the
    /// file is not read.
    pub fn try_new_with_fragment(
        file_size: usize,
        prefetch_size: usize,
        fragment_id: u64,
        manifest: Option<Manifest>,
    ) -> (opening: Opening)
        ensures
            opening.file_size == file_size,
            opening.begin == tail_begin(file_size, prefetch_size),
            opening.fragment_id == fragment_id,
            opening.manifest == manifest,
    {
        let begin = if file_size < prefetch_size {
            0
        } else {
            file_size - prefetch_size
        };
        Opening { file_size, begin, fragment_id, manifest }
    }

    /// Starts to open one data file.
    pub fn try_new(file_size: usize, prefetch_size: usize) -> (opening: Opening)
        ensures
            opening.file_size == file_size,
            opening.begin == tail_begin(file_size, prefetch_size),
            opening.fragment_id == 0,
            opening.manifest is None,
    {
        Self::try_new_with_fragment(file_size, prefetch_size, 0, None)
    }
}

impl Opening {
    /// Takes in that the last `tail_len` bytes have been read, and that they say that the
    /// metadata is at `metadata_pos`.
    pub fn tail(self, tail_len: usize, metadata_pos: usize) -> (pending: MetadataPending)
        requires
            tail_len <= self.file_size,
            metadata_pos <= self.file_size,
        ensures
            pending.location == metadata_location(self.file_size, tail_len, metadata_pos),
            pending.fragment_id == self.fragment_id,
            pending.manifest == self.manifest,
    {
        let location = if metadata_pos < self.file_size - tail_len {
            // We have not read the metadata bytes yet.
            MetadataLocation::Unread(metadata_pos)
        } else {
            MetadataLocation::InTail(tail_len - (self.file_size - metadata_pos))
        };
        MetadataPending { location, fragment_id: self.fragment_id, manifest: self.manifest }
    }
}

impl MetadataPending {
    /// Takes in the metadata.
    pub fn metadata(self, metadata: Metadata) -> (step: SchemaStep)
        requires
            self.manifest is None ==> metadata.manifest_position is Some,
            self.manifest matches Some(manifest) ==> has_columns(manifest.schema),
        ensures
            match self.manifest {
                None => {
                    &&& step matches SchemaStep::ReadManifest { position, next }
                    &&& Some(position) == metadata.manifest_position
                    &&& next.metadata == metadata
                    &&& next.fragment_id == self.fragment_id
                },
                Some(manifest) => {
                    &&& step matches SchemaStep::Known(pending)
                    &&& asks_page_table(pending, metadata, manifest.schema, self.fragment_id)
                },
            },
    {
        let next = ManifestPending { metadata, fragment_id: self.fragment_id };
        match self.manifest {
            Some(manifest) => SchemaStep::Known(next.manifest(manifest)),
            None => SchemaStep::ReadManifest {
                position: next.metadata.manifest_position.unwrap(),
                next,
            },
        }
    }
}

impl ManifestPending {
    /// Takes in the manifest, the dictionaries of its schema loaded.
    pub fn manifest(self, manifest: Manifest) -> (pending: PageTablePending)
        requires
            has_columns(manifest.schema),
        ensures
            asks_page_table(pending, self.metadata, manifest.schema, self.fragment_id),
    {
        let max = manifest.schema.max_field_id().unwrap();
        assert(is_max_id(manifest.schema.fields@, max));
        let num_columns = max + 1;
        PageTablePending {
            position: self.metadata.page_table_position,
            num_columns,
            num_batches: self.metadata.num_batches() as i32,
            metadata: self.metadata,
            schema: manifest.schema,
            fragment_id: self.fragment_id,
        }
    }
}

impl PageTablePending {
    /// Takes in the page table: the file is open.
    pub fn page_table(self, page_table: PageTable) -> (reader: FileReader)
        ensures
            reader.metadata() == self.metadata,
            reader.page_table() == page_table,
            reader.projection() == self.schema,
            reader.fragment_id() == self.fragment_id,
            !reader.returns_row_ids(),
    {
        FileReader::new(self.metadata, page_table, self.schema, self.fragment_id)
    }
}

} // verus!
