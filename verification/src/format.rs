//! What a data file says of itself: its metadata, its manifest and its page table.

use crate::schema::Schema;
use std::collections::BTreeMap;
use vstd::prelude::*;

verus! {

/// The metadata of a data file.
pub struct Metadata {
    /// The row at which each batch starts and, last, the row at which the last batch ends.
    pub batch_offsets: Vec<i32>,
    /// Where the page table starts in the file.
    pub page_table_position: usize,
    /// Where the manifest starts in the file, if it is there.
    pub manifest_position: Option<usize>,
}

/// The number of batches between the offsets.
pub open spec fn batch_count(offsets: Seq<i32>) -> nat {
    if offsets.len() == 0 {
        0
    } else {
        (offsets.len() - 1) as nat
    }
}

/// The offset at an index, if there is one.
pub open spec fn offset_at(offsets: Seq<i32>, index: int) -> Option<i32> {
    if 0 <= index < offsets.len() {
        Some(offsets[index])
    } else {
        None
    }
}

impl Metadata {
    /// The number of batches.
    pub fn num_batches(&self) -> (count: usize)
        ensures
            count == batch_count(self.batch_offsets@),
    {
        if self.batch_offsets.len() == 0 {
            0
        } else {
            self.batch_offsets.len() - 1
        }
    }

    /// The row at which a batch starts; for the id after the last batch, the row at which that
    /// batch ends.
    pub fn get_offset(&self, batch_id: i32) -> (offset: Option<i32>)
        ensures
            offset == offset_at(self.batch_offsets@, batch_id as int),
    {
        if 0 <= batch_id && (batch_id as usize) < self.batch_offsets.len() {
            Some(self.batch_offsets[batch_id as usize])
        } else {
            None
        }
    }
}

/// The manifest of a dataset.
pub struct Manifest {
    pub schema: Schema,
}

/// Where a page lies.
#[derive(Clone, Copy, Debug, PartialEq, Eq, Structural)]
pub struct PageInfo {
    /// Where the page starts in the file.
    pub position: usize,
    /// How many values the page holds.
    pub length: usize,
}

/// The pages of a data file, by field and batch.
pub struct PageTable {
    pages: BTreeMap<u64, PageInfo>,
}

/// The one number that stands for a field and a batch.
spec fn page_key(field_id: i32, batch_id: i32) -> u64 {
    ((field_id + 0x8000_0000) * 0x1_0000_0000 + batch_id + 0x8000_0000) as u64
}

/// The one number that stands for a field and a batch.
fn page_key_of(field_id: i32, batch_id: i32) -> (key: u64)
    ensures
        key == page_key(field_id, batch_id),
{
    let field: u64 = (field_id as i64 + 0x8000_0000) as u64;
    let batch: u64 = (batch_id as i64 + 0x8000_0000) as u64;
    field * 0x1_0000_0000 + batch
}

impl View for PageTable {
    type V = Map<(i32, i32), PageInfo>;

    closed spec fn view(&self) -> Map<(i32, i32), PageInfo> {
        Map::new(
            |page: (i32, i32)| self.pages@.contains_key(page_key(page.0, page.1)),
            |page: (i32, i32)| self.pages@[page_key(page.0, page.1)],
        )
    }
}

impl PageTable {
    /// A page table without pages.
    pub fn new() -> (table: PageTable)
        ensures
            table@ == Map::<(i32, i32), PageInfo>::empty(),
    {
        let table = PageTable { pages: BTreeMap::new() };
        assert(table@ =~= Map::<(i32, i32), PageInfo>::empty());
        table
    }

    /// Notes where the page of a field in a batch lies.
    pub fn set(&mut self, field_id: i32, batch_id: i32, page: PageInfo)
        ensures
            final(self)@ == old(self)@.insert((field_id, batch_id), page),
    {
        broadcast use vstd::std_specs::btree::group_btree_axioms;

        self.pages.insert(page_key_of(field_id, batch_id), page);
        assert(self@ =~= old(self)@.insert((field_id, batch_id), page));
    }

    /// Where the page of a field in a batch lies, if it is known.
    pub fn get(&self, field_id: i32, batch_id: i32) -> (page: Option<&PageInfo>)
        ensures
            page is Some <==> self@.contains_key((field_id, batch_id)),
            page matches Some(info) ==> *info == self@[(field_id, batch_id)],
    {
        broadcast use vstd::std_specs::btree::group_btree_axioms;

        self.pages.get(&page_key_of(field_id, batch_id))
    }
}

} // verus!
