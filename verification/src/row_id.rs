//! Row ids: numbers that tell the rows of a dataset apart.
//!
//! The upper half of a row id is the fragment that the row belongs to, the lower half is the
//! offset of the row in that fragment.

use vstd::prelude::*;

verus! {

/// The id of the row at an offset in a fragment. Of the fragment id only the lower 32 bits
/// count. A negative offset counts as the 64 bit pattern of its two's complement.
pub open spec fn row_id(fragment_id: u64, offset: i32) -> int {
    (fragment_id % 0x1_0000_0000) * 0x1_0000_0000 + if offset < 0 {
        offset + 0x1_0000_0000_0000_0000
    } else {
        offset as int
    }
}

/// The row after the last of a batch.
pub open spec fn batch_end(batch_offset: i32, num_rows: usize) -> int {
    batch_offset + (num_rows as i32)
}

/// Whether the rows of a batch can be numbered: the end of the batch is a 32 bit number, and
/// no id is beyond 64 bits.
pub open spec fn numberable(fragment_id: u64, batch_offset: i32, num_rows: usize) -> bool {
    &&& i32::MIN <= batch_end(batch_offset, num_rows) <= i32::MAX
    &&& forall|offset: i32|
        batch_offset <= offset < batch_end(batch_offset, num_rows) ==> #[trigger] row_id(
            fragment_id,
            offset,
        ) <= u64::MAX
}

/// The ids of the rows of a batch, in order. The number of rows counts as a 32 bit number;
/// there are no ids where that is not positive.
pub open spec fn batch_row_ids(fragment_id: u64, batch_offset: i32, num_rows: usize) -> Seq<u64> {
    let count = if (num_rows as i32) < 0 {
        0
    } else {
        (num_rows as i32) as nat
    };
    Seq::new(count, |i: int| row_id(fragment_id, (batch_offset + i) as i32) as u64)
}

/// The id of the row at `offset` in the fragment `fragment_id`.
pub fn compute_row_id(fragment_id: u64, offset: i32) -> (id: u64)
    requires
        row_id(fragment_id, offset) <= u64::MAX,
    ensures
        id == row_id(fragment_id, offset),
{
    assert((fragment_id << 32) == (fragment_id % 0x1_0000_0000) * 0x1_0000_0000) by (bit_vector);
    assert(offset < 0 ==> offset as u64 == offset + 0x1_0000_0000_0000_0000) by (bit_vector);
    (fragment_id << 32) + (offset as u64)
}

/// Whether the rows of a batch can be numbered.
pub fn can_number(fragment_id: u64, batch_offset: i32, num_rows: usize) -> (can: bool)
    ensures
        can == numberable(fragment_id, batch_offset, num_rows),
{
    let end: i64 = batch_offset as i64 + (num_rows as i32) as i64;
    if end < i32::MIN as i64 || end > i32::MAX as i64 {
        return false;
    }
    if batch_offset < 0 && end > batch_offset as i64 && fragment_id % 0x1_0000_0000 != 0 {
        assert(row_id(fragment_id, batch_offset) > u64::MAX);
        return false;
    }
    true
}

/// The ids of the rows of a batch, in order.
pub fn row_ids(fragment_id: u64, batch_offset: i32, num_rows: usize) -> (ids: Vec<u64>)
    requires
        numberable(fragment_id, batch_offset, num_rows),
    ensures
        ids@ == batch_row_ids(fragment_id, batch_offset, num_rows),
{
    let end: i32 = batch_offset + (num_rows as i32);
    let mut ids: Vec<u64> = Vec::new();
    let mut offset: i32 = batch_offset;
    while offset < end
        invariant
            end == batch_end(batch_offset, num_rows),
            batch_offset <= offset,
            offset <= end || offset == batch_offset,
            numberable(fragment_id, batch_offset, num_rows),
            ids@ == Seq::new(
                (offset - batch_offset) as nat,
                |i: int| row_id(fragment_id, (batch_offset + i) as i32) as u64,
            ),
        decreases end - offset,
    {
        ids.push(compute_row_id(fragment_id, offset));
        offset += 1;
        assert(ids@ =~= Seq::new(
            (offset - batch_offset) as nat,
            |i: int| row_id(fragment_id, (batch_offset + i) as i32) as u64,
        ));
    }
    assert(ids@ =~= batch_row_ids(fragment_id, batch_offset, num_rows));
    ids
}

} // verus!
