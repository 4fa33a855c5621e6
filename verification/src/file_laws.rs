//! What holds of files: of opening them, of what they say of themselves, of the streams of their
//! batches, and of the messages about them.

use crate::arrow::Column;
use crate::batch::Progress;
use crate::error::{
    decimal, digits, missing_batch_message, missing_page_message, Error, ErrorView,
};
use crate::format::{batch_count, offset_at, Metadata};
use crate::manifest::{
    little_endian, manifest_bytes, position_in, tail_error, within_tail, MAGIC,
    PREFETCH_SIZE,
};
use crate::open::{
    asks_page_table, has_columns, metadata_location, tail_begin, MetadataLocation, PageTablePending,
};
use crate::reader::{stream_item, stream_length, BatchStream, FileReader, StreamItem};
use crate::schema::{field_ids, ids, is_max_id, Field, Schema};
use crate::walk::{batch_outcome, item_name, row_id_name, Job, Outcome};
use vstd::prelude::*;

verus! {

/// The tail of a file that is read first is as long as was asked for, or is the whole file where
/// that is shorter.
pub proof fn law_tail_length(file_size: usize, prefetch_size: usize)
    ensures
        0 <= tail_begin(file_size, prefetch_size) <= file_size,
        prefetch_size <= file_size ==> file_size - tail_begin(file_size, prefetch_size)
            == prefetch_size,
        prefetch_size > file_size ==> file_size - tail_begin(file_size, prefetch_size)
            == file_size,
{
}

/// The metadata is in the tail exactly where the tail starts no later; it lies as far from the end
/// of the tail as from the end of the file. Otherwise it is to be read from its own position.
pub proof fn law_metadata_location(file_size: usize, tail_len: usize, metadata_pos: usize)
    requires
        tail_len <= file_size,
        metadata_pos <= file_size,
    ensures
        match metadata_location(file_size, tail_len, metadata_pos) {
            MetadataLocation::InTail(offset) => {
                &&& file_size - metadata_pos <= tail_len
                &&& tail_len - offset == file_size - metadata_pos
            },
            MetadataLocation::Unread(position) => {
                &&& file_size - metadata_pos > tail_len
                &&& position == metadata_pos
            },
        },
{
}

/// The ids of fields are those of each field and of the fields below it, and no others.
pub proof fn law_ids(fields: Seq<Field>, id: i32)
    ensures
        ids(fields).contains(id) <==> exists|i: int|
            0 <= i < fields.len() && ((#[trigger] fields[i]).id == id || ids(
                fields[i].children@,
            ).contains(id)),
    decreases fields.len(),
{
    if fields.len() > 0 {
        let others = fields.drop_last();
        let last = fields.last();
        law_ids(others, id);
        assert(ids(fields) == ids(others).union(field_ids(last)));
        assert(field_ids(last) == ids(last.children@).insert(last.id));
        if ids(fields).contains(id) {
            if ids(others).contains(id) {
                let i = choose|i: int|
                    0 <= i < others.len() && ((#[trigger] others[i]).id == id || ids(
                        others[i].children@,
                    ).contains(id));
                assert(fields[i] == others[i]);
            } else {
                assert(fields[fields.len() - 1] == last);
            }
        } else {
            assert forall|i: int| 0 <= i < fields.len() implies !((#[trigger] fields[i]).id == id
                || ids(fields[i].children@).contains(id)) by {
                if i < others.len() {
                    assert(others[i] == fields[i]);
                } else {
                    assert(fields[i] == last);
                }
            }
        }
    }
}

/// A greatest id is an id, no id is greater, and there is only one. It is the next number that a
/// schema has to have room for.
pub proof fn law_max_id(schema: Schema, id: i32, other: i32)
    ensures
        is_max_id(schema.fields@, id) ==> ids(schema.fields@).contains(id),
        is_max_id(schema.fields@, id) && ids(schema.fields@).contains(other) ==> other <= id,
        ids(schema.fields@).contains(id) && (forall|any: i32|
            ids(schema.fields@).contains(any) ==> any <= id) ==> is_max_id(schema.fields@, id),
        has_columns(schema) <==> schema.fields@.len() > 0 && !ids(schema.fields@).contains(
            i32::MAX,
        ),
{
}

/// A page table is asked for where the metadata says, with a column for every field id up to the
/// greatest, and with the batches that the offsets delimit; the metadata, the schema and the
/// fragment are handed on.
pub proof fn law_page_table(
    pending: PageTablePending,
    metadata: Metadata,
    schema: Schema,
    fragment_id: u64,
    id: i32,
)
    requires
        asks_page_table(pending, metadata, schema, fragment_id),
        metadata.batch_offsets@.len() <= i32::MAX,
    ensures
        pending.position == metadata.page_table_position,
        ids(schema.fields@).contains(id) ==> id < pending.num_columns,
        ids(schema.fields@).contains((pending.num_columns - 1) as i32),
        pending.num_columns > i32::MIN,
        metadata.batch_offsets@.len() == 0 ==> pending.num_batches == 0,
        metadata.batch_offsets@.len() > 0 ==> pending.num_batches
            == metadata.batch_offsets@.len() - 1,
        pending.metadata == metadata,
        pending.schema == schema,
        pending.fragment_id == fragment_id,
{
}

/// There is one batch fewer than there are offsets, and none where there are no offsets.
pub proof fn law_batch_count(offsets: Seq<i32>)
    ensures
        offsets.len() > 0 ==> batch_count(offsets) == offsets.len() - 1,
        offsets.len() == 0 ==> batch_count(offsets) == 0,
        offsets.len() <= i32::MAX ==> stream_length(offsets) == batch_count(offsets),
{
}

/// Exactly the ids from zero to the number of offsets have an offset.
pub proof fn law_offset(offsets: Seq<i32>, index: int)
    ensures
        0 <= index < offsets.len() ==> offset_at(offsets, index) == Some(offsets[index]),
        index < 0 || index >= offsets.len() ==> offset_at(offsets, index) is None,
{
}

/// A stream gives a batch for every offset but the last one, from that offset on, and ends at the
/// last one. An id without an offset gives an error.
pub proof fn law_stream_items(offsets: Seq<i32>, batch_id: i32)
    requires
        offsets.len() - 1 <= i32::MAX,
    ensures
        0 <= batch_id && batch_id + 1 < offsets.len() ==> stream_item(offsets, batch_id)
            == StreamItem::Batch(offsets[batch_id as int]),
        0 <= batch_id && batch_id + 1 == offsets.len() ==> stream_item(offsets, batch_id)
            == StreamItem::End,
        batch_id < 0 || batch_id >= offsets.len() ==> stream_item(offsets, batch_id)
            == StreamItem::Missing,
{
}

/// What a stream gives next is the batch that comes next, from its offset on, for every offset but
/// the last one, and the end at the last one.
pub proof fn law_stream_next(stream: BatchStream)
    requires
        stream.reader().metadata().batch_offsets@.len() - 1 <= i32::MAX,
    ensures
        ({
            let offsets = stream.reader().metadata().batch_offsets@;
            let batch_id = stream.batch_id();
            &&& 0 <= batch_id && batch_id + 1 < offsets.len() ==> stream.item()
                == StreamItem::Batch(offsets[batch_id as int])
            &&& stream.item() is End <==> 0 <= batch_id && batch_id + 1 == offsets.len()
            &&& stream.item() is Missing <==> batch_id < 0 || batch_id >= offsets.len()
        }),
{
    law_stream_items(stream.reader().metadata().batch_offsets@, stream.batch_id());
}

/// Reading a batch of a file starts with an error where the batch has no offset, and otherwise
/// reads the fields of the projection, of that batch, at that offset, in the fragment of the file,
/// with row ids where they are asked for.
pub proof fn law_read_batch(
    reader: FileReader,
    batch_id: i32,
    progress: Progress,
    replies: Seq<Column>,
)
    ensures
        ({
            let offsets = reader.metadata().batch_offsets@;
            let job = Job {
                fields: reader.projection().fields@,
                batch_id,
                pages: reader.page_table()@,
                fragment_id: reader.fragment_id(),
                batch_offset: offsets[batch_id as int],
                with_row_id: reader.returns_row_ids(),
            };
            if 0 <= batch_id < offsets.len() {
                &&& reader.starts(batch_id, progress) <==> progress.is_progress(job, Seq::empty())
                &&& reader.job(batch_id, offsets[batch_id as int]) == job
                &&& reader.outcome(batch_id, replies) == batch_outcome(job, replies)
            } else {
                &&& reader.starts(batch_id, progress) <==> {
                    &&& progress matches Progress::Failed(error)
                    &&& error@ == ErrorView::IO(missing_batch_message(batch_id))
                }
                &&& reader.outcome(batch_id, replies) == Outcome::Failed(
                    ErrorView::IO(missing_batch_message(batch_id)),
                )
            }
        }),
{
}

/// The number that decimal digits stand for.
pub open spec fn number(text: Seq<char>) -> int
    decreases text.len(),
{
    if text.len() == 0 {
        0
    } else {
        number(text.drop_last()) * 10 + (text.last() as int - '0' as int)
    }
}

/// The digits of a number are decimal digits, without a leading zero but for zero itself, and
/// stand for the number.
pub proof fn law_digits(n: nat)
    ensures
        digits(n).len() > 0,
        forall|i: int| 0 <= i < digits(n).len() ==> '0' <= #[trigger] digits(n)[i] <= '9',
        digits(n)[0] == '0' ==> n == 0,
        number(digits(n)) == n,
        digits(n).last() as int == '0' as int + n % 10,
        n < 10 ==> digits(n).len() == 1,
        n >= 10 ==> digits(n).drop_last() == digits(n / 10),
    decreases n,
{
    reveal_with_fuel(number, 2);
    if n < 10 {
        assert(digits(n).drop_last() =~= Seq::<char>::empty());
        assert(digits(n).last() as int == n + '0' as int);
    } else {
        law_digits(n / 10);
        let before = digits(n / 10);
        assert(digits(n).drop_last() =~= before);
        assert(digits(n).last() as int == n % 10 + '0' as int);
        assert(digits(n)[0] == before[0]);
        assert forall|i: int| 0 <= i < digits(n).len() implies '0' <= #[trigger] digits(n)[i]
            <= '9' by {
            if i < before.len() {
                assert(digits(n)[i] == before[i]);
            }
        }
    }
}

/// A number in decimal is read back as the number: it is its digits, after a minus sign where it
/// is negative.
pub proof fn law_decimal(n: int)
    ensures
        n >= 0 ==> decimal(n) == digits(n as nat) && number(decimal(n)) == n,
        n < 0 ==> {
            &&& decimal(n).len() > 0
            &&& decimal(n)[0] == '-'
            &&& decimal(n).skip(1) == digits((-n) as nat)
            &&& number(decimal(n).skip(1)) == -n
        },
{
    if n >= 0 {
        law_digits(n as nat);
    } else {
        law_digits((-n) as nat);
        assert(decimal(n).skip(1) =~= digits((-n) as nat));
    }
}

/// What is said of a missing batch or page names it: the batch by its id, the page by the name
/// and id of its field and by its batch.
pub proof fn law_messages(name: Seq<char>, field_id: i32, batch_id: i32)
    ensures
        missing_batch_message(batch_id) == "batch "@ + decimal(batch_id as int)
            + " does not exist"@,
        missing_page_message(name, field_id, batch_id) == "No page info found for field: "@ + name
            + ", field_id="@ + decimal(field_id as int) + " batch="@ + decimal(batch_id as int),
        item_name() == "item"@,
        row_id_name() == "_rowid"@,
{
}

/// An error stands for the text that it carries, or for the error of Arrow.
pub proof fn law_error(error: Error)
    ensures
        error matches Error::IO(message) ==> error@ == ErrorView::IO(message@),
        error matches Error::Arrow(arrow) ==> error@ == ErrorView::Arrow(arrow),
{
}

/// A tail is refused where it is shorter than sixteen bytes or does not end with the bytes of
/// `LANC`, and only there.
pub proof fn law_tail_error(tail: Seq<u8>)
    ensures
        tail.len() < 16 ==> tail_error(tail) == Some(
            ErrorView::IO("Invalid format: file size is smaller than 16 bytes"@),
        ),
        tail.len() >= 16 ==> {
            let n = tail.len() as int;
            let magic = {
                &&& tail[n - 4] == 0x4c
                &&& tail[n - 3] == 0x41
                &&& tail[n - 2] == 0x4e
                &&& tail[n - 1] == 0x43
            };
            &&& magic ==> tail_error(tail) is None
            &&& !magic ==> tail_error(tail) == Some(
                ErrorView::IO("Invalid format: magic number does not match"@),
            )
        },
        PREFETCH_SIZE == 65536,
{
    if tail.len() >= 4 {
        let end = tail.skip(tail.len() - 4);
        let n = tail.len() as int;
        assert(end[0] == tail[n - 4] && end[1] == tail[n - 3] && end[2] == tail[n - 2] && end[3]
            == tail[n - 1]);
        assert(MAGIC@.len() == 4);
        if end[0] == 0x4c && end[1] == 0x41 && end[2] == 0x4e && end[3] == 0x43 {
            assert(end =~= MAGIC@);
        }
    }
}

/// A number written in eight bytes, least significant byte first, is read back.
pub proof fn law_little_endian(bytes: Seq<u8>, n: u64)
    requires
        bytes.len() == 8,
        bytes[0] == n % 0x100,
        bytes[1] == (n / 0x100) % 0x100,
        bytes[2] == (n / 0x1_0000) % 0x100,
        bytes[3] == (n / 0x100_0000) % 0x100,
        bytes[4] == (n / 0x1_0000_0000) % 0x100,
        bytes[5] == (n / 0x100_0000_0000) % 0x100,
        bytes[6] == (n / 0x1_0000_0000_0000) % 0x100,
        bytes[7] == n / 0x100_0000_0000_0000,
    ensures
        little_endian(bytes) == n,
{
    let n1: u64 = n / 0x100;
    let n2: u64 = n / 0x1_0000;
    let n3: u64 = n / 0x100_0000;
    let n4: u64 = n / 0x1_0000_0000;
    let n5: u64 = n / 0x100_0000_0000;
    let n6: u64 = n / 0x1_0000_0000_0000;
    let n7: u64 = n / 0x100_0000_0000_0000;
    assert(n2 == n1 / 0x100) by {
        assert(n / 0x1_0000 == (n / 0x100) / 0x100) by (bit_vector);
    }
    assert(n3 == n2 / 0x100) by {
        assert(n / 0x100_0000 == (n / 0x1_0000) / 0x100) by (bit_vector);
    }
    assert(n4 == n3 / 0x100) by {
        assert(n / 0x1_0000_0000 == (n / 0x100_0000) / 0x100) by (bit_vector);
    }
    assert(n5 == n4 / 0x100) by {
        assert(n / 0x100_0000_0000 == (n / 0x1_0000_0000) / 0x100) by (bit_vector);
    }
    assert(n6 == n5 / 0x100) by {
        assert(n / 0x1_0000_0000_0000 == (n / 0x100_0000_0000) / 0x100) by (bit_vector);
    }
    assert(n7 == n6 / 0x100) by {
        assert(n / 0x100_0000_0000_0000 == (n / 0x1_0000_0000_0000) / 0x100) by (bit_vector);
    }
    assert(n == n1 * 0x100 + bytes[0]);
    assert(n1 == n2 * 0x100 + bytes[1]);
    assert(n2 == n3 * 0x100 + bytes[2]);
    assert(n3 == n4 * 0x100 + bytes[3]);
    assert(n4 == n5 * 0x100 + bytes[4]);
    assert(n5 == n6 * 0x100 + bytes[5]);
    assert(n6 == n7 * 0x100 + bytes[6]);
}

/// The manifest position is the number that stands in the eight bytes before the last eight, least
/// significant byte first, wherever it can be a position at all.
pub proof fn law_position(tail: Seq<u8>)
    requires
        tail.len() >= 16,
        little_endian(tail.subrange(tail.len() - 16, tail.len() - 8)) <= usize::MAX,
    ensures
        position_in(tail) == little_endian(tail.subrange(tail.len() - 16, tail.len() - 8)),
{
    let n: u64 = little_endian(tail.subrange(tail.len() - 16, tail.len() - 8)) as u64;
    assert((n as i64) as usize == n as usize) by (bit_vector);
    assert(n as i64 == if n < 0x8000_0000_0000_0000 {
        n as int
    } else {
        n - 0x1_0000_0000_0000_0000
    }) by (bit_vector);
}

/// A manifest lies within the tail where it has room for its length and for the end of the file,
/// and starts after the first byte of the tail.
pub proof fn law_within_tail(file_size: usize, tail_len: nat, position: usize)
    ensures
        within_tail(file_size, tail_len, position) <==> {
            &&& position + 4 + 16 <= file_size
            &&& file_size - tail_len < position
        },
{
}

/// A manifest that was written is read back. A file is written as anything at all, the length of
/// the manifest in four bytes, the manifest, the position of its length in eight bytes, least
/// significant byte first, a version in four bytes, and `LANC`. However long a tail of the file is
/// read, if it starts before that position, it is accepted, and the manifest is found in it.
pub proof fn law_manifest_round_trip(
    before: Seq<u8>,
    length: Seq<u8>,
    message: Seq<u8>,
    position: Seq<u8>,
    version: Seq<u8>,
    tail_len: int,
)
    requires
        length.len() == 4,
        version.len() == 4,
        position.len() == 8,
        ({
            let n = before.len() as int;
            &&& position[0] == n % 0x100
            &&& position[1] == (n / 0x100) % 0x100
            &&& position[2] == (n / 0x1_0000) % 0x100
            &&& position[3] == (n / 0x100_0000) % 0x100
            &&& position[4] == (n / 0x1_0000_0000) % 0x100
            &&& position[5] == (n / 0x100_0000_0000) % 0x100
            &&& position[6] == (n / 0x1_0000_0000_0000) % 0x100
            &&& position[7] == n / 0x100_0000_0000_0000
        }),
        before.len() + 20 + message.len() <= usize::MAX,
        20 + message.len() < tail_len <= before.len() + 20 + message.len(),
    ensures
        ({
            let magic = seq![0x4cu8, 0x41u8, 0x4eu8, 0x43u8];
            let file = before + length + message + position + version + magic;
            let tail = file.skip(file.len() - tail_len);
            &&& tail_error(tail) is None
            &&& position_in(tail) == before.len()
            &&& within_tail(file.len() as usize, tail.len(), position_in(tail))
            &&& manifest_bytes(file.len() as usize, tail) == message
        }),
{
    let magic = seq![0x4cu8, 0x41u8, 0x4eu8, 0x43u8];
    let file = before + length + message + position + version + magic;
    let tail = file.skip(file.len() - tail_len);
    let n = before.len() as u64;
    assert(tail.subrange(tail.len() - 16, tail.len() - 8) =~= position);
    law_little_endian(position, n);
    law_position(tail);
    law_tail_error(tail);
    assert(manifest_bytes(file.len() as usize, tail) =~= message);
}

} // verus!
