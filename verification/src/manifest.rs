//! Finding the manifest of a dataset in the tail of its file.
//!
//! A manifest file ends with sixteen bytes: the position of the manifest (eight bytes, little
//! endian), a version (four bytes) and the magic number (four bytes). At its position, the
//! manifest starts with four bytes for its length.

use crate::error::{Error, ErrorView};
use byteorder::{ByteOrder, LittleEndian};
use vstd::prelude::*;
use vstd::slice::slice_subrange;
use vstd::string::*;

verus! {

/// How much of the end of a manifest file is read at once.
pub const PREFETCH_SIZE: usize = 0x1_0000;

/// The magic number, `LANC`.
pub const MAGIC: [u8; 4] = [0x4c, 0x41, 0x4e, 0x43];

/// The number whose eight bytes stand in a sequence, least significant byte first.
pub open spec fn little_endian(bytes: Seq<u8>) -> int {
    bytes[0] + bytes[1] * 0x100 + bytes[2] * 0x1_0000 + bytes[3] * 0x100_0000 + bytes[4]
        * 0x1_0000_0000 + bytes[5] * 0x100_0000_0000 + bytes[6] * 0x1_0000_0000_0000 + bytes[7]
        * 0x100_0000_0000_0000
}

/// The signed number whose eight bytes start a sequence, least significant byte first, in two's
/// complement.
pub open spec fn signed_little_endian(bytes: Seq<u8>) -> int {
    if little_endian(bytes) < 0x8000_0000_0000_0000 {
        little_endian(bytes)
    } else {
        little_endian(bytes) - 0x1_0000_0000_0000_0000
    }
}

/// `LittleEndian::read_i64`: the signed number in the first eight bytes. It panics where there
/// are fewer.
#[verifier::external_body]
fn read_i64(bytes: &[u8]) -> (number: i64)
    requires
        bytes@.len() >= 8,
    ensures
        number == signed_little_endian(bytes@),
{
    LittleEndian::read_i64(bytes)
}

/// Whether bytes end with the magic number.
pub open spec fn ends_with_magic(bytes: Seq<u8>) -> bool {
    bytes.len() >= 4 && bytes.skip(bytes.len() - 4) == MAGIC@
}

/// The manifest position that the tail of a file holds.
pub open spec fn position_in(tail: Seq<u8>) -> usize {
    (signed_little_endian(tail.subrange(tail.len() - 16, tail.len() - 8)) as i64) as usize
}

/// What is wrong with the tail of a file, if anything is.
pub open spec fn tail_error(tail: Seq<u8>) -> Option<ErrorView> {
    if tail.len() < 16 {
        Some(ErrorView::IO("Invalid format: file size is smaller than 16 bytes"@))
    } else if !ends_with_magic(tail) {
        Some(ErrorView::IO("Invalid format: magic number does not match"@))
    } else {
        None
    }
}

/// Whether a manifest that starts at `position` of a file, and all that follows it, lies in the
/// last `tail_len` bytes of the file, with a byte to spare before it, and has room for its
/// length and for the end of the file.
pub open spec fn within_tail(file_size: usize, tail_len: nat, position: usize) -> bool {
    20 <= file_size - position < tail_len
}

/// The part of the tail that holds the manifest, without its length.
pub open spec fn manifest_bytes(file_size: usize, tail: Seq<u8>) -> Seq<u8> {
    tail.subrange(tail.len() - (file_size - position_in(tail)) + 4, tail.len() - 16)
}

/// The range of a manifest file to read first: the last [`PREFETCH_SIZE`] bytes, or all of a
/// shorter file.
pub fn manifest_range(file_size: usize) -> (range: (usize, usize))
    requires
        (file_size as i64) - PREFETCH_SIZE >= i64::MIN,
    ensures
        range.1 == file_size,
        range.0 == if PREFETCH_SIZE < file_size <= i64::MAX {
            file_size - PREFETCH_SIZE
        } else {
            0
        },
{
    assert(file_size > 0x7fff_ffff_ffff_ffff ==> (file_size as i64) < 0) by (bit_vector);
    let start: i64 = file_size as i64 - PREFETCH_SIZE as i64;
    if start > 0 {
        (start as usize, file_size)
    } else {
        (0, file_size)
    }
}

/// Whether `bytes` end with the magic number.
fn has_magic(bytes: &[u8]) -> (has: bool)
    ensures
        has == ends_with_magic(bytes@),
{
    let len = bytes.len();
    if len < 4 {
        return false;
    }
    let has = bytes[len - 4] == MAGIC[0] && bytes[len - 3] == MAGIC[1] && bytes[len - 2] == MAGIC[2]
        && bytes[len - 1] == MAGIC[3];
    let ghost end = bytes@.skip(len - 4);
    assert(end[0] == bytes@[len - 4] && end[1] == bytes@[len - 3] && end[2] == bytes@[len - 2]
        && end[3] == bytes@[len - 1]);
    if has {
        assert(end =~= MAGIC@);
    }
    has
}

/// The position of the manifest, from the tail of its file.
pub fn manifest_position(tail: &[u8]) -> (position: Result<usize, Error>)
    ensures
        position is Ok <==> tail_error(tail@) is None,
        position matches Ok(p) ==> p == position_in(tail@),
        position matches Err(e) ==> tail_error(tail@) == Some(e@),
{
    if tail.len() < 16 {
        return Err(
            Error::IO(String::from_str("Invalid format: file size is smaller than 16 bytes")),
        );
    }
    if !has_magic(tail) {
        return Err(Error::IO(String::from_str("Invalid format: magic number does not match")));
    }
    Ok(read_i64(slice_subrange(tail, tail.len() - 16, tail.len() - 8)) as usize)
}

/// The encoded manifest, from the size of its file and the tail that was read of it.
pub fn read_manifest(file_size: usize, tail: &[u8]) -> (message: Result<&[u8], Error>)
    requires
        tail_error(tail@) is None ==> within_tail(file_size, tail@.len(), position_in(tail@)),
    ensures
        message is Ok <==> tail_error(tail@) is None,
        message matches Ok(m) ==> m@ == manifest_bytes(file_size, tail@),
        message matches Err(e) ==> tail_error(tail@) == Some(e@),
{
    match manifest_position(tail) {
        Ok(position) => {
            let start = tail.len() - (file_size - position) + 4;
            Ok(slice_subrange(tail, start, tail.len() - 16))
        },
        Err(error) => Err(error),
    }
}

} // verus!
