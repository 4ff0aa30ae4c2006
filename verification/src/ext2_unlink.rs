//! Removal of a directory record from its block on an ext2-style volume.
//!
//! A record that has a record before it in its block is absorbed by that
//! record, whose length grows by the length of the removed one. The first
//! record of a block is overwritten by the record that follows it, which
//! then spans both. Every condition is tested before the first byte is
//! written.

use crate::ext2::{data_block_offset_of, file_size_of, inode_offset_of, Ext2};
use crate::ext2_dir::{
    entry_name_length, entry_readable, entry_record_length, Ext2Match, ENTRY_HEADER,
};
use crate::filesystem::{FsError, LookupResult};
use crate::utilities::{
    read_u16_at, readable, seek_read, seek_write, splice, u16_le_bytes, ByteStore,
};
use vstd::prelude::*;

verus! {

/// What a search reports of the file that the matched record names: the
/// size that its inode states and the byte offset of its first data block.
pub open spec fn report_of(m: Ext2, image: Seq<u8>, found: Ext2Match) -> Result<
    LookupResult,
    FsError,
> {
    match inode_offset_of(m, image, found.inode_number) {
        Err(e) => Err(e),
        Ok(inode_offset) => match file_size_of(image, inode_offset) {
            Err(e) => Err(e),
            Ok(size) => match data_block_offset_of(m, image, inode_offset, 0) {
                Err(e) => Err(e),
                Ok(location) => Ok(LookupResult::Found { size, location }),
            },
        },
    }
}

/// The record that takes the place of a removed first record: the fixed
/// fields and the name of the record at `next`, with the record length `sum`.
pub open spec fn promoted_record(image: Seq<u8>, next: int, sum: u16) -> Seq<u8> {
    image.subrange(next, next + 4) + u16_le_bytes(sum) + image.subrange(
        next + 6,
        next + ENTRY_HEADER + entry_name_length(image, next),
    )
}

/// The image after the removal of the matched record, or the error on
/// which the removal is refused.
pub open spec fn removal(m: Ext2, image: Seq<u8>, found: Ext2Match) -> Result<Seq<u8>, FsError> {
    let end = found.entry_offset + found.record_length;
    match found.prev {
        Some(p) => {
            let field = found.block_offset + p.offset + 4;
            if p.offset + p.record_length != found.entry_offset || end > m.block_size
                || p.record_length + found.record_length > u16::MAX {
                Err(FsError::InvariantViolation)
            } else if !readable(image, field, 2) {
                Err(FsError::IoError)
            } else {
                Ok(
                    splice(
                        image,
                        field,
                        u16_le_bytes((p.record_length + found.record_length) as u16),
                    ),
                )
            }
        },
        None => {
            let at = found.block_offset + found.entry_offset;
            let next = found.block_offset + end;
            if end >= m.block_size {
                Err(FsError::InvariantViolation)
            } else if !entry_readable(image, next) {
                Err(FsError::IoError)
            } else if entry_record_length(image, next) < ENTRY_HEADER || ENTRY_HEADER
                + entry_name_length(image, next) > found.record_length || end
                + entry_record_length(image, next) > m.block_size || found.record_length
                + entry_record_length(image, next) > u16::MAX {
                Err(FsError::InvariantViolation)
            } else {
                Ok(
                    splice(
                        image,
                        at,
                        promoted_record(
                            image,
                            next,
                            (found.record_length + entry_record_length(image, next)) as u16,
                        ),
                    ),
                )
            }
        },
    }
}

/// The two bytes that hold `v` in little-endian order.
pub fn encode_u16(v: u16) -> (bytes: [u8; 2])
    ensures
        bytes@ == u16_le_bytes(v),
{
    let bytes: [u8; 2] = [(v % 0x100) as u8, (v / 0x100) as u8];
    assert(bytes@ =~= u16_le_bytes(v));
    bytes
}

impl Ext2 {
    /// Reports the size and the place of the file that a matched record
    /// names. Fails as the translation of its inode number and the reading
    /// of its inode do.
    pub fn report(&self, store: &ByteStore, found: &Ext2Match) -> (r: Result<
        LookupResult,
        FsError,
    >)
        ensures
            r == report_of(*self, store@, *found),
    {
        let inode_offset: u64 = self.inode_byte_offset(store, found.inode_number)?;
        let size: u64 = self.file_size(store, inode_offset)?;
        let location: u64 = self.data_block_byte_offset(store, inode_offset, 0)?;
        Ok(LookupResult::Found { size, location })
    }

    /// Removes the matched record from its block. With a record before it
    /// in the block, that record's length grows by the length of the
    /// removed one and nothing else is written. Without one, the record
    /// that follows is copied over the removed one and takes the sum of
    /// both lengths. Fails with `InvariantViolation`, before anything is
    /// written, when the removed record is the only one of its block, when
    /// the lengths do not fit the block or 16 bits, or when the record that
    /// follows does not fit the place of the removed one; and with `IoError`
    /// when the image ends before the bytes to read or to write.
    pub fn unlink_entry(&self, store: &mut ByteStore, found: &Ext2Match) -> (r: Result<
        (),
        FsError,
    >)
        ensures
            match removal(*self, old(store)@, *found) {
                Ok(image) => r is Ok && final(store)@ == image,
                Err(e) => r == Err::<(), FsError>(e) && final(store)@ == old(store)@,
            },
    {
        proof {
            store.lemma_len_fits();
        }
        let block_size: u64 = self.block_size as u64;
        let length: u64 = found.record_length as u64;
        let end: u64 = match found.entry_offset.checked_add(length) {
            None => { return Err(FsError::InvariantViolation); },
            Some(end) => end,
        };
        match found.prev {
            Some(p) => {
                let adjacent: bool = match p.offset.checked_add(p.record_length as u64) {
                    None => false,
                    Some(q) => q == found.entry_offset,
                };
                if !adjacent || end > block_size || p.record_length as u64 + length
                    > 0xffff {
                    return Err(FsError::InvariantViolation);
                }
                let sum: u16 = p.record_length + found.record_length;
                let field: u64 = match found.block_offset.checked_add(p.offset + 4) {
                    None => { return Err(FsError::IoError); },
                    Some(field) => field,
                };
                let bytes: [u8; 2] = encode_u16(sum);
                seek_write(store, field, bytes.as_slice())
            },
            None => {
                if end >= block_size {
                    return Err(FsError::InvariantViolation);
                }
                let next: u64 = match found.block_offset.checked_add(end) {
                    None => { return Err(FsError::IoError); },
                    Some(next) => next,
                };
                let header = seek_read(store, next, 8)?;
                let name_length: u8 = header[6];
                let tail = seek_read(store, next + 6, 2 + name_length as usize)?;
                let next_length: u16 = read_u16_at(store, next, 4)?;
                if (next_length as u64) < ENTRY_HEADER || ENTRY_HEADER + name_length as u64
                    > length || end + next_length as u64 > block_size || length
                    + next_length as u64 > 0xffff {
                    return Err(FsError::InvariantViolation);
                }
                let sum: u16 = found.record_length + next_length;
                let bytes: [u8; 2] = encode_u16(sum);
                let mut record: Vec<u8> = Vec::new();
                record.push(header[0]);
                record.push(header[1]);
                record.push(header[2]);
                record.push(header[3]);
                record.push(bytes[0]);
                record.push(bytes[1]);
                let mut i: usize = 0;
                while i < tail.len()
                    invariant
                        i <= tail@.len(),
                        record@ == header@.subrange(0, 4) + bytes@ + tail@.subrange(0, i as int),
                    decreases tail@.len() - i,
                {
                    record.push(tail[i]);
                    i = i + 1;
                    assert(record@ =~= header@.subrange(0, 4) + bytes@ + tail@.subrange(
                        0,
                        i as int,
                    ));
                }
                assert(tail@.subrange(0, tail@.len() as int) =~= tail@);
                assert(header@.subrange(0, 4) =~= old(store)@.subrange(
                    next as int,
                    next + 4,
                ));
                assert(record@ == promoted_record(old(store)@, next as int, sum));
                let at: u64 = found.block_offset + found.entry_offset;
                seek_write(store, at, record.as_slice())
            },
        }
    }
}

} // verus!
