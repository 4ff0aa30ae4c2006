//! The ext2-style volume: its superblock fields and the translation of inode
//! numbers and logical block indices to byte offsets in the image.

use crate::ext2_dir::{find_file, search};
use crate::ext2_unlink::{removal, report_of};
use crate::filesystem::{Filesystem, FsError, LookupResult, UnlinkError};
use crate::names::{fold, fold_name};
use crate::utilities::{
    read_le_u16, read_le_u32, read_u32_at, readable, seek_read, to_array, u16_at, u32_at,
    ByteStore,
};
use vstd::arithmetic::power2::{lemma2_to64, lemma_pow2_strictly_increases, pow2};
use vstd::bits::lemma_u32_shl_is_mul;
use vstd::prelude::*;
use vstd::slice::slice_subrange;

verus! {

/// Byte offset of the superblock in the image.
pub const SUPERBLOCK_OFFSET: u64 = 1024;

/// Number of bytes of the superblock that are decoded.
pub const SUPERBLOCK_LEN: usize = 136;

/// The largest block-size exponent for which `1024 << exponent` fits 32 bits.
pub const MAX_LOG_BLOCK_SIZE: u32 = 21;

/// Size of one block-group descriptor.
pub const GROUP_DESCRIPTOR_SIZE: u64 = 32;

/// Offset, within a block-group descriptor, of the first block of the
/// group's inode table.
pub const INODE_TABLE_FIELD: u64 = 8;

/// Offset, within an inode, of the file size.
pub const INODE_SIZE_FIELD: u64 = 4;

/// Offset, within an inode, of the count of 512-byte sectors in use.
pub const INODE_SECTORS_FIELD: u64 = 28;

/// Offset, within an inode, of the array of block pointers.
pub const INODE_BLOCKS_FIELD: u64 = 40;

/// Number of direct block pointers in an inode.
pub const DIRECT_BLOCKS: u64 = 12;

/// The inode of the root directory.
pub const ROOT_INODE: u32 = 2;

/// The decoded superblock of an ext2-style volume.
#[derive(Clone, Copy, Debug)]
pub struct Ext2 {
    pub volume_name: [u8; 16],
    pub last_mounted: [u8; 4],
    pub last_check: [u8; 4],
    pub last_write: [u8; 4],
    pub num_inodes: u32,
    pub inodes_per_group: u32,
    pub first_inode: u32,
    pub free_inodes: u32,
    pub inode_size: u16,
    pub free_blocks_count: u32,
    pub block_size: u32,
    pub s_log_block_size: u32,
    pub reserved_blocks_count: u32,
    pub num_blocks: u32,
    pub first_data_block: u32,
    pub blocks_per_group: u32,
    pub frags_per_group: u32,
}

/// The 32-bit field at offset `field` of the superblock of `image`.
pub open spec fn superblock_u32(image: Seq<u8>, field: int) -> int {
    u32_at(image, SUPERBLOCK_OFFSET + field)
}

/// The 16-bit field at offset `field` of the superblock of `image`.
pub open spec fn superblock_u16(image: Seq<u8>, field: int) -> int {
    u16_at(image, SUPERBLOCK_OFFSET + field)
}

/// The bytes from offset `from` to offset `to` of the superblock of `image`.
pub open spec fn superblock_bytes(image: Seq<u8>, from: int, to: int) -> Seq<u8> {
    image.subrange(SUPERBLOCK_OFFSET + from, SUPERBLOCK_OFFSET + to)
}

/// The error on which decoding the superblock of `image` fails, if any.
pub open spec fn superblock_error(image: Seq<u8>) -> Option<FsError> {
    if !readable(image, SUPERBLOCK_OFFSET as int, SUPERBLOCK_LEN as int) {
        Some(FsError::IoError)
    } else if superblock_u32(image, 24) > MAX_LOG_BLOCK_SIZE || superblock_u32(image, 40) == 0 {
        Some(FsError::ConfigError)
    } else {
        None
    }
}

impl Ext2 {
    /// The invariant of the metadata: the block size is the power of two,
    /// at least 1024, that the exponent gives, and a group holds at least
    /// one inode.
    pub open spec fn valid(&self) -> bool {
        &&& self.inodes_per_group > 0
        &&& self.s_log_block_size <= MAX_LOG_BLOCK_SIZE
        &&& self.block_size == 1024 * pow2(self.s_log_block_size as nat)
    }

    /// True for the metadata of no volume: every field zero.
    pub open spec fn blank(&self) -> bool {
        &&& self.num_inodes == 0
        &&& self.inodes_per_group == 0
        &&& self.first_inode == 0
        &&& self.free_inodes == 0
        &&& self.inode_size == 0
        &&& self.free_blocks_count == 0
        &&& self.block_size == 0
        &&& self.s_log_block_size == 0
        &&& self.reserved_blocks_count == 0
        &&& self.num_blocks == 0
        &&& self.first_data_block == 0
        &&& self.blocks_per_group == 0
        &&& self.frags_per_group == 0
        &&& self.volume_name@ =~= Seq::new(16, |i: int| 0u8)
        &&& self.last_mounted@ =~= Seq::new(4, |i: int| 0u8)
        &&& self.last_check@ =~= Seq::new(4, |i: int| 0u8)
        &&& self.last_write@ =~= Seq::new(4, |i: int| 0u8)
    }

    /// Tells whether the metadata meet their invariant.
    pub fn is_valid(&self) -> (b: bool)
        ensures
            b == self.valid(),
    {
        if self.inodes_per_group == 0 || self.s_log_block_size > MAX_LOG_BLOCK_SIZE {
            return false;
        }
        self.block_size == block_size_for(self.s_log_block_size)
    }

}

/// Byte offset of the block-group descriptor table: the block after the one
/// that holds the superblock.
pub open spec fn descriptor_table_offset(m: Ext2) -> int {
    (SUPERBLOCK_OFFSET as int / (m.block_size as int) + 1) * m.block_size
}

/// Byte offset of the inode `inode_number` in the inode table of its group.
pub open spec fn inode_offset_of(m: Ext2, image: Seq<u8>, inode_number: u32) -> Result<
    u64,
    FsError,
> {
    if !m.valid() {
        Err(FsError::ConfigError)
    } else if inode_number == 0 {
        Err(FsError::UnsupportedAddressing)
    } else {
        let local = (inode_number - 1) % (m.inodes_per_group as int);
        let group = (inode_number - 1) / (m.inodes_per_group as int);
        if (group + 1) * GROUP_DESCRIPTOR_SIZE > m.block_size {
            Err(FsError::UnsupportedAddressing)
        } else {
            let field = descriptor_table_offset(m) + group * GROUP_DESCRIPTOR_SIZE
                + INODE_TABLE_FIELD;
            if !readable(image, field, 4) {
                Err(FsError::IoError)
            } else {
                Ok((u32_at(image, field) * m.block_size + local * m.inode_size) as u64)
            }
        }
    }
}

/// Byte offset of the data block that the direct pointer `index` of the
/// inode at `inode_offset` names.
pub open spec fn data_block_offset_of(m: Ext2, image: Seq<u8>, inode_offset: u64, index: u64)
    -> Result<u64, FsError> {
    if index >= DIRECT_BLOCKS {
        Err(FsError::UnsupportedAddressing)
    } else if !readable(image, inode_offset + INODE_BLOCKS_FIELD + 4 * index, 4) {
        Err(FsError::IoError)
    } else {
        Ok((u32_at(image, inode_offset + INODE_BLOCKS_FIELD + 4 * index) * m.block_size) as u64)
    }
}

/// Number of data blocks of the inode at `inode_offset`: its count of
/// 512-byte sectors divided by the sectors of one block.
pub open spec fn data_block_count_of(m: Ext2, image: Seq<u8>, inode_offset: u64) -> Result<
    u64,
    FsError,
> {
    if m.block_size < 512 {
        Err(FsError::ConfigError)
    } else if !readable(image, inode_offset + INODE_SECTORS_FIELD, 4) {
        Err(FsError::IoError)
    } else {
        Ok((u32_at(image, inode_offset + INODE_SECTORS_FIELD) / (m.block_size as int / 512)) as u64)
    }
}

/// Size in bytes of the file whose inode lies at `inode_offset`.
pub open spec fn file_size_of(image: Seq<u8>, inode_offset: u64) -> Result<u64, FsError> {
    if !readable(image, inode_offset + INODE_SIZE_FIELD, 4) {
        Err(FsError::IoError)
    } else {
        Ok(u32_at(image, inode_offset + INODE_SIZE_FIELD) as u64)
    }
}

impl Ext2 {
    /// Byte offset of an inode: the first block of the inode table of its
    /// group, read from the group's descriptor, times the block size, plus
    /// the inode's index in the group times the inode size. Fails with
    /// `ConfigError` on metadata that break their invariant, with
    /// `UnsupportedAddressing` on inode 0 and on a group whose descriptor
    /// lies beyond the first block of the descriptor table, and with
    /// `IoError` when the image ends before the descriptor does.
    pub fn inode_byte_offset(&self, store: &ByteStore, inode_number: u32) -> (r: Result<
        u64,
        FsError,
    >)
        ensures
            r == inode_offset_of(*self, store@, inode_number),
    {
        if !self.is_valid() {
            return Err(FsError::ConfigError);
        }
        if inode_number == 0 {
            return Err(FsError::UnsupportedAddressing);
        }
        let local: u32 = (inode_number - 1) % self.inodes_per_group;
        let group: u32 = (inode_number - 1) / self.inodes_per_group;
        let block_size: u64 = self.block_size as u64;
        proof {
            lemma2_to64();
            if self.s_log_block_size < 21 {
                lemma_pow2_strictly_increases(self.s_log_block_size as nat, 21);
            }
            if 0 < self.s_log_block_size {
                lemma_pow2_strictly_increases(0, self.s_log_block_size as nat);
            }
            assert(1024 <= block_size <= 0x8000_0000) by (nonlinear_arith)
                requires
                    block_size == 1024 * pow2(self.s_log_block_size as nat),
                    1 <= pow2(self.s_log_block_size as nat) <= 0x20_0000,
            ;
        }
        if (group as u64 + 1) * GROUP_DESCRIPTOR_SIZE > block_size {
            return Err(FsError::UnsupportedAddressing);
        }
        let per_block: u64 = SUPERBLOCK_OFFSET / block_size;
        assert(per_block <= 1) by (nonlinear_arith)
            requires
                per_block == 1024int / (block_size as int),
                block_size >= 1024,
        ;
        assert((per_block + 1) * block_size <= 0x1_0000_0000) by (nonlinear_arith)
            requires
                per_block <= 1,
                block_size <= 0x8000_0000,
        ;
        let table: u64 = (per_block + 1) * block_size;
        let field: u64 = group as u64 * GROUP_DESCRIPTOR_SIZE + INODE_TABLE_FIELD;
        let first: u32 = read_u32_at(store, table, field)?;
        assert(first * block_size <= 0xffff_ffff * 0x8000_0000) by (nonlinear_arith)
            requires
                first <= 0xffff_ffff,
                block_size <= 0x8000_0000,
        ;
        assert(local * self.inode_size <= 0xffff_ffff * 0xffff) by (nonlinear_arith)
            requires
                local <= 0xffff_ffff,
                self.inode_size <= 0xffff,
        ;
        Ok(first as u64 * block_size + local as u64 * (self.inode_size as u64))
    }

    /// Byte offset of a data block of a file: the direct block pointer
    /// `logical_block_index` of the inode at `inode_offset`, times the block
    /// size. Fails with `UnsupportedAddressing` on an index of 12 or more,
    /// which would name an indirect block, and with `IoError` when the image
    /// ends before the pointer does.
    pub fn data_block_byte_offset(
        &self,
        store: &ByteStore,
        inode_offset: u64,
        logical_block_index: u64,
    ) -> (r: Result<u64, FsError>)
        ensures
            r == data_block_offset_of(*self, store@, inode_offset, logical_block_index),
    {
        if logical_block_index >= DIRECT_BLOCKS {
            return Err(FsError::UnsupportedAddressing);
        }
        let pointer: u32 = read_u32_at(
            store,
            inode_offset,
            INODE_BLOCKS_FIELD + 4 * logical_block_index,
        )?;
        assert(pointer * self.block_size <= 0xffff_ffff * 0xffff_ffff) by (nonlinear_arith)
            requires
                pointer <= 0xffff_ffff,
                self.block_size <= 0xffff_ffff,
        ;
        Ok(pointer as u64 * (self.block_size as u64))
    }

    /// Number of data blocks of the inode at `inode_offset`. Fails with
    /// `ConfigError` when a block is smaller than a sector, and with
    /// `IoError` when the image ends before the sector count does.
    pub fn data_block_count(&self, store: &ByteStore, inode_offset: u64) -> (r: Result<
        u64,
        FsError,
    >)
        ensures
            r == data_block_count_of(*self, store@, inode_offset),
    {
        if self.block_size < 512 {
            return Err(FsError::ConfigError);
        }
        let sectors: u32 = read_u32_at(store, inode_offset, INODE_SECTORS_FIELD)?;
        Ok((sectors / (self.block_size / 512)) as u64)
    }

    /// Size in bytes of the file whose inode lies at `inode_offset`. Fails
    /// with `IoError` when the image ends before the size field does.
    pub fn file_size(&self, store: &ByteStore, inode_offset: u64) -> (r: Result<u64, FsError>)
        ensures
            r == file_size_of(store@, inode_offset),
    {
        let size: u32 = read_u32_at(store, inode_offset, INODE_SIZE_FIELD)?;
        Ok(size as u64)
    }
}

impl Filesystem for Ext2 {
    /// The error on which decoding the superblock fails.
    open spec fn load_error(&self, image: Seq<u8>) -> Option<FsError> {
        superblock_error(image)
    }

    /// True when the fields are those of the superblock of `image`.
    open spec fn describes(&self, image: Seq<u8>) -> bool {
        &&& self.num_inodes == superblock_u32(image, 0)
        &&& self.num_blocks == superblock_u32(image, 4)
        &&& self.reserved_blocks_count == superblock_u32(image, 8)
        &&& self.free_blocks_count == superblock_u32(image, 12)
        &&& self.free_inodes == superblock_u32(image, 16)
        &&& self.first_data_block == superblock_u32(image, 20)
        &&& self.s_log_block_size == superblock_u32(image, 24)
        &&& self.block_size == 1024 * pow2(superblock_u32(image, 24) as nat)
        &&& self.blocks_per_group == superblock_u32(image, 32)
        &&& self.frags_per_group == superblock_u32(image, 36)
        &&& self.inodes_per_group == superblock_u32(image, 40)
        &&& self.last_mounted@ == superblock_bytes(image, 44, 48)
        &&& self.last_write@ == superblock_bytes(image, 48, 52)
        &&& self.last_check@ == superblock_bytes(image, 64, 68)
        &&& self.first_inode == superblock_u32(image, 84)
        &&& self.inode_size == superblock_u16(image, 88)
        &&& self.volume_name@ == superblock_bytes(image, 120, 136)
    }

    /// The report of the first file that the search of the directory tree
    /// comes to under the folded name; an error of the search or of the
    /// report is the error of the lookup.
    open spec fn lookup(&self, image: Seq<u8>, name: Seq<u8>) -> Result<LookupResult, FsError> {
        match search(*self, image, fold(name)) {
            Err(e) => Err(e),
            Ok(None) => Ok(LookupResult::NotFound),
            Ok(Some(found)) => report_of(*self, image, found),
        }
    }

    /// The image without the record that the lookup finds; the image
    /// itself where it finds none, and the error of the lookup or of the
    /// removal where one of them fails.
    open spec fn unlinked(&self, image: Seq<u8>, name: Seq<u8>) -> Result<Seq<u8>, FsError> {
        match search(*self, image, fold(name)) {
            Err(e) => Err(e),
            Ok(None) => Ok(image),
            Ok(Some(found)) => match report_of(*self, image, found) {
                Err(e) => Err(e),
                Ok(_) => removal(*self, image, found),
            },
        }
    }

    /// Decodes the superblock of the image into `self`. Fails with `IoError`
    /// when the image ends before the superblock does, and with
    /// `ConfigError` when the block size does not fit 32 bits or a group
    /// holds no inode; `self` is then left as it was.
    fn load_info(&mut self, store: &ByteStore) -> (r: Result<(), FsError>)
        ensures
            r is Ok ==> final(self).valid(),
    {
        let sb = seek_read(store, SUPERBLOCK_OFFSET, SUPERBLOCK_LEN)?;
        let ghost image = store@;
        assert(forall|lo: int, hi: int|
            0 <= lo <= hi <= 136 ==> #[trigger] sb@.subrange(lo, hi) == image.subrange(
                1024 + lo,
                1024 + hi,
            ));
        let log: u32 = read_le_u32(slice_subrange(sb, 24, 28));
        let inodes_per_group: u32 = read_le_u32(slice_subrange(sb, 40, 44));
        if log > MAX_LOG_BLOCK_SIZE || inodes_per_group == 0 {
            return Err(FsError::ConfigError);
        }
        self.num_inodes = read_le_u32(slice_subrange(sb, 0, 4));
        self.num_blocks = read_le_u32(slice_subrange(sb, 4, 8));
        self.reserved_blocks_count = read_le_u32(slice_subrange(sb, 8, 12));
        self.free_blocks_count = read_le_u32(slice_subrange(sb, 12, 16));
        self.free_inodes = read_le_u32(slice_subrange(sb, 16, 20));
        self.first_data_block = read_le_u32(slice_subrange(sb, 20, 24));
        self.s_log_block_size = log;
        self.block_size = block_size_for(log);
        self.blocks_per_group = read_le_u32(slice_subrange(sb, 32, 36));
        self.frags_per_group = read_le_u32(slice_subrange(sb, 36, 40));
        self.inodes_per_group = inodes_per_group;
        self.last_mounted = to_array(slice_subrange(sb, 44, 48));
        self.last_write = to_array(slice_subrange(sb, 48, 52));
        self.last_check = to_array(slice_subrange(sb, 64, 68));
        self.first_inode = read_le_u32(slice_subrange(sb, 84, 88));
        self.inode_size = read_le_u16(slice_subrange(sb, 88, 90));
        self.volume_name = to_array(slice_subrange(sb, 120, 136));
        Ok(())
    }

    /// Searches the directory tree from the root inode, depth first, for
    /// the first file named `name` up to ASCII case, and reports the size
    /// that its inode states and the byte offset of its first data block.
    fn locate(&self, store: &ByteStore, name: &str) -> (r: Result<LookupResult, FsError>) {
        let key: Vec<u8> = fold_name(name.as_bytes());
        match find_file(self, store, key.as_slice())? {
            None => Ok(LookupResult::NotFound),
            Some(found) => self.report(store, &found),
        }
    }

    /// Searches as `locate` does and removes the record that matched from
    /// its directory block. A name that is not found leaves the image as it
    /// was and is no error.
    fn unlink(&self, store: &mut ByteStore, name: &str) -> (r: Result<(), UnlinkError>) {
        let key: Vec<u8> = fold_name(name.as_bytes());
        match find_file(self, store, key.as_slice())? {
            None => Ok(()),
            Some(found) => {
                let _ = self.report(store, &found)?;
                self.unlink_entry(store, &found)
            },
        }
    }

    /// Searches once, reports the file found and, with `delete_flag`,
    /// removes its record.
    fn find(&self, store: &mut ByteStore, file_to_find: &str, delete_flag: bool) -> (r: Result<
        LookupResult,
        FsError,
    >) {
        let key: Vec<u8> = fold_name(file_to_find.as_bytes());
        match find_file(self, store, key.as_slice())? {
            None => Ok(LookupResult::NotFound),
            Some(found) => {
                let report: LookupResult = self.report(store, &found)?;
                if delete_flag {
                    self.unlink_entry(store, &found)?;
                }
                Ok(report)
            },
        }
    }
}

impl Default for Ext2 {
    /// The metadata of no volume: every field zero.
    fn default() -> (m: Ext2)
        ensures
            m.blank(),
            !m.valid(),
    {
        Ext2 {
            volume_name: [0; 16],
            last_mounted: [0; 4],
            last_check: [0; 4],
            last_write: [0; 4],
            num_inodes: 0,
            inodes_per_group: 0,
            first_inode: 0,
            free_inodes: 0,
            inode_size: 0,
            free_blocks_count: 0,
            block_size: 0,
            s_log_block_size: 0,
            reserved_blocks_count: 0,
            num_blocks: 0,
            first_data_block: 0,
            blocks_per_group: 0,
            frags_per_group: 0,
        }
    }
}

/// The block size that the exponent `log` of the superblock stands for.
pub fn block_size_for(log: u32) -> (size: u32)
    requires
        log <= MAX_LOG_BLOCK_SIZE,
    ensures
        size == 1024 * pow2(log as nat),
        1024 <= size <= 0x8000_0000,
{
    proof {
        lemma2_to64();
        if log < 21 {
            lemma_pow2_strictly_increases(log as nat, 21);
        }
        if 0 < log {
            lemma_pow2_strictly_increases(0, log as nat);
        }
        assert(1024 * pow2(log as nat) <= 0x8000_0000) by (nonlinear_arith)
            requires
                pow2(log as nat) <= 0x20_0000,
        ;
        assert(1024 * pow2(log as nat) >= 1024) by (nonlinear_arith)
            requires
                pow2(log as nat) >= 1,
        ;
        lemma_u32_shl_is_mul(1024, log);
    }
    1024u32 << log
}

} // verus!
