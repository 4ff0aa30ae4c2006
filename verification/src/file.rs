//! The signatures of the two formats, and the fields of the boot sector and
//! of the superblock as the bytes that the image holds.

use crate::ext2::{block_size_for, MAX_LOG_BLOCK_SIZE};
use crate::filesystem::FsError;
use crate::utilities::{
    read_le_u32, read_u16_at, readable, seek_read, to_array, u16_at, u32_at, ByteStore,
};
use vstd::arithmetic::power2::pow2;
use vstd::prelude::*;
use vstd::slice::slice_subrange;

verus! {

/// The flag of an ext2-style volume.
pub const EXT2_FLAG: i8 = 1;

/// The flag of a FAT-style volume.
pub const FAT16_FLAG: i8 = 2;

/// The flag of an image of neither format.
pub const FILE_ERROR_FLAG: i8 = -1;

/// Byte offset of the count of sectors per file allocation table, which is
/// 16 on the FAT-style volumes that are accepted.
pub const FAT16_SIGNATURE_OFFSET: u64 = 22;

/// Byte offset of the magic number of the ext2-style superblock.
pub const EXT2_SIGNATURE_OFFSET: u64 = 1080;

/// The magic number of the ext2-style superblock.
pub const EXT2_MAGIC: u16 = 0xef53;

/// The flag of the format whose signature `image` bears. Both signature
/// fields have to lie within the image; the magic number of the ext2-style
/// superblock goes before the weaker signature of the FAT-style format.
pub open spec fn detected_flag(image: Seq<u8>) -> i8 {
    if !readable(image, EXT2_SIGNATURE_OFFSET as int, 2) {
        FILE_ERROR_FLAG
    } else if u16_at(image, EXT2_SIGNATURE_OFFSET as int) == EXT2_MAGIC {
        EXT2_FLAG
    } else if u16_at(image, FAT16_SIGNATURE_OFFSET as int) == 16 {
        FAT16_FLAG
    } else {
        FILE_ERROR_FLAG
    }
}

/// Tells the format of the image by its signature.
pub fn check_file(store: &ByteStore) -> (flag: i8)
    ensures
        flag == detected_flag(store@),
{
    let fat: u16 = match read_u16_at(store, FAT16_SIGNATURE_OFFSET, 0) {
        Err(_) => { return FILE_ERROR_FLAG; },
        Ok(v) => v,
    };
    let ext2: u16 = match read_u16_at(store, EXT2_SIGNATURE_OFFSET, 0) {
        Err(_) => { return FILE_ERROR_FLAG; },
        Ok(v) => v,
    };
    if ext2 == EXT2_MAGIC {
        EXT2_FLAG
    } else if fat == 16 {
        FAT16_FLAG
    } else {
        FILE_ERROR_FLAG
    }
}

/// The number that a field of two bytes holds: with `high_byte_first` the
/// first byte counts 256 times, without it the second does.
pub fn to_u16(to_convert: &[u8; 2], high_byte_first: bool) -> (v: u16)
    ensures
        high_byte_first ==> v == 0x100 * to_convert@[0] + to_convert@[1],
        !high_byte_first ==> v == to_convert@[0] + 0x100 * to_convert@[1],
{
    if high_byte_first {
        to_convert[0] as u16 * 0x100 + to_convert[1] as u16
    } else {
        to_convert[1] as u16 * 0x100 + to_convert[0] as u16
    }
}

/// The fields of the boot sector of a FAT-style volume, as stored.
#[derive(Clone, Copy, Debug)]
pub struct Fat16Struct {
    pub volume_name: [u8; 8],
    pub sector_size: [u8; 2],
    pub sectors_per_cluster: [u8; 1],
    pub num_fats: [u8; 1],
    pub root_entries: [u8; 2],
    pub sectors_per_fat: [u8; 2],
    pub reserved_sectors: [u8; 2],
    pub volume_label: [u8; 11],
}

impl Fat16Struct {
    /// True when the fields are the bytes of the boot sector of `image`.
    pub open spec fn holds(&self, image: Seq<u8>) -> bool {
        &&& self.volume_name@ == image.subrange(3, 11)
        &&& self.sector_size@ == image.subrange(11, 13)
        &&& self.sectors_per_cluster@ == image.subrange(13, 14)
        &&& self.reserved_sectors@ == image.subrange(14, 16)
        &&& self.num_fats@ == image.subrange(16, 17)
        &&& self.root_entries@ == image.subrange(17, 19)
        &&& self.sectors_per_fat@ == image.subrange(22, 24)
        &&& self.volume_label@ == image.subrange(43, 54)
    }

    /// Copies the fields of the boot sector out of the image. Fails with
    /// `IoError` exactly when the image ends before the last of them.
    pub fn read(store: &ByteStore) -> (r: Result<Fat16Struct, FsError>)
        ensures
            match r {
                Ok(raw) => readable(store@, 0, 54) && raw.holds(store@),
                Err(e) => e == FsError::IoError && !readable(store@, 0, 54),
            },
    {
        let sector = seek_read(store, 0, 54)?;
        let ghost image = store@;
        assert(forall|lo: int, hi: int|
            0 <= lo <= hi <= 54 ==> #[trigger] sector@.subrange(lo, hi) == image.subrange(lo, hi));
        Ok(
            Fat16Struct {
                volume_name: to_array(slice_subrange(sector, 3, 11)),
                sector_size: to_array(slice_subrange(sector, 11, 13)),
                sectors_per_cluster: to_array(slice_subrange(sector, 13, 14)),
                num_fats: to_array(slice_subrange(sector, 16, 17)),
                root_entries: to_array(slice_subrange(sector, 17, 19)),
                sectors_per_fat: to_array(slice_subrange(sector, 22, 24)),
                reserved_sectors: to_array(slice_subrange(sector, 14, 16)),
                volume_label: to_array(slice_subrange(sector, 43, 54)),
            },
        )
    }
}

impl Default for Fat16Struct {
    /// Every byte zero.
    fn default() -> (raw: Fat16Struct)
        ensures
            raw.volume_name@ == Seq::new(8, |i: int| 0u8),
            raw.sector_size@ == Seq::new(2, |i: int| 0u8),
            raw.sectors_per_cluster@ == Seq::new(1, |i: int| 0u8),
            raw.num_fats@ == Seq::new(1, |i: int| 0u8),
            raw.root_entries@ == Seq::new(2, |i: int| 0u8),
            raw.sectors_per_fat@ == Seq::new(2, |i: int| 0u8),
            raw.reserved_sectors@ == Seq::new(2, |i: int| 0u8),
            raw.volume_label@ == Seq::new(11, |i: int| 0u8),
    {
        Fat16Struct {
            volume_name: [0; 8],
            sector_size: [0; 2],
            sectors_per_cluster: [0; 1],
            num_fats: [0; 1],
            root_entries: [0; 2],
            sectors_per_fat: [0; 2],
            reserved_sectors: [0; 2],
            volume_label: [0; 11],
        }
    }
}

/// The fields of the superblock of an ext2-style volume, as stored, with
/// the block size decoded and the count of free inodes of the first group.
#[derive(Clone, Copy, Debug)]
pub struct Ext2Struct {
    pub volume_name: [u8; 16],
    pub last_mounted: [u8; 4],
    pub last_check: [u8; 4],
    pub last_write: [u8; 4],
    pub num_inodes: [u8; 4],
    pub inodes_per_group: [u8; 4],
    pub first_inode: [u8; 4],
    pub free_inodes: [u8; 2],
    pub inode_size: [u8; 2],
    pub free_blocks_count: [u8; 4],
    pub block_size: u32,
    pub reserved_blocks_count: [u8; 4],
    pub num_blocks: [u8; 4],
    pub first_data_block: [u8; 4],
    pub blocks_per_group: [u8; 4],
    pub frags_per_group: [u8; 4],
}

/// Byte offset behind the last byte that `Ext2Struct::read` reads: the
/// count of free inodes in the first descriptor of the descriptor table
/// at offset 2048.
pub const EXT2_RAW_END: usize = 2064;

/// The error on which copying the fields of the superblock fails, if any.
pub open spec fn raw_superblock_error(image: Seq<u8>) -> Option<FsError> {
    if !readable(image, 0, EXT2_RAW_END as int) {
        Some(FsError::IoError)
    } else if u32_at(image, 1048) > MAX_LOG_BLOCK_SIZE {
        Some(FsError::ConfigError)
    } else {
        None
    }
}

impl Ext2Struct {
    /// True when the fields are the bytes that `image` holds.
    pub open spec fn holds(&self, image: Seq<u8>) -> bool {
        &&& self.num_inodes@ == image.subrange(1024, 1028)
        &&& self.num_blocks@ == image.subrange(1028, 1032)
        &&& self.reserved_blocks_count@ == image.subrange(1032, 1036)
        &&& self.free_blocks_count@ == image.subrange(1036, 1040)
        &&& self.first_data_block@ == image.subrange(1044, 1048)
        &&& self.block_size == 1024 * pow2(u32_at(image, 1048) as nat)
        &&& self.blocks_per_group@ == image.subrange(1056, 1060)
        &&& self.frags_per_group@ == image.subrange(1060, 1064)
        &&& self.inodes_per_group@ == image.subrange(1064, 1068)
        &&& self.last_mounted@ == image.subrange(1068, 1072)
        &&& self.last_write@ == image.subrange(1072, 1076)
        &&& self.last_check@ == image.subrange(1088, 1092)
        &&& self.first_inode@ == image.subrange(1108, 1112)
        &&& self.inode_size@ == image.subrange(1112, 1114)
        &&& self.volume_name@ == image.subrange(1144, 1160)
        &&& self.free_inodes@ == image.subrange(2062, 2064)
    }

    /// Copies the fields out of the image. Fails with `IoError` when the
    /// image ends before the last of them, and with `ConfigError` when the
    /// block size does not fit 32 bits.
    pub fn read(store: &ByteStore) -> (r: Result<Ext2Struct, FsError>)
        ensures
            match r {
                Ok(raw) => raw_superblock_error(store@) is None && raw.holds(store@),
                Err(e) => raw_superblock_error(store@) == Some(e),
            },
    {
        let head = seek_read(store, 0, EXT2_RAW_END)?;
        let ghost image = store@;
        assert(forall|lo: int, hi: int|
            0 <= lo <= hi <= 2064 ==> #[trigger] head@.subrange(lo, hi) == image.subrange(lo, hi));
        let log: u32 = read_le_u32(slice_subrange(head, 1048, 1052));
        if log > MAX_LOG_BLOCK_SIZE {
            return Err(FsError::ConfigError);
        }
        Ok(
            Ext2Struct {
                volume_name: to_array(slice_subrange(head, 1144, 1160)),
                last_mounted: to_array(slice_subrange(head, 1068, 1072)),
                last_check: to_array(slice_subrange(head, 1088, 1092)),
                last_write: to_array(slice_subrange(head, 1072, 1076)),
                num_inodes: to_array(slice_subrange(head, 1024, 1028)),
                inodes_per_group: to_array(slice_subrange(head, 1064, 1068)),
                first_inode: to_array(slice_subrange(head, 1108, 1112)),
                free_inodes: to_array(slice_subrange(head, 2062, 2064)),
                inode_size: to_array(slice_subrange(head, 1112, 1114)),
                free_blocks_count: to_array(slice_subrange(head, 1036, 1040)),
                block_size: block_size_for(log),
                reserved_blocks_count: to_array(slice_subrange(head, 1032, 1036)),
                num_blocks: to_array(slice_subrange(head, 1028, 1032)),
                first_data_block: to_array(slice_subrange(head, 1044, 1048)),
                blocks_per_group: to_array(slice_subrange(head, 1056, 1060)),
                frags_per_group: to_array(slice_subrange(head, 1060, 1064)),
            },
        )
    }
}

impl Default for Ext2Struct {
    /// Every byte zero, and a block size of zero.
    fn default() -> (raw: Ext2Struct)
        ensures
            raw.block_size == 0,
            raw.volume_name@ == Seq::new(16, |i: int| 0u8),
            raw.last_mounted@ == Seq::new(4, |i: int| 0u8),
            raw.last_check@ == Seq::new(4, |i: int| 0u8),
            raw.last_write@ == Seq::new(4, |i: int| 0u8),
            raw.num_inodes@ == Seq::new(4, |i: int| 0u8),
            raw.inodes_per_group@ == Seq::new(4, |i: int| 0u8),
            raw.first_inode@ == Seq::new(4, |i: int| 0u8),
            raw.free_inodes@ == Seq::new(2, |i: int| 0u8),
            raw.inode_size@ == Seq::new(2, |i: int| 0u8),
            raw.free_blocks_count@ == Seq::new(4, |i: int| 0u8),
            raw.reserved_blocks_count@ == Seq::new(4, |i: int| 0u8),
            raw.num_blocks@ == Seq::new(4, |i: int| 0u8),
            raw.first_data_block@ == Seq::new(4, |i: int| 0u8),
            raw.blocks_per_group@ == Seq::new(4, |i: int| 0u8),
            raw.frags_per_group@ == Seq::new(4, |i: int| 0u8),
    {
        Ext2Struct {
            volume_name: [0; 16],
            last_mounted: [0; 4],
            last_check: [0; 4],
            last_write: [0; 4],
            num_inodes: [0; 4],
            inodes_per_group: [0; 4],
            first_inode: [0; 4],
            free_inodes: [0; 2],
            inode_size: [0; 2],
            free_blocks_count: [0; 4],
            block_size: 0,
            reserved_blocks_count: [0; 4],
            num_blocks: [0; 4],
            first_data_block: [0; 4],
            blocks_per_group: [0; 4],
            frags_per_group: [0; 4],
        }
    }
}

} // verus!
