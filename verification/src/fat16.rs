//! The FAT-style volume: the fields of its boot sector, the translation of
//! cluster numbers to byte offsets, and the depth-first search of its
//! directories for a name. The format is read-only here.

use crate::fat16_dir::{find_file, search, Fat16Match};
use crate::filesystem::{Filesystem, FsError, LookupResult, UnlinkError};
use crate::names::{fold, fold_name};
use crate::utilities::{read_le_u16, readable, seek_read, to_array, u16_at, ByteStore};
use vstd::prelude::*;
use vstd::slice::slice_subrange;

verus! {

/// Number of bytes of the boot sector that are decoded.
pub const BOOT_SECTOR_LEN: usize = 54;

/// Size of one directory record.
pub const RECORD_SIZE: u64 = 32;

/// The attribute value of a fragment of a long name.
pub const ATTR_LONG_NAME: u8 = 0x0f;

/// The attribute value of the volume label.
pub const ATTR_VOLUME_LABEL: u8 = 0x08;

/// The attribute bit of a directory.
pub const ATTR_DIRECTORY: u8 = 0x10;

/// The first cluster number that names a cluster of the data region.
pub const FIRST_CLUSTER: u16 = 2;

/// The decoded boot sector of a FAT-style volume.
#[derive(Clone, Copy, Debug)]
pub struct Fat16 {
    pub volume_name: [u8; 8],
    pub sector_size: u16,
    pub sectors_per_cluster: u8,
    pub num_fats: u8,
    pub root_entries: u16,
    pub sectors_per_fat: u16,
    pub reserved_sectors: u16,
    pub volume_label: [u8; 11],
    pub total_sectors: u16,
}

/// Byte offset of the root directory: behind the reserved sectors and the
/// file allocation tables.
pub open spec fn root_directory_offset(m: Fat16) -> int {
    m.reserved_sectors * m.sector_size + m.num_fats * m.sectors_per_fat * m.sector_size
}

/// Byte offset of the data region: behind the root directory, which holds
/// `root_entries` records.
pub open spec fn data_region_offset(m: Fat16) -> int {
    root_directory_offset(m) + m.root_entries * RECORD_SIZE
}

/// Size of a cluster in bytes.
pub open spec fn cluster_size(m: Fat16) -> int {
    m.sectors_per_cluster * m.sector_size
}

/// Byte offset of the cluster `cluster_number`, where cluster 2 is the first
/// of the data region.
pub open spec fn cluster_offset_of(cluster_number: int, data_region: int, cluster_size: int) -> int {
    (cluster_number - 2) * cluster_size + data_region
}

/// Byte offset of the cluster `cluster_number` of the data region.
/// Clusters 0 and 1 are reserved and name no place.
pub fn cluster_byte_offset(cluster_number: u16, data_region_offset: u64, cluster_size: u64) -> (offset:
    u64)
    requires
        cluster_number >= FIRST_CLUSTER,
        cluster_offset_of(cluster_number as int, data_region_offset as int, cluster_size as int)
            <= u64::MAX,
    ensures
        offset == cluster_offset_of(
            cluster_number as int,
            data_region_offset as int,
            cluster_size as int,
        ),
{
    let index: u64 = (cluster_number - FIRST_CLUSTER) as u64;
    assert(index * cluster_size <= u64::MAX) by (nonlinear_arith)
        requires
            index * cluster_size + data_region_offset <= u64::MAX,
            0 <= data_region_offset,
    ;
    index * cluster_size + data_region_offset
}

impl Fat16 {
    /// True for the metadata of no volume: every field zero.
    pub open spec fn blank(&self) -> bool {
        &&& self.sector_size == 0
        &&& self.sectors_per_cluster == 0
        &&& self.num_fats == 0
        &&& self.root_entries == 0
        &&& self.sectors_per_fat == 0
        &&& self.reserved_sectors == 0
        &&& self.total_sectors == 0
        &&& self.volume_name@ =~= Seq::new(8, |i: int| 0u8)
        &&& self.volume_label@ =~= Seq::new(11, |i: int| 0u8)
    }

    /// Byte offset of the root directory.
    pub fn root_offset(&self) -> (offset: u64)
        ensures
            offset == root_directory_offset(*self),
            offset <= 0x101_0000_0000,
    {
        let sector: u64 = self.sector_size as u64;
        let reserved: u64 = self.reserved_sectors as u64;
        let fats: u64 = self.num_fats as u64;
        let per_fat: u64 = self.sectors_per_fat as u64;
        assert(reserved * sector <= 0xffff * 0xffff) by (nonlinear_arith)
            requires
                reserved <= 0xffff,
                sector <= 0xffff,
        ;
        assert(fats * per_fat <= 0xff * 0xffff) by (nonlinear_arith)
            requires
                fats <= 0xff,
                per_fat <= 0xffff,
        ;
        assert(fats * per_fat * sector <= 0xff * 0xffff * 0xffff) by (nonlinear_arith)
            requires
                fats * per_fat <= 0xff * 0xffff,
                sector <= 0xffff,
        ;
        reserved * sector + fats * per_fat * sector
    }

    /// Byte offset of the data region.
    pub fn data_offset(&self) -> (offset: u64)
        ensures
            offset == data_region_offset(*self),
            offset <= 0x102_0000_0000,
    {
        self.root_offset() + self.root_entries as u64 * RECORD_SIZE
    }

    /// Size of a cluster in bytes.
    pub fn cluster_bytes(&self) -> (size: u64)
        ensures
            size == cluster_size(*self),
            size <= 0xff * 0xffff,
    {
        let per_cluster: u64 = self.sectors_per_cluster as u64;
        let sector: u64 = self.sector_size as u64;
        assert(per_cluster * sector <= 0xff * 0xffff) by (nonlinear_arith)
            requires
                per_cluster <= 0xff,
                sector <= 0xffff,
        ;
        per_cluster * sector
    }

    /// Byte offset of a cluster of this volume.
    pub fn cluster_offset(&self, cluster_number: u16) -> (offset: u64)
        requires
            cluster_number >= FIRST_CLUSTER,
        ensures
            offset == cluster_offset_of(
                cluster_number as int,
                data_region_offset(*self),
                cluster_size(*self),
            ),
    {
        let size: u64 = self.cluster_bytes();
        let region: u64 = self.data_offset();
        assert((cluster_number - 2) * size <= 0xffff * (0xff * 0xffff)) by (nonlinear_arith)
            requires
                2 <= cluster_number <= 0xffff,
                size <= 0xff * 0xffff,
        ;
        cluster_byte_offset(cluster_number, region, size)
    }
}

/// What a search reports of a matched record: the size of the file and the
/// byte offset of its first cluster. A file without a cluster of the data
/// region has no place to report.
pub open spec fn report_of(m: Fat16, found: Fat16Match) -> Result<LookupResult, FsError> {
    if found.starting_cluster < FIRST_CLUSTER {
        Err(FsError::UnsupportedAddressing)
    } else {
        Ok(
            LookupResult::Found {
                size: found.file_size as u64,
                location: cluster_offset_of(
                    found.starting_cluster as int,
                    data_region_offset(m),
                    cluster_size(m),
                ) as u64,
            },
        )
    }
}

impl Fat16 {
    /// Reports the size and the place of the file of a matched record.
    /// Fails with `UnsupportedAddressing` when its first cluster is one of
    /// the reserved clusters 0 and 1.
    pub fn report(&self, found: &Fat16Match) -> (r: Result<LookupResult, FsError>)
        ensures
            r == report_of(*self, *found),
    {
        if found.starting_cluster < FIRST_CLUSTER {
            return Err(FsError::UnsupportedAddressing);
        }
        Ok(
            LookupResult::Found {
                size: found.file_size as u64,
                location: self.cluster_offset(found.starting_cluster),
            },
        )
    }
}

impl Filesystem for Fat16 {
    /// Decoding fails on an image that ends before the decoded fields do.
    open spec fn load_error(&self, image: Seq<u8>) -> Option<FsError> {
        if !readable(image, 0, BOOT_SECTOR_LEN as int) {
            Some(FsError::IoError)
        } else {
            None
        }
    }

    /// True when the fields are those of the boot sector of `image`.
    open spec fn describes(&self, image: Seq<u8>) -> bool {
        &&& self.volume_name@ == image.subrange(3, 11)
        &&& self.sector_size == u16_at(image, 11)
        &&& self.sectors_per_cluster == image[13]
        &&& self.reserved_sectors == u16_at(image, 14)
        &&& self.num_fats == image[16]
        &&& self.root_entries == u16_at(image, 17)
        &&& self.total_sectors == u16_at(image, 19)
        &&& self.sectors_per_fat == u16_at(image, 22)
        &&& self.volume_label@ == image.subrange(43, 54)
    }

    /// The report of the first file that the search of the directory tree
    /// comes to under the folded name; an error of the search or of the
    /// report is the error of the lookup.
    open spec fn lookup(&self, image: Seq<u8>, name: Seq<u8>) -> Result<LookupResult, FsError> {
        match search(*self, image, fold(name)) {
            Err(e) => Err(e),
            Ok(None) => Ok(LookupResult::NotFound),
            Ok(Some(found)) => report_of(*self, found),
        }
    }

    /// The format is read-only.
    open spec fn unlinked(&self, image: Seq<u8>, name: Seq<u8>) -> Result<Seq<u8>, FsError> {
        Err(FsError::UnsupportedOperation)
    }

    /// Decodes the boot sector of the image into `self`. Fails with
    /// `IoError` when the image ends before the decoded fields do; `self`
    /// is then left as it was.
    fn load_info(&mut self, store: &ByteStore) -> (r: Result<(), FsError>) {
        let sector = seek_read(store, 0, BOOT_SECTOR_LEN)?;
        assert(sector@ =~= store@.subrange(0, 54));
        self.volume_name = to_array(slice_subrange(sector, 3, 11));
        self.sector_size = read_le_u16(slice_subrange(sector, 11, 13));
        self.sectors_per_cluster = sector[13];
        self.reserved_sectors = read_le_u16(slice_subrange(sector, 14, 16));
        self.num_fats = sector[16];
        self.root_entries = read_le_u16(slice_subrange(sector, 17, 19));
        self.total_sectors = read_le_u16(slice_subrange(sector, 19, 21));
        self.sectors_per_fat = read_le_u16(slice_subrange(sector, 22, 24));
        self.volume_label = to_array(slice_subrange(sector, 43, 54));
        proof {
            let image = store@;
            assert(sector@.subrange(3, 11) =~= image.subrange(3, 11));
            assert(sector@.subrange(43, 54) =~= image.subrange(43, 54));
            assert(sector@.subrange(11, 13) =~= image.subrange(11, 13));
            assert(sector@.subrange(14, 16) =~= image.subrange(14, 16));
            assert(sector@.subrange(17, 19) =~= image.subrange(17, 19));
            assert(sector@.subrange(19, 21) =~= image.subrange(19, 21));
            assert(sector@.subrange(22, 24) =~= image.subrange(22, 24));
        }
        Ok(())
    }

    /// Searches the directory tree from the root directory, depth first,
    /// for the first file that spells `name` up to ASCII case, and reports
    /// its size and the byte offset of its first cluster.
    fn locate(&self, store: &ByteStore, name: &str) -> (r: Result<LookupResult, FsError>) {
        let key: Vec<u8> = fold_name(name.as_bytes());
        match find_file(self, store, key.as_slice())? {
            None => Ok(LookupResult::NotFound),
            Some(found) => self.report(&found),
        }
    }

    /// Always fails with `UnsupportedOperation`, before the image is
    /// touched.
    fn unlink(&self, store: &mut ByteStore, name: &str) -> (r: Result<(), UnlinkError>) {
        Err(FsError::UnsupportedOperation)
    }

    /// With `delete_flag` fails as `unlink` does; without it searches as
    /// `locate` does.
    fn find(&self, store: &mut ByteStore, file_to_find: &str, delete_flag: bool) -> (r: Result<
        LookupResult,
        FsError,
    >) {
        if delete_flag {
            return Err(FsError::UnsupportedOperation);
        }
        self.locate(store, file_to_find)
    }
}

impl Default for Fat16 {
    /// The metadata of no volume: every field zero.
    fn default() -> (m: Fat16)
        ensures
            m.blank(),
    {
        Fat16 {
            volume_name: [0; 8],
            sector_size: 0,
            sectors_per_cluster: 0,
            num_fats: 0,
            root_entries: 0,
            sectors_per_fat: 0,
            reserved_sectors: 0,
            total_sectors: 0,
            volume_label: [0; 11],
        }
    }
}

} // verus!
