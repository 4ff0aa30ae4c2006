//! Telling the format of a volume by its signature, and the volume of
//! either format behind one interface.

use crate::ext2::Ext2;
use crate::fat16::Fat16;
use crate::file::{detected_flag, EXT2_FLAG, FAT16_FLAG, FILE_ERROR_FLAG};
use crate::filesystem::{Filesystem, FsError, LookupResult, UnlinkError};
use crate::utilities::ByteStore;
use vstd::prelude::*;

verus! {

/// A volume of one of the two formats.
#[derive(Clone, Copy, Debug)]
pub enum Volume {
    Ext2Volume(Ext2),
    Fat16Volume(Fat16),
}

/// Tells the format of the image by its signature and returns a volume of
/// that format whose metadata are still to be loaded; an image with
/// neither signature is rejected with `None`. Where both signatures are
/// there, the magic number of the ext2-style superblock decides.
pub fn check_file(store: &ByteStore) -> (r: Option<Volume>)
    ensures
        match r {
            Some(Volume::Ext2Volume(m)) => detected_flag(store@) == EXT2_FLAG && m.blank(),
            Some(Volume::Fat16Volume(m)) => detected_flag(store@) == FAT16_FLAG && m.blank(),
            None => detected_flag(store@) == FILE_ERROR_FLAG,
        },
{
    let flag: i8 = crate::file::check_file(store);
    if flag == EXT2_FLAG {
        Some(Volume::Ext2Volume(Ext2::default()))
    } else if flag == FAT16_FLAG {
        Some(Volume::Fat16Volume(Fat16::default()))
    } else {
        None
    }
}

impl Filesystem for Volume {
    open spec fn load_error(&self, image: Seq<u8>) -> Option<FsError> {
        match self {
            Volume::Ext2Volume(m) => m.load_error(image),
            Volume::Fat16Volume(m) => m.load_error(image),
        }
    }

    open spec fn describes(&self, image: Seq<u8>) -> bool {
        match self {
            Volume::Ext2Volume(m) => m.describes(image),
            Volume::Fat16Volume(m) => m.describes(image),
        }
    }

    open spec fn lookup(&self, image: Seq<u8>, name: Seq<u8>) -> Result<LookupResult, FsError> {
        match self {
            Volume::Ext2Volume(m) => m.lookup(image, name),
            Volume::Fat16Volume(m) => m.lookup(image, name),
        }
    }

    open spec fn unlinked(&self, image: Seq<u8>, name: Seq<u8>) -> Result<Seq<u8>, FsError> {
        match self {
            Volume::Ext2Volume(m) => m.unlinked(image, name),
            Volume::Fat16Volume(m) => m.unlinked(image, name),
        }
    }

    /// Decodes the metadata of the format of `self`; the format stays.
    fn load_info(&mut self, store: &ByteStore) -> (r: Result<(), FsError>)
        ensures
            (*final(self) is Ext2Volume) == (*old(self) is Ext2Volume),
    {
        match self {
            Volume::Ext2Volume(m) => m.load_info(store),
            Volume::Fat16Volume(m) => m.load_info(store),
        }
    }

    fn locate(&self, store: &ByteStore, name: &str) -> (r: Result<LookupResult, FsError>) {
        match self {
            Volume::Ext2Volume(m) => m.locate(store, name),
            Volume::Fat16Volume(m) => m.locate(store, name),
        }
    }

    fn unlink(&self, store: &mut ByteStore, name: &str) -> (r: Result<(), UnlinkError>) {
        match self {
            Volume::Ext2Volume(m) => m.unlink(store, name),
            Volume::Fat16Volume(m) => m.unlink(store, name),
        }
    }

    fn find(&self, store: &mut ByteStore, file_to_find: &str, delete_flag: bool) -> (r: Result<
        LookupResult,
        FsError,
    >) {
        match self {
            Volume::Ext2Volume(m) => m.find(store, file_to_find, delete_flag),
            Volume::Fat16Volume(m) => m.find(store, file_to_find, delete_flag),
        }
    }
}

} // verus!
