//! The outcomes that every volume format reports.

use crate::utilities::ByteStore;
use vstd::prelude::*;
use vstd::string::StringSliceAdditionalSpecFns;

verus! {

/// Why an operation on a volume was given up.
#[derive(Clone, Copy, Debug, PartialEq, Eq, Structural)]
pub enum FsError {
    /// A positioned read or write reached beyond the end of the image.
    IoError,
    /// The volume metadata is degenerate, such as zero inodes per group.
    ConfigError,
    /// An indirect block pointer, or an inode or cluster number outside the
    /// directly addressable range.
    UnsupportedAddressing,
    /// A directory block breaks the record-length invariant, or removing the
    /// entry would leave its block without a usable entry.
    InvariantViolation,
    /// The format does not offer the operation.
    UnsupportedOperation,
}

/// The error of `unlink`: any of the errors of a volume.
pub type UnlinkError = FsError;

/// What a search by name reports.
#[derive(Clone, Copy, Debug, PartialEq, Eq, Structural)]
pub enum LookupResult {
    /// A file of that name exists: its size in bytes and the byte offset in
    /// the image at which its data starts.
    Found { size: u64, location: u64 },
    /// No entry with this name exists under the root.
    NotFound,
}

/// What a volume format offers: decoding its metadata, finding a file by
/// name, and removing the directory entry of a file.
///
/// The image is never written by `locate`, and `find` without the delete
/// flag leaves it as it was.
pub trait Filesystem: Sized {
    /// The error on which decoding the metadata of `image` fails, if any.
    spec fn load_error(&self, image: Seq<u8>) -> Option<FsError>;

    /// True when these are the metadata that `image` holds.
    spec fn describes(&self, image: Seq<u8>) -> bool;

    /// What the search of `image` for the file `name` reports.
    spec fn lookup(&self, image: Seq<u8>, name: Seq<u8>) -> Result<LookupResult, FsError>;

    /// The image after the removal of the directory entry of the file
    /// `name`, or the error on which the removal fails.
    spec fn unlinked(&self, image: Seq<u8>, name: Seq<u8>) -> Result<Seq<u8>, FsError>;

    /// Decodes the metadata of the image into `self`; on an error `self` is
    /// left as it was.
    fn load_info(&mut self, store: &ByteStore) -> (r: Result<(), FsError>)
        ensures
            match r {
                Ok(()) => old(self).load_error(store@) is None && final(self).describes(store@),
                Err(e) => old(self).load_error(store@) == Some(e) && *final(self) == *old(self),
            },
    ;

    /// Searches the directory tree for the file `name`, without regard to
    /// the case of ASCII letters.
    fn locate(&self, store: &ByteStore, name: &str) -> (r: Result<LookupResult, FsError>)
        ensures
            r == self.lookup(store@, name.spec_bytes()),
    ;

    /// Removes the directory entry of the file `name`. On an error the
    /// image is left as it was.
    fn unlink(&self, store: &mut ByteStore, name: &str) -> (r: Result<(), UnlinkError>)
        ensures
            match self.unlinked(old(store)@, name.spec_bytes()) {
                Ok(image) => r is Ok && final(store)@ == image,
                Err(e) => r == Err::<(), UnlinkError>(e) && final(store)@ == old(store)@,
            },
    ;

    /// Searches for the file `file_to_find` and, with `delete_flag`, removes
    /// its directory entry; reports what the search found.
    fn find(&self, store: &mut ByteStore, file_to_find: &str, delete_flag: bool) -> (r: Result<
        LookupResult,
        FsError,
    >)
        ensures
            !delete_flag ==> r == self.lookup(old(store)@, file_to_find.spec_bytes())
                && final(store)@ == old(store)@,
            delete_flag ==> match self.unlinked(old(store)@, file_to_find.spec_bytes()) {
                Ok(image) => r == self.lookup(old(store)@, file_to_find.spec_bytes())
                    && final(store)@ == image,
                Err(e) => r == Err::<LookupResult, FsError>(e) && final(store)@ == old(store)@,
            },
    ;
}

} // verus!
