//! Inspection of raw volume images in two on-disk formats, a FAT-style and an
//! ext2-style one, without mounting them: decoding the volume metadata,
//! finding a file by name in the directory tree, and, on the ext2-style
//! format, removing a directory entry in place.
//!
//! Every function is verified against a contract that is stated over the
//! image as a sequence of bytes.
//!
//! - `utilities` holds the backing store with its positioned reads and
//!   writes, `names` the matching of names without regard to ASCII case.
//! - `filesystem` holds the errors, the result of a search and the
//!   interface of a volume; `checker` and `file` tell the format of an image
//!   by its signature.
//! - `ext2`, `ext2_dir` and `ext2_unlink` are the ext2-style volume: its
//!   metadata and addresses, the search of its directories, and the removal
//!   of a record. `ext2_laws` and `ext2_removal_laws` prove what holds of
//!   them: that a removal keeps a directory block well formed and takes out
//!   one record only, that the removed name is gone and the others stay, that
//!   a directory is never found, and that case does not matter.
//! - `fat16`, `fat16_dir` and `fat16_laws` are the FAT-style volume, which
//!   is read-only.

pub mod checker;
pub mod ext2;
pub mod ext2_dir;
pub mod ext2_laws;
pub mod ext2_removal_laws;
pub mod ext2_unlink;
pub mod fat16;
pub mod fat16_dir;
pub mod fat16_laws;
pub mod file;
pub mod filesystem;
pub mod names;
pub mod utilities;
