//! What holds of the search on a FAT-style volume.

use crate::fat16::Fat16;
use crate::fat16_dir::{
    bytes_left, is_target, lemma_step_decreases, record_cluster, record_size, search, step,
    unvisited, walk, Fat16Match, Step,
};
use crate::fat16::RECORD_SIZE;
use crate::filesystem::{Filesystem, FsError};
use crate::names::{eq_ignore_ascii_case, lemma_fold_decides_case_insensitive_equality};
use crate::utilities::readable;
use vstd::prelude::*;

verus! {

/// True when `found` is a record of the image that the search for `key`
/// accepts: a whole record that is not passed over, is no directory, and
/// spells the name looked for.
pub open spec fn is_match(image: Seq<u8>, key: Seq<u8>, found: Fat16Match) -> bool {
    &&& readable(image, found.entry_offset as int, RECORD_SIZE as int)
    &&& is_target(image, found.entry_offset as int, key)
    &&& found.starting_cluster == record_cluster(image, found.entry_offset as int)
    &&& found.file_size == record_size(image, found.entry_offset as int)
}

/// Whatever a search finds is a record that it accepts.
pub proof fn lemma_walk_finds_a_match(
    m: Fat16,
    image: Seq<u8>,
    key: Seq<u8>,
    stack: Seq<u64>,
    visited: Seq<u16>,
)
    requires
        image.len() <= u64::MAX,
    ensures
        walk(m, image, key, stack, visited) matches Ok(Some(found)) ==> is_match(
            image,
            key,
            found,
        ),
    decreases unvisited(visited), stack.len(), bytes_left(image, stack),
{
    lemma_step_decreases(m, image, key, stack, visited);
    match step(m, image, key, stack, visited) {
        Step::Done(r) => {},
        Step::Next(s, v) => {
            lemma_walk_finds_a_match(m, image, key, s, v);
        },
    }
}

/// Directory entries are never found: the record that a search of the
/// volume ends with is no directory, no volume label and no fragment of a
/// long name, and spells the name looked for up to ASCII case.
pub proof fn lemma_search_finds_a_match(m: Fat16, image: Seq<u8>, key: Seq<u8>)
    requires
        image.len() <= u64::MAX,
    ensures
        search(m, image, key) matches Ok(Some(found)) ==> is_match(image, key, found),
{
    lemma_walk_finds_a_match(
        m,
        image,
        key,
        seq![crate::fat16::root_directory_offset(m) as u64],
        Seq::<u16>::empty(),
    );
}

/// Matching is case-insensitive: two names that differ in the case of
/// ASCII letters only give the same result, whatever the image holds.
pub proof fn lemma_lookup_ignores_case(m: Fat16, image: Seq<u8>, a: Seq<u8>, b: Seq<u8>)
    requires
        eq_ignore_ascii_case(a, b),
    ensures
        m.lookup(image, a) == m.lookup(image, b),
{
    lemma_fold_decides_case_insensitive_equality(a, b);
}

/// The format is read-only: no name can be removed, whatever the image
/// holds.
pub proof fn lemma_unlink_is_unsupported(m: Fat16, image: Seq<u8>, name: Seq<u8>)
    ensures
        m.unlinked(image, name) == Err::<Seq<u8>, FsError>(FsError::UnsupportedOperation),
{
}

} // verus!
