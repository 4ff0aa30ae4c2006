//! The directories of a FAT-style volume: records of 32 bytes, ended by a
//! record whose name is all zero, the names that they spell, and the
//! depth-first search of the directory tree for a name.

use crate::fat16::{
    cluster_offset_of, cluster_size, data_region_offset, root_directory_offset, Fat16,
    ATTR_DIRECTORY, ATTR_LONG_NAME, ATTR_VOLUME_LABEL, FIRST_CLUSTER, RECORD_SIZE,
};
use crate::filesystem::FsError;
use crate::names::{matches_key, same_bytes, trim, trim_bytes};
use crate::utilities::{
    le_u64, read_le_u16, read_le_u32, read_le_u64, readable, seek_read, to_array, u16_at, u32_at,
    ByteStore,
};
use vstd::prelude::*;
use vstd::slice::slice_subrange;

verus! {

/// The name field of the record at `at`.
pub open spec fn record_name(image: Seq<u8>, at: int) -> Seq<u8> {
    image.subrange(at, at + 8)
}

/// The extension field of the record at `at`.
pub open spec fn record_extension(image: Seq<u8>, at: int) -> Seq<u8> {
    image.subrange(at + 8, at + 11)
}

/// The attributes of the record at `at`.
pub open spec fn record_attributes(image: Seq<u8>, at: int) -> u8 {
    image[at + 11]
}

/// The number of the first cluster of the record at `at`.
pub open spec fn record_cluster(image: Seq<u8>, at: int) -> int {
    u16_at(image, at + 26)
}

/// The file size of the record at `at`.
pub open spec fn record_size(image: Seq<u8>, at: int) -> int {
    u32_at(image, at + 28)
}

/// True when the record at `at` ends its directory: its name field is all
/// zero.
pub open spec fn is_terminator(image: Seq<u8>, at: int) -> bool {
    record_name(image, at) == Seq::new(8, |i: int| 0u8)
}

/// True when the attributes are those of a directory.
pub open spec fn is_directory(attributes: u8) -> bool {
    attributes & 0x10 == 0x10
}

/// The name that the record at `at` spells: its name field, and, where
/// the extension field is not blank, a dot and the extension, both fields
/// trimmed.
pub open spec fn display_name(image: Seq<u8>, at: int) -> Seq<u8> {
    spell(record_name(image, at), record_extension(image, at))
}

/// The name that a name field and an extension field spell.
pub open spec fn spell(name: Seq<u8>, extension: Seq<u8>) -> Seq<u8> {
    if trim(extension).len() > 0 {
        trim(name) + seq![0x2eu8] + trim(extension)
    } else {
        trim(name)
    }
}

/// True when a record with these attributes and this name field is passed
/// over.
pub open spec fn passed_over(attributes: u8, name: Seq<u8>) -> bool {
    ||| attributes == 0x0f
    ||| attributes == 0x08
    ||| trim(name) == seq![0x2eu8]
    ||| trim(name) == seq![0x2eu8, 0x2eu8]
}

/// True when the search passes over the record at `at` without looking at
/// its name: a fragment of a long name, the volume label, and the entries
/// `.` and `..`.
pub open spec fn is_skipped(image: Seq<u8>, at: int) -> bool {
    passed_over(record_attributes(image, at), record_name(image, at))
}

/// True when the record at `at` is what the search looks for: it is not
/// passed over, it is no directory, and it spells `key` up to ASCII case.
pub open spec fn is_target(image: Seq<u8>, at: int, key: Seq<u8>) -> bool {
    &&& !is_skipped(image, at)
    &&& !is_directory(record_attributes(image, at))
    &&& crate::names::fold(display_name(image, at)) == key
}

/// Eight bytes decode to zero exactly when each of them is zero.
pub proof fn lemma_zero_name(b: Seq<u8>)
    requires
        b.len() == 8,
    ensures
        le_u64(b) == 0 <==> b == Seq::new(8, |i: int| 0u8),
{
    let zero = Seq::new(8, |i: int| 0u8);
    if le_u64(b) == 0 {
        assert(b[0] == 0 && b[1] == 0 && b[2] == 0 && b[3] == 0 && b[4] == 0 && b[5] == 0 && b[6]
            == 0 && b[7] == 0);
        assert(b =~= zero);
    }
    if b == zero {
        assert(zero[0] == 0 && zero[1] == 0 && zero[2] == 0 && zero[3] == 0 && zero[4] == 0
            && zero[5] == 0 && zero[6] == 0 && zero[7] == 0);
    }
}

/// One record of a directory.
#[derive(Debug)]
pub struct DirEntry {
    pub name: [u8; 8],
    pub extension: [u8; 3],
    pub attributes: u8,
    pub file_size: u32,
    pub starting_cluster: u16,
}

impl DirEntry {
    /// True when the fields are those of the record of `image` at `at`.
    pub open spec fn decodes(&self, image: Seq<u8>, at: int) -> bool {
        &&& self.name@ == record_name(image, at)
        &&& self.extension@ == record_extension(image, at)
        &&& self.attributes == record_attributes(image, at)
        &&& self.file_size == record_size(image, at)
        &&& self.starting_cluster == record_cluster(image, at)
    }
}

impl Default for DirEntry {
    /// A record that ends a directory.
    fn default() -> (e: DirEntry)
        ensures
            e.name@ == Seq::new(8, |i: int| 0u8),
            e.extension@ == Seq::new(3, |i: int| 0u8),
            e.attributes == 0,
            e.file_size == 0,
            e.starting_cluster == 0,
    {
        DirEntry {
            name: [0; 8],
            extension: [0; 3],
            attributes: 0,
            file_size: 0,
            starting_cluster: 0,
        }
    }
}

impl DirEntry {
    /// Tells whether the record ends its directory.
    pub fn ends_directory(&self) -> (b: bool)
        ensures
            b == (self.name@ == Seq::new(8, |i: int| 0u8)),
    {
        proof {
            lemma_zero_name(self.name@);
        }
        read_le_u64(self.name.as_slice()) == 0
    }

    /// Tells whether the search passes over the record.
    pub fn is_passed_over(&self) -> (b: bool)
        ensures
            b == passed_over(self.attributes, self.name@),
    {
        if self.attributes == ATTR_LONG_NAME || self.attributes == ATTR_VOLUME_LABEL {
            return true;
        }
        let name: Vec<u8> = trim_bytes(self.name.as_slice());
        let one: [u8; 1] = [0x2e];
        let two: [u8; 2] = [0x2e, 0x2e];
        assert(one@ =~= seq![0x2eu8]);
        assert(two@ =~= seq![0x2eu8, 0x2eu8]);
        same_bytes(name.as_slice(), one.as_slice()) || same_bytes(name.as_slice(), two.as_slice())
    }

    /// Tells whether the record is a directory.
    pub fn is_dir(&self) -> (b: bool)
        ensures
            b == is_directory(self.attributes),
    {
        self.attributes & ATTR_DIRECTORY == ATTR_DIRECTORY
    }

    /// The name that the record spells.
    pub fn spelled(&self) -> (name: Vec<u8>)
        ensures
            name@ == spell(self.name@, self.extension@),
    {
        let mut name: Vec<u8> = trim_bytes(self.name.as_slice());
        let extension: Vec<u8> = trim_bytes(self.extension.as_slice());
        if extension.len() > 0 {
            name.push(0x2e);
            let ghost stem = name@;
            let mut i: usize = 0;
            while i < extension.len()
                invariant
                    i <= extension@.len(),
                    name@ == stem + extension@.subrange(0, i as int),
                decreases extension@.len() - i,
            {
                name.push(extension[i]);
                i = i + 1;
                assert(name@ =~= stem + extension@.subrange(0, i as int));
            }
            assert(extension@.subrange(0, extension@.len() as int) =~= extension@);
            assert(name@ =~= trim(self.name@) + seq![0x2eu8] + trim(self.extension@));
        }
        name
    }
}

/// Decodes the directory record at `at`. Fails with `IoError` exactly when
/// the image ends before the record does.
pub fn read_record(store: &ByteStore, at: u64) -> (r: Result<DirEntry, FsError>)
    ensures
        match r {
            Ok(e) => readable(store@, at as int, RECORD_SIZE as int) && e.decodes(
                store@,
                at as int,
            ),
            Err(e) => e == FsError::IoError && !readable(store@, at as int, RECORD_SIZE as int),
        },
{
    let record = seek_read(store, at, 32)?;
    let ghost image = store@;
    assert(forall|lo: int, hi: int|
        0 <= lo <= hi <= 32 ==> #[trigger] record@.subrange(lo, hi) == image.subrange(
            at + lo,
            at + hi,
        ));
    Ok(
        DirEntry {
            name: to_array(slice_subrange(record, 0, 8)),
            extension: to_array(slice_subrange(record, 8, 11)),
            attributes: record[11],
            file_size: read_le_u32(slice_subrange(record, 28, 32)),
            starting_cluster: read_le_u16(slice_subrange(record, 26, 28)),
        },
    )
}

/// A matched record.
#[derive(Clone, Copy, Debug)]
pub struct Fat16Match {
    /// Byte offset of the record in the image.
    pub entry_offset: u64,
    /// The number of the first cluster of the file.
    pub starting_cluster: u16,
    /// The size of the file in bytes.
    pub file_size: u32,
}

/// The outcome of one step of the search.
pub enum Step {
    /// The search has ended.
    Done(Result<Option<Fat16Match>, FsError>),
    /// The search goes on with these pending directories, each given by the
    /// offset of its next record, and these visited clusters.
    Next(Seq<u64>, Seq<u16>),
}

/// One step of the search: the record at the offset on top of the stack
/// either ends its directory, is passed over, is the target, which ends
/// the search, or is stepped over; a directory that is stepped over is
/// entered first, unless its first cluster was entered before.
pub open spec fn step(m: Fat16, image: Seq<u8>, key: Seq<u8>, stack: Seq<u64>, visited: Seq<u16>)
    -> Step {
    if stack.len() == 0 {
        Step::Done(Ok(None))
    } else {
        let at = stack.last() as int;
        let rest = stack.drop_last();
        if !readable(image, at, RECORD_SIZE as int) {
            Step::Done(Err(FsError::IoError))
        } else if is_terminator(image, at) {
            Step::Next(rest, visited)
        } else {
            let advanced = rest.push((at + RECORD_SIZE) as u64);
            let cluster = record_cluster(image, at);
            if is_skipped(image, at) {
                Step::Next(advanced, visited)
            } else if is_target(image, at, key) {
                Step::Done(
                    Ok(
                        Some(
                            Fat16Match {
                                entry_offset: at as u64,
                                starting_cluster: cluster as u16,
                                file_size: record_size(image, at) as u32,
                            },
                        ),
                    ),
                )
            } else if !is_directory(record_attributes(image, at)) {
                Step::Next(advanced, visited)
            } else if cluster < FIRST_CLUSTER {
                Step::Done(Err(FsError::UnsupportedAddressing))
            } else if visited.contains(cluster as u16) {
                Step::Next(advanced, visited)
            } else {
                Step::Next(
                    advanced.push(
                        cluster_offset_of(cluster, data_region_offset(m), cluster_size(m)) as u64,
                    ),
                    visited.push(cluster as u16),
                )
            }
        }
    }
}

/// Number of clusters that the search has not entered.
pub open spec fn unvisited(visited: Seq<u16>) -> nat {
    Set::<int>::new(|i: int| 0 <= i < 0x1_0000 && !visited.contains(i as u16)).len()
}

/// Number of bytes between the offset on top of the stack and the end of
/// the image.
pub open spec fn bytes_left(image: Seq<u8>, stack: Seq<u64>) -> nat {
    if stack.len() > 0 && stack.last() < image.len() {
        (image.len() - stack.last()) as nat
    } else {
        0
    }
}

/// Entering one more cluster leaves fewer clusters to enter.
pub proof fn lemma_visit_decreases(visited: Seq<u16>, cluster: u16)
    requires
        !visited.contains(cluster),
    ensures
        unvisited(visited.push(cluster)) < unvisited(visited),
{
    let all = vstd::set_lib::set_int_range(0, 0x1_0000);
    let before = Set::<int>::new(|i: int| 0 <= i < 0x1_0000 && !visited.contains(i as u16));
    let after = Set::<int>::new(
        |i: int| 0 <= i < 0x1_0000 && !visited.push(cluster).contains(i as u16),
    );
    vstd::set_lib::lemma_int_range(0, 0x1_0000);
    assert(before.subset_of(all));
    vstd::set_lib::lemma_len_subset(before, all);
    assert(before.contains(cluster as int));
    assert forall|i: int| after.contains(i) <==> before.remove(cluster as int).contains(i) by {
        if 0 <= i < 0x1_0000 {
            let x = i as u16;
            if visited.push(cluster).contains(x) {
                let k = choose|k: int|
                    0 <= k < visited.push(cluster).len() && visited.push(cluster)[k] == x;
                if k < visited.len() {
                    assert(visited[k] == x);
                }
            }
            if visited.contains(x) {
                let k = choose|k: int| 0 <= k < visited.len() && visited[k] == x;
                assert(visited.push(cluster)[k] == x);
            }
            if x == cluster {
                assert(visited.push(cluster)[visited.len() as int] == cluster);
            }
        }
    }
    assert(after =~= before.remove(cluster as int));
}

/// Every step that does not end the search brings it nearer to its end.
pub proof fn lemma_step_decreases(
    m: Fat16,
    image: Seq<u8>,
    key: Seq<u8>,
    stack: Seq<u64>,
    visited: Seq<u16>,
)
    requires
        image.len() <= u64::MAX,
    ensures
        match step(m, image, key, stack, visited) {
            Step::Done(_) => true,
            Step::Next(s, v) => {
                ||| unvisited(v) < unvisited(visited)
                ||| v == visited && s.len() < stack.len()
                ||| v == visited && s.len() == stack.len() && bytes_left(image, s) < bytes_left(
                    image,
                    stack,
                )
            },
        },
{
    if stack.len() > 0 {
        let at = stack.last() as int;
        if readable(image, at, RECORD_SIZE as int) && !is_terminator(image, at) {
            let cluster = record_cluster(image, at);
            if !is_skipped(image, at) && !is_target(image, at, key) && is_directory(
                record_attributes(image, at),
            ) && cluster >= FIRST_CLUSTER && !visited.contains(cluster as u16) {
                lemma_visit_decreases(visited, cluster as u16);
            }
        }
    }
}

/// The outcome of the search from the state `stack`, `visited`: the record
/// that ends it, `None` when every pending directory runs out, or the
/// error on which it fails. It is defined for the images whose offsets fit
/// 64 bits.
pub open spec fn walk(m: Fat16, image: Seq<u8>, key: Seq<u8>, stack: Seq<u64>, visited: Seq<u16>)
    -> Result<Option<Fat16Match>, FsError>
    decreases unvisited(visited), stack.len(), bytes_left(image, stack),
    when image.len() <= u64::MAX
    via walk_decreases
{
    match step(m, image, key, stack, visited) {
        Step::Done(r) => r,
        Step::Next(s, v) => walk(m, image, key, s, v),
    }
}

#[via_fn]
proof fn walk_decreases(m: Fat16, image: Seq<u8>, key: Seq<u8>, stack: Seq<u64>, visited: Seq<u16>) {
    lemma_step_decreases(m, image, key, stack, visited);
}

/// The outcome of the search of the whole volume for the folded name `key`,
/// from the root directory.
pub open spec fn search(m: Fat16, image: Seq<u8>, key: Seq<u8>) -> Result<
    Option<Fat16Match>,
    FsError,
> {
    walk(m, image, key, seq![root_directory_offset(m) as u64], Seq::<u16>::empty())
}

/// Tells whether `cluster` is among `visited`.
pub fn was_visited(visited: &Vec<u16>, cluster: u16) -> (b: bool)
    ensures
        b == visited@.contains(cluster),
{
    let mut i: usize = 0;
    while i < visited.len()
        invariant
            i <= visited@.len(),
            forall|k: int| 0 <= k < i ==> visited@[k] != cluster,
        decreases visited@.len() - i,
    {
        if visited[i] == cluster {
            return true;
        }
        i = i + 1;
    }
    false
}

/// Takes one step of the search. Returns the outcome when the step ends the
/// search, and otherwise leaves the next state in `stack` and `visited`.
pub fn search_step(
    fat16: &Fat16,
    store: &ByteStore,
    key: &[u8],
    stack: &mut Vec<u64>,
    visited: &mut Vec<u16>,
) -> (r: Option<Result<Option<Fat16Match>, FsError>>)
    ensures
        match step(*fat16, store@, key@, old(stack)@, old(visited)@) {
            Step::Done(outcome) => r == Some(outcome),
            Step::Next(s, v) => r is None && final(stack)@ == s && final(visited)@ == v,
        },
{
    proof {
        store.lemma_len_fits();
    }
    let at: u64 = match stack.pop() {
        None => { return Some(Ok(None)); },
        Some(at) => at,
    };
    let entry: DirEntry = match read_record(store, at) {
        Err(e) => { return Some(Err(e)); },
        Ok(entry) => entry,
    };
    if entry.ends_directory() {
        return None;
    }
    stack.push(at + RECORD_SIZE);
    if entry.is_passed_over() {
        return None;
    }
    let is_dir: bool = entry.is_dir();
    if !is_dir {
        let name: Vec<u8> = entry.spelled();
        if matches_key(name.as_slice(), key) {
            return Some(
                Ok(
                    Some(
                        Fat16Match {
                            entry_offset: at,
                            starting_cluster: entry.starting_cluster,
                            file_size: entry.file_size,
                        },
                    ),
                ),
            );
        }
        return None;
    }
    if entry.starting_cluster < FIRST_CLUSTER {
        return Some(Err(FsError::UnsupportedAddressing));
    }
    if was_visited(visited, entry.starting_cluster) {
        return None;
    }
    stack.push(fat16.cluster_offset(entry.starting_cluster));
    visited.push(entry.starting_cluster);
    None
}

/// Searches the directory tree, depth first and in the order in which the
/// records lie in their directories, for the first record that is no
/// directory and spells `key` up to ASCII case; `key` is a folded name.
/// Returns `None` when there is no such record. Fails with `IoError` when
/// a directory runs to the end of the image without a record that ends it,
/// and with `UnsupportedAddressing` on a directory in a reserved cluster.
pub fn find_file(fat16: &Fat16, store: &ByteStore, key: &[u8]) -> (r: Result<
    Option<Fat16Match>,
    FsError,
>)
    ensures
        r == search(*fat16, store@, key@),
{
    proof {
        store.lemma_len_fits();
    }
    let mut stack: Vec<u64> = Vec::new();
    stack.push(fat16.root_offset());
    let mut visited: Vec<u16> = Vec::new();
    assert(stack@ =~= seq![root_directory_offset(*fat16) as u64]);
    assert(visited@ =~= Seq::<u16>::empty());
    loop
        invariant
            store@.len() <= u64::MAX,
            walk(*fat16, store@, key@, stack@, visited@) == search(*fat16, store@, key@),
        decreases unvisited(visited@), stack@.len(), bytes_left(store@, stack@),
    {
        proof {
            lemma_step_decreases(*fat16, store@, key@, stack@, visited@);
        }
        match search_step(fat16, store, key, &mut stack, &mut visited) {
            Some(outcome) => { return outcome; },
            None => {},
        }
    }
}

} // verus!
