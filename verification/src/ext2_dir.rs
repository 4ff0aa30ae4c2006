//! The directories of an ext2-style volume: the records of a directory
//! block, and the depth-first search of the directory tree for a name.
//!
//! A directory block is a list of records of variable length. Each record
//! states its own length, which is the distance to the next record, so the
//! records of a block are reached one after the other from its first byte:
//! a `BlockCursor` yields them one by one. The search is a machine over a
//! stack of pending directory scans; a directory whose inode was scanned
//! before is not scanned again.

use crate::ext2::{data_block_count_of, data_block_offset_of, inode_offset_of, Ext2, ROOT_INODE};
use crate::filesystem::FsError;
use crate::names::{fold, matches_key, same_bytes};
use crate::utilities::{read_u16_at, read_u32_at, readable, seek_read, u16_at, u32_at, ByteStore};
use vstd::prelude::*;
use vstd::slice::slice_to_vec;

verus! {

/// Size of the fixed fields of a directory record.
pub const ENTRY_HEADER: u64 = 8;

/// What a directory record says its inode is.
#[derive(Clone, Copy, Debug, PartialEq, Eq, Structural)]
pub enum EntryType {
    Unknown,
    RegularFile,
    Directory,
    Other,
}

/// The type that the type byte of a directory record stands for.
pub open spec fn entry_type_of(code: u8) -> EntryType {
    if code == 0 {
        EntryType::Unknown
    } else if code == 1 {
        EntryType::RegularFile
    } else if code == 2 {
        EntryType::Directory
    } else {
        EntryType::Other
    }
}

/// The inode number of the record at `at`.
pub open spec fn entry_inode(image: Seq<u8>, at: int) -> int {
    u32_at(image, at)
}

/// The record length of the record at `at`.
pub open spec fn entry_record_length(image: Seq<u8>, at: int) -> int {
    u16_at(image, at + 4)
}

/// The length of the name of the record at `at`.
pub open spec fn entry_name_length(image: Seq<u8>, at: int) -> int {
    image[at + 6] as int
}

/// The type of the record at `at`.
pub open spec fn entry_type(image: Seq<u8>, at: int) -> EntryType {
    entry_type_of(image[at + 7])
}

/// The name of the record at `at`.
pub open spec fn entry_name(image: Seq<u8>, at: int) -> Seq<u8> {
    image.subrange(at + 8, at + 8 + entry_name_length(image, at))
}

/// True when the fixed fields and the name of the record at `at` lie within
/// the image.
pub open spec fn entry_readable(image: Seq<u8>, at: int) -> bool {
    readable(image, at, ENTRY_HEADER as int) && readable(
        image,
        at + ENTRY_HEADER,
        entry_name_length(image, at),
    )
}

/// One record of a directory block.
#[derive(Debug)]
pub struct DirEntry {
    pub inode_number: u32,
    pub record_length: u16,
    pub name_length: u8,
    pub entry_type: EntryType,
    pub name: Vec<u8>,
}

impl DirEntry {
    /// True when the fields are those of the record of `image` at `at`.
    pub open spec fn decodes(&self, image: Seq<u8>, at: int) -> bool {
        &&& self.inode_number == entry_inode(image, at)
        &&& self.record_length == entry_record_length(image, at)
        &&& self.name_length == entry_name_length(image, at)
        &&& self.entry_type == entry_type(image, at)
        &&& self.name@ == entry_name(image, at)
    }
}

impl Default for DirEntry {
    /// A free record without a name.
    fn default() -> (e: DirEntry)
        ensures
            e.inode_number == 0,
            e.record_length == 0,
            e.name_length == 0,
            e.entry_type == EntryType::Unknown,
            e.name@.len() == 0,
    {
        DirEntry {
            inode_number: 0,
            record_length: 0,
            name_length: 0,
            entry_type: EntryType::Unknown,
            name: Vec::new(),
        }
    }
}

/// The type that the type byte of a directory record stands for.
pub fn decode_entry_type(code: u8) -> (t: EntryType)
    ensures
        t == entry_type_of(code),
{
    if code == 0 {
        EntryType::Unknown
    } else if code == 1 {
        EntryType::RegularFile
    } else if code == 2 {
        EntryType::Directory
    } else {
        EntryType::Other
    }
}

/// Decodes the directory record at `base + pos`. Fails with `IoError`
/// exactly when the image ends before its fixed fields or its name do.
pub fn fill_dir_entry(store: &ByteStore, base: u64, pos: u64) -> (r: Result<DirEntry, FsError>)
    ensures
        match r {
            Ok(e) => entry_readable(store@, base + pos) && e.decodes(store@, base + pos),
            Err(e) => e == FsError::IoError && !entry_readable(store@, base + pos),
        },
{
    proof {
        store.lemma_len_fits();
    }
    let at: u64 = match base.checked_add(pos) {
        None => { return Err(FsError::IoError); },
        Some(at) => at,
    };
    let header = seek_read(store, at, 8)?;
    let inode_number: u32 = read_u32_at(store, at, 0)?;
    let record_length: u16 = read_u16_at(store, at, 4)?;
    let name_length: u8 = header[6];
    let code: u8 = header[7];
    let name = match seek_read(store, at + 8, name_length as usize) {
        Ok(name) => name,
        Err(e) => { return Err(e); },
    };
    Ok(
        DirEntry {
            inode_number,
            record_length,
            name_length,
            entry_type: decode_entry_type(code),
            name: slice_to_vec(name),
        },
    )
}

/// The record before the current one in the same block.
#[derive(Clone, Copy, Debug)]
pub struct Preceding {
    /// Its byte offset within the block.
    pub offset: u64,
    /// Its record length.
    pub record_length: u16,
}

/// The place of a scan within a directory block.
#[derive(Clone, Copy, Debug)]
pub struct BlockCursor {
    /// Byte offset of the block in the image.
    pub base: u64,
    /// Bytes of the block consumed so far.
    pub pos: u64,
    /// The record that ends at `pos`, if `pos` is not the start of the block.
    pub prev: Option<Preceding>,
}

/// The scan of one directory that is under way.
#[derive(Clone, Copy, Debug)]
pub struct Scan {
    /// Byte offset of the inode of the directory.
    pub inode_offset: u64,
    /// Logical index of the next data block to enter.
    pub next_block: u64,
    /// Number of data blocks of the directory.
    pub block_count: u64,
    /// The place in the current block; `None` between two blocks.
    pub cursor: Option<BlockCursor>,
}

/// A matched record and how the search reached it.
#[derive(Clone, Copy, Debug)]
pub struct Ext2Match {
    /// The inode that the record names.
    pub inode_number: u32,
    /// Byte offset in the image of the block that holds the record.
    pub block_offset: u64,
    /// Byte offset of the record within its block.
    pub entry_offset: u64,
    /// The record length of the record.
    pub record_length: u16,
    /// The record before it in the same block; `None` for the first record.
    pub prev: Option<Preceding>,
}

/// The outcome of one step of the search.
pub enum Step {
    /// The search has ended.
    Done(Result<Option<Ext2Match>, FsError>),
    /// The search goes on with this stack of scans and these visited inodes.
    Next(Seq<Scan>, Seq<u32>),
}

/// The name `.`.
pub open spec fn dot() -> Seq<u8> {
    seq![0x2eu8]
}

/// The name `..`.
pub open spec fn dot_dot() -> Seq<u8> {
    seq![0x2eu8, 0x2eu8]
}

/// The name `lost+found`.
pub open spec fn lost_and_found() -> Seq<u8> {
    seq![0x6cu8, 0x6fu8, 0x73u8, 0x74u8, 0x2bu8, 0x66u8, 0x6fu8, 0x75u8, 0x6eu8, 0x64u8]
}

/// True for the names of directories that the search never enters.
pub open spec fn never_entered(name: Seq<u8>) -> bool {
    name == dot() || name == dot_dot() || name == lost_and_found()
}

/// True when the record at `at` is what the search looks for: it is in
/// use, it is no directory, and its name is `key` up to ASCII case.
pub open spec fn is_target(image: Seq<u8>, at: int, key: Seq<u8>) -> bool {
    &&& entry_inode(image, at) != 0
    &&& entry_type(image, at) != EntryType::Directory
    &&& fold(entry_name(image, at)) == key
}

/// True when the record at `at` names a directory that the search enters.
pub open spec fn is_descent(image: Seq<u8>, at: int, visited: Seq<u32>) -> bool {
    &&& entry_inode(image, at) != 0
    &&& entry_type(image, at) == EntryType::Directory
    &&& !never_entered(entry_name(image, at))
    &&& !visited.contains(entry_inode(image, at) as u32)
}

/// The scan of the directory `inode_number`, before its first block.
pub open spec fn open_directory(m: Ext2, image: Seq<u8>, inode_number: u32) -> Result<
    Scan,
    FsError,
> {
    match inode_offset_of(m, image, inode_number) {
        Err(e) => Err(e),
        Ok(inode_offset) => match data_block_count_of(m, image, inode_offset) {
            Err(e) => Err(e),
            Ok(block_count) => Ok(Scan { inode_offset, next_block: 0, block_count, cursor: None }),
        },
    }
}

/// The place behind the record at the place `c`, with that record as the
/// preceding one.
pub open spec fn behind(image: Seq<u8>, c: BlockCursor) -> BlockCursor {
    let length = entry_record_length(image, c.base + c.pos);
    BlockCursor {
        base: c.base,
        pos: (c.pos + length) as u64,
        prev: Some(Preceding { offset: c.pos, record_length: length as u16 }),
    }
}

/// What a scan of a block of `block_size` bytes yields at the place `c`:
/// nothing at the end of the block, the place behind the record that lies
/// there, or the error that the record is not to be read or is shorter
/// than its fixed fields.
pub open spec fn next_record(block_size: u32, image: Seq<u8>, c: BlockCursor) -> Result<
    Option<BlockCursor>,
    FsError,
> {
    if c.pos >= block_size {
        Ok(None)
    } else if !entry_readable(image, c.base + c.pos) {
        Err(FsError::IoError)
    } else if entry_record_length(image, c.base + c.pos) < ENTRY_HEADER {
        Err(FsError::InvariantViolation)
    } else {
        Ok(Some(behind(image, c)))
    }
}

/// The stack after the scan on top of it has stepped over the record at its
/// place.
pub open spec fn stepped_over(image: Seq<u8>, stack: Seq<Scan>) -> Seq<Scan> {
    let top = stack.last();
    stack.drop_last().push(
        Scan {
            inode_offset: top.inode_offset,
            next_block: top.next_block,
            block_count: top.block_count,
            cursor: Some(behind(image, top.cursor.unwrap())),
        },
    )
}

/// One step of the search: the scan on top of the stack leaves its
/// directory, enters its next block, leaves its block, or decodes the record
/// at its place. A record either is the target, which ends the search, or
/// is stepped over; a directory that is stepped over is entered first, unless
/// its name or its inode rules that out.
pub open spec fn step(m: Ext2, image: Seq<u8>, key: Seq<u8>, stack: Seq<Scan>, visited: Seq<u32>)
    -> Step {
    if stack.len() == 0 {
        Step::Done(Ok(None))
    } else {
        let top = stack.last();
        let rest = stack.drop_last();
        match top.cursor {
            None => if top.next_block >= top.block_count {
                Step::Next(rest, visited)
            } else {
                match data_block_offset_of(m, image, top.inode_offset, top.next_block) {
                    Err(e) => Step::Done(Err(e)),
                    Ok(base) => Step::Next(
                        rest.push(
                            Scan {
                                inode_offset: top.inode_offset,
                                next_block: (top.next_block + 1) as u64,
                                block_count: top.block_count,
                                cursor: Some(BlockCursor { base, pos: 0, prev: None }),
                            },
                        ),
                        visited,
                    ),
                }
            },
            Some(c) => match next_record(m.block_size, image, c) {
                Err(e) => Step::Done(Err(e)),
                Ok(None) => Step::Next(
                    rest.push(
                        Scan {
                            inode_offset: top.inode_offset,
                            next_block: top.next_block,
                            block_count: top.block_count,
                            cursor: None,
                        },
                    ),
                    visited,
                ),
                Ok(Some(_)) => {
                    let at = c.base + c.pos;
                    if is_target(image, at, key) {
                        Step::Done(
                            Ok(
                                Some(
                                    Ext2Match {
                                        inode_number: entry_inode(image, at) as u32,
                                        block_offset: c.base,
                                        entry_offset: c.pos,
                                        record_length: entry_record_length(image, at) as u16,
                                        prev: c.prev,
                                    },
                                ),
                            ),
                        )
                    } else if is_descent(image, at, visited) {
                        match open_directory(m, image, entry_inode(image, at) as u32) {
                            Err(e) => Step::Done(Err(e)),
                            Ok(scan) => Step::Next(
                                stepped_over(image, stack).push(scan),
                                visited.push(entry_inode(image, at) as u32),
                            ),
                        }
                    } else {
                        Step::Next(stepped_over(image, stack), visited)
                    }
                },
            },
        }
    }
}

/// Number of inodes that the search has not visited.
pub open spec fn unvisited(visited: Seq<u32>) -> nat {
    Set::<int>::new(|i: int| 0 <= i < 0x1_0000_0000 && !visited.contains(i as u32)).len()
}

/// Number of blocks that the scan on top of the stack has not entered.
pub open spec fn blocks_left(stack: Seq<Scan>) -> nat {
    if stack.len() > 0 && stack.last().next_block < stack.last().block_count {
        (stack.last().block_count - stack.last().next_block) as nat
    } else {
        0
    }
}

/// A bound on the steps that the scan on top of the stack takes within its
/// current block.
pub open spec fn bytes_left(m: Ext2, stack: Seq<Scan>) -> nat {
    if stack.len() > 0 {
        match stack.last().cursor {
            None => 0,
            Some(c) => if c.pos < m.block_size {
                (1 + m.block_size - c.pos) as nat
            } else {
                1
            },
        }
    } else {
        0
    }
}

/// Visiting one more inode leaves fewer inodes unvisited.
pub proof fn lemma_visit_decreases(visited: Seq<u32>, inode: u32)
    requires
        !visited.contains(inode),
    ensures
        unvisited(visited.push(inode)) < unvisited(visited),
{
    let all = vstd::set_lib::set_int_range(0, 0x1_0000_0000);
    let before = Set::<int>::new(|i: int| 0 <= i < 0x1_0000_0000 && !visited.contains(i as u32));
    let after = Set::<int>::new(
        |i: int| 0 <= i < 0x1_0000_0000 && !visited.push(inode).contains(i as u32),
    );
    vstd::set_lib::lemma_int_range(0, 0x1_0000_0000);
    assert(before.subset_of(all));
    vstd::set_lib::lemma_len_subset(before, all);
    assert(before.contains(inode as int));
    assert forall|i: int| after.contains(i) <==> before.remove(inode as int).contains(i) by {
        if 0 <= i < 0x1_0000_0000 {
            let x = i as u32;
            if visited.push(inode).contains(x) {
                let k = choose|k: int|
                    0 <= k < visited.push(inode).len() && visited.push(inode)[k] == x;
                if k < visited.len() {
                    assert(visited[k] == x);
                }
            }
            if visited.contains(x) {
                let k = choose|k: int| 0 <= k < visited.len() && visited[k] == x;
                assert(visited.push(inode)[k] == x);
            }
            if x == inode {
                assert(visited.push(inode)[visited.len() as int] == inode);
            }
        }
    }
    assert(after =~= before.remove(inode as int));
}

/// Every step that does not end the search brings it nearer to its end.
pub proof fn lemma_step_decreases(
    m: Ext2,
    image: Seq<u8>,
    key: Seq<u8>,
    stack: Seq<Scan>,
    visited: Seq<u32>,
)
    ensures
        match step(m, image, key, stack, visited) {
            Step::Done(_) => true,
            Step::Next(s, v) => {
                ||| unvisited(v) < unvisited(visited)
                ||| v == visited && s.len() < stack.len()
                ||| v == visited && s.len() == stack.len() && blocks_left(s) < blocks_left(stack)
                ||| v == visited && s.len() == stack.len() && blocks_left(s) == blocks_left(stack)
                    && bytes_left(m, s) < bytes_left(m, stack)
            },
        },
{
    if stack.len() > 0 {
        let top = stack.last();
        match top.cursor {
            None => {},
            Some(c) => {
                if c.pos < m.block_size {
                    let at = c.base + c.pos;
                    if is_descent(image, at, visited) {
                        lemma_visit_decreases(visited, entry_inode(image, at) as u32);
                    }
                }
            },
        }
    }
}

/// The outcome of the search from the state `stack`, `visited`: the record
/// that ends it, `None` when every pending scan runs out, or the error on
/// which it fails.
pub open spec fn walk(m: Ext2, image: Seq<u8>, key: Seq<u8>, stack: Seq<Scan>, visited: Seq<u32>)
    -> Result<Option<Ext2Match>, FsError>
    decreases unvisited(visited), stack.len(), blocks_left(stack), bytes_left(m, stack),
    via walk_decreases
{
    match step(m, image, key, stack, visited) {
        Step::Done(r) => r,
        Step::Next(s, v) => walk(m, image, key, s, v),
    }
}

#[via_fn]
proof fn walk_decreases(m: Ext2, image: Seq<u8>, key: Seq<u8>, stack: Seq<Scan>, visited: Seq<u32>) {
    lemma_step_decreases(m, image, key, stack, visited);
}

/// The outcome of the search of the whole volume for the folded name `key`,
/// from the root directory.
pub open spec fn search(m: Ext2, image: Seq<u8>, key: Seq<u8>) -> Result<Option<Ext2Match>, FsError> {
    match open_directory(m, image, ROOT_INODE) {
        Err(e) => Err(e),
        Ok(scan) => walk(m, image, key, seq![scan], seq![ROOT_INODE]),
    }
}

impl BlockCursor {
    /// The place at the first byte of the block at `base`.
    pub fn start(base: u64) -> (c: BlockCursor)
        ensures
            c == (BlockCursor { base, pos: 0, prev: None }),
    {
        BlockCursor { base, pos: 0, prev: None }
    }

    /// Yields the record at this place of a block of `block_size` bytes,
    /// with its offset within the block and the place behind it, or `None`
    /// at the end of the block. So the records of a block come one by one,
    /// from `start`, until `None`. Fails with `IoError` when the image ends
    /// before the record does, and with `InvariantViolation` when the
    /// record is shorter than its fixed fields.
    pub fn next_entry(&self, store: &ByteStore, block_size: u32) -> (r: Result<
        Option<(u64, DirEntry, BlockCursor)>,
        FsError,
    >)
        ensures
            match next_record(block_size, store@, *self) {
                Err(e) => r matches Err(x) && x == e,
                Ok(None) => r matches Ok(None),
                Ok(Some(next)) => r matches Ok(Some((offset, entry, cursor))) && offset
                    == self.pos && entry.decodes(store@, self.base + self.pos) && cursor == next,
            },
    {
        if self.pos >= block_size as u64 {
            return Ok(None);
        }
        let entry: DirEntry = fill_dir_entry(store, self.base, self.pos)?;
        if (entry.record_length as u64) < ENTRY_HEADER {
            return Err(FsError::InvariantViolation);
        }
        let cursor = BlockCursor {
            base: self.base,
            pos: self.pos + entry.record_length as u64,
            prev: Some(Preceding { offset: self.pos, record_length: entry.record_length }),
        };
        Ok(Some((self.pos, entry, cursor)))
    }
}

/// Tells whether `inode` is among `visited`.
pub fn was_visited(visited: &Vec<u32>, inode: u32) -> (b: bool)
    ensures
        b == visited@.contains(inode),
{
    let mut i: usize = 0;
    while i < visited.len()
        invariant
            i <= visited@.len(),
            forall|k: int| 0 <= k < i ==> visited@[k] != inode,
        decreases visited@.len() - i,
    {
        if visited[i] == inode {
            return true;
        }
        i = i + 1;
    }
    false
}

/// Tells whether `name` is one of `.`, `..` and `lost+found`.
pub fn is_never_entered(name: &[u8]) -> (b: bool)
    ensures
        b == never_entered(name@),
{
    let one: [u8; 1] = [0x2e];
    let two: [u8; 2] = [0x2e, 0x2e];
    let lost: [u8; 10] = [0x6c, 0x6f, 0x73, 0x74, 0x2b, 0x66, 0x6f, 0x75, 0x6e, 0x64];
    assert(one@ =~= dot());
    assert(two@ =~= dot_dot());
    assert(lost@ =~= lost_and_found());
    same_bytes(name, one.as_slice()) || same_bytes(name, two.as_slice()) || same_bytes(
        name,
        lost.as_slice(),
    )
}

/// The scan of the directory `inode_number`, before its first block. Fails
/// as the translation of the inode number to its offset and the reading of
/// its block count do.
pub fn open_dir(ext2: &Ext2, store: &ByteStore, inode_number: u32) -> (r: Result<Scan, FsError>)
    ensures
        r == open_directory(*ext2, store@, inode_number),
{
    let inode_offset: u64 = ext2.inode_byte_offset(store, inode_number)?;
    let block_count: u64 = ext2.data_block_count(store, inode_offset)?;
    Ok(Scan { inode_offset, next_block: 0, block_count, cursor: None })
}

/// Takes one step of the search. Returns the outcome when the step ends the
/// search, and otherwise leaves the next state in `stack` and `visited`.
pub fn search_step(
    ext2: &Ext2,
    store: &ByteStore,
    key: &[u8],
    stack: &mut Vec<Scan>,
    visited: &mut Vec<u32>,
) -> (r: Option<Result<Option<Ext2Match>, FsError>>)
    ensures
        match step(*ext2, store@, key@, old(stack)@, old(visited)@) {
            Step::Done(outcome) => r == Some(outcome),
            Step::Next(s, v) => r is None && final(stack)@ == s && final(visited)@ == v,
        },
{
    let top: Scan = match stack.pop() {
        None => { return Some(Ok(None)); },
        Some(top) => top,
    };
    match top.cursor {
        None => {
            if top.next_block >= top.block_count {
                return None;
            }
            match ext2.data_block_byte_offset(store, top.inode_offset, top.next_block) {
                Err(e) => Some(Err(e)),
                Ok(base) => {
                    stack.push(
                        Scan {
                            inode_offset: top.inode_offset,
                            next_block: top.next_block + 1,
                            block_count: top.block_count,
                            cursor: Some(BlockCursor::start(base)),
                        },
                    );
                    None
                },
            }
        },
        Some(c) => {
            let (entry, next): (DirEntry, BlockCursor) = match c.next_entry(
                store,
                ext2.block_size,
            ) {
                Err(e) => { return Some(Err(e)); },
                Ok(None) => {
                    stack.push(
                        Scan {
                            inode_offset: top.inode_offset,
                            next_block: top.next_block,
                            block_count: top.block_count,
                            cursor: None,
                        },
                    );
                    return None;
                },
                Ok(Some((_, entry, next))) => (entry, next),
            };
            let in_use: bool = entry.inode_number != 0;
            let is_directory: bool = entry.entry_type == EntryType::Directory;
            if in_use && !is_directory && matches_key(entry.name.as_slice(), key) {
                return Some(
                    Ok(
                        Some(
                            Ext2Match {
                                inode_number: entry.inode_number,
                                block_offset: c.base,
                                entry_offset: c.pos,
                                record_length: entry.record_length,
                                prev: c.prev,
                            },
                        ),
                    ),
                );
            }
            stack.push(
                Scan {
                    inode_offset: top.inode_offset,
                    next_block: top.next_block,
                    block_count: top.block_count,
                    cursor: Some(next),
                },
            );
            if in_use && is_directory && !is_never_entered(entry.name.as_slice()) && !was_visited(
                visited,
                entry.inode_number,
            ) {
                match open_dir(ext2, store, entry.inode_number) {
                    Err(e) => Some(Err(e)),
                    Ok(scan) => {
                        stack.push(scan);
                        visited.push(entry.inode_number);
                        None
                    },
                }
            } else {
                None
            }
        },
    }
}

/// Searches the directory tree, depth first and in the order in which the
/// records lie in their blocks, for the first record in use that is no
/// directory and whose name is `key` up to ASCII case; `key` is a folded
/// name. Returns `None` when there is no such record, and the first error
/// that a read or a translation of addresses meets before the record is
/// found.
pub fn find_file(ext2: &Ext2, store: &ByteStore, key: &[u8]) -> (r: Result<
    Option<Ext2Match>,
    FsError,
>)
    ensures
        r == search(*ext2, store@, key@),
{
    let root: Scan = open_dir(ext2, store, ROOT_INODE)?;
    let mut stack: Vec<Scan> = Vec::new();
    stack.push(root);
    let mut visited: Vec<u32> = Vec::new();
    visited.push(ROOT_INODE);
    assert(stack@ =~= seq![root]);
    assert(visited@ =~= seq![ROOT_INODE]);
    loop
        invariant
            walk(*ext2, store@, key@, stack@, visited@) == search(*ext2, store@, key@),
        decreases
                unvisited(visited@),
                stack@.len(),
                blocks_left(stack@),
                bytes_left(*ext2, stack@),
    {
        proof {
            lemma_step_decreases(*ext2, store@, key@, stack@, visited@);
        }
        match search_step(ext2, store, key, &mut stack, &mut visited) {
            Some(outcome) => { return outcome; },
            None => {},
        }
    }
}

} // verus!
