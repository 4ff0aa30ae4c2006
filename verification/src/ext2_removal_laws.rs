//! What a removal does to the search of an ext2-style volume: the search of
//! the image after the removal goes as the search of the image before it
//! that passes the removed record by, as long as the search reads nothing
//! else from the block of that record.

use crate::ext2::{
    data_block_offset_of, descriptor_table_offset, inode_offset_of, Ext2,
    DIRECT_BLOCKS, GROUP_DESCRIPTOR_SIZE, INODE_BLOCKS_FIELD, INODE_SECTORS_FIELD,
    INODE_SIZE_FIELD, INODE_TABLE_FIELD, ROOT_INODE,
};
use crate::ext2_dir::{
    blocks_left, bytes_left, entry_inode, entry_name_length, entry_readable,
    entry_record_length, entry_type, is_descent, is_target, lemma_step_decreases, open_directory,
    search, step, stepped_over, unvisited, walk, BlockCursor, EntryType, Ext2Match, Scan, Step,
    ENTRY_HEADER,
};
use crate::ext2_laws::{
    binding_at, is_context, lemma_reaches_bounds, lemma_reaches_next, lemma_record_in_both,
    lemma_record_length_written, lemma_promoted_record_written, lemma_well_formed_rest, reaches,
    same_outside, well_formed,
};
use crate::ext2_unlink::{removal, report_of};
use crate::filesystem::{Filesystem, FsError, LookupResult};
use crate::names::fold;
use crate::utilities::{readable, u32_at};
use vstd::prelude::*;

verus! {

/// True when the `n` bytes at `at` lie outside the bytes from `lo` to `hi`.
pub open spec fn apart(at: int, n: int, lo: int, hi: int) -> bool {
    at + n <= lo || hi <= at
}

/// Byte offset of the field of the descriptor table that names the inode
/// table of the group of the inode `inode_number`.
pub open spec fn descriptor_field_of(m: Ext2, inode_number: u32) -> int {
    descriptor_table_offset(m) + ((inode_number - 1) / (m.inodes_per_group as int))
        * GROUP_DESCRIPTOR_SIZE + INODE_TABLE_FIELD
}

/// True when what the opening of the directory `inode_number` reads lies
/// outside the bytes from `lo` to `hi`.
pub open spec fn directory_apart(m: Ext2, image: Seq<u8>, inode_number: u32, lo: int, hi: int)
    -> bool {
    &&& apart(descriptor_field_of(m, inode_number), 4, lo, hi)
    &&& match inode_offset_of(m, image, inode_number) {
        Ok(inode_offset) => apart(inode_offset + INODE_SECTORS_FIELD, 4, lo, hi),
        Err(_) => true,
    }
}

/// True when what the report of the file `inode_number` reads lies outside
/// the bytes from `lo` to `hi`.
pub open spec fn report_apart(m: Ext2, image: Seq<u8>, inode_number: u32, lo: int, hi: int)
    -> bool {
    &&& apart(descriptor_field_of(m, inode_number), 4, lo, hi)
    &&& match inode_offset_of(m, image, inode_number) {
        Ok(inode_offset) => apart(inode_offset + INODE_SIZE_FIELD, 4, lo, hi) && apart(
            inode_offset + INODE_BLOCKS_FIELD,
            4,
            lo,
            hi,
        ),
        Err(_) => true,
    }
}

/// A 32-bit field outside the bytes that differ is the same in both images.
pub(crate) proof fn lemma_u32_outside(image: Seq<u8>, other: Seq<u8>, lo: int, hi: int, at: int)
    requires
        same_outside(image, other, lo, hi),
        readable(image, at, 4),
        apart(at, 4, lo, hi),
    ensures
        u32_at(other, at) == u32_at(image, at),
{
    assert(other.subrange(at, at + 4) =~= image.subrange(at, at + 4));
}

/// The offset of an inode is the same in two images that hold the same
/// descriptor.
pub(crate) proof fn lemma_inode_offset_in_both(
    m: Ext2,
    image: Seq<u8>,
    other: Seq<u8>,
    lo: int,
    hi: int,
    inode_number: u32,
)
    requires
        same_outside(image, other, lo, hi),
        apart(descriptor_field_of(m, inode_number), 4, lo, hi),
    ensures
        inode_offset_of(m, other, inode_number) == inode_offset_of(m, image, inode_number),
{
    let field = descriptor_field_of(m, inode_number);
    if m.valid() && inode_number != 0 && readable(image, field, 4) {
        lemma_u32_outside(image, other, lo, hi, field);
    }
}

/// The opening of a directory goes the same way in two images that hold
/// the same bytes where it reads.
pub(crate) proof fn lemma_open_directory_in_both(
    m: Ext2,
    image: Seq<u8>,
    other: Seq<u8>,
    lo: int,
    hi: int,
    inode_number: u32,
)
    requires
        same_outside(image, other, lo, hi),
        directory_apart(m, image, inode_number, lo, hi),
    ensures
        open_directory(m, other, inode_number) == open_directory(m, image, inode_number),
{
    lemma_inode_offset_in_both(m, image, other, lo, hi, inode_number);
    match inode_offset_of(m, image, inode_number) {
        Ok(inode_offset) => {
            if readable(image, inode_offset + INODE_SECTORS_FIELD, 4) {
                lemma_u32_outside(image, other, lo, hi, inode_offset + INODE_SECTORS_FIELD);
            }
        },
        Err(_) => {},
    }
}

/// The report of a file is the same in two images that hold the same bytes
/// where it reads.
pub(crate) proof fn lemma_report_in_both(
    m: Ext2,
    image: Seq<u8>,
    other: Seq<u8>,
    lo: int,
    hi: int,
    found: Ext2Match,
    twin: Ext2Match,
)
    requires
        same_outside(image, other, lo, hi),
        report_apart(m, image, found.inode_number, lo, hi),
        twin.inode_number == found.inode_number,
    ensures
        report_of(m, other, twin) == report_of(m, image, found),
{
    lemma_inode_offset_in_both(m, image, other, lo, hi, found.inode_number);
    match inode_offset_of(m, image, found.inode_number) {
        Ok(inode_offset) => {
            if readable(image, inode_offset + INODE_SIZE_FIELD, 4) {
                lemma_u32_outside(image, other, lo, hi, inode_offset + INODE_SIZE_FIELD);
            }
            if readable(image, inode_offset + INODE_BLOCKS_FIELD, 4) {
                lemma_u32_outside(image, other, lo, hi, inode_offset + INODE_BLOCKS_FIELD);
            }
        },
        Err(_) => {},
    }
}

/// A block pointer is the same in two images that hold the same bytes
/// where it lies.
pub(crate) proof fn lemma_data_block_in_both(
    m: Ext2,
    image: Seq<u8>,
    other: Seq<u8>,
    lo: int,
    hi: int,
    inode_offset: u64,
    index: u64,
)
    requires
        same_outside(image, other, lo, hi),
        apart(inode_offset + INODE_BLOCKS_FIELD + 4 * index, 4, lo, hi),
    ensures
        data_block_offset_of(m, other, inode_offset, index) == data_block_offset_of(
            m,
            image,
            inode_offset,
            index,
        ),
{
    let at = inode_offset + INODE_BLOCKS_FIELD + 4 * index;
    if index < DIRECT_BLOCKS && readable(image, at, 4) {
        lemma_u32_outside(image, other, lo, hi, at);
    }
}

/// One step of the search that passes the record at the offset `entry` of
/// the block at `block` by: where the search would end with that record, it
/// steps over it instead.
pub open spec fn step_past(
    m: Ext2,
    image: Seq<u8>,
    key: Seq<u8>,
    block: u64,
    entry: u64,
    stack: Seq<Scan>,
    visited: Seq<u32>,
) -> Step {
    match step(m, image, key, stack, visited) {
        Step::Done(Ok(Some(found))) => if found.block_offset == block && found.entry_offset
            == entry {
            Step::Next(stepped_over(image, stack), visited)
        } else {
            Step::Done(Ok(Some(found)))
        },
        other => other,
    }
}

/// Every step that passes a record by and does not end the search brings
/// it nearer to its end.
pub(crate) proof fn lemma_step_past_decreases(
    m: Ext2,
    image: Seq<u8>,
    key: Seq<u8>,
    block: u64,
    entry: u64,
    stack: Seq<Scan>,
    visited: Seq<u32>,
)
    ensures
        match step_past(m, image, key, block, entry, stack, visited) {
            Step::Done(_) => true,
            Step::Next(s, v) => {
                ||| unvisited(v) < unvisited(visited)
                ||| v == visited && s.len() < stack.len()
                ||| v == visited && s.len() == stack.len() && blocks_left(s) < blocks_left(stack)
                ||| v == visited && s.len() == stack.len() && blocks_left(s) == blocks_left(stack)
                    && bytes_left(m, s) < bytes_left(m, stack)
            },
        },
{
    lemma_step_decreases(m, image, key, stack, visited);
}

/// The outcome of the search that passes the record at the offset `entry`
/// of the block at `block` by.
pub open spec fn walk_past(
    m: Ext2,
    image: Seq<u8>,
    key: Seq<u8>,
    block: u64,
    entry: u64,
    stack: Seq<Scan>,
    visited: Seq<u32>,
) -> Result<Option<Ext2Match>, FsError>
    decreases unvisited(visited), stack.len(), blocks_left(stack), bytes_left(m, stack),
    via walk_past_decreases
{
    match step_past(m, image, key, block, entry, stack, visited) {
        Step::Done(r) => r,
        Step::Next(s, v) => walk_past(m, image, key, block, entry, s, v),
    }
}

#[via_fn]
proof fn walk_past_decreases(
    m: Ext2,
    image: Seq<u8>,
    key: Seq<u8>,
    block: u64,
    entry: u64,
    stack: Seq<Scan>,
    visited: Seq<u32>,
) {
    lemma_step_past_decreases(m, image, key, block, entry, stack, visited);
}

/// The outcome of the search of the whole volume that passes the record at
/// the offset `entry` of the block at `block` by.
pub open spec fn search_past(m: Ext2, image: Seq<u8>, key: Seq<u8>, block: u64, entry: u64)
    -> Result<Option<Ext2Match>, FsError> {
    match open_directory(m, image, ROOT_INODE) {
        Err(e) => Err(e),
        Ok(scan) => walk_past(m, image, key, block, entry, seq![scan], seq![ROOT_INODE]),
    }
}

/// True when what the next step of the search reads, other than a record
/// of the block at `block`, lies outside that block.
pub open spec fn step_apart(
    m: Ext2,
    image: Seq<u8>,
    block: u64,
    stack: Seq<Scan>,
    visited: Seq<u32>,
) -> bool {
    let lo = block as int;
    let hi = block + m.block_size;
    if stack.len() == 0 {
        true
    } else {
        let top = stack.last();
        match top.cursor {
            None => top.next_block < top.block_count ==> apart(
                top.inode_offset + INODE_BLOCKS_FIELD + 4 * top.next_block,
                4,
                lo,
                hi,
            ),
            Some(c) => c.pos < m.block_size ==> {
                let at = c.base + c.pos;
                &&& c.base != block && readable(image, at, ENTRY_HEADER as int) ==> apart(
                    at,
                    ENTRY_HEADER + entry_name_length(image, at),
                    lo,
                    hi,
                )
                &&& entry_readable(image, at) && is_descent(image, at, visited)
                    ==> directory_apart(m, image, entry_inode(image, at) as u32, lo, hi)
            },
        }
    }
}

/// True when the search that passes the record at the offset `entry` of
/// the block at `block` by reads nothing from that block but its records.
pub open spec fn separated(
    m: Ext2,
    image: Seq<u8>,
    key: Seq<u8>,
    block: u64,
    entry: u64,
    stack: Seq<Scan>,
    visited: Seq<u32>,
) -> bool
    decreases unvisited(visited), stack.len(), blocks_left(stack), bytes_left(m, stack),
    via separated_decreases
{
    step_apart(m, image, block, stack, visited) && match step_past(
        m,
        image,
        key,
        block,
        entry,
        stack,
        visited,
    ) {
        Step::Done(_) => true,
        Step::Next(s, v) => separated(m, image, key, block, entry, s, v),
    }
}

#[via_fn]
proof fn separated_decreases(
    m: Ext2,
    image: Seq<u8>,
    key: Seq<u8>,
    block: u64,
    entry: u64,
    stack: Seq<Scan>,
    visited: Seq<u32>,
) {
    lemma_step_past_decreases(m, image, key, block, entry, stack, visited);
}

/// True when the search of the whole volume that passes the record at the
/// offset `entry` of the block at `block` by reads nothing from that block
/// but its records.
pub open spec fn search_separated(m: Ext2, image: Seq<u8>, key: Seq<u8>, block: u64, entry: u64)
    -> bool {
    &&& directory_apart(m, image, ROOT_INODE, block as int, block + m.block_size)
    &&& match open_directory(m, image, ROOT_INODE) {
        Err(_) => true,
        Ok(scan) => separated(m, image, key, block, entry, seq![scan], seq![ROOT_INODE]),
    }
}

/// A search that passes by a record that it would not end with is the
/// search itself.
pub proof fn lemma_walk_past_another(
    m: Ext2,
    image: Seq<u8>,
    key: Seq<u8>,
    block: u64,
    entry: u64,
    stack: Seq<Scan>,
    visited: Seq<u32>,
)
    requires
        !is_target(image, block + entry, key),
    ensures
        walk_past(m, image, key, block, entry, stack, visited) == walk(
            m,
            image,
            key,
            stack,
            visited,
        ),
    decreases unvisited(visited), stack.len(), blocks_left(stack), bytes_left(m, stack),
{
    lemma_step_decreases(m, image, key, stack, visited);
    match step(m, image, key, stack, visited) {
        Step::Done(_) => {},
        Step::Next(s, v) => {
            lemma_walk_past_another(m, image, key, block, entry, s, v);
        },
    }
}

/// True when `after` is the image that the removal of the record `found`,
/// which is no directory, makes of `image`, and the block of the record
/// lies within the image and is well formed.
pub open spec fn removed(m: Ext2, image: Seq<u8>, found: Ext2Match, after: Seq<u8>) -> bool {
    &&& is_context(m, image, found)
    &&& entry_type(image, found.block_offset + found.entry_offset) != EntryType::Directory
    &&& readable(image, found.block_offset as int, m.block_size as int)
    &&& well_formed(image, found.block_offset as int, m.block_size as int, 0)
    &&& removal(m, image, found) == Ok::<Seq<u8>, FsError>(after)
}

/// True when a scan of the image before the removal at the place `c` and a
/// scan of the image after it at the place `d` have the same records
/// before them. Outside the block of the removed record the places are
/// the same. Within it they are the same before and behind the records
/// that the removal joins; a scan at the removed record goes with a scan
/// behind it, and a scan at the record that moves into the place of a
/// removed first record goes with a scan at the first byte.
pub open spec fn twin_cursors(image: Seq<u8>, found: Ext2Match, c: BlockCursor, d: BlockCursor)
    -> bool {
    let end = found.entry_offset + found.record_length;
    &&& c.base == d.base
    &&& if c.base != found.block_offset {
        c.pos == d.pos
    } else {
        &&& reaches(image, c.base as int, 0, c.pos as int)
        &&& match found.prev {
            Some(p) => (c.pos == d.pos && (c.pos <= p.offset || c.pos >= end)) || (c.pos
                == found.entry_offset && d.pos == end),
            None => (c.pos == d.pos && c.pos >= end + entry_record_length(
                image,
                found.block_offset + end,
            )) || (d.pos == 0 && (c.pos == 0 || c.pos == end)),
        }
    }
}

/// True when the two scans are scans of the same directory with the same
/// records before them.
pub open spec fn twin_scans(image: Seq<u8>, found: Ext2Match, s: Scan, t: Scan) -> bool {
    &&& s.inode_offset == t.inode_offset
    &&& s.next_block == t.next_block
    &&& s.block_count == t.block_count
    &&& match (s.cursor, t.cursor) {
        (None, None) => true,
        (Some(c), Some(d)) => twin_cursors(image, found, c, d),
        _ => false,
    }
}

/// True when the two stacks hold scans of the same directories with the
/// same records before them.
pub open spec fn twin_stacks(image: Seq<u8>, found: Ext2Match, s: Seq<Scan>, t: Seq<Scan>)
    -> bool {
    &&& s.len() == t.len()
    &&& forall|i: int| 0 <= i < s.len() ==> twin_scans(image, found, #[trigger] s[i], t[i])
}

/// True when the two outcomes are the same error, or both nothing, or
/// records that name the same inode.
pub open spec fn agree(
    r: Result<Option<Ext2Match>, FsError>,
    q: Result<Option<Ext2Match>, FsError>,
) -> bool {
    match (r, q) {
        (Ok(Some(f)), Ok(Some(g))) => f.inode_number == g.inode_number,
        (Ok(None), Ok(None)) => true,
        (Err(a), Err(b)) => a == b,
        _ => false,
    }
}

/// True when a step of the search of the image before the removal that
/// passes the removed record by, from `s`, goes with no step or with one
/// step of the search of the image after it, from `t`.
pub open spec fn steps_agree(
    m: Ext2,
    image: Seq<u8>,
    after: Seq<u8>,
    key: Seq<u8>,
    found: Ext2Match,
    s: Seq<Scan>,
    t: Seq<Scan>,
    visited: Seq<u32>,
) -> bool {
    match step_past(m, image, key, found.block_offset, found.entry_offset, s, visited) {
        Step::Done(r) => step(m, after, key, t, visited) matches Step::Done(q) && agree(r, q),
        Step::Next(s2, v2) => {
            ||| v2 == visited && twin_stacks(image, found, s2, t)
            ||| step(m, after, key, t, visited) matches Step::Next(t2, w2) && w2 == v2
                && twin_stacks(image, found, s2, t2)
        },
    }
}

/// Stacks that are twins stay so when their top scans are removed.
pub(crate) proof fn lemma_twins_without_top(
    image: Seq<u8>,
    found: Ext2Match,
    s: Seq<Scan>,
    t: Seq<Scan>,
)
    requires
        twin_stacks(image, found, s, t),
        s.len() > 0,
    ensures
        twin_stacks(image, found, s.drop_last(), t.drop_last()),
        twin_scans(image, found, s.last(), t.last()),
{
    assert forall|i: int| 0 <= i < s.drop_last().len() implies twin_scans(
        image,
        found,
        #[trigger] s.drop_last()[i],
        t.drop_last()[i],
    ) by {
        assert(s.drop_last()[i] == s[i]);
        assert(t.drop_last()[i] == t[i]);
    }
}

/// Stacks that are twins stay so when twins are put on top of them.
pub(crate) proof fn lemma_twins_with_top(
    image: Seq<u8>,
    found: Ext2Match,
    s: Seq<Scan>,
    t: Seq<Scan>,
    x: Scan,
    y: Scan,
)
    requires
        twin_stacks(image, found, s, t),
        twin_scans(image, found, x, y),
    ensures
        twin_stacks(image, found, s.push(x), t.push(y)),
{
    assert forall|i: int| 0 <= i < s.push(x).len() implies twin_scans(
        image,
        found,
        #[trigger] s.push(x)[i],
        t.push(y)[i],
    ) by {
        if i < s.len() {
            assert(s.push(x)[i] == s[i]);
            assert(t.push(y)[i] == t[i]);
        }
    }
}

/// What the removal leaves of the image: it writes within the block of the
/// removed record only, and the record that absorbs the removed one, or
/// that moves into its place, binds what it bound before.
pub(crate) proof fn lemma_removed_image(m: Ext2, image: Seq<u8>, found: Ext2Match, after: Seq<u8>)
    requires
        removed(m, image, found, after),
    ensures
        same_outside(
            image,
            after,
            found.block_offset as int,
            found.block_offset + m.block_size,
        ),
        match found.prev {
            Some(p) => {
                let at = found.block_offset + p.offset;
                &&& same_outside(image, after, at + 4, at + 6)
                &&& entry_record_length(after, at) == p.record_length + found.record_length
                &&& entry_name_length(after, at) == entry_name_length(image, at)
                &&& binding_at(after, at) == binding_at(image, at)
                &&& well_formed(
                    image,
                    found.block_offset as int,
                    m.block_size as int,
                    p.offset as int,
                )
            },
            None => {
                let at = found.block_offset as int;
                let next = found.block_offset + found.record_length;
                &&& found.entry_offset == 0
                &&& same_outside(
                    image,
                    after,
                    at,
                    at + ENTRY_HEADER + entry_name_length(image, next),
                )
                &&& ENTRY_HEADER + entry_name_length(image, next) <= found.record_length
                &&& entry_readable(image, next)
                &&& entry_record_length(image, next) >= ENTRY_HEADER
                &&& entry_record_length(after, at) == found.record_length + entry_record_length(
                    image,
                    next,
                )
                &&& entry_name_length(after, at) == entry_name_length(image, next)
                &&& binding_at(after, at) == binding_at(image, next)
            },
        },
{
    let base = found.block_offset as int;
    let limit = m.block_size as int;
    match found.prev {
        Some(p) => {
            let q = p.offset as int;
            lemma_reaches_bounds(image, base, 0, q);
            lemma_well_formed_rest(image, base, limit, 0, q);
            lemma_record_length_written(
                image,
                base + q,
                (p.record_length + found.record_length) as u16,
            );
        },
        None => {
            let next = base + found.record_length;
            lemma_promoted_record_written(
                image,
                base,
                next,
                (found.record_length + entry_record_length(image, next)) as u16,
            );
        },
    }
}

/// Of two places that are reached from the same place, the nearer one
/// leads to the farther one.
pub(crate) proof fn lemma_reaches_between(image: Seq<u8>, base: int, from: int, x: int, q: int)
    requires
        reaches(image, base, from, x),
        reaches(image, base, from, q),
        x <= q,
    ensures
        reaches(image, base, x, q),
    decreases crate::ext2_laws::gap(from, x),
{
    if from < x {
        lemma_reaches_between(
            image,
            base,
            from + entry_record_length(image, base + from),
            x,
            q,
        );
    }
}

/// Two scans whose records at their places bind the same, and lead to
/// places that are twins, take steps that agree.
pub(crate) proof fn lemma_same_record_steps_agree(
    m: Ext2,
    image: Seq<u8>,
    after: Seq<u8>,
    key: Seq<u8>,
    found: Ext2Match,
    s: Seq<Scan>,
    t: Seq<Scan>,
    visited: Seq<u32>,
)
    requires
        same_outside(
            image,
            after,
            found.block_offset as int,
            found.block_offset + m.block_size,
        ),
        twin_stacks(image, found, s, t),
        step_apart(m, image, found.block_offset, s, visited),
        s.len() > 0,
        s.last().cursor is Some,
        t.last().cursor is Some,
        s.last().cursor.unwrap().pos < m.block_size,
        t.last().cursor.unwrap().pos < m.block_size,
        !(s.last().cursor.unwrap().base == found.block_offset && s.last().cursor.unwrap().pos
            == found.entry_offset),
        ({
            let c = s.last().cursor.unwrap();
            let d = t.last().cursor.unwrap();
            let at = c.base + c.pos;
            let to = d.base + d.pos;
            &&& entry_readable(after, to) == entry_readable(image, at)
            &&& entry_readable(image, at) ==> {
                &&& binding_at(after, to) == binding_at(image, at)
                &&& (entry_record_length(after, to) < ENTRY_HEADER) == (entry_record_length(
                    image,
                    at,
                ) < ENTRY_HEADER)
                &&& entry_record_length(image, at) >= ENTRY_HEADER ==> twin_scans(
                    image,
                    found,
                    stepped_over(image, s).last(),
                    stepped_over(after, t).last(),
                )
            }
        }),
    ensures
        steps_agree(m, image, after, key, found, s, t, visited),
{
    let c = s.last().cursor.unwrap();
    let d = t.last().cursor.unwrap();
    let at = c.base + c.pos;
    let to = d.base + d.pos;
    lemma_twins_without_top(image, found, s, t);
    if entry_readable(image, at) && entry_record_length(image, at) >= ENTRY_HEADER {
        assert(is_target(after, to, key) == is_target(image, at, key));
        assert(is_descent(after, to, visited) == is_descent(image, at, visited));
        if !is_target(image, at, key) {
            let s2 = stepped_over(image, s);
            let t2 = stepped_over(after, t);
            lemma_twins_with_top(
                image,
                found,
                s.drop_last(),
                t.drop_last(),
                s2.last(),
                t2.last(),
            );
            assert(s2 =~= s.drop_last().push(s2.last()));
            assert(t2 =~= t.drop_last().push(t2.last()));
            if is_descent(image, at, visited) {
                let inode = entry_inode(image, at) as u32;
                lemma_open_directory_in_both(
                    m,
                    image,
                    after,
                    found.block_offset as int,
                    found.block_offset + m.block_size,
                    inode,
                );
                match open_directory(m, image, inode) {
                    Err(_) => {},
                    Ok(scan) => {
                        lemma_twins_with_top(image, found, s2, t2, scan, scan);
                    },
                }
            }
        }
    }
}

/// A scan between two blocks takes the same step in both images.
pub(crate) proof fn lemma_between_blocks_steps_agree(
    m: Ext2,
    image: Seq<u8>,
    after: Seq<u8>,
    key: Seq<u8>,
    found: Ext2Match,
    s: Seq<Scan>,
    t: Seq<Scan>,
    visited: Seq<u32>,
)
    requires
        removed(m, image, found, after),
        twin_stacks(image, found, s, t),
        step_apart(m, image, found.block_offset, s, visited),
        s.len() > 0,
        s.last().cursor is None,
    ensures
        steps_agree(m, image, after, key, found, s, t, visited),
{
    let top = s.last();
    lemma_removed_image(m, image, found, after);
    lemma_twins_without_top(image, found, s, t);
    if top.next_block < top.block_count {
        lemma_data_block_in_both(
            m,
            image,
            after,
            found.block_offset as int,
            found.block_offset + m.block_size,
            top.inode_offset,
            top.next_block,
        );
        match data_block_offset_of(m, image, top.inode_offset, top.next_block) {
            Err(_) => {},
            Ok(base) => {
                let x = Scan {
                    inode_offset: top.inode_offset,
                    next_block: (top.next_block + 1) as u64,
                    block_count: top.block_count,
                    cursor: Some(BlockCursor { base, pos: 0, prev: None }),
                };
                assert(reaches(image, base as int, 0, 0));
                lemma_twins_with_top(image, found, s.drop_last(), t.drop_last(), x, x);
            },
        }
    }
}

/// A scan at the end of its block takes the same step in both images.
pub(crate) proof fn lemma_block_end_steps_agree(
    m: Ext2,
    image: Seq<u8>,
    after: Seq<u8>,
    key: Seq<u8>,
    found: Ext2Match,
    s: Seq<Scan>,
    t: Seq<Scan>,
    visited: Seq<u32>,
)
    requires
        removed(m, image, found, after),
        twin_stacks(image, found, s, t),
        s.len() > 0,
        s.last().cursor is Some,
        s.last().cursor.unwrap().pos >= m.block_size,
    ensures
        steps_agree(m, image, after, key, found, s, t, visited),
{
    let top = s.last();
    lemma_removed_image(m, image, found, after);
    lemma_twins_without_top(image, found, s, t);
    let x = Scan {
        inode_offset: top.inode_offset,
        next_block: top.next_block,
        block_count: top.block_count,
        cursor: None,
    };
    lemma_twins_with_top(image, found, s.drop_last(), t.drop_last(), x, x);
}

/// A scan at the removed record steps over it, and the scan of the image
/// after the removal stays where it is.
pub(crate) proof fn lemma_removed_record_is_passed(
    m: Ext2,
    image: Seq<u8>,
    after: Seq<u8>,
    key: Seq<u8>,
    found: Ext2Match,
    s: Seq<Scan>,
    t: Seq<Scan>,
    visited: Seq<u32>,
)
    requires
        removed(m, image, found, after),
        twin_stacks(image, found, s, t),
        s.len() > 0,
        s.last().cursor is Some,
        s.last().cursor.unwrap().base == found.block_offset,
        s.last().cursor.unwrap().pos == found.entry_offset,
    ensures
        steps_agree(m, image, after, key, found, s, t, visited),
{
    let c = s.last().cursor.unwrap();
    let at = c.base + c.pos;
    lemma_removed_image(m, image, found, after);
    lemma_twins_without_top(image, found, s, t);
    let s2 = stepped_over(image, s);
    assert(!is_descent(image, at, visited));
    assert(step_past(m, image, key, found.block_offset, found.entry_offset, s, visited)
        == Step::Next(s2, visited));
    lemma_reaches_next(image, c.base as int, 0, c.pos as int);
    lemma_twins_with_top(image, found, s.drop_last(), t.drop_last(), s2.last(), t.last());
    assert(s2 =~= s.drop_last().push(s2.last()));
    assert(t =~= t.drop_last().push(t.last()));
}

/// A scan at a record of another block takes the same step in both images.
pub(crate) proof fn lemma_other_block_steps_agree(
    m: Ext2,
    image: Seq<u8>,
    after: Seq<u8>,
    key: Seq<u8>,
    found: Ext2Match,
    s: Seq<Scan>,
    t: Seq<Scan>,
    visited: Seq<u32>,
)
    requires
        removed(m, image, found, after),
        twin_stacks(image, found, s, t),
        step_apart(m, image, found.block_offset, s, visited),
        s.len() > 0,
        s.last().cursor is Some,
        s.last().cursor.unwrap().base != found.block_offset,
        s.last().cursor.unwrap().pos < m.block_size,
    ensures
        steps_agree(m, image, after, key, found, s, t, visited),
{
    let c = s.last().cursor.unwrap();
    let at = c.base + c.pos;
    let lo = found.block_offset as int;
    let hi = found.block_offset + m.block_size;
    lemma_removed_image(m, image, found, after);
    lemma_twins_without_top(image, found, s, t);
    if readable(image, at, ENTRY_HEADER as int) {
        assert(after[at + 6] == image[at + 6]);
        if entry_readable(image, at) {
            lemma_record_in_both(image, after, lo, hi, at);
        }
    }
    lemma_same_record_steps_agree(m, image, after, key, found, s, t, visited);
}

/// A scan at a record of the block of the removed record, other than the
/// removed one, takes a step that agrees with the step in the image after
/// the removal.
pub(crate) proof fn lemma_same_block_steps_agree(
    m: Ext2,
    image: Seq<u8>,
    after: Seq<u8>,
    key: Seq<u8>,
    found: Ext2Match,
    s: Seq<Scan>,
    t: Seq<Scan>,
    visited: Seq<u32>,
)
    requires
        removed(m, image, found, after),
        twin_stacks(image, found, s, t),
        step_apart(m, image, found.block_offset, s, visited),
        s.len() > 0,
        s.last().cursor is Some,
        s.last().cursor.unwrap().base == found.block_offset,
        s.last().cursor.unwrap().pos != found.entry_offset,
        s.last().cursor.unwrap().pos < m.block_size,
    ensures
        steps_agree(m, image, after, key, found, s, t, visited),
{
    let c = s.last().cursor.unwrap();
    let d = t.last().cursor.unwrap();
    let base = found.block_offset as int;
    let limit = m.block_size as int;
    let x = c.pos as int;
    let at = base + x;
    let to = d.base + d.pos;
    let end = found.entry_offset + found.record_length;
    lemma_removed_image(m, image, found, after);
    lemma_twins_without_top(image, found, s, t);
    lemma_well_formed_rest(image, base, limit, 0, x);
    lemma_reaches_next(image, base, 0, x);
    match found.prev {
        Some(p) => {
            let q = p.offset as int;
            let field = base + q + 4;
            if x < q {
                lemma_reaches_between(image, base, 0, x, q);
                lemma_reaches_bounds(
                    image,
                    base,
                    x + entry_record_length(image, at),
                    q,
                );
                lemma_record_in_both(image, after, field, field + 2, at);
            } else if x == q {
            } else {
                assert(after[at + 6] == image[at + 6]);
                lemma_record_in_both(image, after, field, field + 2, at);
            }
        },
        None => {
            let next = base + end;
            let hi = base + ENTRY_HEADER + entry_name_length(image, next);
            if x == end {
            } else {
                assert(after[at + 6] == image[at + 6]);
                lemma_record_in_both(image, after, base, hi, at);
            }
        },
    }
    lemma_same_record_steps_agree(m, image, after, key, found, s, t, visited);
}

/// Every step of the search of the image before the removal that passes
/// the removed record by goes with no step or with one step of the search
/// of the image after it.
pub(crate) proof fn lemma_steps_agree(
    m: Ext2,
    image: Seq<u8>,
    after: Seq<u8>,
    key: Seq<u8>,
    found: Ext2Match,
    s: Seq<Scan>,
    t: Seq<Scan>,
    visited: Seq<u32>,
)
    requires
        removed(m, image, found, after),
        twin_stacks(image, found, s, t),
        step_apart(m, image, found.block_offset, s, visited),
    ensures
        steps_agree(m, image, after, key, found, s, t, visited),
{
    if s.len() > 0 {
        match s.last().cursor {
            None => {
                lemma_between_blocks_steps_agree(m, image, after, key, found, s, t, visited);
            },
            Some(c) => {
                if c.pos >= m.block_size {
                    lemma_block_end_steps_agree(m, image, after, key, found, s, t, visited);
                } else if c.base != found.block_offset {
                    lemma_other_block_steps_agree(m, image, after, key, found, s, t, visited);
                } else if c.pos == found.entry_offset {
                    lemma_removed_record_is_passed(m, image, after, key, found, s, t, visited);
                } else {
                    lemma_same_block_steps_agree(m, image, after, key, found, s, t, visited);
                }
            },
        }
    }
}

/// The search of the image after the removal ends as the search of the
/// image before it that passes the removed record by: with the same
/// error, with nothing, or with records that name the same inode.
pub proof fn lemma_walks_agree(
    m: Ext2,
    image: Seq<u8>,
    after: Seq<u8>,
    key: Seq<u8>,
    found: Ext2Match,
    s: Seq<Scan>,
    t: Seq<Scan>,
    visited: Seq<u32>,
)
    requires
        removed(m, image, found, after),
        twin_stacks(image, found, s, t),
        separated(m, image, key, found.block_offset, found.entry_offset, s, visited),
    ensures
        agree(
            walk_past(m, image, key, found.block_offset, found.entry_offset, s, visited),
            walk(m, after, key, t, visited),
        ),
    decreases unvisited(visited), s.len(), blocks_left(s), bytes_left(m, s),
{
    lemma_step_past_decreases(
        m,
        image,
        key,
        found.block_offset,
        found.entry_offset,
        s,
        visited,
    );
    lemma_steps_agree(m, image, after, key, found, s, t, visited);
    match step_past(m, image, key, found.block_offset, found.entry_offset, s, visited) {
        Step::Done(_) => {},
        Step::Next(s2, v2) => {
            if v2 == visited && twin_stacks(image, found, s2, t) {
                lemma_walks_agree(m, image, after, key, found, s2, t, visited);
            } else {
                match step(m, after, key, t, visited) {
                    Step::Done(_) => {},
                    Step::Next(t2, w2) => {
                        lemma_walks_agree(m, image, after, key, found, s2, t2, v2);
                    },
                }
            }
        },
    }
}

/// The search of the whole volume after the removal ends as the search
/// before it that passes the removed record by.
pub proof fn lemma_searches_agree(
    m: Ext2,
    image: Seq<u8>,
    after: Seq<u8>,
    key: Seq<u8>,
    found: Ext2Match,
)
    requires
        removed(m, image, found, after),
        search_separated(m, image, key, found.block_offset, found.entry_offset),
    ensures
        agree(
            search_past(m, image, key, found.block_offset, found.entry_offset),
            search(m, after, key),
        ),
{
    lemma_removed_image(m, image, found, after);
    lemma_open_directory_in_both(
        m,
        image,
        after,
        found.block_offset as int,
        found.block_offset + m.block_size,
        ROOT_INODE,
    );
    match open_directory(m, image, ROOT_INODE) {
        Err(_) => {},
        Ok(scan) => {
            assert(twin_stacks(image, found, seq![scan], seq![scan]));
            lemma_walks_agree(
                m,
                image,
                after,
                key,
                found,
                seq![scan],
                seq![scan],
                seq![ROOT_INODE],
            );
        },
    }
}

/// True when the removal of the record `found` touches nothing that the
/// search for `key` reads but the records of one well-formed block: the
/// block of the record lies within the image and is well formed, and the
/// search that passes the record by reads nothing else from that block.
pub open spec fn removal_is_local(m: Ext2, image: Seq<u8>, key: Seq<u8>, found: Ext2Match)
    -> bool {
    &&& readable(image, found.block_offset as int, m.block_size as int)
    &&& well_formed(image, found.block_offset as int, m.block_size as int, 0)
    &&& search_separated(m, image, key, found.block_offset, found.entry_offset)
}

/// After a removal the name is gone: where `unlink` has removed the record
/// that the search for `name` found, the search of the image that it
/// leaves finds nothing under that name. This holds of the images in which
/// no other record bears the name, so that the search that passes the
/// removed record by finds nothing, and in which the removal is local.
pub proof fn lemma_removed_name_is_gone(
    m: Ext2,
    image: Seq<u8>,
    name: Seq<u8>,
    found: Ext2Match,
    after: Seq<u8>,
)
    requires
        search(m, image, fold(name)) == Ok::<Option<Ext2Match>, FsError>(Some(found)),
        m.unlinked(image, name) == Ok::<Seq<u8>, FsError>(after),
        removal_is_local(m, image, fold(name), found),
        search_past(m, image, fold(name), found.block_offset, found.entry_offset) == Ok::<
            Option<Ext2Match>,
            FsError,
        >(None),
    ensures
        m.lookup(after, name) == Ok::<LookupResult, FsError>(LookupResult::NotFound),
{
    crate::ext2_laws::lemma_search_finds_a_match(m, image, fold(name));
    lemma_searches_agree(m, image, after, fold(name), found);
}

/// Where `unlink` finds no record under the name, it leaves the image as it
/// was, and the name is still not found.
pub proof fn lemma_absent_name_stays_absent(m: Ext2, image: Seq<u8>, name: Seq<u8>, after: Seq<u8>)
    requires
        search(m, image, fold(name)) == Ok::<Option<Ext2Match>, FsError>(None),
        m.unlinked(image, name) == Ok::<Seq<u8>, FsError>(after),
    ensures
        after == image,
        m.lookup(after, name) == Ok::<LookupResult, FsError>(LookupResult::NotFound),
{
}

/// A removal leaves the other names as they were: where `unlink` has
/// removed the record that the search for `name` found, the search for a
/// name that differs from it in more than the case of ASCII letters
/// reports of the image that it leaves what it reported before. This holds
/// of the images in which the removal is local, and in which the report
/// of the file found reads nothing from the block of the removed record.
pub proof fn lemma_other_names_stay(
    m: Ext2,
    image: Seq<u8>,
    name: Seq<u8>,
    other: Seq<u8>,
    found: Ext2Match,
    after: Seq<u8>,
)
    requires
        search(m, image, fold(name)) == Ok::<Option<Ext2Match>, FsError>(Some(found)),
        m.unlinked(image, name) == Ok::<Seq<u8>, FsError>(after),
        fold(other) != fold(name),
        removal_is_local(m, image, fold(other), found),
        search(m, image, fold(other)) matches Ok(Some(kept)) ==> report_apart(
            m,
            image,
            kept.inode_number,
            found.block_offset as int,
            found.block_offset + m.block_size,
        ),
    ensures
        m.lookup(after, other) == m.lookup(image, other),
{
    crate::ext2_laws::lemma_search_finds_a_match(m, image, fold(name));
    lemma_searches_agree(m, image, after, fold(other), found);
    lemma_removed_image(m, image, found, after);
    match open_directory(m, image, ROOT_INODE) {
        Err(_) => {},
        Ok(scan) => {
            lemma_walk_past_another(
                m,
                image,
                fold(other),
                found.block_offset,
                found.entry_offset,
                seq![scan],
                seq![ROOT_INODE],
            );
        },
    }
    match (search(m, image, fold(other)), search(m, after, fold(other))) {
        (Ok(Some(kept)), Ok(Some(twin))) => {
            lemma_report_in_both(
                m,
                image,
                after,
                found.block_offset as int,
                found.block_offset + m.block_size,
                kept,
                twin,
            );
        },
        _ => {},
    }
}

} // verus!
