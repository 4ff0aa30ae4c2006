//! What holds of the search and of the removal on an ext2-style volume.

use crate::ext2::Ext2;
use crate::ext2_dir::{
    entry_inode, entry_name, entry_name_length, entry_readable, entry_record_length, entry_type,
    is_target, lemma_step_decreases, search, step, walk, blocks_left, bytes_left, unvisited,
    open_directory, BlockCursor, EntryType, Ext2Match, Scan, Step, ENTRY_HEADER,
};
use crate::filesystem::{Filesystem, FsError};
use crate::ext2_unlink::{promoted_record, removal};
use crate::names::{eq_ignore_ascii_case, lemma_fold_decides_case_insensitive_equality};
use crate::utilities::{lemma_u16_le_round_trip, readable, splice, u16_at, u16_le_bytes};
use vstd::prelude::*;

verus! {

/// Number of bytes from `from` to `to`, and zero when `to` is not behind
/// `from`.
pub open spec fn gap(from: int, to: int) -> nat {
    if from < to {
        (to - from) as nat
    } else {
        0
    }
}

/// True when the records that lie one behind the other from the offset
/// `from` of the block at `base` lead to the offset `to`.
pub open spec fn reaches(image: Seq<u8>, base: int, from: int, to: int) -> bool
    decreases gap(from, to),
{
    if from >= to {
        from == to
    } else if entry_record_length(image, base + from) < ENTRY_HEADER {
        false
    } else {
        reaches(image, base, from + entry_record_length(image, base + from), to)
    }
}

/// True when the place `c` of a scan is one that a scan from the first
/// byte of the block comes to, and its preceding record is the record that
/// ends there.
pub open spec fn cursor_reached(image: Seq<u8>, c: BlockCursor) -> bool {
    &&& reaches(image, c.base as int, 0, c.pos as int)
    &&& match c.prev {
        None => c.pos == 0,
        Some(p) => {
            &&& reaches(image, c.base as int, 0, p.offset as int)
            &&& p.record_length == entry_record_length(image, c.base + p.offset)
            &&& p.record_length >= ENTRY_HEADER
            &&& p.offset + p.record_length == c.pos
        },
    }
}

/// True when every scan of the stack is at a place that it has reached
/// from the first byte of its block.
pub open spec fn scans_reached(image: Seq<u8>, stack: Seq<Scan>) -> bool {
    forall|i: int|
        0 <= i < stack.len() ==> match (#[trigger] stack[i]).cursor {
            None => true,
            Some(c) => cursor_reached(image, c),
        }
}

/// True when `found` is a record of the image, with the place and the
/// preceding record that a scan from the first byte of its block comes to.
pub open spec fn is_context(m: Ext2, image: Seq<u8>, found: Ext2Match) -> bool {
    let at = found.block_offset + found.entry_offset;
    &&& found.entry_offset < m.block_size
    &&& entry_readable(image, at)
    &&& found.inode_number == entry_inode(image, at)
    &&& found.record_length == entry_record_length(image, at)
    &&& found.record_length >= ENTRY_HEADER
    &&& cursor_reached(
        image,
        BlockCursor { base: found.block_offset, pos: found.entry_offset, prev: found.prev },
    )
}

/// True when `found` is a record of the image that the search for `key`
/// accepts, with the place and the preceding record that a scan from the
/// first byte of its block comes to.
pub open spec fn is_match(m: Ext2, image: Seq<u8>, key: Seq<u8>, found: Ext2Match) -> bool {
    is_context(m, image, found) && is_target(
        image,
        found.block_offset + found.entry_offset,
        key,
    )
}

/// A record that lies behind a reached place is reached as well.
pub(crate) proof fn lemma_reaches_next(image: Seq<u8>, base: int, from: int, to: int)
    requires
        reaches(image, base, from, to),
        entry_record_length(image, base + to) >= ENTRY_HEADER,
    ensures
        reaches(image, base, from, to + entry_record_length(image, base + to)),
    decreases gap(from, to),
{
    let next = to + entry_record_length(image, base + to);
    if from == to {
        assert(reaches(image, base, next, next));
    } else {
        lemma_reaches_next(image, base, from + entry_record_length(image, base + from), to);
    }
}

/// Whatever a search from reached places finds is a record that it accepts:
/// one in use, no directory, with the name looked for, at a place reached
/// from the first byte of its block.
pub proof fn lemma_walk_finds_a_match(
    m: Ext2,
    image: Seq<u8>,
    key: Seq<u8>,
    stack: Seq<Scan>,
    visited: Seq<u32>,
)
    requires
        scans_reached(image, stack),
    ensures
        walk(m, image, key, stack, visited) matches Ok(Some(found)) ==> is_match(
            m,
            image,
            key,
            found,
        ),
    decreases unvisited(visited), stack.len(), blocks_left(stack), bytes_left(m, stack),
{
    lemma_step_decreases(m, image, key, stack, visited);
    match step(m, image, key, stack, visited) {
        Step::Done(r) => {},
        Step::Next(s, v) => {
            let top = stack.last();
            let rest = stack.drop_last();
            assert(scans_reached(image, rest));
            match top.cursor {
                None => {},
                Some(c) => {
                    if c.pos < m.block_size {
                        assert(cursor_reached(image, c));
                        lemma_reaches_next(image, c.base as int, 0, c.pos as int);
                    }
                },
            }
            assert(scans_reached(image, s)) by {
                assert forall|i: int| 0 <= i < s.len() implies match (#[trigger] s[i]).cursor {
                    None => true,
                    Some(c) => cursor_reached(image, c),
                } by {
                    if i < rest.len() {
                        assert(s[i] == stack[i]);
                    } else if i == rest.len() {
                        match top.cursor {
                            None => {
                                assert(reaches(image, s[i].cursor.unwrap().base as int, 0, 0));
                            },
                            Some(c) => {},
                        }
                    } else {
                    }
                }
            }
            lemma_walk_finds_a_match(m, image, key, s, v);
        },
    }
}

/// Directory entries are never found: the record that a search of the
/// volume ends with is in use, is no directory, bears the name looked for
/// up to ASCII case, and lies where a scan of its block comes to.
pub proof fn lemma_search_finds_a_match(m: Ext2, image: Seq<u8>, key: Seq<u8>)
    ensures
        search(m, image, key) matches Ok(Some(found)) ==> is_match(m, image, key, found),
{
    match open_directory(m, image, crate::ext2::ROOT_INODE) {
        Err(_) => {},
        Ok(scan) => {
            lemma_walk_finds_a_match(m, image, key, seq![scan], seq![crate::ext2::ROOT_INODE]);
        },
    }
}

/// Matching is case-insensitive: two names that differ in the case of
/// ASCII letters only give the same result, whatever the image holds, and
/// the same image after a removal.
pub proof fn lemma_lookup_ignores_case(m: Ext2, image: Seq<u8>, a: Seq<u8>, b: Seq<u8>)
    requires
        eq_ignore_ascii_case(a, b),
    ensures
        m.lookup(image, a) == m.lookup(image, b),
        m.unlinked(image, a) == m.unlinked(image, b),
{
    lemma_fold_decides_case_insensitive_equality(a, b);
}

/// The sum of the record lengths of the records that lie one behind the
/// other from the offset `pos` of the block of `limit` bytes at `base`. A
/// record whose fixed fields would cross the end of the block, or whose
/// length is less than theirs, ends the list.
pub open spec fn record_length_sum(image: Seq<u8>, base: int, limit: int, pos: int) -> int
    decreases gap(pos, limit),
{
    if pos + ENTRY_HEADER > limit || entry_record_length(image, base + pos) < ENTRY_HEADER {
        0
    } else {
        entry_record_length(image, base + pos) + record_length_sum(
            image,
            base,
            limit,
            pos + entry_record_length(image, base + pos),
        )
    }
}

/// True when the two images have the same length and differ at most in the
/// bytes from `lo` to `hi`.
pub open spec fn same_outside(image: Seq<u8>, other: Seq<u8>, lo: int, hi: int) -> bool {
    &&& other.len() == image.len()
    &&& forall|i: int| 0 <= i < image.len() && !(lo <= i < hi) ==> other[i] == image[i]
}

/// A 16-bit field outside the bytes that differ is the same in both images.
pub(crate) proof fn lemma_u16_outside(image: Seq<u8>, other: Seq<u8>, lo: int, hi: int, at: int)
    requires
        same_outside(image, other, lo, hi),
        0 <= at,
        at + 2 <= image.len(),
        at + 2 <= lo || hi <= at,
    ensures
        u16_at(other, at) == u16_at(image, at),
{
    assert(other.subrange(at, at + 2) =~= image.subrange(at, at + 2));
}

/// Splicing changes the bytes that it writes and no others.
pub(crate) proof fn lemma_splice_outside(image: Seq<u8>, at: int, data: Seq<u8>)
    requires
        readable(image, at, data.len() as int),
    ensures
        same_outside(image, splice(image, at, data), at, at + data.len()),
        splice(image, at, data).subrange(at, at + data.len()) == data,
{
    assert(splice(image, at, data).subrange(at, at + data.len()) =~= data);
}

/// The sum of the record lengths from a place is the distance to a place
/// reached from it plus the sum from there.
pub(crate) proof fn lemma_sum_splits(image: Seq<u8>, base: int, limit: int, from: int, to: int)
    requires
        reaches(image, base, from, to),
        to <= limit,
    ensures
        record_length_sum(image, base, limit, from) == (to - from) + record_length_sum(
            image,
            base,
            limit,
            to,
        ),
    decreases gap(from, to),
{
    if from < to {
        let next = from + entry_record_length(image, base + from);
        lemma_reaches_bounds(image, base, next, to);
        lemma_sum_splits(image, base, limit, next, to);
    }
}

/// A place is reached only from places before it.
pub(crate) proof fn lemma_reaches_bounds(image: Seq<u8>, base: int, from: int, to: int)
    requires
        reaches(image, base, from, to),
    ensures
        from <= to,
    decreases gap(from, to),
{
    if from < to {
        lemma_reaches_bounds(image, base, from + entry_record_length(image, base + from), to);
    }
}

/// A place that is reached in one image is reached in another that holds
/// the same bytes before that place.
pub(crate) proof fn lemma_reaches_in_both(
    image: Seq<u8>,
    other: Seq<u8>,
    lo: int,
    hi: int,
    base: int,
    from: int,
    to: int,
)
    requires
        same_outside(image, other, lo, hi),
        reaches(image, base, from, to),
        0 <= base + from,
        base + to <= lo,
        base + to <= image.len(),
    ensures
        reaches(other, base, from, to),
    decreases gap(from, to),
{
    if from < to {
        let next = from + entry_record_length(image, base + from);
        lemma_reaches_bounds(image, base, next, to);
        lemma_u16_outside(image, other, lo, hi, base + from + 4);
        lemma_reaches_in_both(image, other, lo, hi, base, next, to);
    }
}

/// The sum of the record lengths from a place behind the bytes that differ
/// is the same in both images.
pub(crate) proof fn lemma_sum_in_both(
    image: Seq<u8>,
    other: Seq<u8>,
    lo: int,
    hi: int,
    base: int,
    limit: int,
    pos: int,
)
    requires
        same_outside(image, other, lo, hi),
        hi <= base + pos,
        0 <= base + pos,
        base + limit <= image.len(),
    ensures
        record_length_sum(other, base, limit, pos) == record_length_sum(image, base, limit, pos),
    decreases gap(pos, limit),
{
    if pos + ENTRY_HEADER <= limit {
        lemma_u16_outside(image, other, lo, hi, base + pos + 4);
        if entry_record_length(image, base + pos) >= ENTRY_HEADER {
            lemma_sum_in_both(
                image,
                other,
                lo,
                hi,
                base,
                limit,
                pos + entry_record_length(image, base + pos),
            );
        }
    }
}

/// A removal keeps the invariant of a directory block: where the record
/// lengths of the block summed up to the block size before the removal of
/// one of its records, they do so after it.
pub proof fn lemma_removal_keeps_the_record_length_sum(m: Ext2, image: Seq<u8>, found: Ext2Match)
    requires
        is_context(m, image, found),
        readable(image, found.block_offset as int, m.block_size as int),
        record_length_sum(image, found.block_offset as int, m.block_size as int, 0)
            == m.block_size,
        removal(m, image, found) is Ok,
    ensures
        record_length_sum(
            removal(m, image, found).unwrap(),
            found.block_offset as int,
            m.block_size as int,
            0,
        ) == m.block_size,
{
    let base = found.block_offset as int;
    let limit = m.block_size as int;
    let e = found.entry_offset as int;
    let len = found.record_length as int;
    let end = e + len;
    let after = removal(m, image, found).unwrap();
    lemma_sum_splits(image, base, limit, 0, e);
    match found.prev {
        Some(p) => {
            let q = p.offset as int;
            let sum = (p.record_length + found.record_length) as u16;
            let field = base + q + 4;
            lemma_reaches_bounds(image, base, 0, q);
            lemma_splice_outside(image, field, u16_le_bytes(sum));
            lemma_u16_le_round_trip(sum);
            assert(u16_at(after, field) == sum);
            lemma_reaches_in_both(image, after, field, field + 2, base, 0, q);
            lemma_sum_splits(after, base, limit, 0, q);
            lemma_sum_in_both(image, after, field, field + 2, base, limit, end);
            assert(record_length_sum(image, base, limit, e) == len + record_length_sum(
                image,
                base,
                limit,
                end,
            ));
            assert(record_length_sum(after, base, limit, q) == sum + record_length_sum(
                after,
                base,
                limit,
                end,
            ));
        },
        None => {
            let next = base + end;
            let next_len = entry_record_length(image, next);
            let sum = (len + next_len) as u16;
            let record = promoted_record(image, next, sum);
            assert(record.len() == 8 + entry_name_length(image, next));
            lemma_splice_outside(image, base, record);
            lemma_u16_le_round_trip(sum);
            assert(after.subrange(base + 4, base + 6) =~= record.subrange(4, 6));
            assert(record.subrange(4, 6) =~= u16_le_bytes(sum));
            assert(u16_at(after, base + 4) == sum);
            lemma_sum_in_both(image, after, base, base + record.len(), base, limit, end + next_len);
            assert(record_length_sum(image, base, limit, 0) == len + record_length_sum(
                image,
                base,
                limit,
                end,
            ));
            assert(record_length_sum(image, base, limit, end) == next_len + record_length_sum(
                image,
                base,
                limit,
                end + next_len,
            ));
            assert(record_length_sum(after, base, limit, 0) == sum + record_length_sum(
                after,
                base,
                limit,
                end + next_len,
            ));
        },
    }
}

/// What a directory record binds: a name to an inode of some type.
pub struct Binding {
    pub inode_number: int,
    pub entry_type: EntryType,
    pub name: Seq<u8>,
}

/// What the record at `at` binds.
pub open spec fn binding_at(image: Seq<u8>, at: int) -> Binding {
    Binding {
        inode_number: entry_inode(image, at),
        entry_type: entry_type(image, at),
        name: entry_name(image, at),
    }
}

/// True when the records from the offset `pos` fill the block of `limit`
/// bytes at `base` to its last byte, each holding its fixed fields and
/// its name within its length.
pub open spec fn well_formed(image: Seq<u8>, base: int, limit: int, pos: int) -> bool
    decreases gap(pos, limit),
{
    if pos >= limit {
        pos == limit
    } else {
        let len = entry_record_length(image, base + pos);
        if len < ENTRY_HEADER || ENTRY_HEADER + entry_name_length(image, base + pos) > len || pos
            + len > limit {
            false
        } else {
            well_formed(image, base, limit, pos + len)
        }
    }
}

/// The bindings of the records from the offset `pos` to the end of the
/// block, in their order.
pub open spec fn bindings(image: Seq<u8>, base: int, limit: int, pos: int) -> Seq<Binding>
    decreases gap(pos, limit),
{
    if pos + ENTRY_HEADER > limit || entry_record_length(image, base + pos) < ENTRY_HEADER {
        Seq::empty()
    } else {
        seq![binding_at(image, base + pos)] + bindings(
            image,
            base,
            limit,
            pos + entry_record_length(image, base + pos),
        )
    }
}

/// The bindings of the records from the offset `from` up to the offset
/// `to`, in their order.
pub open spec fn bindings_until(image: Seq<u8>, base: int, from: int, to: int) -> Seq<Binding>
    decreases gap(from, to),
{
    if from >= to || entry_record_length(image, base + from) < ENTRY_HEADER {
        Seq::empty()
    } else {
        seq![binding_at(image, base + from)] + bindings_until(
            image,
            base,
            from + entry_record_length(image, base + from),
            to,
        )
    }
}

/// The record lengths of a well-formed block sum up to its size.
pub proof fn lemma_well_formed_sum(image: Seq<u8>, base: int, limit: int, pos: int)
    requires
        well_formed(image, base, limit, pos),
    ensures
        record_length_sum(image, base, limit, pos) == limit - pos,
    decreases gap(pos, limit),
{
    if pos < limit {
        lemma_well_formed_sum(image, base, limit, pos + entry_record_length(image, base + pos));
    }
}

/// The rest of a well-formed block, from a place that is reached, is well
/// formed.
pub(crate) proof fn lemma_well_formed_rest(image: Seq<u8>, base: int, limit: int, from: int, to: int)
    requires
        well_formed(image, base, limit, from),
        reaches(image, base, from, to),
        to <= limit,
    ensures
        well_formed(image, base, limit, to),
    decreases gap(from, to),
{
    if from < to {
        lemma_well_formed_rest(
            image,
            base,
            limit,
            from + entry_record_length(image, base + from),
            to,
        );
    }
}

/// The bindings from a place are those up to a place reached from it and
/// those from there.
pub(crate) proof fn lemma_bindings_split(image: Seq<u8>, base: int, limit: int, from: int, to: int)
    requires
        reaches(image, base, from, to),
        to <= limit,
    ensures
        bindings(image, base, limit, from) == bindings_until(image, base, from, to) + bindings(
            image,
            base,
            limit,
            to,
        ),
    decreases gap(from, to),
{
    if from < to {
        let next = from + entry_record_length(image, base + from);
        lemma_reaches_bounds(image, base, next, to);
        lemma_bindings_split(image, base, limit, next, to);
        assert(bindings(image, base, limit, from) =~= bindings_until(image, base, from, to)
            + bindings(image, base, limit, to));
    } else {
        assert(bindings(image, base, limit, from) =~= bindings_until(image, base, from, to)
            + bindings(image, base, limit, to));
    }
}

/// The bindings up to the place behind a record are those up to that
/// record and its own.
pub(crate) proof fn lemma_bindings_until_next(image: Seq<u8>, base: int, from: int, to: int)
    requires
        reaches(image, base, from, to),
        entry_record_length(image, base + to) >= ENTRY_HEADER,
    ensures
        bindings_until(image, base, from, to + entry_record_length(image, base + to))
            == bindings_until(image, base, from, to).push(binding_at(image, base + to)),
    decreases gap(from, to),
{
    let behind = to + entry_record_length(image, base + to);
    if from < to {
        let next = from + entry_record_length(image, base + from);
        lemma_reaches_bounds(image, base, next, to);
        lemma_bindings_until_next(image, base, next, to);
        assert(bindings_until(image, base, from, behind) =~= bindings_until(
            image,
            base,
            from,
            to,
        ).push(binding_at(image, base + to)));
    } else {
        assert(bindings_until(image, base, behind, behind) =~= Seq::<Binding>::empty());
        assert(bindings_until(image, base, from, behind) =~= bindings_until(
            image,
            base,
            from,
            to,
        ).push(binding_at(image, base + to)));
    }
}

/// A record that lies outside the bytes that differ binds the same in both
/// images and has the same lengths.
pub(crate) proof fn lemma_record_in_both(image: Seq<u8>, other: Seq<u8>, lo: int, hi: int, at: int)
    requires
        same_outside(image, other, lo, hi),
        0 <= at,
        at + ENTRY_HEADER + entry_name_length(image, at) <= image.len(),
        at + ENTRY_HEADER + entry_name_length(image, at) <= lo || hi <= at,
    ensures
        binding_at(other, at) == binding_at(image, at),
        entry_record_length(other, at) == entry_record_length(image, at),
        entry_name_length(other, at) == entry_name_length(image, at),
{
    assert(other.subrange(at, at + 4) =~= image.subrange(at, at + 4));
    assert(other.subrange(at + 4, at + 6) =~= image.subrange(at + 4, at + 6));
    assert(other[at + 6] == image[at + 6]);
    assert(other[at + 7] == image[at + 7]);
    assert(entry_name(other, at) =~= entry_name(image, at));
}

/// The records of a well-formed block that lie before the bytes that differ
/// are the same in both images.
pub(crate) proof fn lemma_prefix_in_both(
    image: Seq<u8>,
    other: Seq<u8>,
    lo: int,
    hi: int,
    base: int,
    limit: int,
    from: int,
    to: int,
)
    requires
        same_outside(image, other, lo, hi),
        well_formed(image, base, limit, from),
        reaches(image, base, from, to),
        to <= limit,
        0 <= base + from,
        base + to <= lo,
        base + limit <= image.len(),
    ensures
        reaches(other, base, from, to),
        bindings_until(other, base, from, to) == bindings_until(image, base, from, to),
        well_formed(other, base, limit, to) ==> well_formed(other, base, limit, from),
    decreases gap(from, to),
{
    if from < to {
        let next = from + entry_record_length(image, base + from);
        lemma_reaches_bounds(image, base, next, to);
        lemma_record_in_both(image, other, lo, hi, base + from);
        lemma_prefix_in_both(image, other, lo, hi, base, limit, next, to);
    }
}

/// The records of a well-formed block that lie behind the bytes that differ
/// are the same in both images.
pub(crate) proof fn lemma_suffix_in_both(
    image: Seq<u8>,
    other: Seq<u8>,
    lo: int,
    hi: int,
    base: int,
    limit: int,
    pos: int,
)
    requires
        same_outside(image, other, lo, hi),
        well_formed(image, base, limit, pos),
        hi <= base + pos,
        0 <= base + pos,
        base + limit <= image.len(),
    ensures
        well_formed(other, base, limit, pos),
        bindings(other, base, limit, pos) == bindings(image, base, limit, pos),
    decreases gap(pos, limit),
{
    if pos < limit {
        lemma_record_in_both(image, other, lo, hi, base + pos);
        lemma_suffix_in_both(
            image,
            other,
            lo,
            hi,
            base,
            limit,
            pos + entry_record_length(image, base + pos),
        );
    }
}

/// The bindings of a block are those before a record that is reached, its
/// own, and those behind it.
pub(crate) proof fn lemma_bindings_around(image: Seq<u8>, base: int, limit: int, e: int)
    requires
        well_formed(image, base, limit, 0),
        reaches(image, base, 0, e),
        e < limit,
    ensures
        well_formed(image, base, limit, e + entry_record_length(image, base + e)),
        bindings(image, base, limit, 0) == bindings_until(image, base, 0, e).push(
            binding_at(image, base + e),
        ) + bindings(image, base, limit, e + entry_record_length(image, base + e)),
{
    let end = e + entry_record_length(image, base + e);
    lemma_well_formed_rest(image, base, limit, 0, e);
    lemma_bindings_split(image, base, limit, 0, e);
    assert(bindings(image, base, limit, e) =~= seq![binding_at(image, base + e)] + bindings(
        image,
        base,
        limit,
        end,
    ));
    assert(bindings(image, base, limit, 0) =~= bindings_until(image, base, 0, e).push(
        binding_at(image, base + e),
    ) + bindings(image, base, limit, end));
}

/// Writing a record length leaves what the record binds, and gives the
/// record that length.
pub(crate) proof fn lemma_record_length_written(image: Seq<u8>, at: int, length: u16)
    requires
        0 <= at,
        at + ENTRY_HEADER + entry_name_length(image, at) <= image.len(),
    ensures
        same_outside(image, splice(image, at + 4, u16_le_bytes(length)), at + 4, at + 6),
        entry_record_length(splice(image, at + 4, u16_le_bytes(length)), at) == length,
        entry_name_length(splice(image, at + 4, u16_le_bytes(length)), at) == entry_name_length(
            image,
            at,
        ),
        binding_at(splice(image, at + 4, u16_le_bytes(length)), at) == binding_at(image, at),
{
    let after = splice(image, at + 4, u16_le_bytes(length));
    lemma_splice_outside(image, at + 4, u16_le_bytes(length));
    lemma_u16_le_round_trip(length);
    assert(after.subrange(at, at + 4) =~= image.subrange(at, at + 4));
    assert(after[at + 6] == image[at + 6]);
    assert(after[at + 7] == image[at + 7]);
    assert(entry_name(after, at) =~= entry_name(image, at));
}

/// The record that takes the place of a removed first record binds what
/// the record at `next` bound, and has the given length.
pub(crate) proof fn lemma_promoted_record_written(image: Seq<u8>, at: int, next: int, length: u16)
    requires
        0 <= at,
        at + ENTRY_HEADER + entry_name_length(image, next) <= next,
        next + ENTRY_HEADER + entry_name_length(image, next) <= image.len(),
    ensures
        same_outside(
            image,
            splice(image, at, promoted_record(image, next, length)),
            at,
            at + ENTRY_HEADER + entry_name_length(image, next),
        ),
        entry_record_length(splice(image, at, promoted_record(image, next, length)), at)
            == length,
        entry_name_length(splice(image, at, promoted_record(image, next, length)), at)
            == entry_name_length(image, next),
        binding_at(splice(image, at, promoted_record(image, next, length)), at) == binding_at(
            image,
            next,
        ),
{
    let record = promoted_record(image, next, length);
    let after = splice(image, at, record);
    assert(record.len() == 8 + entry_name_length(image, next));
    lemma_splice_outside(image, at, record);
    lemma_u16_le_round_trip(length);
    assert(after.subrange(at + 4, at + 6) =~= u16_le_bytes(length));
    assert(after.subrange(at, at + 4) =~= image.subrange(next, next + 4));
    assert(after[at + 6] == record[6]);
    assert(after[at + 7] == record[7]);
    assert(record[6] == image[next + 6]);
    assert(record[7] == image[next + 7]);
    assert(entry_name(after, at) =~= entry_name(image, next));
}

/// A record that absorbs the record behind it leaves the block well formed
/// and takes the binding of the absorbed record out.
pub(crate) proof fn lemma_absorption(image: Seq<u8>, base: int, limit: int, q: int, length: u16)
    requires
        0 <= base,
        base + limit <= image.len(),
        well_formed(image, base, limit, 0),
        reaches(image, base, 0, q),
        q < limit,
        q + entry_record_length(image, base + q) < limit,
        length == entry_record_length(image, base + q) + entry_record_length(
            image,
            base + q + entry_record_length(image, base + q),
        ),
    ensures
        well_formed(splice(image, base + q + 4, u16_le_bytes(length)), base, limit, 0),
        bindings(splice(image, base + q + 4, u16_le_bytes(length)), base, limit, 0)
            == bindings_until(image, base, 0, q + entry_record_length(image, base + q))
            + bindings(image, base, limit, q + length),
{
    let after = splice(image, base + q + 4, u16_le_bytes(length));
    let e = q + entry_record_length(image, base + q);
    let end = q + length;
    let field = base + q + 4;
    lemma_reaches_bounds(image, base, 0, q);
    lemma_well_formed_rest(image, base, limit, 0, q);
    assert(reaches(image, base, e, e));
    assert(reaches(image, base, q, e));
    lemma_well_formed_rest(image, base, limit, q, e);
    assert(well_formed(image, base, limit, end));
    lemma_record_length_written(image, base + q, length);
    lemma_suffix_in_both(image, after, field, field + 2, base, limit, end);
    assert(well_formed(after, base, limit, q));
    lemma_prefix_in_both(image, after, field, field + 2, base, limit, 0, q);
    lemma_bindings_split(after, base, limit, 0, q);
    lemma_bindings_until_next(image, base, 0, q);
    assert(bindings(after, base, limit, q) =~= seq![binding_at(after, base + q)] + bindings(
        after,
        base,
        limit,
        end,
    ));
    assert(bindings(after, base, limit, 0) =~= bindings_until(image, base, 0, e) + bindings(
        image,
        base,
        limit,
        end,
    ));
}

/// A record that moves into the place of the first record of its block
/// leaves the block well formed and takes the binding of the first record
/// out.
pub(crate) proof fn lemma_promotion(image: Seq<u8>, base: int, limit: int, length: u16)
    requires
        0 <= base,
        base + limit <= image.len(),
        well_formed(image, base, limit, 0),
        0 < limit,
        entry_record_length(image, base) < limit,
        ENTRY_HEADER + entry_name_length(image, base + entry_record_length(image, base))
            <= entry_record_length(image, base),
        length == entry_record_length(image, base) + entry_record_length(
            image,
            base + entry_record_length(image, base),
        ),
    ensures
        well_formed(
            splice(
                image,
                base,
                promoted_record(image, base + entry_record_length(image, base), length),
            ),
            base,
            limit,
            0,
        ),
        bindings(
            splice(
                image,
                base,
                promoted_record(image, base + entry_record_length(image, base), length),
            ),
            base,
            limit,
            0,
        ) == bindings(image, base, limit, entry_record_length(image, base)),
{
    let end = entry_record_length(image, base);
    let next = base + end;
    let record = promoted_record(image, next, length);
    let after = splice(image, base, record);
    assert(well_formed(image, base, limit, end));
    assert(well_formed(image, base, limit, length as int));
    lemma_promoted_record_written(image, base, next, length);
    lemma_suffix_in_both(
        image,
        after,
        base,
        base + ENTRY_HEADER + entry_name_length(image, next),
        base,
        limit,
        length as int,
    );
    assert(bindings(image, base, limit, end) =~= seq![binding_at(image, next)] + bindings(
        image,
        base,
        limit,
        length as int,
    ));
    assert(bindings(after, base, limit, 0) =~= seq![binding_at(after, base)] + bindings(
        after,
        base,
        limit,
        length as int,
    ));
}

/// A removal takes one record out of its block and leaves the others: the
/// block is well formed after it as before, and binds the same names to the
/// same inodes, in the same order, without the binding of the removed
/// record.
pub proof fn lemma_removal_takes_one_binding_out(m: Ext2, image: Seq<u8>, found: Ext2Match)
    requires
        is_context(m, image, found),
        readable(image, found.block_offset as int, m.block_size as int),
        well_formed(image, found.block_offset as int, m.block_size as int, 0),
        removal(m, image, found) is Ok,
    ensures
        well_formed(
            removal(m, image, found).unwrap(),
            found.block_offset as int,
            m.block_size as int,
            0,
        ),
        bindings(image, found.block_offset as int, m.block_size as int, 0) == bindings_until(
            image,
            found.block_offset as int,
            0,
            found.entry_offset as int,
        ).push(binding_at(image, found.block_offset + found.entry_offset)) + bindings(
            image,
            found.block_offset as int,
            m.block_size as int,
            found.entry_offset + found.record_length,
        ),
        bindings(
            removal(m, image, found).unwrap(),
            found.block_offset as int,
            m.block_size as int,
            0,
        ) == bindings_until(image, found.block_offset as int, 0, found.entry_offset as int)
            + bindings(
            image,
            found.block_offset as int,
            m.block_size as int,
            found.entry_offset + found.record_length,
        ),
{
    let base = found.block_offset as int;
    let limit = m.block_size as int;
    let e = found.entry_offset as int;
    lemma_bindings_around(image, base, limit, e);
    match found.prev {
        Some(p) => {
            lemma_absorption(
                image,
                base,
                limit,
                p.offset as int,
                (p.record_length + found.record_length) as u16,
            );
        },
        None => {
            assert(bindings_until(image, base, 0, 0) =~= Seq::<Binding>::empty());
            lemma_promotion(
                image,
                base,
                limit,
                (found.record_length + entry_record_length(
                    image,
                    base + found.record_length,
                )) as u16,
            );
        },
    }
}

/// What `unlink` leaves of the block of the record that it removes: where
/// the record lengths of the block summed up to the block size before,
/// they do so after; and where the block was well formed, it still is, and
/// binds what it bound before but for the removed record.
pub proof fn lemma_unlink_keeps_the_block(
    m: Ext2,
    image: Seq<u8>,
    name: Seq<u8>,
    found: Ext2Match,
    after: Seq<u8>,
)
    requires
        search(m, image, crate::names::fold(name)) == Ok::<Option<Ext2Match>, FsError>(
            Some(found),
        ),
        m.unlinked(image, name) == Ok::<Seq<u8>, FsError>(after),
        readable(image, found.block_offset as int, m.block_size as int),
    ensures
        record_length_sum(image, found.block_offset as int, m.block_size as int, 0)
            == m.block_size ==> record_length_sum(
            after,
            found.block_offset as int,
            m.block_size as int,
            0,
        ) == m.block_size,
        well_formed(image, found.block_offset as int, m.block_size as int, 0) ==> well_formed(
            after,
            found.block_offset as int,
            m.block_size as int,
            0,
        ) && bindings(after, found.block_offset as int, m.block_size as int, 0)
            == bindings_until(image, found.block_offset as int, 0, found.entry_offset as int)
            + bindings(
            image,
            found.block_offset as int,
            m.block_size as int,
            found.entry_offset + found.record_length,
        ),
{
    lemma_search_finds_a_match(m, image, crate::names::fold(name));
    if record_length_sum(image, found.block_offset as int, m.block_size as int, 0)
        == m.block_size {
        lemma_removal_keeps_the_record_length_sum(m, image, found);
    }
    if well_formed(image, found.block_offset as int, m.block_size as int, 0) {
        lemma_removal_takes_one_binding_out(m, image, found);
    }
}

} // verus!
