//! The byte-addressable backing store and the decoding of little-endian
//! fields.

use crate::filesystem::FsError;
use crate::names::{is_space_byte, without_whitespace};
use byteorder::{ByteOrder, LittleEndian};
use vstd::prelude::*;
use vstd::slice::slice_subrange;

verus! {

/// True when the `len` bytes at `offset` lie within `image`.
pub open spec fn readable(image: Seq<u8>, offset: int, len: int) -> bool {
    0 <= offset && 0 <= len && offset + len <= image.len()
}

/// `image` with the bytes at `offset` replaced by `data`.
pub open spec fn splice(image: Seq<u8>, offset: int, data: Seq<u8>) -> Seq<u8> {
    Seq::new(
        image.len(),
        |i: int| if offset <= i < offset + data.len() { data[i - offset] } else { image[i] },
    )
}

/// The value of two bytes in little-endian order.
pub open spec fn le_u16(b: Seq<u8>) -> int {
    b[0] + 0x100 * b[1]
}

/// The value of four bytes in little-endian order.
pub open spec fn le_u32(b: Seq<u8>) -> int {
    b[0] + 0x100 * b[1] + 0x1_0000 * b[2] + 0x100_0000 * b[3]
}

/// The value of eight bytes in little-endian order.
pub open spec fn le_u64(b: Seq<u8>) -> int {
    b[0] + 0x100 * b[1] + 0x1_0000 * b[2] + 0x100_0000 * b[3] + 0x1_0000_0000 * b[4]
        + 0x100_0000_0000 * b[5] + 0x1_0000_0000_0000 * b[6] + 0x100_0000_0000_0000 * b[7]
}

/// The 16-bit little-endian field of `image` at `offset`.
pub open spec fn u16_at(image: Seq<u8>, offset: int) -> int {
    le_u16(image.subrange(offset, offset + 2))
}

/// The 32-bit little-endian field of `image` at `offset`.
pub open spec fn u32_at(image: Seq<u8>, offset: int) -> int {
    le_u32(image.subrange(offset, offset + 4))
}

/// The two bytes that hold `v` in little-endian order.
pub open spec fn u16_le_bytes(v: u16) -> Seq<u8> {
    seq![(v % 0x100) as u8, (v / 0x100) as u8]
}

/// Decoding undoes encoding.
pub proof fn lemma_u16_le_round_trip(v: u16)
    ensures
        u16_le_bytes(v).len() == 2,
        le_u16(u16_le_bytes(v)) == v,
{
}

/// The image of a volume, addressed by byte offset.
pub struct ByteStore {
    bytes: Vec<u8>,
}

impl View for ByteStore {
    type V = Seq<u8>;

    closed spec fn view(&self) -> Seq<u8> {
        self.bytes@
    }
}

impl ByteStore {
    /// A store over the bytes of an image.
    pub fn new(bytes: Vec<u8>) -> (store: ByteStore)
        ensures
            store@ == bytes@,
    {
        ByteStore { bytes }
    }

    /// The number of bytes in the image.
    pub fn len(&self) -> (n: usize)
        ensures
            n == self@.len(),
    {
        self.bytes.len()
    }

    /// The bytes of the image.
    pub fn as_slice(&self) -> (bytes: &[u8])
        ensures
            bytes@ == self@,
    {
        self.bytes.as_slice()
    }

    /// The length of an image fits the machine's addresses.
    pub proof fn lemma_len_fits(&self)
        ensures
            self@.len() <= usize::MAX,
    {
        assert(self.bytes.len() == self.bytes@.len());
    }

    /// Gives the image back.
    pub fn into_bytes(self) -> (bytes: Vec<u8>)
        ensures
            bytes@ == self@,
    {
        self.bytes
    }
}

/// Positioned read: the `len` bytes of the image at `offset`. Fails with
/// `IoError` exactly when they do not all lie within the image.
pub fn seek_read(store: &ByteStore, offset: u64, len: usize) -> (r: Result<&[u8], FsError>)
    ensures
        match r {
            Ok(buf) => readable(store@, offset as int, len as int) && buf@ == store@.subrange(
                offset as int,
                offset + len,
            ),
            Err(e) => e == FsError::IoError && !readable(store@, offset as int, len as int),
        },
{
    let total: usize = store.bytes.len();
    if offset > total as u64 {
        return Err(FsError::IoError);
    }
    let start: usize = offset as usize;
    if len > total - start {
        return Err(FsError::IoError);
    }
    Ok(slice_subrange(store.bytes.as_slice(), start, start + len))
}

/// Positioned write: replaces the bytes of the image at `offset` by `buf`.
/// Fails with `IoError`, and leaves the image as it was, exactly when the
/// range does not lie within the image.
pub fn seek_write(store: &mut ByteStore, offset: u64, buf: &[u8]) -> (r: Result<(), FsError>)
    ensures
        match r {
            Ok(()) => readable(old(store)@, offset as int, buf@.len() as int) && final(store)@
                == splice(old(store)@, offset as int, buf@),
            Err(e) => e == FsError::IoError && !readable(
                old(store)@,
                offset as int,
                buf@.len() as int,
            ) && final(store)@ == old(store)@,
        },
{
    let total: usize = store.bytes.len();
    if offset > total as u64 {
        return Err(FsError::IoError);
    }
    let start: usize = offset as usize;
    if buf.len() > total - start {
        return Err(FsError::IoError);
    }
    let mut i: usize = 0;
    while i < buf.len()
        invariant
            i <= buf@.len(),
            start + buf@.len() <= total,
            store.bytes@.len() == total,
            total == old(store)@.len(),
            forall|k: int|
                0 <= k < total ==> store.bytes@[k] == (if start <= k < start + i {
                    buf@[k - start]
                } else {
                    old(store)@[k]
                }),
        decreases buf@.len() - i,
    {
        store.bytes.set(start + i, buf[i]);
        i = i + 1;
    }
    assert(store@ =~= splice(old(store)@, offset as int, buf@));
    Ok(())
}

/// `s` without any white space: the bytes of `s` that are no white space,
/// in their order.
pub fn remove_whitespace(s: &[u8]) -> (r: Vec<u8>)
    ensures
        r@ == without_whitespace(s@),
{
    let mut r: Vec<u8> = Vec::new();
    let mut i: usize = 0;
    proof {
        reveal(Seq::filter);
        assert(s@.subrange(0, 0) =~= Seq::<u8>::empty());
    }
    while i < s.len()
        invariant
            i <= s@.len(),
            r@ == without_whitespace(s@.subrange(0, i as int)),
        decreases s@.len() - i,
    {
        proof {
            reveal(Seq::filter);
            assert(s@.subrange(0, i + 1).drop_last() =~= s@.subrange(0, i as int));
        }
        if !is_space_byte(s[i]) {
            r.push(s[i]);
        }
        i = i + 1;
    }
    assert(s@.subrange(0, i as int) =~= s@);
    r
}

/// The seconds since the Unix epoch that a timestamp field holds.
pub fn timestamp_of(to_convert: &[u8; 4]) -> (seconds: u32)
    ensures
        seconds == le_u32(to_convert@),
{
    read_le_u32(to_convert.as_slice())
}

/// Copies a slice of `N` bytes into an array.
pub fn to_array<const N: usize>(buf: &[u8]) -> (a: [u8; N])
    requires
        buf@.len() == N,
    ensures
        a@ == buf@,
{
    let mut a: [u8; N] = [0u8; N];
    let mut i: usize = 0;
    while i < N
        invariant
            i <= N,
            buf@.len() == N,
            forall|k: int| 0 <= k < i ==> a@[k] == buf@[k],
        decreases N - i,
    {
        a[i] = buf[i];
        i = i + 1;
    }
    assert(a@ =~= buf@);
    a
}

/// The 16-bit little-endian field at `base + field`. Fails with `IoError`
/// exactly when its two bytes do not lie within the image.
pub fn read_u16_at(store: &ByteStore, base: u64, field: u64) -> (r: Result<u16, FsError>)
    ensures
        match r {
            Ok(v) => readable(store@, base + field, 2) && v == u16_at(store@, base + field),
            Err(e) => e == FsError::IoError && !readable(store@, base + field, 2),
        },
{
    proof {
        store.lemma_len_fits();
    }
    match base.checked_add(field) {
        None => Err(FsError::IoError),
        Some(offset) => {
            let buf = seek_read(store, offset, 2)?;
            Ok(read_le_u16(buf))
        },
    }
}

/// The 32-bit little-endian field at `base + field`. Fails with `IoError`
/// exactly when its four bytes do not lie within the image.
pub fn read_u32_at(store: &ByteStore, base: u64, field: u64) -> (r: Result<u32, FsError>)
    ensures
        match r {
            Ok(v) => readable(store@, base + field, 4) && v == u32_at(store@, base + field),
            Err(e) => e == FsError::IoError && !readable(store@, base + field, 4),
        },
{
    proof {
        store.lemma_len_fits();
    }
    match base.checked_add(field) {
        None => Err(FsError::IoError),
        Some(offset) => {
            let buf = seek_read(store, offset, 4)?;
            Ok(read_le_u32(buf))
        },
    }
}

/// Calls `byteorder::LittleEndian::read_u16`, which decodes the first two
/// bytes of `buf` in little-endian order and panics on a shorter buffer.
#[verifier::external_body]
pub(crate) fn read_le_u16(buf: &[u8]) -> (v: u16)
    requires
        buf@.len() >= 2,
    ensures
        v == le_u16(buf@),
{
    LittleEndian::read_u16(buf)
}

/// Calls `byteorder::LittleEndian::read_u32`, which decodes the first four
/// bytes of `buf` in little-endian order and panics on a shorter buffer.
#[verifier::external_body]
pub(crate) fn read_le_u32(buf: &[u8]) -> (v: u32)
    requires
        buf@.len() >= 4,
    ensures
        v == le_u32(buf@),
{
    LittleEndian::read_u32(buf)
}

/// Calls `byteorder::LittleEndian::read_u64`, which decodes the first eight
/// bytes of `buf` in little-endian order and panics on a shorter buffer.
#[verifier::external_body]
pub(crate) fn read_le_u64(buf: &[u8]) -> (v: u64)
    requires
        buf@.len() >= 8,
    ensures
        v == le_u64(buf@),
{
    LittleEndian::read_u64(buf)
}

} // verus!
