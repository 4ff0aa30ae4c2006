use shooter::filesystem::FsError;
use shooter::names::{fold_name, lower_byte, matches_key, same_bytes};
use shooter::utilities::{
    read_u16_at, read_u32_at, remove_whitespace, seek_read, seek_write, to_array, ByteStore,
};

#[test]
fn reads_within_bounds() {
    let store = ByteStore::new(vec![1, 2, 3, 4]);
    assert_eq!(store.len(), 4);
    assert_eq!(seek_read(&store, 1, 2).unwrap(), &[2u8, 3u8][..]);
    assert_eq!(seek_read(&store, 4, 0).unwrap(), &[0u8; 0][..]);
    assert_eq!(seek_read(&store, 0, 4).unwrap(), store.as_slice());
}

#[test]
fn reads_beyond_the_image_fail() {
    let store = ByteStore::new(vec![1, 2, 3, 4]);
    assert_eq!(seek_read(&store, 3, 2), Err(FsError::IoError));
    assert_eq!(seek_read(&store, 5, 0), Err(FsError::IoError));
    assert_eq!(seek_read(&store, u64::MAX, 1), Err(FsError::IoError));
    assert_eq!(seek_read(&store, 0, usize::MAX), Err(FsError::IoError));
}

#[test]
fn writes_replace_the_bytes_in_place() {
    let mut store = ByteStore::new(vec![1, 2, 3, 4, 5]);
    assert_eq!(seek_write(&mut store, 1, &[9, 8]), Ok(()));
    assert_eq!(store.into_bytes(), vec![1, 9, 8, 4, 5]);
}

#[test]
fn writes_beyond_the_image_fail_and_change_nothing() {
    let mut store = ByteStore::new(vec![1, 2, 3]);
    assert_eq!(seek_write(&mut store, 2, &[9, 8]), Err(FsError::IoError));
    assert_eq!(seek_write(&mut store, 4, &[]), Err(FsError::IoError));
    assert_eq!(store.into_bytes(), vec![1, 2, 3]);
}

#[test]
fn fields_are_little_endian() {
    let store = ByteStore::new(vec![0x34, 0x12, 0x78, 0x56, 0xbc, 0x9a]);
    assert_eq!(read_u16_at(&store, 0, 0), Ok(0x1234));
    assert_eq!(read_u16_at(&store, 2, 2), Ok(0x9abc));
    assert_eq!(read_u32_at(&store, 1, 1), Ok(0x9abc_5678));
    assert_eq!(read_u32_at(&store, 0, 3), Err(FsError::IoError));
    assert_eq!(read_u16_at(&store, u64::MAX, 1), Err(FsError::IoError));
    assert_eq!(read_u32_at(&store, u64::MAX, 8), Err(FsError::IoError));
}

#[test]
fn slices_become_arrays() {
    let a: [u8; 3] = to_array(&[7, 8, 9]);
    assert_eq!(a, [7, 8, 9]);
}

#[test]
fn folding_lowers_ascii_letters_only() {
    assert_eq!(lower_byte(b'A'), b'a');
    assert_eq!(lower_byte(b'Z'), b'z');
    assert_eq!(lower_byte(b'@'), b'@');
    assert_eq!(lower_byte(b'['), b'[');
    assert_eq!(lower_byte(0xc4), 0xc4);
    assert_eq!(fold_name(b"FILE.TxT"), b"file.txt".to_vec());
    assert_eq!(fold_name("\u{c4}B".as_bytes()), "\u{c4}b".as_bytes().to_vec());
}

#[test]
fn names_match_a_folded_key() {
    assert!(matches_key(b"FILE.TXT", b"file.txt"));
    assert!(matches_key(b"file.txt", b"file.txt"));
    assert!(!matches_key(b"file.txt", b"FILE.TXT"));
    assert!(!matches_key(b"file.tx", b"file.txt"));
    assert!(matches_key(b"", b""));
    assert!(same_bytes(b"..", b".."));
    assert!(!same_bytes(b"..", b"."));
    assert!(!same_bytes(b"ab", b"aB"));
}

#[test]
fn timestamp_field_is_little_endian_seconds() {
    assert_eq!(shooter::utilities::timestamp_of(&[0x80, 0x51, 0x01, 0x00]), 86400);
    assert_eq!(shooter::utilities::timestamp_of(&[0xff, 0xff, 0xff, 0xff]), u32::MAX);
}

#[test]
fn two_byte_fields_decode_either_way() {
    assert_eq!(shooter::file::to_u16(&[0x12, 0x34], true), 0x1234);
    assert_eq!(shooter::file::to_u16(&[0x12, 0x34], false), 0x3412);
    assert_eq!(shooter::file::to_u16(&[0xff, 0xff], false), 0xffff);
}

#[test]
fn white_space_is_removed_everywhere() {
    assert_eq!(remove_whitespace(b" A B\tC\n"), b"ABC".to_vec());
    assert_eq!(remove_whitespace(b"README  "), b"README".to_vec());
    assert_eq!(remove_whitespace(b"  "), Vec::<u8>::new());
    assert_eq!(remove_whitespace(b"a\x0bb\x0cc\rd"), b"abcd".to_vec());
    assert_eq!(remove_whitespace(b"\x08\x0e\x1f!"), b"\x08\x0e\x1f!".to_vec());
}
