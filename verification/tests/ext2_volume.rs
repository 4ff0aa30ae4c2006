use shooter::checker::{check_file, Volume};
use shooter::ext2::Ext2;
use shooter::ext2_dir::{fill_dir_entry, find_file, BlockCursor, EntryType};
use shooter::filesystem::{Filesystem, FsError, LookupResult};
use shooter::utilities::{read_u16_at, ByteStore};

const BLOCK: usize = 1024;
const INODE_TABLE: usize = 5 * BLOCK;
const ROOT_BLOCK: usize = 20 * BLOCK;
const DOCS_BLOCK: usize = 21 * BLOCK;
const NOTES_DATA: usize = 22 * BLOCK;

fn put_u16(image: &mut Vec<u8>, at: usize, v: u16) {
    image[at..at + 2].copy_from_slice(&v.to_le_bytes());
}

fn put_u32(image: &mut Vec<u8>, at: usize, v: u32) {
    image[at..at + 4].copy_from_slice(&v.to_le_bytes());
}

fn put_inode(image: &mut Vec<u8>, number: u32, size: u32, sectors: u32, first_block: u32) {
    let at = INODE_TABLE + (number as usize - 1) * 128;
    put_u32(image, at + 4, size);
    put_u32(image, at + 28, sectors);
    put_u32(image, at + 40, first_block);
}

fn put_entry(image: &mut Vec<u8>, at: usize, inode: u32, rec_len: u16, kind: u8, name: &str) {
    put_u32(image, at, inode);
    put_u16(image, at + 4, rec_len);
    image[at + 6] = name.len() as u8;
    image[at + 7] = kind;
    image[at + 8..at + 8 + name.len()].copy_from_slice(name.as_bytes());
}

/// A volume with 1024-byte blocks: the root directory (inode 2) holds `.`,
/// `..` and the directory `docs` (inode 13); `docs` holds `.`, the file
/// `notes.txt` (inode 20, 42 bytes) and `..`.
fn sample_image() -> Vec<u8> {
    let mut image = vec![0u8; 24 * BLOCK];
    put_u32(&mut image, 1024, 32);
    put_u32(&mut image, 1024 + 4, 24);
    put_u32(&mut image, 1024 + 20, 1);
    put_u32(&mut image, 1024 + 24, 0);
    put_u32(&mut image, 1024 + 32, 8192);
    put_u32(&mut image, 1024 + 36, 8192);
    put_u32(&mut image, 1024 + 40, 32);
    put_u16(&mut image, 1024 + 56, 0xef53);
    put_u32(&mut image, 1024 + 84, 11);
    put_u16(&mut image, 1024 + 88, 128);
    image[1024 + 120..1024 + 124].copy_from_slice(b"test");
    put_u32(&mut image, 2048 + 8, 5);
    put_inode(&mut image, 2, 1024, 2, 20);
    put_inode(&mut image, 13, 1024, 2, 21);
    put_inode(&mut image, 20, 42, 2, 22);
    put_entry(&mut image, ROOT_BLOCK, 2, 12, 2, ".");
    put_entry(&mut image, ROOT_BLOCK + 12, 2, 12, 2, "..");
    put_entry(&mut image, ROOT_BLOCK + 24, 13, 1000, 2, "docs");
    put_entry(&mut image, DOCS_BLOCK, 13, 12, 2, ".");
    put_entry(&mut image, DOCS_BLOCK + 12, 20, 20, 1, "notes.txt");
    put_entry(&mut image, DOCS_BLOCK + 32, 2, 992, 2, "..");
    image
}

fn loaded(store: &ByteStore) -> Ext2 {
    let mut volume = Ext2::default();
    volume.load_info(store).unwrap();
    volume
}

fn record_length_sum(store: &ByteStore, block: usize) -> usize {
    let mut pos = 0usize;
    while pos < BLOCK {
        let len = read_u16_at(store, block as u64, pos as u64 + 4).unwrap() as usize;
        assert!(len >= 8);
        pos += len;
    }
    pos
}

#[test]
fn superblock_is_decoded() {
    let store = ByteStore::new(sample_image());
    let volume = loaded(&store);
    assert_eq!(volume.num_inodes, 32);
    assert_eq!(volume.num_blocks, 24);
    assert_eq!(volume.first_data_block, 1);
    assert_eq!(volume.s_log_block_size, 0);
    assert_eq!(volume.block_size, 1024);
    assert_eq!(volume.blocks_per_group, 8192);
    assert_eq!(volume.inodes_per_group, 32);
    assert_eq!(volume.first_inode, 11);
    assert_eq!(volume.inode_size, 128);
    assert_eq!(&volume.volume_name[..4], b"test");
    assert!(volume.is_valid());
}

#[test]
fn block_size_follows_the_exponent() {
    let mut image = sample_image();
    put_u32(&mut image, 1024 + 24, 2);
    let store = ByteStore::new(image);
    assert_eq!(loaded(&store).block_size, 4096);
}

#[test]
fn zero_inodes_per_group_is_a_config_error() {
    let mut image = sample_image();
    put_u32(&mut image, 1024 + 40, 0);
    let store = ByteStore::new(image);
    let mut volume = Ext2::default();
    assert_eq!(volume.load_info(&store), Err(FsError::ConfigError));
    assert_eq!(volume.inode_byte_offset(&store, 2), Err(FsError::ConfigError));
}

#[test]
fn oversized_block_exponent_is_a_config_error() {
    let mut image = sample_image();
    put_u32(&mut image, 1024 + 24, 22);
    let store = ByteStore::new(image);
    assert_eq!(Ext2::default().load_info(&store), Err(FsError::ConfigError));
}

#[test]
fn short_image_is_an_io_error() {
    let store = ByteStore::new(vec![0u8; 1100]);
    assert_eq!(Ext2::default().load_info(&store), Err(FsError::IoError));
}

#[test]
fn inode_offset_is_table_block_times_block_size_plus_index_times_inode_size() {
    let store = ByteStore::new(sample_image());
    let volume = loaded(&store);
    assert_eq!(volume.inode_byte_offset(&store, 1), Ok(5120));
    assert_eq!(volume.inode_byte_offset(&store, 2), Ok(5120 + 128));
    assert_eq!(volume.inode_byte_offset(&store, 20), Ok(5120 + 19 * 128));
}

#[test]
fn inode_of_a_later_group_uses_that_groups_descriptor() {
    let mut image = sample_image();
    put_u32(&mut image, 2048 + 32 + 8, 9);
    let store = ByteStore::new(image);
    let volume = loaded(&store);
    assert_eq!(volume.inode_byte_offset(&store, 33), Ok(9 * 1024));
    assert_eq!(volume.inode_byte_offset(&store, 35), Ok(9 * 1024 + 2 * 128));
}

#[test]
fn inode_zero_is_unsupported() {
    let store = ByteStore::new(sample_image());
    let volume = loaded(&store);
    assert_eq!(volume.inode_byte_offset(&store, 0), Err(FsError::UnsupportedAddressing));
}

#[test]
fn group_beyond_the_first_descriptor_block_is_unsupported() {
    let store = ByteStore::new(sample_image());
    let volume = loaded(&store);
    assert_eq!(volume.inode_byte_offset(&store, 32 * 32 + 1), Err(FsError::UnsupportedAddressing));
    assert!(volume.inode_byte_offset(&store, 32 * 31 + 1).is_ok());
}

#[test]
fn data_block_offset_is_pointer_times_block_size() {
    let store = ByteStore::new(sample_image());
    let volume = loaded(&store);
    let root = volume.inode_byte_offset(&store, 2).unwrap();
    assert_eq!(volume.data_block_byte_offset(&store, root, 0), Ok(20 * 1024));
    assert_eq!(volume.data_block_byte_offset(&store, root, 11), Ok(0));
}

#[test]
fn indirect_block_index_is_unsupported() {
    let store = ByteStore::new(sample_image());
    let volume = loaded(&store);
    let root = volume.inode_byte_offset(&store, 2).unwrap();
    assert_eq!(volume.data_block_byte_offset(&store, root, 12), Err(FsError::UnsupportedAddressing));
}

#[test]
fn data_block_count_divides_sectors_by_sectors_per_block() {
    let mut image = sample_image();
    put_inode(&mut image, 2, 1024, 7, 20);
    let store = ByteStore::new(image);
    let volume = loaded(&store);
    let root = volume.inode_byte_offset(&store, 2).unwrap();
    assert_eq!(volume.data_block_count(&store, root), Ok(3));
    assert_eq!(volume.file_size(&store, root), Ok(1024));
}

#[test]
fn inode_beyond_the_image_is_an_io_error() {
    let store = ByteStore::new(sample_image());
    let volume = loaded(&store);
    assert_eq!(volume.data_block_count(&store, 24 * 1024 - 10), Err(FsError::IoError));
    assert_eq!(volume.file_size(&store, u64::MAX - 2), Err(FsError::IoError));
}

#[test]
fn directory_record_is_decoded() {
    let store = ByteStore::new(sample_image());
    let entry = fill_dir_entry(&store, DOCS_BLOCK as u64, 12).unwrap();
    assert_eq!(entry.inode_number, 20);
    assert_eq!(entry.record_length, 20);
    assert_eq!(entry.name_length, 9);
    assert_eq!(entry.entry_type, EntryType::RegularFile);
    assert_eq!(entry.name, b"notes.txt".to_vec());
    assert!(fill_dir_entry(&store, 24 * 1024 - 4, 0).is_err());
}

#[test]
fn locate_descends_into_a_subdirectory() {
    let store = ByteStore::new(sample_image());
    let volume = loaded(&store);
    assert_eq!(
        volume.locate(&store, "notes.txt"),
        Ok(LookupResult::Found { size: 42, location: NOTES_DATA as u64 })
    );
}

#[test]
fn locate_does_not_change_the_image_and_repeats_its_answer() {
    let image = sample_image();
    let mut store = ByteStore::new(image.clone());
    let volume = loaded(&store);
    let first = volume.locate(&store, "notes.txt");
    let second = volume.locate(&store, "notes.txt");
    let third = volume.find(&mut store, "notes.txt", false);
    assert_eq!(first, second);
    assert_eq!(first, third);
    assert_eq!(store.into_bytes(), image);
}

#[test]
fn matching_ignores_ascii_case() {
    let store = ByteStore::new(sample_image());
    let volume = loaded(&store);
    let lower = volume.locate(&store, "notes.txt");
    assert!(matches!(lower, Ok(LookupResult::Found { .. })));
    assert_eq!(volume.locate(&store, "NOTES.TXT"), lower);
    assert_eq!(volume.locate(&store, "Notes.Txt"), lower);
}

#[test]
fn directories_are_never_found() {
    let store = ByteStore::new(sample_image());
    let volume = loaded(&store);
    assert_eq!(volume.locate(&store, "docs"), Ok(LookupResult::NotFound));
    assert_eq!(volume.locate(&store, "."), Ok(LookupResult::NotFound));
}

#[test]
fn missing_name_is_not_found() {
    let store = ByteStore::new(sample_image());
    let volume = loaded(&store);
    assert_eq!(volume.locate(&store, "absent"), Ok(LookupResult::NotFound));
}

#[test]
fn free_record_is_not_matched() {
    let mut image = sample_image();
    put_u32(&mut image, DOCS_BLOCK + 12, 0);
    let store = ByteStore::new(image);
    let volume = loaded(&store);
    assert_eq!(volume.locate(&store, "notes.txt"), Ok(LookupResult::NotFound));
}

#[test]
fn search_reports_the_record_before_the_match() {
    let store = ByteStore::new(sample_image());
    let volume = loaded(&store);
    let found = find_file(&volume, &store, b"notes.txt").unwrap().unwrap();
    assert_eq!(found.inode_number, 20);
    assert_eq!(found.block_offset, DOCS_BLOCK as u64);
    assert_eq!(found.entry_offset, 12);
    assert_eq!(found.record_length, 20);
    let prev = found.prev.unwrap();
    assert_eq!(prev.offset, 0);
    assert_eq!(prev.record_length, 12);
}

#[test]
fn unlink_grows_the_preceding_record() {
    let before = sample_image();
    let mut store = ByteStore::new(before.clone());
    let volume = loaded(&store);
    assert_eq!(volume.unlink(&mut store, "notes.txt"), Ok(()));
    assert_eq!(read_u16_at(&store, DOCS_BLOCK as u64, 4), Ok(32));
    assert_eq!(volume.locate(&store, "notes.txt"), Ok(LookupResult::NotFound));
    let dot = fill_dir_entry(&store, DOCS_BLOCK as u64, 0).unwrap();
    assert_eq!(dot.name, b".".to_vec());
    assert_eq!(dot.inode_number, 13);
    let parent = fill_dir_entry(&store, DOCS_BLOCK as u64, 32).unwrap();
    assert_eq!(parent.name, b"..".to_vec());
    assert_eq!(record_length_sum(&store, DOCS_BLOCK), BLOCK);
    let after = store.into_bytes();
    let changed: Vec<usize> = (0..before.len()).filter(|&i| before[i] != after[i]).collect();
    assert_eq!(changed, vec![DOCS_BLOCK + 4]);
}

#[test]
fn unlink_keeps_the_other_names_of_the_directory() {
    let mut image = sample_image();
    put_entry(&mut image, DOCS_BLOCK + 32, 2, 12, 2, "..");
    put_entry(&mut image, DOCS_BLOCK + 44, 21, 980, 1, "todo.md");
    put_inode(&mut image, 21, 7, 2, 23);
    let mut store = ByteStore::new(image);
    let volume = loaded(&store);
    let other = volume.locate(&store, "todo.md");
    assert_eq!(other, Ok(LookupResult::Found { size: 7, location: 23 * 1024 }));
    assert_eq!(
        volume.find(&mut store, "notes.txt", true),
        Ok(LookupResult::Found { size: 42, location: NOTES_DATA as u64 })
    );
    assert_eq!(volume.locate(&store, "notes.txt"), Ok(LookupResult::NotFound));
    assert_eq!(volume.locate(&store, "todo.md"), other);
    assert_eq!(record_length_sum(&store, DOCS_BLOCK), BLOCK);
}

#[test]
fn unlink_of_the_first_record_promotes_the_next() {
    let mut image = sample_image();
    put_entry(&mut image, ROOT_BLOCK, 20, 20, 1, "notes.txt");
    put_entry(&mut image, ROOT_BLOCK + 20, 2, 12, 2, "..");
    put_entry(&mut image, ROOT_BLOCK + 32, 13, 992, 2, "docs");
    put_entry(&mut image, DOCS_BLOCK + 12, 0, 20, 0, "notes.txt");
    let mut store = ByteStore::new(image);
    let volume = loaded(&store);
    let found = find_file(&volume, &store, b"notes.txt").unwrap().unwrap();
    assert!(found.prev.is_none());
    assert_eq!(found.entry_offset, 0);
    assert_eq!(volume.unlink(&mut store, "NOTES.TXT"), Ok(()));
    let first = fill_dir_entry(&store, ROOT_BLOCK as u64, 0).unwrap();
    assert_eq!(first.name, b"..".to_vec());
    assert_eq!(first.inode_number, 2);
    assert_eq!(first.entry_type, EntryType::Directory);
    assert_eq!(first.record_length, 32);
    let docs = fill_dir_entry(&store, ROOT_BLOCK as u64, 32).unwrap();
    assert_eq!(docs.name, b"docs".to_vec());
    assert_eq!(record_length_sum(&store, ROOT_BLOCK), BLOCK);
    assert_eq!(volume.locate(&store, "notes.txt"), Ok(LookupResult::NotFound));
}

#[test]
fn unlink_of_the_only_record_is_an_invariant_violation() {
    let mut image = sample_image();
    put_entry(&mut image, DOCS_BLOCK, 20, 1024, 1, "notes.txt");
    let before = image.clone();
    let mut store = ByteStore::new(image);
    let volume = loaded(&store);
    assert_eq!(volume.unlink(&mut store, "notes.txt"), Err(FsError::InvariantViolation));
    assert_eq!(store.into_bytes(), before);
}

#[test]
fn unlink_refuses_a_follower_that_does_not_fit() {
    let mut image = sample_image();
    put_entry(&mut image, DOCS_BLOCK, 20, 12, 1, "a.t");
    put_entry(&mut image, DOCS_BLOCK + 12, 21, 1012, 1, "longer-name.txt");
    let before = image.clone();
    let mut store = ByteStore::new(image);
    let volume = loaded(&store);
    assert_eq!(volume.unlink(&mut store, "a.t"), Err(FsError::InvariantViolation));
    assert_eq!(store.into_bytes(), before);
}

#[test]
fn unlink_of_a_missing_name_changes_nothing() {
    let image = sample_image();
    let mut store = ByteStore::new(image.clone());
    let volume = loaded(&store);
    assert_eq!(volume.unlink(&mut store, "absent"), Ok(()));
    assert_eq!(volume.find(&mut store, "absent", true), Ok(LookupResult::NotFound));
    assert_eq!(store.into_bytes(), image);
}

#[test]
fn zero_record_length_is_an_invariant_violation() {
    let mut image = sample_image();
    put_u16(&mut image, DOCS_BLOCK + 4, 0);
    let store = ByteStore::new(image);
    let volume = loaded(&store);
    assert_eq!(volume.locate(&store, "notes.txt"), Err(FsError::InvariantViolation));
}

#[test]
fn directory_cycle_ends_the_search() {
    let mut image = sample_image();
    put_entry(&mut image, DOCS_BLOCK + 12, 2, 20, 2, "loop");
    put_entry(&mut image, DOCS_BLOCK + 32, 13, 992, 2, "self");
    let store = ByteStore::new(image);
    let volume = loaded(&store);
    assert_eq!(volume.locate(&store, "notes.txt"), Ok(LookupResult::NotFound));
}

#[test]
fn directory_of_more_than_twelve_blocks_is_unsupported() {
    let mut image = sample_image();
    put_inode(&mut image, 13, 1024, 26, 21);
    for k in 1..12 {
        let at = INODE_TABLE + 12 * 128 + 40 + 4 * k;
        put_u32(&mut image, at, 23);
    }
    put_entry(&mut image, 23 * BLOCK, 0, 1024, 0, "");
    put_entry(&mut image, DOCS_BLOCK + 12, 0, 20, 0, "notes.txt");
    let store = ByteStore::new(image);
    let volume = loaded(&store);
    assert_eq!(volume.locate(&store, "notes.txt"), Err(FsError::UnsupportedAddressing));
}

#[test]
fn second_block_of_a_directory_is_searched() {
    let mut image = sample_image();
    put_inode(&mut image, 13, 2048, 4, 21);
    put_u32(&mut image, INODE_TABLE + 12 * 128 + 44, 23);
    put_entry(&mut image, DOCS_BLOCK + 12, 0, 20, 0, "notes.txt");
    put_entry(&mut image, 23 * BLOCK, 20, 1024, 1, "notes.txt");
    let mut store = ByteStore::new(image);
    let volume = loaded(&store);
    let found = find_file(&volume, &store, b"notes.txt").unwrap().unwrap();
    assert_eq!(found.block_offset, 23 * BLOCK as u64);
    assert!(found.prev.is_none());
    assert_eq!(volume.unlink(&mut store, "notes.txt"), Err(FsError::InvariantViolation));
}

#[test]
fn signature_selects_the_ext2_volume() {
    let store = ByteStore::new(sample_image());
    let mut volume = check_file(&store).unwrap();
    assert!(matches!(volume, Volume::Ext2Volume(_)));
    assert_eq!(volume.load_info(&store), Ok(()));
    assert_eq!(
        volume.locate(&store, "notes.txt"),
        Ok(LookupResult::Found { size: 42, location: NOTES_DATA as u64 })
    );
}

#[test]
fn unlink_refuses_a_record_that_runs_beyond_its_block() {
    let mut image = sample_image();
    put_entry(&mut image, DOCS_BLOCK + 12, 20, 1020, 1, "notes.txt");
    let before = image.clone();
    let mut store = ByteStore::new(image);
    let volume = loaded(&store);
    assert!(matches!(volume.locate(&store, "notes.txt"), Ok(LookupResult::Found { .. })));
    assert_eq!(volume.unlink(&mut store, "notes.txt"), Err(FsError::InvariantViolation));
    assert_eq!(store.into_bytes(), before);
}

#[test]
fn unlink_refuses_lengths_that_do_not_fit_sixteen_bits() {
    let big = 128 * 1024;
    let mut image = vec![0u8; 4 * big];
    put_u32(&mut image, 1024 + 24, 7);
    put_u32(&mut image, 1024 + 40, 32);
    put_u16(&mut image, 1024 + 56, 0xef53);
    put_u16(&mut image, 1024 + 88, 128);
    put_u32(&mut image, big + 8, 2);
    let root = 2 * big + 128;
    put_u32(&mut image, root + 4, big as u32);
    put_u32(&mut image, root + 28, 256);
    put_u32(&mut image, root + 40, 3);
    put_entry(&mut image, 3 * big, 2, 40000, 2, ".");
    put_entry(&mut image, 3 * big + 40000, 20, 30000, 1, "notes.txt");
    put_entry(&mut image, 3 * big + 70000, 2, 61072, 2, "..");
    let before = image.clone();
    let mut store = ByteStore::new(image);
    let volume = loaded(&store);
    assert_eq!(volume.block_size, 131072);
    assert_eq!(volume.inode_byte_offset(&store, 2), Ok(root as u64));
    assert_eq!(
        volume.locate(&store, "notes.txt"),
        Ok(LookupResult::Found { size: 0, location: 0 })
    );
    assert_eq!(volume.unlink(&mut store, "notes.txt"), Err(FsError::InvariantViolation));
    assert_eq!(store.into_bytes(), before);
}

#[test]
fn low_level_removal_follows_the_given_match() {
    let mut store = ByteStore::new(sample_image());
    let volume = loaded(&store);
    let found = find_file(&volume, &store, b"notes.txt").unwrap().unwrap();
    assert_eq!(
        volume.report(&store, &found),
        Ok(LookupResult::Found { size: 42, location: NOTES_DATA as u64 })
    );
    assert_eq!(volume.unlink_entry(&mut store, &found), Ok(()));
    assert!(find_file(&volume, &store, b"notes.txt").unwrap().is_none());
}

#[test]
fn records_of_a_block_come_one_by_one() {
    let store = ByteStore::new(sample_image());
    let mut cursor = BlockCursor::start(DOCS_BLOCK as u64);
    let mut seen: Vec<(u64, Vec<u8>)> = Vec::new();
    while let Some((offset, entry, next)) = cursor.next_entry(&store, 1024).unwrap() {
        seen.push((offset, entry.name));
        cursor = next;
    }
    assert_eq!(
        seen,
        vec![(0, b".".to_vec()), (12, b"notes.txt".to_vec()), (32, b"..".to_vec())]
    );
    assert_eq!(cursor.pos, 1024);
    assert_eq!(cursor.prev.unwrap().offset, 32);
    assert_eq!(cursor.prev.unwrap().record_length, 992);
}

#[test]
fn short_record_ends_the_iteration_with_an_error() {
    let mut image = sample_image();
    put_u16(&mut image, DOCS_BLOCK + 12 + 4, 7);
    let store = ByteStore::new(image);
    let first = BlockCursor::start(DOCS_BLOCK as u64);
    let (_, _, second) = first.next_entry(&store, 1024).unwrap().unwrap();
    assert_eq!(second.next_entry(&store, 1024).err(), Some(FsError::InvariantViolation));
    let beyond = BlockCursor::start(24 * 1024 - 4);
    assert_eq!(beyond.next_entry(&store, 1024).err(), Some(FsError::IoError));
}
