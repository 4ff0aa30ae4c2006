use shooter::checker::{check_file, Volume};
use shooter::fat16::{cluster_byte_offset, Fat16};
use shooter::fat16_dir::{find_file, read_record, DirEntry};
use shooter::names::trim_bytes;
use shooter::file::{
    check_file as signature_flag, Ext2Struct, Fat16Struct, EXT2_FLAG, FAT16_FLAG, FILE_ERROR_FLAG,
};
use shooter::filesystem::{Filesystem, FsError, LookupResult};
use shooter::utilities::ByteStore;

const ROOT: usize = 512 + 2 * 16 * 512;
const DATA: usize = ROOT + 16 * 32;

fn put_u16(image: &mut Vec<u8>, at: usize, v: u16) {
    image[at..at + 2].copy_from_slice(&v.to_le_bytes());
}

fn put_record(image: &mut Vec<u8>, at: usize, name: &str, ext: &str, attr: u8, cluster: u16, size: u32) {
    image[at..at + 8].copy_from_slice(name.as_bytes());
    image[at + 8..at + 11].copy_from_slice(ext.as_bytes());
    image[at + 11] = attr;
    put_u16(image, at + 26, cluster);
    image[at + 28..at + 32].copy_from_slice(&size.to_le_bytes());
}

fn cluster(n: usize) -> usize {
    DATA + (n - 2) * 512
}

/// A volume with 512-byte sectors and clusters: the root directory holds
/// the volume label, the file `README` (cluster 5, 1024 bytes) and the
/// directory `SUB` (cluster 3), which holds `.`, `..` and `DEEP.TXT`
/// (cluster 7, 9 bytes).
fn sample_image() -> Vec<u8> {
    let mut image = vec![0u8; DATA + 8 * 512];
    image[3..11].copy_from_slice(b"MSDOS5.0");
    put_u16(&mut image, 11, 512);
    image[13] = 1;
    put_u16(&mut image, 14, 1);
    image[16] = 2;
    put_u16(&mut image, 17, 16);
    put_u16(&mut image, 19, 200);
    put_u16(&mut image, 22, 16);
    image[43..54].copy_from_slice(b"SAMPLE VOL ");
    put_record(&mut image, ROOT, "SAMPLE V", "OL ", 0x08, 0, 0);
    put_record(&mut image, ROOT + 32, "README  ", "   ", 0x20, 5, 1024);
    put_record(&mut image, ROOT + 64, "SUB     ", "   ", 0x10, 3, 0);
    put_record(&mut image, cluster(3), ".       ", "   ", 0x10, 3, 0);
    put_record(&mut image, cluster(3) + 32, "..      ", "   ", 0x10, 0, 0);
    put_record(&mut image, cluster(3) + 64, "DEEP    ", "TXT", 0x20, 7, 9);
    image
}

fn loaded(store: &ByteStore) -> Fat16 {
    let mut volume = Fat16::default();
    volume.load_info(store).unwrap();
    volume
}

#[test]
fn boot_sector_is_decoded() {
    let store = ByteStore::new(sample_image());
    let volume = loaded(&store);
    assert_eq!(&volume.volume_name, b"MSDOS5.0");
    assert_eq!(volume.sector_size, 512);
    assert_eq!(volume.sectors_per_cluster, 1);
    assert_eq!(volume.reserved_sectors, 1);
    assert_eq!(volume.num_fats, 2);
    assert_eq!(volume.root_entries, 16);
    assert_eq!(volume.total_sectors, 200);
    assert_eq!(volume.sectors_per_fat, 16);
    assert_eq!(&volume.volume_label, b"SAMPLE VOL ");
    assert_eq!(volume.root_offset(), ROOT as u64);
    assert_eq!(volume.data_offset(), DATA as u64);
    assert_eq!(volume.cluster_bytes(), 512);
}

#[test]
fn short_boot_sector_is_an_io_error() {
    let store = ByteStore::new(vec![0u8; 53]);
    assert_eq!(Fat16::default().load_info(&store), Err(FsError::IoError));
}

#[test]
fn cluster_offset_counts_from_cluster_two() {
    assert_eq!(cluster_byte_offset(2, 17408, 512), 17408);
    assert_eq!(cluster_byte_offset(5, 17408, 512), 17408 + 3 * 512);
    let store = ByteStore::new(sample_image());
    assert_eq!(loaded(&store).cluster_offset(5), cluster(5) as u64);
}

#[test]
fn offsets_of_a_large_volume_do_not_wrap() {
    let volume = Fat16 {
        volume_name: [0; 8],
        sector_size: 4096,
        sectors_per_cluster: 64,
        num_fats: 2,
        root_entries: 512,
        sectors_per_fat: 256,
        reserved_sectors: 8,
        volume_label: [0; 11],
        total_sectors: 0,
    };
    assert_eq!(volume.root_offset(), 8 * 4096 + 2 * 256 * 4096);
    assert_eq!(volume.data_offset(), 8 * 4096 + 2 * 256 * 4096 + 512 * 32);
    assert_eq!(volume.cluster_bytes(), 64 * 4096);
}

#[test]
fn locate_reports_size_and_cluster_offset() {
    let store = ByteStore::new(sample_image());
    let volume = loaded(&store);
    assert_eq!(
        volume.locate(&store, "readme"),
        Ok(LookupResult::Found { size: 1024, location: cluster(5) as u64 })
    );
}

#[test]
fn name_and_extension_are_joined_by_a_dot() {
    let store = ByteStore::new(sample_image());
    let volume = loaded(&store);
    let found = Ok(LookupResult::Found { size: 9, location: cluster(7) as u64 });
    assert_eq!(volume.locate(&store, "deep.txt"), found);
    assert_eq!(volume.locate(&store, "DEEP.TXT"), found);
    assert_eq!(volume.locate(&store, "deep"), Ok(LookupResult::NotFound));
}

#[test]
fn fat_directories_and_labels_are_never_found() {
    let store = ByteStore::new(sample_image());
    let volume = loaded(&store);
    assert_eq!(volume.locate(&store, "sub"), Ok(LookupResult::NotFound));
    assert_eq!(volume.locate(&store, "sample v.ol"), Ok(LookupResult::NotFound));
    assert_eq!(volume.locate(&store, "."), Ok(LookupResult::NotFound));
}

#[test]
fn long_name_fragments_are_passed_over() {
    let mut image = sample_image();
    put_record(&mut image, ROOT, "README  ", "   ", 0x0f, 9, 77);
    let store = ByteStore::new(image);
    let volume = loaded(&store);
    assert_eq!(
        volume.locate(&store, "readme"),
        Ok(LookupResult::Found { size: 1024, location: cluster(5) as u64 })
    );
}

#[test]
fn search_reports_the_matched_record() {
    let store = ByteStore::new(sample_image());
    let volume = loaded(&store);
    let found = find_file(&volume, &store, b"deep.txt").unwrap().unwrap();
    assert_eq!(found.entry_offset, cluster(3) as u64 + 64);
    assert_eq!(found.starting_cluster, 7);
    assert_eq!(found.file_size, 9);
}

#[test]
fn directory_without_an_end_runs_into_an_io_error() {
    let mut image = vec![0u8; ROOT + 64];
    let sample = sample_image();
    image[..ROOT].copy_from_slice(&sample[..ROOT]);
    put_record(&mut image, ROOT, "A       ", "   ", 0x20, 5, 1);
    put_record(&mut image, ROOT + 32, "B       ", "   ", 0x20, 6, 1);
    let store = ByteStore::new(image);
    let volume = loaded(&store);
    assert_eq!(volume.locate(&store, "c"), Err(FsError::IoError));
    assert!(matches!(volume.locate(&store, "b"), Ok(LookupResult::Found { .. })));
}

#[test]
fn directory_in_a_reserved_cluster_is_unsupported() {
    let mut image = sample_image();
    put_record(&mut image, ROOT + 64, "SUB     ", "   ", 0x10, 1, 0);
    let store = ByteStore::new(image);
    let volume = loaded(&store);
    assert_eq!(volume.locate(&store, "deep.txt"), Err(FsError::UnsupportedAddressing));
}

#[test]
fn file_in_a_reserved_cluster_has_no_place() {
    let mut image = sample_image();
    put_record(&mut image, ROOT + 32, "README  ", "   ", 0x20, 0, 0);
    let store = ByteStore::new(image);
    let volume = loaded(&store);
    assert_eq!(volume.locate(&store, "readme"), Err(FsError::UnsupportedAddressing));
}

#[test]
fn cluster_cycle_ends_the_search() {
    let mut image = sample_image();
    put_record(&mut image, cluster(3) + 64, "AGAIN   ", "   ", 0x10, 3, 0);
    let store = ByteStore::new(image);
    let volume = loaded(&store);
    assert_eq!(volume.locate(&store, "deep.txt"), Ok(LookupResult::NotFound));
}

#[test]
fn unlink_is_unsupported_and_changes_nothing() {
    let image = sample_image();
    let mut store = ByteStore::new(image.clone());
    let volume = loaded(&store);
    assert_eq!(volume.unlink(&mut store, "readme"), Err(FsError::UnsupportedOperation));
    assert_eq!(volume.find(&mut store, "readme", true), Err(FsError::UnsupportedOperation));
    assert_eq!(store.into_bytes(), image);
}

#[test]
fn find_without_delete_is_locate() {
    let image = sample_image();
    let mut store = ByteStore::new(image.clone());
    let volume = loaded(&store);
    assert_eq!(
        volume.find(&mut store, "ReadMe", false),
        Ok(LookupResult::Found { size: 1024, location: cluster(5) as u64 })
    );
    assert_eq!(store.into_bytes(), image);
}

#[test]
fn record_fields_are_decoded() {
    let store = ByteStore::new(sample_image());
    let entry = read_record(&store, cluster(3) as u64 + 64).unwrap();
    assert_eq!(&entry.name, b"DEEP    ");
    assert_eq!(&entry.extension, b"TXT");
    assert_eq!(entry.attributes, 0x20);
    assert_eq!(entry.starting_cluster, 7);
    assert_eq!(entry.file_size, 9);
    assert_eq!(entry.spelled(), b"DEEP.TXT".to_vec());
    assert!(!entry.is_dir());
    assert!(!entry.is_passed_over());
    assert!(!entry.ends_directory());
    assert!(read_record(&store, (DATA + 8 * 512 - 31) as u64).is_err());
}

#[test]
fn record_with_a_zero_name_ends_the_directory() {
    assert!(DirEntry::default().ends_directory());
    let mut entry = DirEntry::default();
    entry.name[7] = 1;
    assert!(!entry.ends_directory());
    entry.name = [0; 8];
    entry.extension = *b"TXT";
    assert!(entry.ends_directory());
}

#[test]
fn dot_entries_are_passed_over() {
    let store = ByteStore::new(sample_image());
    assert!(read_record(&store, cluster(3) as u64).unwrap().is_passed_over());
    assert!(read_record(&store, cluster(3) as u64 + 32).unwrap().is_passed_over());
    assert!(read_record(&store, ROOT as u64).unwrap().is_passed_over());
    assert!(read_record(&store, ROOT as u64 + 64).unwrap().is_dir());
}

#[test]
fn trimming_strips_both_ends_only() {
    assert_eq!(trim_bytes(b"README  "), b"README".to_vec());
    assert_eq!(trim_bytes(b"  A B\t\n"), b"A B".to_vec());
    assert_eq!(trim_bytes(b"   "), Vec::<u8>::new());
    assert_eq!(trim_bytes(b""), Vec::<u8>::new());
    assert_eq!(trim_bytes(b"X"), b"X".to_vec());
}

#[test]
fn signature_selects_the_fat_volume() {
    let store = ByteStore::new(sample_image());
    assert_eq!(signature_flag(&store), FAT16_FLAG);
    let mut volume = check_file(&store).unwrap();
    assert!(matches!(volume, Volume::Fat16Volume(_)));
    assert_eq!(volume.load_info(&store), Ok(()));
    assert_eq!(
        volume.locate(&store, "README"),
        Ok(LookupResult::Found { size: 1024, location: cluster(5) as u64 })
    );
    assert_eq!(volume.unlink(&mut ByteStore::new(sample_image()), "README"), Err(FsError::UnsupportedOperation));
}

#[test]
fn ext2_magic_goes_before_the_fat_signature() {
    let mut image = sample_image();
    put_u16(&mut image, 1080, 0xef53);
    let store = ByteStore::new(image);
    assert_eq!(signature_flag(&store), EXT2_FLAG);
    assert!(matches!(check_file(&store), Some(Volume::Ext2Volume(_))));
}

#[test]
fn image_with_neither_signature_is_rejected() {
    let store = ByteStore::new(vec![0u8; 4096]);
    assert_eq!(signature_flag(&store), FILE_ERROR_FLAG);
    assert!(check_file(&store).is_none());
    let mut short = vec![0u8; 1081];
    put_u16(&mut short, 22, 16);
    let store = ByteStore::new(short);
    assert_eq!(signature_flag(&store), FILE_ERROR_FLAG);
    assert!(check_file(&store).is_none());
}

#[test]
fn raw_boot_sector_fields_are_copied() {
    let store = ByteStore::new(sample_image());
    let raw = Fat16Struct::read(&store).unwrap();
    assert_eq!(&raw.volume_name, b"MSDOS5.0");
    assert_eq!(raw.sector_size, [0x00, 0x02]);
    assert_eq!(raw.sectors_per_cluster, [1]);
    assert_eq!(raw.num_fats, [2]);
    assert_eq!(raw.root_entries, [16, 0]);
    assert_eq!(raw.sectors_per_fat, [16, 0]);
    assert_eq!(raw.reserved_sectors, [1, 0]);
    assert_eq!(&raw.volume_label, b"SAMPLE VOL ");
    assert!(Fat16Struct::read(&ByteStore::new(vec![0u8; 10])).is_err());
    assert_eq!(Fat16Struct::default().volume_label, [0u8; 11]);
}

#[test]
fn raw_superblock_fields_are_copied() {
    let mut image = vec![0u8; 4096];
    image[1024..1028].copy_from_slice(&[1, 2, 3, 4]);
    image[1048] = 1;
    image[1072..1076].copy_from_slice(&[9, 8, 7, 6]);
    image[1112..1114].copy_from_slice(&[128, 0]);
    image[1144..1148].copy_from_slice(b"root");
    image[2062..2064].copy_from_slice(&[5, 0]);
    let raw = Ext2Struct::read(&ByteStore::new(image.clone())).unwrap();
    assert_eq!(raw.num_inodes, [1, 2, 3, 4]);
    assert_eq!(raw.block_size, 2048);
    assert_eq!(raw.last_write, [9, 8, 7, 6]);
    assert_eq!(raw.inode_size, [128, 0]);
    assert_eq!(&raw.volume_name[..4], b"root");
    assert_eq!(raw.free_inodes, [5, 0]);
    image[1048] = 22;
    assert_eq!(Ext2Struct::read(&ByteStore::new(image)).err(), Some(FsError::ConfigError));
    assert_eq!(Ext2Struct::read(&ByteStore::new(vec![0u8; 2063])).err(), Some(FsError::IoError));
    assert_eq!(Ext2Struct::default().block_size, 0);
}
