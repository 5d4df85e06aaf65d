use stick_recovery::filesystem::{
    detect_filesystem, extract_fat32_file, is_exfat_boot_sector, is_fat16_boot_sector,
    is_fat32_boot_sector, is_ntfs_boot_sector, list_fat32_directory, parse_fat32_boot_sector,
    parse_directory_entries, parse_fat32_directory, parse_fat32_filename, read_directory,
    read_fat_chain, BootSectorError, FileSystemType,
};
use stick_recovery::sector::{ReadError, SectorReader};

fn signed_sector() -> Vec<u8> {
    let mut s = vec![0u8; 512];
    s[510] = 0x55;
    s[511] = 0xAA;
    s
}

fn fat32_boot_sector() -> Vec<u8> {
    let mut s = signed_sector();
    s[11..13].copy_from_slice(&512u16.to_le_bytes());
    s[13] = 8;
    s[14..16].copy_from_slice(&32u16.to_le_bytes());
    s[16] = 2;
    s[32..36].copy_from_slice(&100_000u32.to_le_bytes());
    s[36..40].copy_from_slice(&1000u32.to_le_bytes());
    s[67..71].copy_from_slice(&0xDEADBEEFu32.to_le_bytes());
    s[71..82].copy_from_slice(b"MY STICK   ");
    s[82..90].copy_from_slice(b"FAT32   ");
    s
}

fn dir_entry(name: &[u8; 11], attr: u8, cluster: u32, size: u32) -> [u8; 32] {
    let mut e = [0u8; 32];
    e[0..11].copy_from_slice(name);
    e[11] = attr;
    e[20..22].copy_from_slice(&((cluster >> 16) as u16).to_le_bytes());
    e[26..28].copy_from_slice(&(cluster as u16).to_le_bytes());
    e[28..32].copy_from_slice(&size.to_le_bytes());
    e
}

#[test]
fn detects_fat32() {
    let s = fat32_boot_sector();
    assert!(is_fat32_boot_sector(&s));
    assert_eq!(detect_filesystem(&s), FileSystemType::FAT32);
}

#[test]
fn detects_exfat_and_ntfs() {
    let mut s = signed_sector();
    s[3..11].copy_from_slice(b"EXFAT   ");
    assert!(is_exfat_boot_sector(&s));
    assert_eq!(detect_filesystem(&s), FileSystemType::ExFat);
    let mut n = signed_sector();
    n[3..11].copy_from_slice(b"NTFS    ");
    assert!(is_ntfs_boot_sector(&n));
    assert_eq!(detect_filesystem(&n), FileSystemType::NTFS);
}

#[test]
fn detects_fat16() {
    let mut s = signed_sector();
    s[11..13].copy_from_slice(&512u16.to_le_bytes());
    s[13] = 4;
    s[14..16].copy_from_slice(&1u16.to_le_bytes());
    s[16] = 2;
    s[17..19].copy_from_slice(&512u16.to_le_bytes());
    s[19..21].copy_from_slice(&20000u16.to_le_bytes());
    assert!(is_fat16_boot_sector(&s));
    assert_eq!(detect_filesystem(&s), FileSystemType::FAT16);
    s[16] = 1;
    assert_eq!(detect_filesystem(&s), FileSystemType::Unknown);
}

#[test]
fn unsigned_or_short_sectors_are_unknown() {
    let mut s = fat32_boot_sector();
    assert_eq!(detect_filesystem(&s[..511]), FileSystemType::Unknown);
    s[511] = 0;
    assert!(!is_fat32_boot_sector(&s));
    assert_eq!(detect_filesystem(&s), FileSystemType::Unknown);
    assert_eq!(detect_filesystem(&[]), FileSystemType::Unknown);
}

#[test]
fn fat32_takes_precedence() {
    let mut s = fat32_boot_sector();
    s[3..11].copy_from_slice(b"NTFS    ");
    assert_eq!(detect_filesystem(&s), FileSystemType::FAT32);
}

#[test]
fn fat32_boot_parameters() {
    let info = parse_fat32_boot_sector(&fat32_boot_sector()).unwrap();
    assert_eq!(info.fs_type, FileSystemType::FAT32);
    assert_eq!(info.label, "MY STICK");
    assert_eq!(info.serial, 0xDEADBEEF);
    assert_eq!(info.total_sectors, 100_000);
    assert_eq!(info.free_sectors, 0);
    assert_eq!(info.bytes_per_sector, 512);
    assert_eq!(info.sectors_per_cluster, 8);
    assert_eq!(info.total_clusters, (100_000 - 32 - 2 * 1000) / 8);
}

#[test]
fn fat32_small_sector_count_fallback() {
    let mut s = fat32_boot_sector();
    s[32..36].copy_from_slice(&0u32.to_le_bytes());
    s[19..21].copy_from_slice(&60000u16.to_le_bytes());
    let info = parse_fat32_boot_sector(&s).unwrap();
    assert_eq!(info.total_sectors, 60000);
    assert_eq!(info.total_clusters, (60000 - 32 - 2000) / 8);
}

#[test]
fn fat32_label_with_invalid_utf8_is_replaced() {
    let mut s = fat32_boot_sector();
    s[71..82].copy_from_slice(b"  AB\xFFCD    ");
    let info = parse_fat32_boot_sector(&s).unwrap();
    assert_eq!(info.label, "AB\u{FFFD}CD");
}

#[test]
fn short_boot_sector_is_rejected() {
    assert_eq!(
        parse_fat32_boot_sector(&[0u8; 100]).unwrap_err(),
        BootSectorError::InvalidSize
    );
}

#[test]
fn short_names() {
    assert_eq!(parse_fat32_filename(&dir_entry(b"HELLO   TXT", 0x20, 3, 1)), "HELLO.TXT");
    assert_eq!(parse_fat32_filename(&dir_entry(b"README     ", 0x20, 3, 1)), "README");
    assert_eq!(parse_fat32_filename(&dir_entry(b"  A   B  C ", 0x20, 3, 1)), "A   B.C");
}

fn directory_cluster() -> Vec<u8> {
    let mut d = vec![0u8; 512];
    let entries = [
        dir_entry(b"MYSTICK    ", 0x08, 0, 0),
        dir_entry(b"HELLO   TXT", 0x20, 3, 12),
        dir_entry(b"\xE5ONE    TXT", 0x20, 4, 5),
        dir_entry(b"ALONGNAME  ", 0x0F, 0, 0),
        dir_entry(b"PHOTOS     ", 0x10, 0x0001_0005, 0),
        dir_entry(b"PIC     JPG", 0x21, 9, 100),
        dir_entry(b"FAR     BIN", 0x20, 0x0123_4567, 7),
    ];
    for (i, e) in entries.iter().enumerate() {
        d[32 * i..32 * i + 32].copy_from_slice(e);
    }
    d[32 * 8..32 * 9].copy_from_slice(&dir_entry(b"AFTER   END", 0x20, 6, 1));
    d
}

#[test]
fn directory_listing() {
    let entries = parse_fat32_directory(&directory_cluster());
    let names: Vec<&str> = entries.iter().map(|e| e.name.as_str()).collect();
    assert_eq!(names, vec!["HELLO.TXT", "PHOTOS", "PIC.JPG", "FAR.BIN"]);
    assert_eq!(entries[0].size, 12);
    assert_eq!(entries[0].first_cluster, 3);
    assert!(!entries[0].is_directory);
    assert!(entries[1].is_directory);
    assert_eq!(entries[1].first_cluster, 0x0001_0005);
    assert_eq!(entries[2].attributes, 0x21);
    assert_eq!(entries[2].creation_time, None);
    assert!(entries.len() <= 512 / 32);
    assert!(entries.iter().all(|e| !e.is_deleted));
    // The high word of the first cluster is bytes 20..22, both bytes of it.
    assert_eq!(entries[3].first_cluster, 0x0123_4567);
}

#[test]
fn first_cluster_high_word() {
    let mut d = vec![0u8; 32];
    d[0..32].copy_from_slice(&dir_entry(b"BIG     DAT", 0x20, 0, 9));
    d[21] = 1;
    let entries = parse_fat32_directory(&d);
    assert_eq!(entries.len(), 1);
    assert_eq!(entries[0].first_cluster, 0x0100_0000);
}

#[test]
fn directory_listing_with_deleted_entries() {
    let entries = parse_directory_entries(&directory_cluster(), true);
    let names: Vec<&str> = entries.iter().map(|e| e.name.as_str()).collect();
    assert_eq!(names, vec!["HELLO.TXT", "_ONE.TXT", "PHOTOS", "PIC.JPG", "FAR.BIN"]);
    assert!(entries[1].is_deleted);
    assert_eq!(entries[1].size, 5);
    assert_eq!(entries[1].first_cluster, 4);
    assert!(!entries[0].is_deleted && !entries[2].is_deleted && !entries[3].is_deleted);
    // Without the deleted entries, the same listing as the live one.
    let live: Vec<String> =
        entries.iter().filter(|e| !e.is_deleted).map(|e| e.name.clone()).collect();
    let plain: Vec<String> =
        parse_fat32_directory(&directory_cluster()).iter().map(|e| e.name.clone()).collect();
    assert_eq!(live, plain);
    assert_eq!(parse_directory_entries(&directory_cluster(), false).len(), 4);
}

#[test]
fn directory_read_with_deleted_entries() {
    let mut image = vec![0u8; 4096];
    image[1024..1536].copy_from_slice(&directory_cluster());
    let mut reader = reader_over(image);
    let entries = read_directory(&mut reader, 2, 512, 1, true).unwrap();
    assert_eq!(entries.len(), 5);
    assert_eq!(read_directory(&mut reader, 100, 512, 1, true).unwrap_err(), ReadError::Read);
}

#[test]
fn directory_read_at_cluster_offset() {
    let mut image = vec![0u8; 4096];
    image[1024..1536].copy_from_slice(&directory_cluster());
    let mut reader = reader_over(image);
    let entries = list_fat32_directory(&mut reader, 2, 512, 1).unwrap();
    assert_eq!(entries.len(), 4);
    assert_eq!(list_fat32_directory(&mut reader, 100, 512, 1).unwrap_err(), ReadError::Read);
}

fn chain_image() -> Vec<u8> {
    let mut image = vec![0u8; 6 * 512];
    let fat = 512;
    let link = |img: &mut Vec<u8>, c: usize, next: u32| {
        img[fat + 4 * c..fat + 4 * c + 4].copy_from_slice(&next.to_le_bytes());
    };
    link(&mut image, 2, 3);
    link(&mut image, 3, 5);
    link(&mut image, 5, 0x0FFF_FFFF);
    for s in 2..6 {
        for b in 0..512 {
            image[s * 512 + b] = (s * 16 + b % 16) as u8;
        }
    }
    image
}

#[test]
fn cluster_chain() {
    let mut reader = reader_over(chain_image());
    // The chain runs up to and including the cluster marked as the last one.
    assert_eq!(read_fat_chain(&mut reader, 1, 512, 2).unwrap(), vec![2, 3, 5]);
    assert_eq!(read_fat_chain(&mut reader, 1, 512, 5).unwrap(), vec![5]);
    assert_eq!(read_fat_chain(&mut reader, 1, 512, 0x1000).unwrap_err(), ReadError::Read);
}

#[test]
fn cluster_chain_entry_crossing_sector_end_stops() {
    let mut reader = reader_over(chain_image());
    assert_eq!(read_fat_chain(&mut reader, 1, 1024, 255).unwrap(), Vec::<u32>::new());
}

#[test]
fn file_extraction() {
    let image = chain_image();
    let mut reader = reader_over(image.clone());
    let data = extract_fat32_file(&mut reader, 1, 2, 512, 1, 2, 1100).unwrap();
    let mut expected = image[1024..2048].to_vec();
    expected.extend_from_slice(&image[2560..2636]);
    assert_eq!(data, expected);
    assert_eq!(data.len(), 1100);
    let part = extract_fat32_file(&mut reader, 1, 2, 512, 1, 2, 700).unwrap();
    assert_eq!(part, image[1024..1724].to_vec());
}

#[test]
fn file_of_one_cluster() {
    let image = chain_image();
    let mut reader = reader_over(image.clone());
    // Cluster 5 is marked as the end of its chain: its data is the file.
    let data = extract_fat32_file(&mut reader, 1, 2, 512, 1, 5, 100).unwrap();
    assert_eq!(data, image[2560..2660].to_vec());
}

#[test]
fn file_extraction_stops_at_chain_end() {
    let mut reader = reader_over(chain_image());
    let data = extract_fat32_file(&mut reader, 1, 2, 512, 1, 2, 100_000).unwrap();
    assert_eq!(data.len(), 3 * 512);
    let empty = extract_fat32_file(&mut reader, 1, 2, 512, 1, 2, 0).unwrap();
    assert!(empty.is_empty());
}

fn reader_over(image: Vec<u8>) -> SectorReader {
    let n = image.len() as u64;
    SectorReader::from_image(image, n)
}
