use std::cell::RefCell;
use stick_recovery::sector::{
    extract_partition_table, has_valid_mbr, partition_type_to_string, read_mbr, PartitionEntry,
    ReadError, SectorReader,
};

fn patterned(len: usize) -> Vec<u8> {
    (0..len).map(|i| (i % 251) as u8).collect()
}

fn mbr_with_entries(entries: &[(u8, u8, u32, u32)]) -> Vec<u8> {
    let mut mbr = vec![0u8; 512];
    for (k, (boot, ptype, lba, total)) in entries.iter().enumerate() {
        let off = 446 + 16 * k;
        mbr[off] = *boot;
        mbr[off + 1] = 1;
        mbr[off + 2] = 2;
        mbr[off + 3] = 3;
        mbr[off + 4] = *ptype;
        mbr[off + 5] = 5;
        mbr[off + 6] = 6;
        mbr[off + 7] = 7;
        mbr[off + 8..off + 12].copy_from_slice(&lba.to_le_bytes());
        mbr[off + 12..off + 16].copy_from_slice(&total.to_le_bytes());
    }
    mbr[510] = 0x55;
    mbr[511] = 0xAA;
    mbr
}

#[test]
fn reader_geometry() {
    let reader = reader_over(patterned(2048 + 100));
    assert_eq!(reader.device_size(), 2148);
    assert_eq!(reader.sector_size(), 512);
    assert_eq!(reader.total_sectors(), 4);
    assert_eq!(reader.current_sector(), 0);
}

#[test]
fn read_at_inside_image() {
    let image = patterned(2048);
    let mut reader = reader_over(image.clone());
    assert_eq!(reader.read_at(10, 5).unwrap(), image[10..15].to_vec());
    assert_eq!(reader.read_at(2040, 8).unwrap(), image[2040..2048].to_vec());
}

#[test]
fn read_at_past_end_fails() {
    let mut reader = reader_over(patterned(2048));
    assert_eq!(reader.read_at(2041, 8), Err(ReadError::Read));
    assert_eq!(reader.read_at(5000, 1), Err(ReadError::Read));
}

#[test]
fn read_at_unseekable_offset_fails() {
    let mut reader = reader_over(patterned(16));
    assert_eq!(reader.read_at(0x8000_0000_0000_0000, 0), Err(ReadError::Seek));
    assert_eq!(reader.read_at(u64::MAX, 4), Err(ReadError::Seek));
}

#[test]
fn empty_read_succeeds_anywhere_seekable() {
    let mut reader = reader_over(patterned(16));
    assert_eq!(reader.read_at(1_000_000, 0).unwrap(), Vec::<u8>::new());
}

#[test]
fn read_sector_and_sectors() {
    let image = patterned(2048);
    let mut reader = reader_over(image.clone());
    assert_eq!(reader.read_sector(1).unwrap(), image[512..1024].to_vec());
    assert_eq!(reader.read_sectors(1, 2).unwrap(), image[512..1536].to_vec());
    assert_eq!(reader.read_sector(4), Err(ReadError::Read));
    assert_eq!(reader.read_sectors(3, 2), Err(ReadError::Read));
}

#[test]
fn read_sectors_equals_concatenated_sector_reads() {
    let image = patterned(4096);
    let mut reader = reader_over(image);
    let mut joined = Vec::new();
    for s in 2..6 {
        joined.extend(reader.read_sector(s).unwrap());
    }
    assert_eq!(reader.read_sectors(2, 4).unwrap(), joined);
}

#[test]
fn sequential_reading() {
    let image = patterned(1536);
    let mut reader = reader_over(image.clone());
    reader.seek_to_sector(1).unwrap();
    assert_eq!(reader.current_sector(), 1);
    assert!(!reader.is_end());
    assert_eq!(reader.read_next_sector().unwrap(), image[512..1024].to_vec());
    assert_eq!(reader.read_next_sector().unwrap(), image[1024..1536].to_vec());
    assert_eq!(reader.current_sector(), 3);
    assert!(reader.is_end());
    assert_eq!(reader.read_next_sector(), Err(ReadError::Read));
    assert_eq!(reader.current_sector(), 3);
}

#[test]
fn seek_beyond_seekable_range_fails() {
    let mut reader = reader_over(patterned(512));
    assert_eq!(reader.seek_to_sector(0x40_0000_0000_0000), Err(ReadError::Seek));
    assert_eq!(reader.current_sector(), 0);
}

#[test]
fn read_with_progress_reports_each_chunk() {
    let image = patterned(3 * 1024 * 1024 + 1024);
    let mut reader = reader_over(image.clone());
    let calls = RefCell::new(Vec::new());
    let data = reader
        .read_with_progress(2, 6144, |done, total| calls.borrow_mut().push((done, total)))
        .unwrap();
    assert_eq!(data, image[1024..1024 + 3 * 1024 * 1024].to_vec());
    assert_eq!(calls.into_inner(), vec![(2048, 6144), (4096, 6144), (6144, 6144)]);
}

#[test]
fn read_with_progress_fails_past_end() {
    let mut reader = reader_over(patterned(1024));
    assert_eq!(reader.read_with_progress(1, 2, |_, _| {}), Err(ReadError::Read));
}

#[test]
fn mbr_is_sector_zero() {
    let image = patterned(1024);
    let mut reader = reader_over(image.clone());
    assert_eq!(read_mbr(&mut reader).unwrap(), image[0..512].to_vec());
    let mut short = reader_over(patterned(100));
    assert_eq!(read_mbr(&mut short), Err(ReadError::Read));
}

#[test]
fn mbr_signature() {
    let mut mbr = vec![0u8; 512];
    assert!(!has_valid_mbr(&mbr));
    mbr[510] = 0x55;
    mbr[511] = 0xAA;
    assert!(has_valid_mbr(&mbr));
    assert!(!has_valid_mbr(&mbr[..511]));
}

#[test]
fn partition_entry_decoding() {
    let mbr = mbr_with_entries(&[(0x80, 0x0b, 2048, 1000)]);
    let e = PartitionEntry::from_bytes(&mbr[446..462]);
    assert_eq!(e.boot_indicator, 0x80);
    assert_eq!(e.starting_chs, [1, 2, 3]);
    assert_eq!(e.partition_type, 0x0b);
    assert_eq!(e.ending_chs, [5, 6, 7]);
    assert_eq!(e.starting_lba, 2048);
    assert_eq!(e.total_sectors, 1000);
    assert!(e.is_valid());
    assert_eq!(e.start_sector(), 2048);
    assert_eq!(e.end_sector(), 3047);
    assert_eq!(e.size_bytes(), 512000);
}

#[test]
fn partition_entry_extent_law() {
    let mbr = mbr_with_entries(&[(0, 0x83, 7, 9)]);
    let e = PartitionEntry::from_bytes(&mbr[446..462]);
    assert_eq!(e.end_sector() - e.start_sector() + 1, e.size_bytes() / 512);
}

#[test]
fn empty_entry_is_not_valid() {
    let mbr = vec![0u8; 512];
    let e = PartitionEntry::from_bytes(&mbr[446..462]);
    assert!(!e.is_valid());
}

#[test]
fn partition_table_keeps_used_slots_in_order() {
    let mbr = mbr_with_entries(&[(0, 0x0b, 10, 20), (0, 0x00, 0, 0), (0, 0x83, 40, 5)]);
    let table = extract_partition_table(&mbr);
    assert_eq!(table.len(), 2);
    assert_eq!(table[0].partition_type, 0x0b);
    assert_eq!(table[1].partition_type, 0x83);
    assert_eq!(table[1].starting_lba, 40);
}

#[test]
fn partition_table_of_short_sector() {
    let mbr = mbr_with_entries(&[(0, 0x0b, 10, 20), (0, 0x07, 30, 5)]);
    let table = extract_partition_table(&mbr[..470]);
    assert_eq!(table.len(), 1);
    assert_eq!(table[0].partition_type, 0x0b);
    assert!(extract_partition_table(&[]).is_empty());
}

#[test]
fn partition_table_has_at_most_four_entries() {
    let mbr = mbr_with_entries(&[(0, 1, 1, 1), (0, 2, 1, 1), (0, 3, 1, 1), (0, 4, 1, 1)]);
    let table = extract_partition_table(&mbr);
    assert_eq!(table.len(), 4);
    assert!(table.iter().all(|e| e.is_valid()));
}

#[test]
fn partition_type_names() {
    assert_eq!(partition_type_to_string(0x00), "Empty");
    assert_eq!(partition_type_to_string(0x01), "FAT12");
    assert_eq!(partition_type_to_string(0x04), "FAT16 < 32M");
    assert_eq!(partition_type_to_string(0x05), "Extended");
    assert_eq!(partition_type_to_string(0x06), "FAT16B");
    assert_eq!(partition_type_to_string(0x07), "NTFS/exFAT");
    assert_eq!(partition_type_to_string(0x0b), "FAT32");
    assert_eq!(partition_type_to_string(0x0c), "FAT32 LBA");
    assert_eq!(partition_type_to_string(0x0e), "FAT16 LBA");
    assert_eq!(partition_type_to_string(0x0f), "Extended LBA");
    assert_eq!(partition_type_to_string(0x82), "Linux Swap");
    assert_eq!(partition_type_to_string(0x83), "Linux");
    assert_eq!(partition_type_to_string(0x85), "Linux Extended");
    assert_eq!(partition_type_to_string(0xee), "GPT Protective");
    assert_eq!(partition_type_to_string(0xef), "EFI System");
    assert_eq!(partition_type_to_string(0x42), "Unknown");
}

fn reader_over(image: Vec<u8>) -> SectorReader {
    let n = image.len() as u64;
    SectorReader::from_image(image, n)
}

#[test]
fn reported_size_is_kept() {
    let mut reader = SectorReader::from_image(patterned(1024), 0);
    assert_eq!(reader.device_size(), 0);
    assert_eq!(reader.total_sectors(), 0);
    assert!(reader.is_end());
    assert_eq!(reader.read_sector(1).unwrap(), patterned(1024)[512..].to_vec());
}
