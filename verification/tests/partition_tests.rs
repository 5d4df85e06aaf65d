use stick_recovery::partition::{
    analysis_overflows, analyze_gpt, analyze_mbr, analyze_partitions, analyze_partitions_checked,
    detect_gpt, find_filesystem_partitions, guid_to_partition_type, is_filesystem_type,
    is_protective_mbr, parse_gpt_partition_entry, parse_gpt_partition_name, DiskInfo, Partition,
    PartitionScheme, ScanError,
};
use stick_recovery::sector::{extract_partition_table, ReadError, SectorReader};

const BASIC_DATA: [u8; 16] = [
    0xA2, 0xA0, 0xD0, 0xEB, 0xE5, 0xB9, 0x33, 0x44, 0x87, 0xC0, 0x68, 0xB6, 0xB7, 0x26, 0x99, 0xC7,
];
const EFI_SYSTEM: [u8; 16] = [
    0x28, 0x73, 0x2A, 0xC1, 0x1F, 0xF8, 0xD2, 0x11, 0xBA, 0x4B, 0x00, 0xA0, 0xC9, 0x3E, 0xC9, 0x3B,
];

fn put_mbr_entry(img: &mut [u8], slot: usize, boot: u8, ptype: u8, lba: u32, total: u32) {
    let off = 446 + 16 * slot;
    img[off] = boot;
    img[off + 4] = ptype;
    img[off + 8..off + 12].copy_from_slice(&lba.to_le_bytes());
    img[off + 12..off + 16].copy_from_slice(&total.to_le_bytes());
}

fn sign(img: &mut [u8]) {
    img[510] = 0x55;
    img[511] = 0xAA;
}

fn gpt_entry(guid: &[u8; 16], start: u64, end: u64, attrs: u64, name: &str) -> Vec<u8> {
    let mut e = vec![0u8; 128];
    e[0..16].copy_from_slice(guid);
    e[32..40].copy_from_slice(&start.to_le_bytes());
    e[40..48].copy_from_slice(&end.to_le_bytes());
    e[48..56].copy_from_slice(&attrs.to_le_bytes());
    for (i, u) in name.encode_utf16().enumerate() {
        e[56 + 2 * i..58 + 2 * i].copy_from_slice(&u.to_le_bytes());
    }
    e
}

fn gpt_image(with_protective_mbr: bool) -> Vec<u8> {
    let mut img = vec![0u8; 4 * 512];
    if with_protective_mbr {
        put_mbr_entry(&mut img, 0, 0, 0xee, 1, 100);
        sign(&mut img);
    }
    let h = 512;
    img[h..h + 8].copy_from_slice(b"EFI PART");
    img[h + 72..h + 80].copy_from_slice(&2u64.to_le_bytes());
    img[h + 80..h + 84].copy_from_slice(&4u32.to_le_bytes());
    img[h + 84..h + 88].copy_from_slice(&128u32.to_le_bytes());
    let entries = 1024;
    img[entries..entries + 128].copy_from_slice(&gpt_entry(&BASIC_DATA, 2048, 4095, 4, "data"));
    img[entries + 256..entries + 384].copy_from_slice(&gpt_entry(&EFI_SYSTEM, 34, 2047, 0, "EFI"));
    img
}

fn mbr_image() -> Vec<u8> {
    let mut img = vec![0u8; 1024];
    put_mbr_entry(&mut img, 0, 0x80, 0x0b, 2048, 1000);
    put_mbr_entry(&mut img, 1, 0x00, 0x83, 4096, 2048);
    sign(&mut img);
    img
}

#[test]
fn mbr_disk_is_listed() {
    let mut reader = reader_over(mbr_image());
    let info = analyze_partitions(&mut reader).unwrap();
    assert_eq!(info.scheme, PartitionScheme::MBR);
    assert_eq!(info.disk_size, 1024);
    assert_eq!(info.sector_size, 512);
    assert_eq!(info.partitions.len(), 2);
    let p = &info.partitions[0];
    assert_eq!(p.number, 1);
    assert_eq!(p.scheme, PartitionScheme::MBR);
    assert_eq!(p.partition_type, "FAT32");
    assert_eq!((p.start_sector, p.end_sector, p.size_bytes), (2048, 3047, 512000));
    assert!(p.bootable && p.active);
    let q = &info.partitions[1];
    assert_eq!(q.number, 2);
    assert_eq!(q.partition_type, "Linux");
    assert_eq!((q.start_sector, q.end_sector, q.size_bytes), (4096, 6143, 1048576));
    assert!(!q.bootable && !q.active);
}

#[test]
fn mbr_partitions_span_their_size() {
    let mut reader = reader_over(mbr_image());
    let info = analyze_partitions(&mut reader).unwrap();
    for p in &info.partitions {
        assert_eq!(p.end_sector + 1 - p.start_sector, p.size_bytes / 512);
        assert_eq!(p.scheme, info.scheme);
    }
}

#[test]
fn protective_mbr_leads_to_gpt() {
    let mut reader = reader_over(gpt_image(true));
    let info = analyze_partitions(&mut reader).unwrap();
    assert_eq!(info.scheme, PartitionScheme::GPT);
    assert_eq!(info.partitions.len(), 2);
    let p = &info.partitions[0];
    assert_eq!(p.number, 1);
    assert_eq!(p.partition_type, "Basic Data");
    assert_eq!((p.start_sector, p.end_sector), (2048, 4095));
    assert_eq!(p.size_bytes, 2048 * 512);
    assert!(p.bootable && p.active);
    let q = &info.partitions[1];
    assert_eq!(q.number, 3);
    assert_eq!(q.partition_type, "EFI System");
    assert_eq!(q.size_bytes, (2047 - 34 + 1) * 512);
    assert!(!q.bootable);
}

#[test]
fn gpt_signature_without_mbr() {
    let mut reader = reader_over(gpt_image(false));
    assert_eq!(detect_gpt(&mut reader), Ok(true));
    let info = analyze_partitions(&mut reader).unwrap();
    assert_eq!(info.scheme, PartitionScheme::GPT);
    assert_eq!(info.partitions.len(), 2);
}

#[test]
fn unknown_scheme() {
    let mut reader = reader_over(vec![0u8; 1024]);
    assert_eq!(detect_gpt(&mut reader), Ok(false));
    let info = analyze_partitions(&mut reader).unwrap();
    assert_eq!(info.scheme, PartitionScheme::Unknown);
    assert!(info.partitions.is_empty());
    assert_eq!(info.disk_size, 1024);
}

#[test]
fn too_small_image_fails() {
    let mut reader = reader_over(vec![0u8; 100]);
    assert!(matches!(analyze_partitions(&mut reader), Err(ReadError::Read)));
    let mut one_sector = reader_over(vec![0u8; 512]);
    assert!(matches!(analyze_partitions(&mut one_sector), Err(ReadError::Read)));
}

#[test]
fn gpt_entries_beyond_image_fail() {
    let mut img = gpt_image(true);
    img[512 + 72..512 + 80].copy_from_slice(&50u64.to_le_bytes());
    let mut reader = reader_over(img);
    assert!(matches!(analyze_partitions(&mut reader), Err(ReadError::Read)));
}

#[test]
fn gpt_entry_count_is_capped() {
    let mut img = gpt_image(true);
    img[512 + 80..512 + 84].copy_from_slice(&1000u32.to_le_bytes());
    img.resize(2 * 512 + 128 * 128, 0);
    let mut reader = reader_over(img);
    let info = analyze_gpt(&mut reader, 42, 512).unwrap();
    assert_eq!(info.disk_size, 42);
    assert_eq!(info.partitions.len(), 2);
}

#[test]
fn protective_detection() {
    let mut img = vec![0u8; 512];
    put_mbr_entry(&mut img, 2, 0, 0xee, 1, 1);
    sign(&mut img);
    assert!(is_protective_mbr(&extract_partition_table(&img)));
    let plain = mbr_image();
    assert!(!is_protective_mbr(&extract_partition_table(&plain)));
}

#[test]
fn analyze_mbr_numbers_in_table_order() {
    let img = mbr_image();
    let table = extract_partition_table(&img);
    let info = analyze_mbr(table, 7, 512).unwrap();
    assert_eq!(info.disk_size, 7);
    let numbers: Vec<u8> = info.partitions.iter().map(|p| p.number).collect();
    assert_eq!(numbers, vec![1, 2]);
}

#[test]
fn gpt_entry_parsing() {
    let e = gpt_entry(&EFI_SYSTEM, 10, 19, 4, "x");
    let p = parse_gpt_partition_entry(&e, 9).unwrap();
    assert_eq!(p.number, 9);
    assert_eq!(p.partition_type, "EFI System");
    assert_eq!(p.size_bytes, 10 * 512);
    assert!(p.bootable);
    assert!(parse_gpt_partition_entry(&vec![0u8; 128], 1).is_none());
    assert!(parse_gpt_partition_entry(&e[..100], 1).is_none());
}

#[test]
fn gpt_type_names() {
    assert_eq!(guid_to_partition_type(&EFI_SYSTEM), "EFI System");
    assert_eq!(guid_to_partition_type(&BASIC_DATA), "Basic Data");
    let msr = [0xE3, 0xC9, 0xE3, 0x16, 0x0E, 0x75, 0xC8, 0x44, 0xBC, 0xDE, 0x1F, 0x69, 0x66, 0x45, 0x78, 0x20];
    assert_eq!(guid_to_partition_type(&msr), "Microsoft Reserved");
    let linux = [0x0F, 0xC6, 0x3D, 0xAF, 0x84, 0xE3, 0x47, 0x9E, 0xA6, 0x1C, 0xF1, 0x0E, 0x08, 0x5E, 0xC7, 0xFF];
    assert_eq!(guid_to_partition_type(&linux), "Linux Filesystem");
    let swap = [0x06, 0x57, 0xFD, 0x69, 0x81, 0x24, 0x41, 0xBA, 0xBB, 0x95, 0x05, 0xF8, 0x4B, 0xE3, 0x2B, 0x4F];
    assert_eq!(guid_to_partition_type(&swap), "Linux Swap");
    let bios = [0x21, 0x6F, 0x5D, 0xB8, 0x63, 0xD9, 0x49, 0x4A, 0x87, 0x3C, 0xB5, 0x61, 0x6F, 0xE7, 0x2C, 0x6E];
    assert_eq!(guid_to_partition_type(&bios), "BIOS Boot");
    let rec = [0xDE, 0x94, 0xBA, 0xA4, 0x06, 0xD1, 0x41, 0xD4, 0xA6, 0x91, 0x00, 0x26, 0x95, 0xC6, 0x63, 0xD3];
    assert_eq!(guid_to_partition_type(&rec), "Microsoft Recovery");
    assert_eq!(guid_to_partition_type(&[1u8; 16]), "Unknown GUID");
    assert_eq!(guid_to_partition_type(&[1u8; 15]), "Unknown");
}

#[test]
fn gpt_names_decode_utf16() {
    let e = gpt_entry(&BASIC_DATA, 1, 2, 0, "Données");
    assert_eq!(parse_gpt_partition_name(&e[56..128]), "Données");
    assert_eq!(parse_gpt_partition_name(&[0x41, 0x00, 0x00, 0x00, 0x42, 0x00]), "A");
    assert_eq!(parse_gpt_partition_name(&[0x00, 0x00, 0x42]), "");
    assert_eq!(parse_gpt_partition_name(&[]), "");
}

#[test]
fn gpt_names_with_surrogates() {
    let units: [u16; 6] = [0xD83D, 0xDE00, 0xDC00, 0xD800, 0x0041, 0xD801];
    let mut bytes = Vec::new();
    for u in units {
        bytes.extend_from_slice(&u.to_le_bytes());
    }
    // A pair is one character; each unpaired surrogate is U+FFFD.
    assert_eq!(parse_gpt_partition_name(&bytes), "\u{1F600}\u{FFFD}\u{FFFD}A\u{FFFD}");
}

fn part(name: &str, number: u8) -> Partition {
    Partition {
        number,
        scheme: PartitionScheme::MBR,
        partition_type: name.to_string(),
        start_sector: 0,
        end_sector: 0,
        size_bytes: 0,
        bootable: false,
        active: false,
    }
}

#[test]
fn filesystem_partitions_are_selected_in_order() {
    let info = DiskInfo {
        scheme: PartitionScheme::MBR,
        partitions: vec![
            part("Linux Swap", 1),
            part("FAT32", 2),
            part("Extended", 3),
            part("Basic Data", 4),
            part("NTFS/exFAT", 5),
        ],
        disk_size: 0,
        sector_size: 512,
    };
    let found = find_filesystem_partitions(&info);
    let numbers: Vec<u8> = found.iter().map(|p| p.number).collect();
    assert_eq!(numbers, vec![2, 4, 5]);
}

#[test]
fn filesystem_type_names() {
    for name in [
        "Basic Data", "Linux Filesystem", "FAT32", "FAT16", "NTFS/exFAT", "FAT12", "FAT16B",
        "FAT16 LBA", "FAT32 LBA",
    ] {
        assert!(is_filesystem_type(&name.to_string()), "{}", name);
    }
    for name in ["Linux", "Empty", "EFI System", "fat32", ""] {
        assert!(!is_filesystem_type(&name.to_string()), "{}", name);
    }
}

#[test]
fn checked_analysis_of_sound_images() {
    let mut reader = reader_over(mbr_image());
    assert!(!analysis_overflows(&mut reader));
    let info = analyze_partitions_checked(&mut reader).unwrap();
    assert_eq!(info.scheme, PartitionScheme::MBR);
    assert_eq!(info.partitions.len(), 2);
    let mut gpt = reader_over(gpt_image(true));
    assert!(!analysis_overflows(&mut gpt));
    assert_eq!(analyze_partitions_checked(&mut gpt).unwrap().partitions.len(), 2);
    let mut short = reader_over(vec![0u8; 100]);
    assert!(!analysis_overflows(&mut short));
    assert!(matches!(
        analyze_partitions_checked(&mut short),
        Err(ScanError::Read(ReadError::Read))
    ));
}

#[test]
fn checked_analysis_reports_empty_mbr_slot_overflow() {
    // A used slot starting at 0 with no sectors has no last sector.
    let mut img = mbr_image();
    put_mbr_entry(&mut img, 2, 0, 0x0c, 0, 0);
    let mut reader = reader_over(img);
    assert!(analysis_overflows(&mut reader));
    assert!(matches!(analyze_partitions_checked(&mut reader), Err(ScanError::Overflow)));
}

#[test]
fn checked_analysis_reports_gpt_overflows() {
    // An entry that ends before it starts.
    let mut img = gpt_image(true);
    img[1024..1152].copy_from_slice(&gpt_entry(&BASIC_DATA, 4095, 2048, 0, "bad"));
    let mut reader = reader_over(img);
    assert!(analysis_overflows(&mut reader));
    assert!(matches!(analyze_partitions_checked(&mut reader), Err(ScanError::Overflow)));
    // A partition array at a sector whose byte offset does not fit.
    let mut far = gpt_image(false);
    far[512 + 72..512 + 80].copy_from_slice(&u64::MAX.to_le_bytes());
    let mut reader = reader_over(far);
    assert!(analysis_overflows(&mut reader));
    assert!(matches!(analyze_partitions_checked(&mut reader), Err(ScanError::Overflow)));
}

fn reader_over(image: Vec<u8>) -> SectorReader {
    let n = image.len() as u64;
    SectorReader::from_image(image, n)
}
