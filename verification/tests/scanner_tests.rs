use stick_recovery::filesystem::{parse_fat32_boot_sector, FileSystemType};
use stick_recovery::partition::{Partition, PartitionScheme};
use stick_recovery::partition::ScanError;
use stick_recovery::scanner::{
    deep_scan_results, describe_partition, file_type_for_extension, guess_file_type,
    partition_scan, partition_scan_checked, quick_scan, quick_scan_checked, quick_scan_overflows,
    raw_scan_results, scan_fat32_quick, scan_mode, ScanConfig, ScanMode,
};
use stick_recovery::sector::{ReadError, SectorReader};

fn dir_entry(name: &[u8; 11], attr: u8, cluster: u32, size: u32) -> [u8; 32] {
    let mut e = [0u8; 32];
    e[0..11].copy_from_slice(name);
    e[11] = attr;
    e[26..28].copy_from_slice(&(cluster as u16).to_le_bytes());
    e[28..32].copy_from_slice(&size.to_le_bytes());
    e
}

fn stick_image() -> Vec<u8> {
    let mut img = vec![0u8; 8 * 512];
    img[446 + 4] = 0x0c;
    img[446 + 8..446 + 12].copy_from_slice(&1u32.to_le_bytes());
    img[446 + 12..446 + 16].copy_from_slice(&99u32.to_le_bytes());
    img[510] = 0x55;
    img[511] = 0xAA;
    let b = 512;
    img[b + 11..b + 13].copy_from_slice(&512u16.to_le_bytes());
    img[b + 13] = 1;
    img[b + 14..b + 16].copy_from_slice(&1u16.to_le_bytes());
    img[b + 16] = 1;
    img[b + 32..b + 36].copy_from_slice(&100u32.to_le_bytes());
    img[b + 36..b + 40].copy_from_slice(&1u32.to_le_bytes());
    img[b + 71..b + 82].copy_from_slice(b"TESTVOL    ");
    img[b + 82..b + 90].copy_from_slice(b"FAT32   ");
    img[b + 510] = 0x55;
    img[b + 511] = 0xAA;
    let d = 1024;
    let entries = [
        dir_entry(b"HELLO   TXT", 0x20, 3, 12),
        dir_entry(b"SUB        ", 0x10, 4, 0),
        dir_entry(b"EMPTY   DAT", 0x20, 0, 0),
        dir_entry(b"PHOTO   JPG", 0x20, 5, 100),
        dir_entry(b"\xE5ONE    DOC", 0x20, 6, 40),
        dir_entry(b"\xE5OLD       ", 0x10, 7, 0),
    ];
    for (i, e) in entries.iter().enumerate() {
        img[d + 32 * i..d + 32 * i + 32].copy_from_slice(e);
    }
    img
}

#[test]
fn scan_modes() {
    assert_eq!(scan_mode("quick"), ScanMode::Quick);
    assert_eq!(scan_mode("deep"), ScanMode::Deep);
    assert_eq!(scan_mode("partition"), ScanMode::Partition);
    assert_eq!(scan_mode("raw"), ScanMode::Raw);
    assert_eq!(scan_mode("anything else"), ScanMode::Quick);
    assert_eq!(scan_mode("Deep"), ScanMode::Quick);
}

#[test]
fn scan_config_fields() {
    let c = ScanConfig {
        scan_type: "raw".to_string(),
        device: "/dev/sdb".to_string(),
        output_dir: "./out".to_string(),
    };
    assert_eq!(scan_mode(&c.scan_type), ScanMode::Raw);
}

#[test]
fn file_types_by_extension() {
    assert_eq!(file_type_for_extension("txt"), "text/plain");
    assert_eq!(file_type_for_extension("docx"), "text/plain");
    assert_eq!(file_type_for_extension("jpeg"), "image");
    assert_eq!(file_type_for_extension("gif"), "image");
    assert_eq!(file_type_for_extension("mov"), "video");
    assert_eq!(file_type_for_extension("wav"), "audio");
    assert_eq!(file_type_for_extension("pdf"), "application/pdf");
    assert_eq!(file_type_for_extension("exe"), "application/octet-stream");
    assert_eq!(file_type_for_extension("TXT"), "application/octet-stream");
}

#[test]
fn guessed_types_ignore_case() {
    assert_eq!(guess_file_type("HELLO.TXT"), "text/plain");
    assert_eq!(guess_file_type("holiday.photo.JpG"), "image");
    assert_eq!(guess_file_type("clip.MP4"), "video");
    assert_eq!(guess_file_type("song.mp3"), "audio");
    assert_eq!(guess_file_type("paper.Pdf"), "application/pdf");
}

#[test]
fn names_without_known_extension() {
    assert_eq!(guess_file_type("README"), "application/octet-stream");
    assert_eq!(guess_file_type("txt"), "text/plain");
    assert_eq!(guess_file_type("archive."), "application/octet-stream");
    assert_eq!(guess_file_type(""), "application/octet-stream");
}

#[test]
fn quick_scan_lists_root_files_of_fat32_partitions() {
    let mut reader = reader_over(stick_image());
    let names = quick_scan(&mut reader).unwrap();
    // The deleted NOTE.DOC is still found, its lost first letter shown as `_`.
    assert_eq!(
        names,
        vec!["HELLO.TXT".to_string(), "PHOTO.JPG".to_string(), "_ONE.DOC".to_string()]
    );
}

#[test]
fn quick_scan_skips_other_file_systems() {
    let mut img = stick_image();
    img[512 + 82..512 + 90].copy_from_slice(b"NOTFAT  ");
    let mut reader = reader_over(img);
    assert_eq!(quick_scan(&mut reader).unwrap(), Vec::<String>::new());
}

#[test]
fn quick_scan_fails_on_unreadable_boot_sector() {
    let mut img = stick_image();
    img[446 + 8..446 + 12].copy_from_slice(&500u32.to_le_bytes());
    let mut reader = reader_over(img);
    assert_eq!(quick_scan(&mut reader).unwrap_err(), ReadError::Read);
}

#[test]
fn fat32_quick_scan_of_partition() {
    let image = stick_image();
    let info = parse_fat32_boot_sector(&image[512..1024]).unwrap();
    assert_eq!(info.fs_type, FileSystemType::FAT32);
    assert_eq!(info.label, "TESTVOL");
    let partition = Partition {
        number: 1,
        scheme: PartitionScheme::MBR,
        partition_type: "FAT32 LBA".to_string(),
        start_sector: 1,
        end_sector: 99,
        size_bytes: 99 * 512,
        bootable: false,
        active: false,
    };
    let mut reader = reader_over(image);
    let files = scan_fat32_quick(&mut reader, &partition, &info).unwrap();
    assert_eq!(files.len(), 3);
    assert_eq!(files[0].name, "HELLO.TXT");
    assert!(!files[0].deleted);
    assert_eq!(files[0].size, 12);
    assert_eq!(files[0].file_type, "text/plain");
    assert_eq!(files[0].path, "/HELLO.TXT");
    assert_eq!(files[1].file_type, "image");
    assert_eq!(files[1].path, "/PHOTO.JPG");
    assert!(!files[1].deleted);
    assert_eq!(files[2].name, "_ONE.DOC");
    assert_eq!(files[2].size, 40);
    assert_eq!(files[2].file_type, "text/plain");
    assert_eq!(files[2].path, "/_ONE.DOC");
    assert!(files[2].deleted);
    for f in &files {
        assert!(f.size > 0);
    }
}

#[test]
fn fat32_quick_scan_of_unreadable_root_is_empty() {
    let image = stick_image();
    let mut info = parse_fat32_boot_sector(&image[512..1024]).unwrap();
    info.sectors_per_cluster = 64;
    let partition = Partition {
        number: 1,
        scheme: PartitionScheme::MBR,
        partition_type: "FAT32".to_string(),
        start_sector: 1,
        end_sector: 99,
        size_bytes: 0,
        bootable: false,
        active: false,
    };
    let mut reader = reader_over(image);
    assert!(scan_fat32_quick(&mut reader, &partition, &info).unwrap().is_empty());
}

#[test]
fn partition_summaries() {
    let mut reader = reader_over(stick_image());
    assert_eq!(
        partition_scan(&mut reader).unwrap(),
        vec!["Partition 1: FAT32 LBA (0 GB)".to_string()]
    );
    let p = Partition {
        number: 12,
        scheme: PartitionScheme::GPT,
        partition_type: "Basic Data".to_string(),
        start_sector: 0,
        end_sector: 0,
        size_bytes: 5 * 1024 * 1024 * 1024 + 17,
        bootable: false,
        active: false,
    };
    assert_eq!(describe_partition(&p), "Partition 12: Basic Data (5 GB)");
}

#[test]
fn checked_quick_scan_of_sound_image() {
    let mut reader = reader_over(stick_image());
    assert!(!quick_scan_overflows(&mut reader));
    assert_eq!(quick_scan_checked(&mut reader).unwrap(), quick_scan(&mut reader).unwrap());
    let mut short = reader_over(vec![0u8; 100]);
    assert_eq!(quick_scan_checked(&mut short), Err(ScanError::Read(ReadError::Read)));
}

#[test]
fn checked_quick_scan_reports_zero_cluster_size() {
    let mut img = stick_image();
    img[512 + 13] = 0;
    let mut reader = reader_over(img);
    assert!(quick_scan_overflows(&mut reader));
    assert_eq!(quick_scan_checked(&mut reader), Err(ScanError::Overflow));
    // The partition scan does not read boot sectors and is not affected.
    assert_eq!(partition_scan_checked(&mut reader).unwrap().len(), 1);
}

#[test]
fn checked_partition_scan() {
    let mut reader = reader_over(stick_image());
    assert_eq!(partition_scan_checked(&mut reader).unwrap(), partition_scan(&mut reader).unwrap());
    let mut img = stick_image();
    img[446 + 16 + 4] = 0x83;
    let mut reader = reader_over(img);
    assert_eq!(partition_scan_checked(&mut reader), Err(ScanError::Overflow));
    assert_eq!(quick_scan_checked(&mut reader), Err(ScanError::Overflow));
}

#[test]
fn sample_results_of_signature_scans() {
    assert_eq!(
        deep_scan_results(),
        vec!["deep_scan_result1.txt".to_string(), "deep_scan_result2.jpg".to_string()]
    );
    assert_eq!(
        raw_scan_results(),
        vec!["raw_scan_result1.doc".to_string(), "raw_scan_result2.mp4".to_string()]
    );
}

fn reader_over(image: Vec<u8>) -> SectorReader {
    let n = image.len() as u64;
    SectorReader::from_image(image, n)
}
