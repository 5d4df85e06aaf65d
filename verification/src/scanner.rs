//! Scan modes and the quick scan: files listed in the root directory of
//! each FAT32 partition, and a partition summary.

use vstd::prelude::*;
use crate::sector::{Outcome, ReadError, SectorReader, sector_outcome};
use crate::partition::{
    Partition, PartitionView, analyze_partitions, spec_analyze_partitions,
    filesystem_partitions, find_filesystem_partitions, ScanError, analysis_overflows,
};
use crate::filesystem::{
    FileSystemType, FileSystemInfo, FileEntryView, entry_views, detect_filesystem,
    spec_detect_filesystem, parse_fat32_boot_sector, fat32_geometry_sound, fat32_info,
    fat32_geometry_is_sound,
    read_directory, cluster_read, dir_entries_with_deleted,
};
use crate::text::{lowercase, to_lowercase, decimal, decimal_digits, ascii_lower};

verus! {

/// What a scan was asked to do.
pub struct ScanConfig {
    pub scan_type: String,
    pub device: String,
    pub output_dir: String,
}

/// The kinds of scan.
#[derive(Debug, Clone, Copy, PartialEq, Eq, Structural)]
pub enum ScanMode {
    /// File-system tables of the partitions.
    Quick,
    /// Sector-by-sector search for file signatures.
    Deep,
    /// Partition tables.
    Partition,
    /// Signature-based recovery.
    Raw,
}

/// The scan a scan-type name selects; an unknown name selects the quick
/// scan.
pub open spec fn spec_scan_mode(name: Seq<char>) -> ScanMode {
    if name == "deep"@ {
        ScanMode::Deep
    } else if name == "partition"@ {
        ScanMode::Partition
    } else if name == "raw"@ {
        ScanMode::Raw
    } else {
        ScanMode::Quick
    }
}

/// Whether a string equals a literal.
fn str_is(a: &str, lit: &str) -> (r: bool)
    ensures
        r == (a@ == lit@),
{
    String::from_str(a) == String::from_str(lit)
}

/// Chooses the scan for a scan-type name.
pub fn scan_mode(scan_type: &str) -> (r: ScanMode)
    ensures
        r == spec_scan_mode(scan_type@),
{
    proof {
        reveal_strlit("quick");
        reveal_strlit("deep");
        reveal_strlit("partition");
        reveal_strlit("raw");
        assert("quick"@.len() == 5 && "deep"@.len() == 4 && "partition"@.len() == 9
            && "raw"@.len() == 3);
    }
    if str_is(scan_type, "quick") {
        ScanMode::Quick
    } else if str_is(scan_type, "deep") {
        ScanMode::Deep
    } else if str_is(scan_type, "partition") {
        ScanMode::Partition
    } else if str_is(scan_type, "raw") {
        ScanMode::Raw
    } else {
        ScanMode::Quick
    }
}

// ----- file types -----

/// The part of a name after its last '.', or the whole name when it has
/// none.
pub open spec fn last_segment(s: Seq<char>) -> Seq<char>
    decreases s.len(),
{
    if s.len() == 0 {
        s
    } else if s.last() == '.' {
        Seq::empty()
    } else {
        last_segment(s.drop_last()).push(s.last())
    }
}

proof fn lemma_last_segment(s: Seq<char>, j: int)
    requires
        0 <= j <= s.len(),
        forall|k: int| j <= k < s.len() ==> s[k] != '.',
        j == 0 || s[j - 1] == '.',
    ensures
        last_segment(s) == s.subrange(j, s.len() as int),
    decreases s.len(),
{
    if s.len() == j {
    } else {
        lemma_last_segment(s.drop_last(), j);
        assert(s.subrange(j, s.len() as int) =~= s.drop_last().subrange(j, s.len() - 1).push(
            s.last(),
        ));
    }
}

/// The media type named by a lowercase extension.
pub open spec fn extension_type(ext: Seq<char>) -> Seq<char> {
    if ext == "txt"@ || ext == "md"@ || ext == "doc"@ || ext == "docx"@ {
        "text/plain"@
    } else if ext == "jpg"@ || ext == "jpeg"@ || ext == "png"@ || ext == "gif"@ {
        "image"@
    } else if ext == "mp4"@ || ext == "avi"@ || ext == "mov"@ {
        "video"@
    } else if ext == "mp3"@ || ext == "wav"@ {
        "audio"@
    } else if ext == "pdf"@ {
        "application/pdf"@
    } else {
        "application/octet-stream"@
    }
}

/// The media type for a lowercase extension.
pub fn file_type_for_extension(ext: &str) -> (r: String)
    ensures
        r@ == extension_type(ext@),
{
    if str_is(ext, "txt") || str_is(ext, "md") || str_is(ext, "doc") || str_is(ext, "docx") {
        String::from_str("text/plain")
    } else if str_is(ext, "jpg") || str_is(ext, "jpeg") || str_is(ext, "png") || str_is(
        ext,
        "gif",
    ) {
        String::from_str("image")
    } else if str_is(ext, "mp4") || str_is(ext, "avi") || str_is(ext, "mov") {
        String::from_str("video")
    } else if str_is(ext, "mp3") || str_is(ext, "wav") {
        String::from_str("audio")
    } else if str_is(ext, "pdf") {
        String::from_str("application/pdf")
    } else {
        String::from_str("application/octet-stream")
    }
}

/// The media type guessed from a file name's extension, compared in
/// lowercase.
pub open spec fn file_type_of(name: Seq<char>) -> Seq<char> {
    extension_type(lowercase(last_segment(name)))
}

/// Guesses a media type from the extension of a file name. For an ASCII
/// name the extension is lowercased letter by letter.
pub fn guess_file_type(filename: &str) -> (r: String)
    ensures
        r@ == file_type_of(filename@),
        (forall|k: int| 0 <= k < filename@.len() ==> (filename@[k] as u32) < 128) ==> r@
            == extension_type(last_segment(filename@).map_values(|c: char| ascii_lower(c))),
{
    let n = filename.unicode_len();
    let mut j = n;
    while j > 0 && filename.get_char(j - 1) != '.'
        invariant
            n == filename@.len(),
            j <= n,
            forall|k: int| j <= k < n ==> filename@[k] != '.',
        decreases j,
    {
        j = j - 1;
    }
    proof {
        lemma_last_segment(filename@, j as int);
    }
    let ext = filename.substring_char(j, n);
    let lower = to_lowercase(ext);
    file_type_for_extension(lower.as_str())
}

// ----- quick scan of a FAT32 partition -----

/// A file that a scan found.
pub struct ScannedFile {
    pub name: String,
    pub size: u64,
    pub file_type: String,
    pub path: String,
    pub deleted: bool,
}

pub struct ScannedFileView {
    pub name: Seq<char>,
    pub size: u64,
    pub file_type: Seq<char>,
    pub path: Seq<char>,
    pub deleted: bool,
}

impl View for ScannedFile {
    type V = ScannedFileView;

    open spec fn view(&self) -> ScannedFileView {
        ScannedFileView {
            name: self.name@,
            size: self.size,
            file_type: self.file_type@,
            path: self.path@,
            deleted: self.deleted,
        }
    }
}

pub open spec fn scanned_views(fs: Seq<ScannedFile>) -> Seq<ScannedFileView> {
    fs.map_values(|f: ScannedFile| f@)
}

/// The non-empty regular files among directory entries, in order, with
/// their guessed type, their path under the root and whether their entry
/// was deleted.
pub open spec fn quick_found(entries: Seq<FileEntryView>) -> Seq<ScannedFileView>
    decreases entries.len(),
{
    if entries.len() == 0 {
        Seq::empty()
    } else {
        let rest = quick_found(entries.drop_last());
        let e = entries.last();
        if !e.is_directory && e.size > 0 {
            rest.push(
                ScannedFileView {
                    name: e.name,
                    size: e.size,
                    file_type: file_type_of(e.name),
                    path: "/"@ + e.name,
                    deleted: e.is_deleted,
                },
            )
        } else {
            rest
        }
    }
}

/// The cluster that the quick scan reads as the root directory.
pub const ROOT_CLUSTER: u32 = 2;

/// What the quick scan finds in a FAT32 file system: the non-empty files
/// of the directory at cluster 2, live and deleted ones, or nothing when
/// it cannot be read.
pub open spec fn quick_root_files(image: Seq<u8>, info: crate::filesystem::FileSystemInfoView) -> Seq<ScannedFileView> {
    match cluster_read(image, 2, info.bytes_per_sector, info.sectors_per_cluster) {
        Ok(data) => quick_found(dir_entries_with_deleted(data)),
        Err(_) => Seq::empty(),
    }
}

/// Lists the non-empty files of a FAT32 partition's root directory
/// (cluster 2), those whose entries were deleted among them; an unreadable
/// directory gives an empty list.
pub fn scan_fat32_quick(
    reader: &mut SectorReader,
    partition: &Partition,
    fs_info: &FileSystemInfo,
) -> (r: Result<Vec<ScannedFile>, ReadError>)
    requires
        partition.start_sector + 32 <= u64::MAX,
    ensures
        *final(reader) == *old(reader),
        r is Ok,
        scanned_views(r->Ok_0@) == quick_root_files(old(reader)@.image, fs_info@),
{
    let mut recovered_files: Vec<ScannedFile> = Vec::new();
    let bytes_per_sector = fs_info.bytes_per_sector;
    let sectors_per_cluster = fs_info.sectors_per_cluster;
    let _fat_start_sector = partition.start_sector + 1;
    let _data_start_sector = partition.start_sector + 32;
    let listed = read_directory(reader, ROOT_CLUSTER, bytes_per_sector, sectors_per_cluster, true);
    if let Ok(entries) = listed {
        let ghost all = entry_views(entries@);
        let mut i: usize = 0;
        while i < entries.len()
            invariant
                i <= entries@.len(),
                all == entry_views(entries@),
                scanned_views(recovered_files@) == quick_found(all.take(i as int)),
            decreases entries@.len() - i,
        {
            let entry = &entries[i];
            assert(all.take(i + 1).drop_last() =~= all.take(i as int));
            if !entry.is_directory && entry.size > 0 {
                let path = String::from_str("/").concat(entry.name.as_str());
                let found = ScannedFile {
                    name: entry.name.clone(),
                    size: entry.size,
                    file_type: guess_file_type(entry.name.as_str()),
                    path,
                    deleted: entry.is_deleted,
                };
                recovered_files.push(found);
            }
            i = i + 1;
        }
        assert(all.take(i as int) =~= all);
    }
    Ok(recovered_files)
}

// ----- scanning a whole image -----

/// One partition of the quick scan: its boot sector is read and, when it
/// announces FAT32, the files of its root directory are added.
pub open spec fn quick_scan_step(
    image: Seq<u8>,
    p: PartitionView,
    found: Seq<ScannedFileView>,
) -> Outcome<Seq<ScannedFileView>> {
    if p.start_sector * 512 > u64::MAX {
        Outcome::Panics
    } else {
        match sector_outcome(image, p.start_sector as int) {
            Outcome::Done(bs) => if spec_detect_filesystem(bs) == FileSystemType::FAT32 {
                if !fat32_geometry_sound(bs) || p.start_sector + 32 > u64::MAX {
                    Outcome::Panics
                } else {
                    Outcome::Done(found + quick_root_files(image, fat32_info(bs)))
                }
            } else {
                Outcome::Done(found)
            },
            Outcome::Failed(e) => Outcome::Failed(e),
            Outcome::Panics => Outcome::Panics,
        }
    }
}

/// The quick scan over the first `k` partitions of `ps`, in order.
pub open spec fn quick_scan_upto(image: Seq<u8>, ps: Seq<PartitionView>, k: nat) -> Outcome<
    Seq<ScannedFileView>,
>
    decreases k,
{
    if k == 0 {
        Outcome::Done(Seq::empty())
    } else {
        match quick_scan_upto(image, ps, (k - 1) as nat) {
            Outcome::Done(found) => quick_scan_step(image, ps[k - 1], found),
            other => other,
        }
    }
}

proof fn lemma_quick_scan_stop(image: Seq<u8>, ps: Seq<PartitionView>, k: nat, j: nat)
    requires
        k <= j,
        !(quick_scan_upto(image, ps, k) is Done),
    ensures
        quick_scan_upto(image, ps, j) == quick_scan_upto(image, ps, k),
    decreases j - k,
{
    if k < j {
        lemma_quick_scan_stop(image, ps, k, (j - 1) as nat);
    }
}

/// The files the quick scan finds: over the partitions whose type may
/// hold a file system.
pub open spec fn spec_quick_scan(image: Seq<u8>, disk_size: u64) -> Outcome<Seq<ScannedFileView>> {
    match spec_analyze_partitions(image, disk_size) {
        Outcome::Done(info) => {
            let ps = filesystem_partitions(info.partitions);
            quick_scan_upto(image, ps, ps.len())
        },
        Outcome::Failed(e) => Outcome::Failed(e),
        Outcome::Panics => Outcome::Panics,
    }
}

/// The names of found files.
pub open spec fn found_names(fs: Seq<ScannedFileView>) -> Seq<Seq<char>> {
    fs.map_values(|f: ScannedFileView| f.name)
}

/// The names in an outcome of found files.
pub open spec fn names_of(o: Outcome<Seq<ScannedFileView>>) -> Outcome<Seq<Seq<char>>> {
    match o {
        Outcome::Done(fs) => Outcome::Done(found_names(fs)),
        Outcome::Failed(e) => Outcome::Failed(e),
        Outcome::Panics => Outcome::Panics,
    }
}

/// A list of strings, seen as an outcome over their characters.
pub open spec fn strings_outcome(r: Result<Vec<String>, ReadError>) -> Outcome<Seq<Seq<char>>> {
    match r {
        Ok(v) => Outcome::Done(v@.map_values(|s: String| s@)),
        Err(e) => Outcome::Failed(e),
    }
}

/// Quick scan: lists the non-empty files in the root directories of the
/// FAT32 partitions of the image, the deleted ones still named there among
/// them (a deleted name starts with `_`, its lost first character).
pub fn quick_scan(reader: &mut SectorReader) -> (r: Result<Vec<String>, ReadError>)
    requires
        !(spec_quick_scan(old(reader)@.image, old(reader)@.device_size) is Panics),
    ensures
        *final(reader) == *old(reader),
        strings_outcome(r) == names_of(spec_quick_scan(old(reader)@.image, old(reader)@.device_size)),
{
    let ghost image = reader@.image;
    let ghost whole = spec_quick_scan(image, reader@.device_size);
    let disk_info = analyze_partitions(reader)?;
    let fs_partitions = find_filesystem_partitions(&disk_info);
    let ghost ps = filesystem_partitions(disk_info@.partitions);
    let mut recovered_files: Vec<ScannedFile> = Vec::new();
    let mut k: usize = 0;
    assert(scanned_views(recovered_files@) =~= Seq::<ScannedFileView>::empty());
    while k < fs_partitions.len()
        invariant
            *reader == *old(reader),
            image == reader@.image,
            image == old(reader)@.image,
            k <= fs_partitions@.len(),
            fs_partitions@.map_values(|p: &Partition| p@) == ps,
            whole == quick_scan_upto(image, ps, ps.len()),
            whole == spec_quick_scan(image, old(reader)@.device_size),
            !(whole is Panics),
            quick_scan_upto(image, ps, k as nat) == Outcome::Done(scanned_views(recovered_files@)),
        decreases fs_partitions@.len() - k,
    {
        let partition = fs_partitions[k];
        let ghost step = quick_scan_step(image, partition@, scanned_views(recovered_files@));
        proof {
            if !(step is Done) {
                lemma_quick_scan_stop(image, ps, (k + 1) as nat, ps.len());
            }
        }
        let boot_sector = match reader.read_sector(partition.start_sector) {
            Ok(b) => b,
            Err(e) => {
                return Err(e);
            },
        };
        let fs_type = detect_filesystem(boot_sector.as_slice());
        match fs_type {
            FileSystemType::FAT32 => {
                if let Ok(fs_info) = parse_fat32_boot_sector(boot_sector.as_slice()) {
                    let files = scan_fat32_quick(reader, partition, &fs_info);
                    let mut files = match files {
                        Ok(f) => f,
                        Err(e) => {
                            return Err(e);
                        },
                    };
                    let ghost prev = recovered_files@;
                    let ghost more = files@;
                    recovered_files.append(&mut files);
                    assert(scanned_views(recovered_files@) =~= scanned_views(prev) + scanned_views(
                        more,
                    ));
                }
            },
            _ => {},
        }
        k = k + 1;
    }
    let mut names: Vec<String> = Vec::new();
    let mut i: usize = 0;
    while i < recovered_files.len()
        invariant
            i <= recovered_files@.len(),
            names@.map_values(|s: String| s@) == found_names(scanned_views(recovered_files@)).take(
                i as int,
            ),
        decreases recovered_files@.len() - i,
    {
        let ghost target = found_names(scanned_views(recovered_files@));
        let name = recovered_files[i].name.clone();
        names.push(name);
        assert(target.take(i + 1) =~= target.take(i as int).push(name@));
        i = i + 1;
    }
    assert(found_names(scanned_views(recovered_files@)).take(i as int) =~= found_names(
        scanned_views(recovered_files@),
    ));
    Ok(names)
}

/// The summary line of one partition: number, type and size in whole GiB.
pub open spec fn partition_line(p: PartitionView) -> Seq<char> {
    "Partition "@ + decimal_digits(p.number as nat) + ": "@ + p.partition_type + " ("@
        + decimal_digits((p.size_bytes / 1073741824) as nat) + " GB)"@
}

/// The summary lines of the partitions of an analysed image.
pub open spec fn spec_partition_scan(image: Seq<u8>, disk_size: u64) -> Outcome<Seq<Seq<char>>> {
    match spec_analyze_partitions(image, disk_size) {
        Outcome::Done(info) => Outcome::Done(info.partitions.map_values(|p: PartitionView| partition_line(p))),
        Outcome::Failed(e) => Outcome::Failed(e),
        Outcome::Panics => Outcome::Panics,
    }
}

/// Describes a partition in one line.
pub fn describe_partition(p: &Partition) -> (r: String)
    ensures
        r@ == partition_line(p@),
{
    let r = String::from_str("Partition ").concat(decimal(p.number as u64).as_str()).concat(": ").concat(
        p.partition_type.as_str(),
    ).concat(" (").concat(decimal(p.size_bytes / 1073741824).as_str()).concat(" GB)");
    r
}

/// Partition scan: one summary line per partition of the image.
pub fn partition_scan(reader: &mut SectorReader) -> (r: Result<Vec<String>, ReadError>)
    requires
        !(spec_analyze_partitions(old(reader)@.image, old(reader)@.device_size) is Panics),
    ensures
        *final(reader) == *old(reader),
        strings_outcome(r) == spec_partition_scan(old(reader)@.image, old(reader)@.device_size),
{
    let disk_info = analyze_partitions(reader)?;
    let ghost ps = disk_info@.partitions;
    let mut results: Vec<String> = Vec::new();
    let mut i: usize = 0;
    while i < disk_info.partitions.len()
        invariant
            i <= disk_info.partitions@.len(),
            ps == crate::partition::partition_views(disk_info.partitions@),
            results@.map_values(|s: String| s@) == ps.map_values(|p: PartitionView| partition_line(p)).take(i as int),
        decreases disk_info.partitions@.len() - i,
    {
        let ghost target = ps.map_values(|p: PartitionView| partition_line(p));
        let line = describe_partition(&disk_info.partitions[i]);
        results.push(line);
        assert(target.take(i + 1) =~= target.take(i as int).push(line@));
        i = i + 1;
    }
    assert(ps.map_values(|p: PartitionView| partition_line(p)).take(i as int) =~= ps.map_values(|p: PartitionView| partition_line(p)));
    Ok(results)
}

// ----- checked scans -----

/// A checked list of strings answers an outcome: the strings when it is
/// done, the read error when it failed, `Overflow` where the arithmetic
/// overflows.
pub open spec fn strings_checked(r: Result<Vec<String>, ScanError>, o: Outcome<Seq<Seq<char>>>) -> bool {
    match o {
        Outcome::Done(v) => r is Ok && r->Ok_0@.map_values(|s: String| s@) == v,
        Outcome::Failed(e) => r == Err::<Vec<String>, ScanError>(ScanError::Read(e)),
        Outcome::Panics => r == Err::<Vec<String>, ScanError>(ScanError::Overflow),
    }
}

/// Whether `quick_scan` would overflow on this reader's image.
pub fn quick_scan_overflows(reader: &mut SectorReader) -> (r: bool)
    ensures
        *final(reader) == *old(reader),
        r == (spec_quick_scan(old(reader)@.image, old(reader)@.device_size) is Panics),
{
    let ghost image = reader@.image;
    if analysis_overflows(reader) {
        return true;
    }
    let disk_info = match analyze_partitions(reader) {
        Ok(d) => d,
        Err(_) => {
            return false;
        },
    };
    let fs_partitions = find_filesystem_partitions(&disk_info);
    let ghost ps = filesystem_partitions(disk_info@.partitions);
    let mut k: usize = 0;
    while k < fs_partitions.len()
        invariant
            *reader == *old(reader),
            image == reader@.image,
            image == old(reader)@.image,
            k <= fs_partitions@.len(),
            fs_partitions@.map_values(|p: &Partition| p@) == ps,
            spec_quick_scan(image, old(reader)@.device_size) == quick_scan_upto(image, ps, ps.len()),
            quick_scan_upto(image, ps, k as nat) is Done,
        decreases fs_partitions@.len() - k,
    {
        let partition = fs_partitions[k];
        let ghost found = quick_scan_upto(image, ps, k as nat)->Done_0;
        let ghost step = quick_scan_step(image, partition@, found);
        assert(ps[k as int] == partition@);
        assert(quick_scan_upto(image, ps, (k + 1) as nat) == step);
        proof {
            if !(step is Done) {
                lemma_quick_scan_stop(image, ps, (k + 1) as nat, ps.len());
            }
        }
        if partition.start_sector > u64::MAX / 512 {
            return true;
        }
        let boot_sector = match reader.read_sector(partition.start_sector) {
            Ok(b) => b,
            Err(_) => {
                return false;
            },
        };
        match detect_filesystem(boot_sector.as_slice()) {
            FileSystemType::FAT32 => {
                if !fat32_geometry_is_sound(boot_sector.as_slice()) || partition.start_sector > u64::MAX
                    - 32 {
                    return true;
                }
            },
            _ => {},
        }
        k = k + 1;
    }
    false
}

/// Quick scan that answers `Overflow` where `quick_scan` would overflow.
pub fn quick_scan_checked(reader: &mut SectorReader) -> (r: Result<Vec<String>, ScanError>)
    ensures
        *final(reader) == *old(reader),
        strings_checked(r, names_of(spec_quick_scan(old(reader)@.image, old(reader)@.device_size))),
{
    if quick_scan_overflows(reader) {
        return Err(ScanError::Overflow);
    }
    match quick_scan(reader) {
        Ok(names) => Ok(names),
        Err(e) => Err(ScanError::Read(e)),
    }
}

/// Partition scan that answers `Overflow` where `partition_scan` would
/// overflow.
pub fn partition_scan_checked(reader: &mut SectorReader) -> (r: Result<Vec<String>, ScanError>)
    ensures
        *final(reader) == *old(reader),
        strings_checked(r, spec_partition_scan(old(reader)@.image, old(reader)@.device_size)),
{
    if analysis_overflows(reader) {
        return Err(ScanError::Overflow);
    }
    match partition_scan(reader) {
        Ok(lines) => Ok(lines),
        Err(e) => Err(ScanError::Read(e)),
    }
}

// ----- deep and raw scans -----

/// The names that the deep scan reports.
pub open spec fn deep_scan_names() -> Seq<Seq<char>> {
    seq!["deep_scan_result1.txt"@, "deep_scan_result2.jpg"@]
}

/// The names that the raw scan reports.
pub open spec fn raw_scan_names() -> Seq<Seq<char>> {
    seq!["raw_scan_result1.doc"@, "raw_scan_result2.mp4"@]
}

/// The deep scan's results. The sector-by-sector search for file
/// signatures is not implemented; the scan reports two sample names.
pub fn deep_scan_results() -> (r: Vec<String>)
    ensures
        r@.map_values(|s: String| s@) == deep_scan_names(),
{
    let mut found: Vec<String> = Vec::new();
    found.push(String::from_str("deep_scan_result1.txt"));
    found.push(String::from_str("deep_scan_result2.jpg"));
    assert(found@.map_values(|s: String| s@) =~= deep_scan_names());
    found
}

/// The raw scan's results. The search for file signatures across the
/// sectors is not implemented; the scan reports two sample names.
pub fn raw_scan_results() -> (r: Vec<String>)
    ensures
        r@.map_values(|s: String| s@) == raw_scan_names(),
{
    let mut found: Vec<String> = Vec::new();
    found.push(String::from_str("raw_scan_result1.doc"));
    found.push(String::from_str("raw_scan_result2.mp4"));
    assert(found@.map_values(|s: String| s@) =~= raw_scan_names());
    found
}

// ----- laws -----

/// The quick scan reports only regular, non-empty files, each under the
/// root path of its own name and with the type guessed from that name.
pub proof fn law_quick_found(entries: Seq<FileEntryView>)
    ensures
        quick_found(entries).len() <= entries.len(),
        forall|j: int|
            0 <= j < quick_found(entries).len() ==> {
                let f = #[trigger] quick_found(entries)[j];
                &&& f.size > 0
                &&& f.path == "/"@ + f.name
                &&& f.file_type == file_type_of(f.name)
            },
    decreases entries.len(),
{
    if entries.len() > 0 {
        law_quick_found(entries.drop_last());
    }
}

/// The quick scan misses no file: every entry that is not a directory and
/// holds data is reported, whatever its read-only, hidden, system or
/// archive bits, under its own name and size, with the type guessed from
/// its name, under the root path and with its deleted mark.
pub proof fn law_quick_found_complete(entries: Seq<FileEntryView>, k: int)
    requires
        0 <= k < entries.len(),
        !entries[k].is_directory,
        entries[k].size > 0,
    ensures
        exists|j: int|
            0 <= j < quick_found(entries).len() && #[trigger] quick_found(entries)[j] == (
            ScannedFileView {
                name: entries[k].name,
                size: entries[k].size,
                file_type: file_type_of(entries[k].name),
                path: "/"@ + entries[k].name,
                deleted: entries[k].is_deleted,
            }),
    decreases entries.len(),
{
    let rest = quick_found(entries.drop_last());
    if k == entries.len() - 1 {
        assert(quick_found(entries)[rest.len() as int] == quick_found(entries).last());
    } else {
        law_quick_found_complete(entries.drop_last(), k);
        let j = choose|j: int|
            0 <= j < rest.len() && #[trigger] rest[j] == (ScannedFileView {
                name: entries[k].name,
                size: entries[k].size,
                file_type: file_type_of(entries[k].name),
                path: "/"@ + entries[k].name,
                deleted: entries[k].is_deleted,
            });
        assert(quick_found(entries)[j] == rest[j]);
    }
}

/// The media types of extensions: txt, md, doc and docx are text, jpg,
/// jpeg, png and gif images, mp4, avi and mov video, mp3 and wav audio,
/// pdf is a PDF document, and any other extension is a generic binary.
pub proof fn law_extension_types(ext: Seq<char>)
    ensures
        (ext == "txt"@ || ext == "md"@ || ext == "doc"@ || ext == "docx"@) ==> extension_type(ext)
            == "text/plain"@,
        (ext == "jpg"@ || ext == "jpeg"@ || ext == "png"@ || ext == "gif"@) ==> extension_type(ext)
            == "image"@,
        (ext == "mp4"@ || ext == "avi"@ || ext == "mov"@) ==> extension_type(ext) == "video"@,
        (ext == "mp3"@ || ext == "wav"@) ==> extension_type(ext) == "audio"@,
        ext == "pdf"@ ==> extension_type(ext) == "application/pdf"@,
        !(ext == "txt"@ || ext == "md"@ || ext == "doc"@ || ext == "docx"@ || ext == "jpg"@ || ext
            == "jpeg"@ || ext == "png"@ || ext == "gif"@ || ext == "mp4"@ || ext == "avi"@ || ext
            == "mov"@ || ext == "mp3"@ || ext == "wav"@ || ext == "pdf"@) ==> extension_type(ext)
            == "application/octet-stream"@,
{
    reveal_strlit("txt");
    reveal_strlit("md");
    reveal_strlit("doc");
    reveal_strlit("docx");
    reveal_strlit("jpg");
    reveal_strlit("jpeg");
    reveal_strlit("png");
    reveal_strlit("gif");
    reveal_strlit("mp4");
    reveal_strlit("avi");
    reveal_strlit("mov");
    reveal_strlit("mp3");
    reveal_strlit("wav");
    reveal_strlit("pdf");
    if ext == "txt"@ {
        assert(ext.len() == 3 && ext[0] == 't' && ext[1] == 'x' && ext[2] == 't');
    }
    if ext == "md"@ {
        assert(ext.len() == 2 && ext[0] == 'm' && ext[1] == 'd');
    }
    if ext == "doc"@ {
        assert(ext.len() == 3 && ext[0] == 'd' && ext[1] == 'o' && ext[2] == 'c');
    }
    if ext == "docx"@ {
        assert(ext.len() == 4 && ext[0] == 'd' && ext[1] == 'o' && ext[2] == 'c' && ext[3] == 'x');
    }
    if ext == "jpg"@ {
        assert(ext.len() == 3 && ext[0] == 'j' && ext[1] == 'p' && ext[2] == 'g');
    }
    if ext == "jpeg"@ {
        assert(ext.len() == 4 && ext[0] == 'j' && ext[1] == 'p' && ext[2] == 'e' && ext[3] == 'g');
    }
    if ext == "png"@ {
        assert(ext.len() == 3 && ext[0] == 'p' && ext[1] == 'n' && ext[2] == 'g');
    }
    if ext == "gif"@ {
        assert(ext.len() == 3 && ext[0] == 'g' && ext[1] == 'i' && ext[2] == 'f');
    }
    if ext == "mp4"@ {
        assert(ext.len() == 3 && ext[0] == 'm' && ext[1] == 'p' && ext[2] == '4');
    }
    if ext == "avi"@ {
        assert(ext.len() == 3 && ext[0] == 'a' && ext[1] == 'v' && ext[2] == 'i');
    }
    if ext == "mov"@ {
        assert(ext.len() == 3 && ext[0] == 'm' && ext[1] == 'o' && ext[2] == 'v');
    }
    if ext == "mp3"@ {
        assert(ext.len() == 3 && ext[0] == 'm' && ext[1] == 'p' && ext[2] == '3');
    }
    if ext == "wav"@ {
        assert(ext.len() == 3 && ext[0] == 'w' && ext[1] == 'a' && ext[2] == 'v');
    }
    if ext == "pdf"@ {
        assert(ext.len() == 3 && ext[0] == 'p' && ext[1] == 'd' && ext[2] == 'f');
    }
}

} // verus!
