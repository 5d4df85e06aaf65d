//! Boot-sector recognition and FAT32 structures: boot parameters,
//! directory entries, cluster chains and file contents.

use vstd::prelude::*;
use crate::bytes::{le16, le32, read_le_u16, read_le_u32, bytes_equal, copy_range};
use crate::sector::{
    ReadError, Outcome, SectorReader, lift, bytes_result, spec_read_at, sector_outcome,
    spec_has_valid_mbr,
};
use crate::text::{utf8_lossy, trimmed, decode_utf8_lossy, trim, all_ascii, ascii_chars, lemma_ascii_utf8};

verus! {

/// The kinds of file system that a boot sector can announce.
#[derive(Debug, Clone, Copy, PartialEq, Eq, Structural)]
pub enum FileSystemType {
    FAT12,
    FAT16,
    FAT32,
    ExFat,
    NTFS,
    Unknown,
}

/// Geometry and identity of a file system, from its boot sector.
#[derive(Debug, Clone)]
pub struct FileSystemInfo {
    pub fs_type: FileSystemType,
    pub label: String,
    pub serial: u32,
    pub total_sectors: u64,
    pub free_sectors: u64,
    pub bytes_per_sector: u16,
    pub sectors_per_cluster: u8,
    pub total_clusters: u32,
}

pub struct FileSystemInfoView {
    pub fs_type: FileSystemType,
    pub label: Seq<char>,
    pub serial: u32,
    pub total_sectors: u64,
    pub free_sectors: u64,
    pub bytes_per_sector: u16,
    pub sectors_per_cluster: u8,
    pub total_clusters: u32,
}

impl View for FileSystemInfo {
    type V = FileSystemInfoView;

    open spec fn view(&self) -> FileSystemInfoView {
        FileSystemInfoView {
            fs_type: self.fs_type,
            label: self.label@,
            serial: self.serial,
            total_sectors: self.total_sectors,
            free_sectors: self.free_sectors,
            bytes_per_sector: self.bytes_per_sector,
            sectors_per_cluster: self.sectors_per_cluster,
            total_clusters: self.total_clusters,
        }
    }
}

/// One entry of a FAT directory.
#[derive(Debug, Clone)]
pub struct FileEntry {
    pub name: String,
    pub is_directory: bool,
    pub size: u64,
    pub first_cluster: u32,
    pub attributes: u8,
    pub is_deleted: bool,
    pub creation_time: Option<u32>,
    pub modification_time: Option<u32>,
    pub access_time: Option<u32>,
}

pub struct FileEntryView {
    pub name: Seq<char>,
    pub is_directory: bool,
    pub size: u64,
    pub first_cluster: u32,
    pub attributes: u8,
    pub is_deleted: bool,
    pub creation_time: Option<u32>,
    pub modification_time: Option<u32>,
    pub access_time: Option<u32>,
}

impl View for FileEntry {
    type V = FileEntryView;

    open spec fn view(&self) -> FileEntryView {
        FileEntryView {
            name: self.name@,
            is_directory: self.is_directory,
            size: self.size,
            first_cluster: self.first_cluster,
            attributes: self.attributes,
            is_deleted: self.is_deleted,
            creation_time: self.creation_time,
            modification_time: self.modification_time,
            access_time: self.access_time,
        }
    }
}

/// The views of a sequence of directory entries.
pub open spec fn entry_views(es: Seq<FileEntry>) -> Seq<FileEntryView> {
    es.map_values(|e: FileEntry| e@)
}

// ----- recognising boot sectors -----

/// The ASCII bytes of an eight-character signature field.
pub open spec fn sig_fat32() -> Seq<u8> {
    seq![0x46u8, 0x41, 0x54, 0x33, 0x32, 0x20, 0x20, 0x20]
}

pub open spec fn sig_exfat() -> Seq<u8> {
    seq![0x45u8, 0x58, 0x46, 0x41, 0x54, 0x20, 0x20, 0x20]
}

pub open spec fn sig_ntfs() -> Seq<u8> {
    seq![0x4Eu8, 0x54, 0x46, 0x53, 0x20, 0x20, 0x20, 0x20]
}

/// A FAT32 boot sector: boot signature and "FAT32   " at offset 82.
pub open spec fn spec_is_fat32(d: Seq<u8>) -> bool {
    spec_has_valid_mbr(d) && d.subrange(82, 90) == sig_fat32()
}

/// An exFAT boot sector: boot signature and "EXFAT   " at offset 3.
pub open spec fn spec_is_exfat(d: Seq<u8>) -> bool {
    spec_has_valid_mbr(d) && d.subrange(3, 11) == sig_exfat()
}

/// An NTFS boot sector: boot signature and "NTFS    " at offset 3.
pub open spec fn spec_is_ntfs(d: Seq<u8>) -> bool {
    spec_has_valid_mbr(d) && d.subrange(3, 11) == sig_ntfs()
}

/// A FAT16 boot sector: boot signature, 512 bytes per sector, a nonzero
/// cluster size, reserved sectors, two FATs, 512 root entries and a
/// nonzero 16-bit sector count.
pub open spec fn spec_is_fat16(d: Seq<u8>) -> bool {
    &&& spec_has_valid_mbr(d)
    &&& le16(d, 11) == 512
    &&& d[13] > 0
    &&& le16(d, 14) > 0
    &&& d[16] == 2
    &&& le16(d, 17) == 512
    &&& le16(d, 19) > 0
}

/// The file system a boot sector announces, checked in the order FAT32,
/// exFAT, NTFS, FAT16.
pub open spec fn spec_detect_filesystem(d: Seq<u8>) -> FileSystemType {
    if d.len() < 512 {
        FileSystemType::Unknown
    } else if spec_is_fat32(d) {
        FileSystemType::FAT32
    } else if spec_is_exfat(d) {
        FileSystemType::ExFat
    } else if spec_is_ntfs(d) {
        FileSystemType::NTFS
    } else if spec_is_fat16(d) {
        FileSystemType::FAT16
    } else {
        FileSystemType::Unknown
    }
}

/// Compares the eight bytes at `off` with an eight-byte signature.
fn field_is(data: &[u8], off: usize, sig: [u8; 8]) -> (r: bool)
    requires
        off + 8 <= data@.len(),
    ensures
        r == (data@.subrange(off as int, off + 8) == sig@),
{
    assert(off + 8 <= data.len());
    bytes_equal(&data[off..off + 8], sig.as_slice())
}

/// Whether the data is a FAT32 boot sector.
pub fn is_fat32_boot_sector(data: &[u8]) -> (r: bool)
    ensures
        r == spec_is_fat32(data@),
{
    if data.len() < 512 {
        return false;
    }
    if data[510] != 0x55 || data[511] != 0xAA {
        return false;
    }
    let sig: [u8; 8] = [0x46, 0x41, 0x54, 0x33, 0x32, 0x20, 0x20, 0x20];
    field_is(data, 82, sig)
}

/// Whether the data is an exFAT boot sector.
pub fn is_exfat_boot_sector(data: &[u8]) -> (r: bool)
    ensures
        r == spec_is_exfat(data@),
{
    if data.len() < 512 {
        return false;
    }
    if data[510] != 0x55 || data[511] != 0xAA {
        return false;
    }
    let sig: [u8; 8] = [0x45, 0x58, 0x46, 0x41, 0x54, 0x20, 0x20, 0x20];
    field_is(data, 3, sig)
}

/// Whether the data is an NTFS boot sector.
pub fn is_ntfs_boot_sector(data: &[u8]) -> (r: bool)
    ensures
        r == spec_is_ntfs(data@),
{
    if data.len() < 512 {
        return false;
    }
    if data[510] != 0x55 || data[511] != 0xAA {
        return false;
    }
    let sig: [u8; 8] = [0x4E, 0x54, 0x46, 0x53, 0x20, 0x20, 0x20, 0x20];
    field_is(data, 3, sig)
}

/// Whether the data looks like a FAT16 boot sector.
pub fn is_fat16_boot_sector(data: &[u8]) -> (r: bool)
    ensures
        r == spec_is_fat16(data@),
{
    if data.len() < 512 {
        return false;
    }
    if data[510] != 0x55 || data[511] != 0xAA {
        return false;
    }
    let bytes_per_sector = read_le_u16(data, 11);
    let sectors_per_cluster = data[13];
    let reserved_sectors = read_le_u16(data, 14);
    let num_fats = data[16];
    let root_entries = read_le_u16(data, 17);
    let total_sectors_small = read_le_u16(data, 19);
    bytes_per_sector == 512 && sectors_per_cluster > 0 && reserved_sectors > 0 && num_fats == 2
        && root_entries == 512 && total_sectors_small > 0
}

/// Recognises the file system of a partition from its boot sector.
pub fn detect_filesystem(partition_data: &[u8]) -> (r: FileSystemType)
    ensures
        r == spec_detect_filesystem(partition_data@),
{
    if partition_data.len() < 512 {
        return FileSystemType::Unknown;
    }
    if is_fat32_boot_sector(partition_data) {
        return FileSystemType::FAT32;
    }
    if is_exfat_boot_sector(partition_data) {
        return FileSystemType::ExFat;
    }
    if is_ntfs_boot_sector(partition_data) {
        return FileSystemType::NTFS;
    }
    if is_fat16_boot_sector(partition_data) {
        return FileSystemType::FAT16;
    }
    FileSystemType::Unknown
}

// ----- FAT32 boot sector -----

/// Why a boot sector could not be decoded.
#[derive(Debug, Clone, Copy, PartialEq, Eq, Structural)]
pub enum BootSectorError {
    /// Fewer than 512 bytes.
    InvalidSize,
}

/// The sector count: the 32-bit field at offset 32, or the 16-bit field at
/// offset 19 when the former is zero.
pub open spec fn fat32_total_sectors(d: Seq<u8>) -> u64 {
    if le32(d, 32) == 0 {
        le16(d, 19) as u64
    } else {
        le32(d, 32) as u64
    }
}

/// The FAT32 geometry can be computed: a nonzero cluster size and a
/// sector count covering the reserved sectors and all FATs.
pub open spec fn fat32_geometry_sound(d: Seq<u8>) -> bool {
    &&& d[13] != 0
    &&& fat32_total_sectors(d) >= le16(d, 14) + d[16] * le32(d, 36)
}

/// Whether the FAT32 geometry of a boot sector can be computed.
pub(crate) fn fat32_geometry_is_sound(data: &[u8]) -> (r: bool)
    requires
        data@.len() >= 512,
    ensures
        r == fat32_geometry_sound(data@),
{
    let total_sectors_32 = read_le_u32(data, 32);
    let total_sectors: u64 = if total_sectors_32 == 0 {
        read_le_u16(data, 19) as u64
    } else {
        total_sectors_32 as u64
    };
    assert((data@[16] as u64) * (le32(data@, 36) as u64) <= 0xff * 0xffff_ffffu64) by (nonlinear_arith);
    let fats = data[16] as u64 * read_le_u32(data, 36) as u64;
    data[13] != 0 && total_sectors >= read_le_u16(data, 14) as u64 + fats
}

/// The boot parameters of a FAT32 boot sector: bytes per sector (11),
/// sectors per cluster (13), reserved sectors (14), FAT count (16), FAT
/// size (36), serial (67) and label (71..82, trimmed).
pub open spec fn fat32_info(d: Seq<u8>) -> FileSystemInfoView {
    let total = fat32_total_sectors(d);
    let data_sectors = total - le16(d, 14) - d[16] * le32(d, 36);
    FileSystemInfoView {
        fs_type: FileSystemType::FAT32,
        label: trimmed(utf8_lossy(d.subrange(71, 82))),
        serial: le32(d, 67),
        total_sectors: total,
        free_sectors: 0,
        bytes_per_sector: le16(d, 11),
        sectors_per_cluster: d[13],
        total_clusters: (data_sectors / (d[13] as int)) as u32,
    }
}

/// Decodes the parameters of a FAT32 boot sector.
pub fn parse_fat32_boot_sector(data: &[u8]) -> (r: Result<FileSystemInfo, BootSectorError>)
    requires
        data@.len() >= 512 ==> fat32_geometry_sound(data@),
    ensures
        data@.len() < 512 ==> r == Err::<FileSystemInfo, BootSectorError>(
            BootSectorError::InvalidSize,
        ),
        data@.len() >= 512 ==> r is Ok && r->Ok_0@ == fat32_info(data@),
{
    if data.len() < 512 {
        return Err(BootSectorError::InvalidSize);
    }
    let bytes_per_sector = read_le_u16(data, 11);
    let sectors_per_cluster = data[13];
    let reserved_sectors = read_le_u16(data, 14);
    let num_fats = data[16];
    let fat_size_32 = read_le_u32(data, 36);
    let total_sectors_32 = read_le_u32(data, 32);
    let serial = read_le_u32(data, 67);
    let raw_label = decode_utf8_lossy(&data[71..82]);
    let label = String::from_str(trim(raw_label.as_str()));
    let total_sectors: u64 = if total_sectors_32 == 0 {
        read_le_u16(data, 19) as u64
    } else {
        total_sectors_32 as u64
    };
    let data_sectors = total_sectors - reserved_sectors as u64 - (num_fats as u64 * fat_size_32 as u64);
    let total_clusters = data_sectors / sectors_per_cluster as u64;
    Ok(
        FileSystemInfo {
            fs_type: FileSystemType::FAT32,
            label,
            serial,
            total_sectors,
            free_sectors: 0,
            bytes_per_sector,
            sectors_per_cluster,
            total_clusters: total_clusters as u32,
        },
    )
}

// ----- FAT32 directories -----

/// A short name from its base and extension characters: the trimmed
/// base, then a dot and the trimmed extension when that is not empty.
pub open spec fn short_name(base: Seq<char>, ext: Seq<char>) -> Seq<char> {
    if trimmed(ext).len() > 0 {
        trimmed(base) + "."@ + trimmed(ext)
    } else {
        trimmed(base)
    }
}

/// The 8.3 short name of a directory entry: the base is bytes 0..8 and the
/// extension bytes 8..11, each decoded as UTF-8.
pub open spec fn fat_filename(e: Seq<u8>) -> Seq<char> {
    short_name(utf8_lossy(e.subrange(0, 8)), utf8_lossy(e.subrange(8, 11)))
}

/// Decodes the short name of a 32-byte directory entry. A name of ASCII
/// bytes is read one character per byte.
pub fn parse_fat32_filename(entry: &[u8]) -> (r: String)
    requires
        entry@.len() >= 11,
    ensures
        r@ == fat_filename(entry@),
        all_ascii(entry@.subrange(0, 11)) ==> r@ == short_name(
            ascii_chars(entry@.subrange(0, 8)),
            ascii_chars(entry@.subrange(8, 11)),
        ),
{
    let main_raw = decode_utf8_lossy(&entry[0..8]);
    let ext_raw = decode_utf8_lossy(&entry[8..11]);
    proof {
        if all_ascii(entry@.subrange(0, 11)) {
            assert(all_ascii(entry@.subrange(0, 8)));
            assert(all_ascii(entry@.subrange(8, 11))) by {
                assert forall|i: int| 0 <= i < 3 implies entry@.subrange(8, 11)[i] < 0x80 by {
                    assert(entry@.subrange(8, 11)[i] == entry@.subrange(0, 11)[i + 8]);
                }
            }
            lemma_ascii_utf8(entry@.subrange(0, 8));
            lemma_ascii_utf8(entry@.subrange(8, 11));
        }
    }
    let main_str = String::from_str(trim(main_raw.as_str()));
    let ext_str = String::from_str(trim(ext_raw.as_str()));
    if !ext_str.as_str().is_empty() {
        main_str.concat(".").concat(ext_str.as_str())
    } else {
        main_str
    }
}

/// The slot whose name is shown for a directory entry: a deleted entry
/// (first byte 0xE5) has lost the first character of its name, which is
/// shown as `_`.
pub open spec fn shown_slot(e: Seq<u8>) -> Seq<u8> {
    if e[0] == 0xE5 {
        e.update(0, 0x5F)
    } else {
        e
    }
}

/// The directory entry that the 32 bytes `e` describe.
pub open spec fn fat_entry(e: Seq<u8>) -> FileEntryView {
    FileEntryView {
        name: fat_filename(shown_slot(e)),
        is_directory: e[11] & 0x10 != 0,
        size: le32(e, 28) as u64,
        first_cluster: ((le16(e, 20) as u32) << 16) | (le16(e, 26) as u32),
        attributes: e[11],
        is_deleted: e[0] == 0xE5,
        creation_time: None,
        modification_time: None,
        access_time: None,
    }
}

/// Directory slot `i` of a cluster's bytes.
pub open spec fn dir_slot(data: Seq<u8>, i: int) -> Seq<u8> {
    data.subrange(32 * i, 32 * i + 32)
}

/// The entries of slots `i` onwards: a slot starting with 0x00 ends the
/// directory; long-name (0x0F) and volume-label (0x08) slots are skipped,
/// and so are deleted slots (starting with 0xE5) unless `with_deleted`.
pub open spec fn dir_entries_from(data: Seq<u8>, i: nat, with_deleted: bool) -> Seq<FileEntryView>
    decreases data.len() / 32 - i,
{
    if i >= data.len() / 32 {
        Seq::empty()
    } else {
        let e = dir_slot(data, i as int);
        if e[0] == 0x00 {
            Seq::empty()
        } else if (e[0] == 0xE5 && !with_deleted) || e[11] == 0x0F || e[11] == 0x08 {
            dir_entries_from(data, i + 1, with_deleted)
        } else {
            seq![fat_entry(e)] + dir_entries_from(data, i + 1, with_deleted)
        }
    }
}

/// The live entries of a directory cluster's bytes.
pub open spec fn dir_entries(data: Seq<u8>) -> Seq<FileEntryView> {
    dir_entries_from(data, 0, false)
}

/// The entries of a directory cluster's bytes, the deleted ones included.
pub open spec fn dir_entries_with_deleted(data: Seq<u8>) -> Seq<FileEntryView> {
    dir_entries_from(data, 0, true)
}

/// Decodes the 32-byte directory entry `entry`.
fn decode_entry(entry: &[u8]) -> (r: FileEntry)
    requires
        entry@.len() == 32,
    ensures
        r@ == fat_entry(entry@),
{
    let name = if entry[0] == 0xE5 {
        let mut shown = copy_range(entry, 0, 32);
        shown.set(0, 0x5F);
        assert(shown@ == shown_slot(entry@));
        parse_fat32_filename(shown.as_slice())
    } else {
        parse_fat32_filename(entry)
    };
    let attributes = entry[11];
    FileEntry {
        name,
        is_directory: (attributes & 0x10) != 0,
        size: read_le_u32(entry, 28) as u64,
        first_cluster: ((read_le_u16(entry, 20) as u32) << 16) | (read_le_u16(entry, 26) as u32),
        attributes,
        is_deleted: entry[0] == 0xE5,
        creation_time: None,
        modification_time: None,
        access_time: None,
    }
}

/// Decodes the entries of a directory cluster already read; deleted
/// entries are among them when `include_deleted` holds.
pub fn parse_directory_entries(cluster_data: &[u8], include_deleted: bool) -> (r: Vec<FileEntry>)
    ensures
        entry_views(r@) == dir_entries_from(cluster_data@, 0, include_deleted),
{
    let mut entries: Vec<FileEntry> = Vec::new();
    let n = cluster_data.len();
    let count = n / 32;
    let ghost all = dir_entries_from(cluster_data@, 0, include_deleted);
    let mut i: usize = 0;
    while i < count
        invariant
            n == cluster_data@.len(),
            count == cluster_data@.len() / 32,
            i <= count,
            all == dir_entries_from(cluster_data@, 0, include_deleted),
            entry_views(entries@) + dir_entries_from(cluster_data@, i as nat, include_deleted) == all,
        ensures
            entry_views(entries@) == all,
        decreases count - i,
    {
        assert(i * 32 + 32 <= cluster_data@.len()) by (nonlinear_arith)
            requires
                i < count,
                count == cluster_data@.len() / 32,
        ;
        let entry_start = i * 32;
        let entry = &cluster_data[entry_start..entry_start + 32];
        let ghost prev = entries@;
        if entry[0] == 0x00 {
            assert(entry_views(entries@) =~= entry_views(entries@) + dir_entries_from(
                cluster_data@,
                i as nat,
                include_deleted,
            ));
            break;
        }
        let attributes = entry[11];
        if !((entry[0] == 0xE5 && !include_deleted) || attributes == 0x0F || attributes == 0x08) {
            entries.push(decode_entry(entry));
            assert(entry_views(prev) + dir_entries_from(cluster_data@, i as nat, include_deleted)
                =~= entry_views(entries@) + dir_entries_from(
                cluster_data@,
                (i + 1) as nat,
                include_deleted,
            ));
        }
        i = i + 1;
        proof {
            if i >= count {
                assert(entry_views(entries@) =~= entry_views(entries@) + dir_entries_from(
                    cluster_data@,
                    i as nat,
                    include_deleted,
                ));
            }
        }
    }
    entries
}

/// Decodes the live entries of a directory cluster already read.
pub fn parse_fat32_directory(cluster_data: &[u8]) -> (r: Vec<FileEntry>)
    ensures
        entry_views(r@) == dir_entries(cluster_data@),
{
    parse_directory_entries(cluster_data, false)
}

/// The bytes of a cluster: cluster `cluster` taken as a cluster-sized
/// block counted from the start of the image.
pub open spec fn cluster_read(image: Seq<u8>, cluster: u32, bytes_per_sector: u16, sectors_per_cluster: u8) -> Result<Seq<u8>, ReadError> {
    let bpc = bytes_per_sector * sectors_per_cluster;
    spec_read_at(image, cluster * bpc, bpc)
}

/// Reads the cluster `cluster` and decodes the directory entries in it;
/// deleted entries are among them when `include_deleted` holds.
pub fn read_directory(
    reader: &mut SectorReader,
    cluster: u32,
    bytes_per_sector: u16,
    sectors_per_cluster: u8,
    include_deleted: bool,
) -> (r: Result<Vec<FileEntry>, ReadError>)
    ensures
        *final(reader) == *old(reader),
        match cluster_read(old(reader)@.image, cluster, bytes_per_sector, sectors_per_cluster) {
            Ok(data) => r is Ok && entry_views(r->Ok_0@) == dir_entries_from(data, 0, include_deleted),
            Err(e) => r == Err::<Vec<FileEntry>, ReadError>(e),
        },
{
    assert((bytes_per_sector as u64) * (sectors_per_cluster as u64) <= 0xffff * 0xff) by (nonlinear_arith);
    let bytes_per_cluster = bytes_per_sector as u64 * sectors_per_cluster as u64;
    assert(cluster as u64 * bytes_per_cluster <= 0xffff_ffff * (0xffff * 0xff)) by (nonlinear_arith)
        requires
            bytes_per_cluster <= 0xffff * 0xff,
    ;
    let cluster_start = cluster as u64 * bytes_per_cluster;
    let cluster_data = reader.read_at(cluster_start, bytes_per_cluster as usize)?;
    Ok(parse_directory_entries(cluster_data.as_slice(), include_deleted))
}

/// Lists the live entries of the directory whose first cluster is
/// `cluster`.
pub fn list_fat32_directory(
    reader: &mut SectorReader,
    cluster: u32,
    bytes_per_sector: u16,
    sectors_per_cluster: u8,
) -> (r: Result<Vec<FileEntry>, ReadError>)
    ensures
        *final(reader) == *old(reader),
        match cluster_read(old(reader)@.image, cluster, bytes_per_sector, sectors_per_cluster) {
            Ok(data) => r is Ok && entry_views(r->Ok_0@) == dir_entries(data),
            Err(e) => r == Err::<Vec<FileEntry>, ReadError>(e),
        },
{
    read_directory(reader, cluster, bytes_per_sector, sectors_per_cluster, false)
}

// ----- FAT32 cluster chains -----

/// The longest chain that is followed; a longer one is cut after this many
/// clusters plus one.
pub const MAX_CHAIN: usize = 1000000;

/// A result holding a vector, seen as an outcome over its contents.
pub open spec fn vec_outcome<T>(r: Result<Vec<T>, ReadError>) -> Outcome<Seq<T>> {
    match r {
        Ok(v) => Outcome::Done(v@),
        Err(e) => Outcome::Failed(e),
    }
}

/// Following the chain from cluster `cur`, with `chain` already collected:
/// the 4-byte FAT entry of `cur` lies `cur * 4` bytes past sector
/// `fat_start` and is read from the sector holding its first byte. Once
/// that entry is read, `cur` joins the chain. An entry of 0x0FFFFFF8 or
/// more marks `cur` as the file's last cluster and ends the chain there;
/// any other entry names the next cluster. The walk also ends, without
/// `cur`, when its entry would run past its sector, and it is cut once the
/// chain holds more than `MAX_CHAIN` clusters. (A chain already longer than
/// that is returned as it is; the walk never starts from one.)
pub open spec fn fat_chain_from(
    image: Seq<u8>,
    fat_start: u64,
    bytes_per_sector: u16,
    chain: Seq<u32>,
    cur: u32,
) -> Outcome<Seq<u32>>
    decreases 1000001 - chain.len(),
{
    if chain.len() > 1000000 {
        Outcome::Done(chain)
    } else if bytes_per_sector == 0 {
        Outcome::Panics
    } else {
        let fat_offset = cur * 4;
        let bps = bytes_per_sector as int;
        let sector = fat_start + fat_offset / bps;
        if sector > u64::MAX {
            Outcome::Panics
        } else {
            match sector_outcome(image, sector) {
                Outcome::Done(sd) => {
                    let byte_offset = fat_offset % bps;
                    if byte_offset + 4 <= sd.len() {
                        let next = le32(sd, byte_offset);
                        if next >= 0x0FFFFFF8 {
                            Outcome::Done(chain.push(cur))
                        } else if chain.len() + 1 > 1000000 {
                            Outcome::Done(chain.push(cur))
                        } else {
                            fat_chain_from(image, fat_start, bytes_per_sector, chain.push(cur), next)
                        }
                    } else {
                        Outcome::Done(chain)
                    }
                },
                Outcome::Failed(e) => Outcome::Failed(e),
                Outcome::Panics => Outcome::Panics,
            }
        }
    }
}

/// The cluster chain that starts at `start_cluster`.
pub open spec fn fat_chain(image: Seq<u8>, fat_start: u64, bytes_per_sector: u16, start_cluster: u32) -> Outcome<Seq<u32>> {
    fat_chain_from(image, fat_start, bytes_per_sector, Seq::empty(), start_cluster)
}

/// Follows the FAT from `start_cluster` and returns the clusters of the
/// chain in order, up to and including the one whose entry marks the end
/// of the chain.
pub fn read_fat_chain(
    reader: &mut SectorReader,
    fat_start_sector: u64,
    bytes_per_sector: u16,
    start_cluster: u32,
) -> (r: Result<Vec<u32>, ReadError>)
    requires
        !(fat_chain(old(reader)@.image, fat_start_sector, bytes_per_sector, start_cluster) is Panics),
    ensures
        *final(reader) == *old(reader),
        vec_outcome(r) == fat_chain(old(reader)@.image, fat_start_sector, bytes_per_sector, start_cluster),
{
    let ghost image = reader@.image;
    let ghost whole = fat_chain(image, fat_start_sector, bytes_per_sector, start_cluster);
    let mut chain: Vec<u32> = Vec::new();
    let mut current_cluster = start_cluster;
    loop
        invariant
            *reader == *old(reader),
            image == reader@.image,
            chain@.len() <= 1000000,
            image == old(reader)@.image,
            whole == fat_chain(image, fat_start_sector, bytes_per_sector, start_cluster),
            !(whole is Panics),
            fat_chain_from(image, fat_start_sector, bytes_per_sector, chain@, current_cluster) == whole,
        decreases 1000001 - chain@.len(),
    {
        let fat_offset = current_cluster as u64 * 4;
        let sector_offset = fat_start_sector + (fat_offset / bytes_per_sector as u64);
        let byte_offset = (fat_offset % bytes_per_sector as u64) as usize;
        let sector_data = match reader.read_sector(sector_offset) {
            Ok(d) => d,
            Err(e) => {
                return Err(e);
            },
        };
        if byte_offset + 4 <= sector_data.len() {
            let next_cluster = read_le_u32(sector_data.as_slice(), byte_offset);
            chain.push(current_cluster);
            if next_cluster >= 0x0FFFFFF8 {
                return Ok(chain);
            }
            current_cluster = next_cluster;
            if chain.len() > MAX_CHAIN {
                return Ok(chain);
            }
        } else {
            return Ok(chain);
        }
    }
}

/// The bytes read from clusters `chain[i..]` while `remaining` bytes are
/// still wanted: each cluster `c` of the data area starts at sector
/// `data_start + (c - 2) * sectors_per_cluster`, and from it the lesser of
/// a cluster's size and the bytes still wanted is read.
pub open spec fn extract_from(
    image: Seq<u8>,
    data_start: u64,
    bytes_per_sector: u16,
    sectors_per_cluster: u8,
    chain: Seq<u32>,
    i: nat,
    remaining: u64,
) -> Outcome<Seq<u8>>
    decreases chain.len() - i,
{
    if i >= chain.len() || remaining == 0 {
        Outcome::Done(Seq::empty())
    } else {
        let c = chain[i as int];
        if c < 2 {
            Outcome::Panics
        } else {
            let sector = data_start + (c - 2) * sectors_per_cluster;
            if sector > u64::MAX || sector * bytes_per_sector > u64::MAX {
                Outcome::Panics
            } else {
                let bpc = bytes_per_sector * sectors_per_cluster;
                let n = if bpc < remaining { bpc } else { remaining as int };
                match spec_read_at(image, sector * bytes_per_sector, n) {
                    Ok(b) => match extract_from(
                        image,
                        data_start,
                        bytes_per_sector,
                        sectors_per_cluster,
                        chain,
                        i + 1,
                        (remaining - n) as u64,
                    ) {
                        Outcome::Done(rest) => Outcome::Done(b + rest),
                        other => other,
                    },
                    Err(e) => Outcome::Failed(e),
                }
            }
        }
    }
}

/// The bytes of a file: its cluster chain, read up to `file_size` bytes.
pub open spec fn extract_file(
    image: Seq<u8>,
    fat_start: u64,
    data_start: u64,
    bytes_per_sector: u16,
    sectors_per_cluster: u8,
    first_cluster: u32,
    file_size: u64,
) -> Outcome<Seq<u8>> {
    match fat_chain(image, fat_start, bytes_per_sector, first_cluster) {
        Outcome::Done(chain) => extract_from(
            image,
            data_start,
            bytes_per_sector,
            sectors_per_cluster,
            chain,
            0,
            file_size,
        ),
        Outcome::Failed(e) => Outcome::Failed(e),
        Outcome::Panics => Outcome::Panics,
    }
}

/// Puts `b` in front of the bytes of an outcome.
pub open spec fn prepend(b: Seq<u8>, o: Outcome<Seq<u8>>) -> Outcome<Seq<u8>> {
    match o {
        Outcome::Done(r) => Outcome::Done(b + r),
        other => other,
    }
}

/// Reads the contents of a file from its cluster chain.
pub fn extract_fat32_file(
    reader: &mut SectorReader,
    fat_start_sector: u64,
    data_start_sector: u64,
    bytes_per_sector: u16,
    sectors_per_cluster: u8,
    first_cluster: u32,
    file_size: u64,
) -> (r: Result<Vec<u8>, ReadError>)
    requires
        !(extract_file(
            old(reader)@.image,
            fat_start_sector,
            data_start_sector,
            bytes_per_sector,
            sectors_per_cluster,
            first_cluster,
            file_size,
        ) is Panics),
    ensures
        *final(reader) == *old(reader),
        vec_outcome(r) == extract_file(
            old(reader)@.image,
            fat_start_sector,
            data_start_sector,
            bytes_per_sector,
            sectors_per_cluster,
            first_cluster,
            file_size,
        ),
{
    let ghost image = reader@.image;
    let ghost whole = extract_file(
        image,
        fat_start_sector,
        data_start_sector,
        bytes_per_sector,
        sectors_per_cluster,
        first_cluster,
        file_size,
    );
    let cluster_chain = read_fat_chain(reader, fat_start_sector, bytes_per_sector, first_cluster)?;
    assert((bytes_per_sector as u64) * (sectors_per_cluster as u64) <= 0xffff * 0xff) by (nonlinear_arith);
    let bytes_per_cluster = bytes_per_sector as u64 * sectors_per_cluster as u64;
    let mut file_data: Vec<u8> = Vec::new();
    let mut bytes_remaining = file_size;
    let mut k: usize = 0;
    while k < cluster_chain.len()
        invariant
            *reader == *old(reader),
            image == reader@.image,
            k <= cluster_chain@.len(),
            bytes_per_cluster == bytes_per_sector * sectors_per_cluster,
            bytes_per_cluster <= 0xffff * 0xff,
            image == old(reader)@.image,
            whole == extract_file(
                image,
                fat_start_sector,
                data_start_sector,
                bytes_per_sector,
                sectors_per_cluster,
                first_cluster,
                file_size,
            ),
            !(whole is Panics),
            whole == prepend(
                file_data@,
                extract_from(
                    image,
                    data_start_sector,
                    bytes_per_sector,
                    sectors_per_cluster,
                    cluster_chain@,
                    k as nat,
                    bytes_remaining,
                ),
            ),
        ensures
            whole == Outcome::Done(file_data@),
        decreases cluster_chain@.len() - k,
    {
        if bytes_remaining == 0 {
            break;
        }
        let cluster = cluster_chain[k];
        let ghost step = extract_from(
            image,
            data_start_sector,
            bytes_per_sector,
            sectors_per_cluster,
            cluster_chain@,
            k as nat,
            bytes_remaining,
        );
        assert(((cluster as u64) - 2) * (sectors_per_cluster as u64) <= 0xffff_ffff * 0xff) by (nonlinear_arith)
            requires
                cluster >= 2,
        ;
        let cluster_offset = data_start_sector + (cluster as u64 - 2) * sectors_per_cluster as u64;
        let want: u64 = if bytes_per_cluster < bytes_remaining {
            bytes_per_cluster
        } else {
            bytes_remaining
        };
        let bytes_to_read = want as usize;
        let cluster_data = match reader.read_at(cluster_offset * bytes_per_sector as u64, bytes_to_read) {
            Ok(d) => d,
            Err(e) => {
                return Err(e);
            },
        };
        let ghost prev = file_data@;
        file_data.extend_from_slice(cluster_data.as_slice());
        assert(file_data@ =~= prev + cluster_data@) by {
            assert forall|j: int| 0 <= j < file_data@.len() implies file_data@[j] == (prev
                + cluster_data@)[j] by {
            }
        }
        bytes_remaining = bytes_remaining - bytes_to_read as u64;
        k = k + 1;
        proof {
            assert(step == prepend(cluster_data@, extract_from(
                image,
                data_start_sector,
                bytes_per_sector,
                sectors_per_cluster,
                cluster_chain@,
                k as nat,
                bytes_remaining,
            )));
            let rest = extract_from(
                image,
                data_start_sector,
                bytes_per_sector,
                sectors_per_cluster,
                cluster_chain@,
                k as nat,
                bytes_remaining,
            );
            match rest {
                Outcome::Done(r) => {
                    assert(prev + (cluster_data@ + r) =~= file_data@ + r);
                },
                _ => {},
            }
        }
    }
    Ok(file_data)
}

// ----- laws -----

/// A recognised file system comes only from a sector of at least 512
/// bytes that carries the 0x55 0xAA boot signature.
pub proof fn law_detected_has_signature(d: Seq<u8>)
    requires
        spec_detect_filesystem(d) != FileSystemType::Unknown,
    ensures
        d.len() >= 512,
        spec_has_valid_mbr(d),
{
}

/// The three signature checks exclude each other: a sector is recognised
/// as FAT32, exFAT or NTFS only when the other two do not apply first.
pub proof fn law_detection_order(d: Seq<u8>)
    ensures
        spec_detect_filesystem(d) == FileSystemType::ExFat ==> !spec_is_fat32(d),
        spec_detect_filesystem(d) == FileSystemType::NTFS ==> !spec_is_fat32(d) && !spec_is_exfat(d),
        spec_detect_filesystem(d) == FileSystemType::FAT16 ==> !spec_is_fat32(d) && !spec_is_exfat(
            d,
        ) && !spec_is_ntfs(d),
{
}

/// Directory listings hold at most one entry per 32-byte slot and never a
/// long-name or volume-label entry; the live listing holds no deleted
/// entry.
pub proof fn law_directory_entries(data: Seq<u8>, with_deleted: bool)
    ensures
        dir_entries_from(data, 0, with_deleted).len() <= data.len() / 32,
        forall|j: int|
            0 <= j < dir_entries_from(data, 0, with_deleted).len() ==> {
                let e = #[trigger] dir_entries_from(data, 0, with_deleted)[j];
                &&& e.attributes != 0x0F
                &&& e.attributes != 0x08
                &&& !with_deleted ==> !e.is_deleted
            },
{
    lemma_dir_entries_from(data, 0, with_deleted);
}

proof fn lemma_dir_entries_from(data: Seq<u8>, i: nat, with_deleted: bool)
    ensures
        dir_entries_from(data, i, with_deleted).len() <= if i <= data.len() / 32 {
            data.len() / 32 - i
        } else {
            0
        },
        forall|j: int|
            0 <= j < dir_entries_from(data, i, with_deleted).len() ==> {
                let e = #[trigger] dir_entries_from(data, i, with_deleted)[j];
                &&& e.attributes != 0x0F
                &&& e.attributes != 0x08
                &&& !with_deleted ==> !e.is_deleted
            },
    decreases data.len() / 32 - i,
{
    if i < data.len() / 32 {
        lemma_dir_entries_from(data, i + 1, with_deleted);
        let e = dir_slot(data, i as int);
        let rest = dir_entries_from(data, i + 1, with_deleted);
        if e[0] != 0x00 && !((e[0] == 0xE5 && !with_deleted) || e[11] == 0x0F || e[11] == 0x08) {
            let all = seq![fat_entry(e)] + rest;
            assert forall|j: int| 0 <= j < all.len() implies {
                &&& all[j].attributes != 0x0F
                &&& all[j].attributes != 0x08
                &&& !with_deleted ==> !all[j].is_deleted
            } by {
                if j > 0 {
                    assert(all[j] == rest[j - 1]);
                }
            }
        }
    }
}

/// The entry is a live one.
pub open spec fn is_live(e: FileEntryView) -> bool {
    !e.is_deleted
}

/// Listing a directory with its deleted entries loses nothing and reorders
/// nothing: taking the deleted entries out of that listing gives the live
/// listing.
pub proof fn law_deleted_listing(data: Seq<u8>)
    ensures
        dir_entries_with_deleted(data).filter(|e: FileEntryView| is_live(e)) == dir_entries(data),
{
    lemma_deleted_listing(data, 0);
}

proof fn lemma_deleted_listing(data: Seq<u8>, i: nat)
    ensures
        dir_entries_from(data, i, true).filter(|e: FileEntryView| is_live(e)) == dir_entries_from(
            data,
            i,
            false,
        ),
    decreases data.len() / 32 - i,
{
    let live = |e: FileEntryView| is_live(e);
    if i < data.len() / 32 {
        lemma_deleted_listing(data, i + 1);
        let e = dir_slot(data, i as int);
        let rest = dir_entries_from(data, i + 1, true);
        rest.lemma_filter_prepend(fat_entry(e), live);
        if e[0] != 0x00 && !(e[11] == 0x0F || e[11] == 0x08) {
            if e[0] == 0xE5 {
                assert(dir_entries_from(data, i, true).filter(live) =~= rest.filter(live));
            } else {
                assert(dir_entries_from(data, i, true).filter(live) =~= seq![fat_entry(e)]
                    + rest.filter(live));
            }
        }
    } else {
        reveal(Seq::filter);
        assert(Seq::<FileEntryView>::empty().filter(live) =~= Seq::<FileEntryView>::empty());
    }
}

/// The FAT entry of cluster `c`: the four bytes `c * 4` bytes past sector
/// `fat_start`, when the sector holding their first byte can be read and
/// holds all four.
pub open spec fn fat_entry_of(image: Seq<u8>, fat_start: u64, bytes_per_sector: u16, c: u32) -> Option<u32> {
    let fat_offset = c * 4;
    let bps = bytes_per_sector as int;
    match sector_outcome(image, fat_start + fat_offset / bps) {
        Outcome::Done(sd) => {
            let byte_offset = fat_offset % bps;
            if byte_offset + 4 <= sd.len() {
                Some(le32(sd, byte_offset))
            } else {
                None
            }
        },
        _ => None,
    }
}

/// How a chain that was not cut ends: the FAT entry of its last cluster is
/// the end-of-chain mark, or it names a cluster whose own entry cannot be
/// read.
pub open spec fn chain_ends(image: Seq<u8>, fat_start: u64, bytes_per_sector: u16, c: Seq<u32>) -> bool {
    let last = fat_entry_of(image, fat_start, bytes_per_sector, c[c.len() - 1])->0;
    last >= 0x0FFFFFF8 || fat_entry_of(image, fat_start, bytes_per_sector, last) is None
}

proof fn lemma_fat_chain_from(
    image: Seq<u8>,
    fat_start: u64,
    bytes_per_sector: u16,
    chain: Seq<u32>,
    cur: u32,
)
    requires
        chain.len() <= 1000000,
        fat_chain_from(image, fat_start, bytes_per_sector, chain, cur) is Done,
    ensures
        ({
            let c = fat_chain_from(image, fat_start, bytes_per_sector, chain, cur)->Done_0;
            &&& chain.len() <= c.len() <= 1000001
            &&& c.subrange(0, chain.len() as int) == chain
            &&& c.len() > chain.len() ==> c[chain.len() as int] == cur
            &&& forall|i: int|
                chain.len() <= i < c.len() ==> {
                    &&& fat_entry_of(image, fat_start, bytes_per_sector, #[trigger] c[i]) is Some
                    &&& i + 1 < c.len() ==> fat_entry_of(image, fat_start, bytes_per_sector, c[i])->0
                        == c[i + 1]
                    &&& i + 1 < c.len() ==> fat_entry_of(image, fat_start, bytes_per_sector, c[i])->0
                        < 0x0FFFFFF8
                }
            &&& chain.len() < c.len() <= 1000000 ==> chain_ends(image, fat_start, bytes_per_sector, c)
            &&& c.len() == chain.len() ==> fat_entry_of(image, fat_start, bytes_per_sector, cur) is None
        }),
    decreases 1000001 - chain.len(),
{
    let fat_offset = cur * 4;
    let bps = bytes_per_sector as int;
    let sector = fat_start + fat_offset / bps;
    let sd = sector_outcome(image, sector)->Done_0;
    let byte_offset = fat_offset % bps;
    let c = fat_chain_from(image, fat_start, bytes_per_sector, chain, cur)->Done_0;
    if byte_offset + 4 <= sd.len() {
        let next = le32(sd, byte_offset);
        assert(fat_entry_of(image, fat_start, bytes_per_sector, cur) == Some(next));
        if next >= 0x0FFFFFF8 {
            assert(c == chain.push(cur));
            assert(c[c.len() - 1] == cur);
        } else if chain.len() + 1 <= 1000000 {
            let longer = chain.push(cur);
            lemma_fat_chain_from(image, fat_start, bytes_per_sector, longer, next);
            assert(c.subrange(0, chain.len() + 1 as int)[chain.len() as int] == cur);
            if c.len() == longer.len() {
                assert(c =~= longer);
                assert(c[c.len() - 1] == cur);
            }
        } else {
            assert(c == chain.push(cur));
        }
    }
}

/// A cluster chain follows the FAT: it starts at the cluster it was asked
/// for, the FAT entry of each of its clusters is readable, each cluster but
/// the last is followed by the cluster its entry names (never an
/// end-of-chain mark), and unless the chain was cut at `MAX_CHAIN + 1`
/// clusters, which it never exceeds, it ends as `chain_ends` says: at the
/// cluster marked as the last one, or where the next entry is unreadable.
pub proof fn law_fat_chain_follows_fat(
    image: Seq<u8>,
    fat_start: u64,
    bytes_per_sector: u16,
    start_cluster: u32,
)
    requires
        fat_chain(image, fat_start, bytes_per_sector, start_cluster) is Done,
    ensures
        ({
            let c = fat_chain(image, fat_start, bytes_per_sector, start_cluster)->Done_0;
            &&& c.len() <= MAX_CHAIN + 1
            &&& c.len() > 0 ==> c[0] == start_cluster
            &&& forall|i: int|
                0 <= i < c.len() ==> {
                    &&& fat_entry_of(image, fat_start, bytes_per_sector, #[trigger] c[i]) is Some
                    &&& i + 1 < c.len() ==> fat_entry_of(image, fat_start, bytes_per_sector, c[i])->0
                        == c[i + 1]
                    &&& i + 1 < c.len() ==> fat_entry_of(image, fat_start, bytes_per_sector, c[i])->0
                        < 0x0FFFFFF8
                }
            &&& 0 < c.len() <= MAX_CHAIN ==> chain_ends(image, fat_start, bytes_per_sector, c)
        }),
{
    lemma_fat_chain_from(image, fat_start, bytes_per_sector, Seq::empty(), start_cluster);
}

/// The lesser of two numbers.
pub open spec fn min_int(a: int, b: int) -> int {
    if a < b {
        a
    } else {
        b
    }
}

proof fn lemma_extract_from(
    image: Seq<u8>,
    data_start: u64,
    bytes_per_sector: u16,
    sectors_per_cluster: u8,
    chain: Seq<u32>,
    i: nat,
    remaining: u64,
)
    requires
        i <= chain.len(),
        extract_from(image, data_start, bytes_per_sector, sectors_per_cluster, chain, i, remaining) is Done,
    ensures
        extract_from(image, data_start, bytes_per_sector, sectors_per_cluster, chain, i, remaining)->Done_0.len()
            == min_int(remaining as int, (chain.len() - i) * (bytes_per_sector * sectors_per_cluster)),
    decreases chain.len() - i,
{
    let bpc = bytes_per_sector * sectors_per_cluster;
    let k = chain.len() - i;
    assert(k * bpc >= 0) by (nonlinear_arith)
        requires
            k >= 0,
            bpc >= 0,
    ;
    assert(k == 0 ==> k * bpc == 0) by (nonlinear_arith);
    if i < chain.len() && remaining != 0 {
        let n = if bpc < remaining { bpc } else { remaining as int };
        let c = chain[i as int];
        let sector = data_start + (c - 2) * sectors_per_cluster;
        let rd = spec_read_at(image, sector * bytes_per_sector, n);
        let rest = extract_from(
            image,
            data_start,
            bytes_per_sector,
            sectors_per_cluster,
            chain,
            i + 1,
            (remaining - n) as u64,
        );
        assert(extract_from(image, data_start, bytes_per_sector, sectors_per_cluster, chain, i, remaining)->Done_0
            == rd->Ok_0 + rest->Done_0);
        lemma_extract_from(
            image,
            data_start,
            bytes_per_sector,
            sectors_per_cluster,
            chain,
            i + 1,
            (remaining - n) as u64,
        );
        assert(k * bpc == (k - 1) * bpc + bpc) by (nonlinear_arith);
        assert((k - 1) * bpc >= 0) by (nonlinear_arith)
            requires
                k >= 1,
                bpc >= 0,
        ;
        if bpc >= remaining {
            assert(k * bpc >= remaining) by (nonlinear_arith)
                requires
                    k >= 1,
                    bpc >= remaining,
            ;
        }
    }
}

/// A file read from its cluster chain holds as many bytes as it is long,
/// unless its chain runs out first: then a full cluster for each cluster
/// of the chain.
pub proof fn law_extract_length(
    image: Seq<u8>,
    fat_start: u64,
    data_start: u64,
    bytes_per_sector: u16,
    sectors_per_cluster: u8,
    first_cluster: u32,
    file_size: u64,
)
    requires
        extract_file(
            image,
            fat_start,
            data_start,
            bytes_per_sector,
            sectors_per_cluster,
            first_cluster,
            file_size,
        ) is Done,
    ensures
        extract_file(
            image,
            fat_start,
            data_start,
            bytes_per_sector,
            sectors_per_cluster,
            first_cluster,
            file_size,
        )->Done_0.len() == min_int(
            file_size as int,
            fat_chain(image, fat_start, bytes_per_sector, first_cluster)->Done_0.len() * (
            bytes_per_sector * sectors_per_cluster),
        ),
        extract_file(
            image,
            fat_start,
            data_start,
            bytes_per_sector,
            sectors_per_cluster,
            first_cluster,
            file_size,
        )->Done_0.len() <= file_size,
{
    let chain = fat_chain(image, fat_start, bytes_per_sector, first_cluster)->Done_0;
    lemma_extract_from(image, data_start, bytes_per_sector, sectors_per_cluster, chain, 0, file_size);
}

/// A directory cluster is read whole: a successful read holds exactly
/// `bytes_per_sector * sectors_per_cluster` bytes, those at byte
/// `cluster * bytes_per_sector * sectors_per_cluster` of the image, and the
/// read succeeds whenever those bytes lie in the image at an offset that
/// can be sought to.
pub proof fn law_cluster_read_whole(image: Seq<u8>, cluster: u32, bytes_per_sector: u16, sectors_per_cluster: u8)
    ensures
        ({
            let bpc = bytes_per_sector * sectors_per_cluster;
            let start = cluster * bpc;
            let r = cluster_read(image, cluster, bytes_per_sector, sectors_per_cluster);
            &&& r is Ok ==> r->Ok_0.len() == bpc
            &&& r is Ok ==> forall|j: int| 0 <= j < bpc ==> #[trigger] r->Ok_0[j] == image[start + j]
            &&& start <= i64::MAX && start + bpc <= image.len() ==> r is Ok
        }),
{
    let bpc = bytes_per_sector * sectors_per_cluster;
    assert(bpc >= 0 && cluster * bpc >= 0) by (nonlinear_arith)
        requires
            bpc == bytes_per_sector * sectors_per_cluster,
    ;
}

/// A listing keeps every slot before the end of the directory: when each
/// of the first `m` slots holds an entry that is listed (its first byte is
/// not 0x00, nor 0xE5 unless deleted entries are asked for, and it is no
/// long-name or volume-label slot), the listing begins with those `m`
/// entries, in slot order.
pub proof fn law_directory_keeps_slots(data: Seq<u8>, m: nat, with_deleted: bool)
    requires
        32 * m <= data.len(),
        forall|k: int|
            0 <= k < m ==> {
                let e = #[trigger] dir_slot(data, k);
                &&& e[0] != 0x00
                &&& with_deleted || e[0] != 0xE5
                &&& e[11] != 0x0F
                &&& e[11] != 0x08
            },
    ensures
        dir_entries_from(data, 0, with_deleted).len() >= m,
        forall|k: int|
            0 <= k < m ==> #[trigger] dir_entries_from(data, 0, with_deleted)[k] == fat_entry(
                dir_slot(data, k),
            ),
{
    lemma_directory_keeps_slots(data, m, with_deleted, 0);
    assert forall|k: int| 0 <= k < m implies #[trigger] dir_entries_from(data, 0, with_deleted)[k]
        == fat_entry(dir_slot(data, k)) by {
        assert(dir_entries_from(data, 0, with_deleted)[k - 0] == fat_entry(dir_slot(data, k)));
    }
}

proof fn lemma_directory_keeps_slots(data: Seq<u8>, m: nat, with_deleted: bool, i: nat)
    requires
        i <= m,
        32 * m <= data.len(),
        forall|k: int|
            0 <= k < m ==> {
                let e = #[trigger] dir_slot(data, k);
                &&& e[0] != 0x00
                &&& with_deleted || e[0] != 0xE5
                &&& e[11] != 0x0F
                &&& e[11] != 0x08
            },
    ensures
        dir_entries_from(data, i, with_deleted).len() >= m - i,
        forall|k: int|
            i <= k < m ==> #[trigger] dir_entries_from(data, i, with_deleted)[k - i] == fat_entry(
                dir_slot(data, k),
            ),
    decreases m - i,
{
    if i < m {
        lemma_directory_keeps_slots(data, m, with_deleted, i + 1);
        assert(i < data.len() / 32) by (nonlinear_arith)
            requires
                i < m,
                32 * m <= data.len(),
        ;
        let e = dir_slot(data, i as int);
        let rest = dir_entries_from(data, i + 1, with_deleted);
        assert(dir_entries_from(data, i, with_deleted) == seq![fat_entry(e)] + rest);
        assert forall|k: int| i <= k < m implies #[trigger] dir_entries_from(data, i, with_deleted)[k
            - i] == fat_entry(dir_slot(data, k)) by {
            if k > i {
                assert(dir_entries_from(data, i, with_deleted)[k - i] == rest[k - (i + 1)]);
            }
        }
    }
}

/// Each cluster of a file's chain is read from its own place in the data
/// area: the `i`-th cluster `c` of the chain fills the file from byte
/// `i * bytes_per_cluster` on, up to the file's size, with the bytes that
/// start at sector `data_start + (c - 2) * sectors_per_cluster`.
pub proof fn law_extract_reads_clusters(
    image: Seq<u8>,
    fat_start: u64,
    data_start: u64,
    bytes_per_sector: u16,
    sectors_per_cluster: u8,
    first_cluster: u32,
    file_size: u64,
)
    requires
        extract_file(
            image,
            fat_start,
            data_start,
            bytes_per_sector,
            sectors_per_cluster,
            first_cluster,
            file_size,
        ) is Done,
    ensures
        ({
            let c = fat_chain(image, fat_start, bytes_per_sector, first_cluster)->Done_0;
            let d = extract_file(
                image,
                fat_start,
                data_start,
                bytes_per_sector,
                sectors_per_cluster,
                first_cluster,
                file_size,
            )->Done_0;
            let bpc = bytes_per_sector * sectors_per_cluster;
            forall|i: int|
                0 <= i < c.len() && 0 < bpc && i * bpc < file_size ==> {
                    let n = min_int(bpc, file_size - i * bpc);
                    let s = (data_start + (#[trigger] c[i] - 2) * sectors_per_cluster) * bytes_per_sector;
                    d.subrange(i * bpc, i * bpc + n) == image.subrange(s, s + n)
                }
        }),
{
    let c = fat_chain(image, fat_start, bytes_per_sector, first_cluster)->Done_0;
    lemma_extract_reads_clusters(image, data_start, bytes_per_sector, sectors_per_cluster, c, 0, file_size);
}

proof fn lemma_extract_reads_clusters(
    image: Seq<u8>,
    data_start: u64,
    bytes_per_sector: u16,
    sectors_per_cluster: u8,
    chain: Seq<u32>,
    k: nat,
    remaining: u64,
)
    requires
        k <= chain.len(),
        extract_from(image, data_start, bytes_per_sector, sectors_per_cluster, chain, k, remaining) is Done,
    ensures
        ({
            let d = extract_from(
                image,
                data_start,
                bytes_per_sector,
                sectors_per_cluster,
                chain,
                k,
                remaining,
            )->Done_0;
            let bpc = bytes_per_sector * sectors_per_cluster;
            forall|i: int|
                k <= i < chain.len() && 0 < bpc && (i - k) * bpc < remaining ==> {
                    let off = (i - k) * bpc;
                    let n = min_int(bpc, remaining - off);
                    let s = (data_start + (#[trigger] chain[i] - 2) * sectors_per_cluster) * bytes_per_sector;
                    d.subrange(off, off + n) == image.subrange(s, s + n)
                }
        }),
    decreases chain.len() - k,
{
    let bpc = bytes_per_sector * sectors_per_cluster;
    let d = extract_from(image, data_start, bytes_per_sector, sectors_per_cluster, chain, k, remaining)->Done_0;
    if k < chain.len() && remaining != 0 {
        let n0 = if bpc < remaining { bpc } else { remaining as int };
        let ck = chain[k as int];
        let sector = data_start + (ck - 2) * sectors_per_cluster;
        let b = spec_read_at(image, sector * bytes_per_sector, n0)->Ok_0;
        let rest_rem = (remaining - n0) as u64;
        let rest = extract_from(
            image,
            data_start,
            bytes_per_sector,
            sectors_per_cluster,
            chain,
            k + 1,
            rest_rem,
        )->Done_0;
        assert(d == b + rest);
        lemma_extract_reads_clusters(
            image,
            data_start,
            bytes_per_sector,
            sectors_per_cluster,
            chain,
            k + 1,
            rest_rem,
        );
        lemma_extract_from(image, data_start, bytes_per_sector, sectors_per_cluster, chain, k + 1, rest_rem);
        assert forall|i: int| k <= i < chain.len() && 0 < bpc && (i - k) * bpc < remaining implies {
            let off = (i - k) * bpc;
            let n = min_int(bpc, remaining - off);
            let s = (data_start + (#[trigger] chain[i] - 2) * sectors_per_cluster) * bytes_per_sector;
            d.subrange(off, off + n) == image.subrange(s, s + n)
        } by {
            if i == k {
                assert((i - k) * bpc == 0);
                assert(b.len() == n0);
                assert(d.subrange(0, n0) =~= b);
            } else {
                let t = (i - k - 1) * bpc;
                assert((i - k) * bpc == t + bpc && t >= 0) by (nonlinear_arith)
                    requires
                        t == (i - k - 1) * bpc,
                        i - k >= 1,
                        bpc > 0,
                ;
                assert((i - k) * bpc <= (chain.len() - k - 1) * bpc) by (nonlinear_arith)
                    requires
                        i <= chain.len() - 1,
                        bpc > 0,
                ;
                assert(n0 == bpc);
                assert((i - (k + 1)) * bpc == t);
                let n = min_int(bpc, remaining - (t + bpc));
                assert(t + n <= rest.len());
                assert(d.subrange(t + bpc, t + bpc + n) =~= rest.subrange(t, t + n));
            }
        }
    } else {
        assert forall|i: int| k <= i < chain.len() && 0 < bpc && (i - k) * bpc < remaining implies {
            let off = (i - k) * bpc;
            let n = min_int(bpc, remaining - off);
            let s = (data_start + (#[trigger] chain[i] - 2) * sectors_per_cluster) * bytes_per_sector;
            d.subrange(off, off + n) == image.subrange(s, s + n)
        } by {
            assert((i - k) * bpc >= 0) by (nonlinear_arith)
                requires
                    i - k >= 0,
                    bpc > 0,
            ;
        }
    }
}

} // verus!
