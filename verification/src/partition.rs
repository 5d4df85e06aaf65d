//! Partition-scheme detection (MBR or GPT) and partition listing.

use vstd::prelude::*;
use crate::bytes::{le16, le32, le64, read_le_u16, read_le_u32, read_le_u64, bytes_equal, all_zero};
use crate::text::{utf16_decoded, decode_utf16_lossy, lemma_utf16_plain};
use crate::sector::{
    ReadError, Outcome, SectorReader, PartitionEntry, SECTOR_SIZE, lift, bytes_result,
    sector_outcome, spec_has_valid_mbr, has_valid_mbr, extract_partition_table,
    partition_table_slots, entry_decodes, partition_type_name, partition_type_to_string,
};

verus! {

/// How a disk is partitioned.
#[derive(Debug, Clone, Copy, PartialEq, Eq, Structural)]
pub enum PartitionScheme {
    MBR,
    GPT,
    Unknown,
}

/// One partition of a disk.
#[derive(Debug, Clone)]
pub struct Partition {
    pub number: u8,
    pub scheme: PartitionScheme,
    pub partition_type: String,
    pub start_sector: u64,
    pub end_sector: u64,
    pub size_bytes: u64,
    pub bootable: bool,
    pub active: bool,
}

/// A partition with its type name as characters.
pub struct PartitionView {
    pub number: u8,
    pub scheme: PartitionScheme,
    pub partition_type: Seq<char>,
    pub start_sector: u64,
    pub end_sector: u64,
    pub size_bytes: u64,
    pub bootable: bool,
    pub active: bool,
}

impl View for Partition {
    type V = PartitionView;

    open spec fn view(&self) -> PartitionView {
        PartitionView {
            number: self.number,
            scheme: self.scheme,
            partition_type: self.partition_type@,
            start_sector: self.start_sector,
            end_sector: self.end_sector,
            size_bytes: self.size_bytes,
            bootable: self.bootable,
            active: self.active,
        }
    }
}

/// The partition scheme and partitions of a disk.
#[derive(Debug, Clone)]
pub struct DiskInfo {
    pub scheme: PartitionScheme,
    pub partitions: Vec<Partition>,
    pub disk_size: u64,
    pub sector_size: u64,
}

pub struct DiskInfoView {
    pub scheme: PartitionScheme,
    pub partitions: Seq<PartitionView>,
    pub disk_size: u64,
    pub sector_size: u64,
}

/// The views of a sequence of partitions.
pub open spec fn partition_views(ps: Seq<Partition>) -> Seq<PartitionView> {
    ps.map_values(|p: Partition| p@)
}

impl View for DiskInfo {
    type V = DiskInfoView;

    open spec fn view(&self) -> DiskInfoView {
        DiskInfoView {
            scheme: self.scheme,
            partitions: partition_views(self.partitions@),
            disk_size: self.disk_size,
            sector_size: self.sector_size,
        }
    }
}

/// A disk-analysis result, seen as an outcome.
pub open spec fn disk_outcome(r: Result<DiskInfo, ReadError>) -> Outcome<DiskInfoView> {
    match r {
        Ok(d) => Outcome::Done(d@),
        Err(e) => Outcome::Failed(e),
    }
}

/// Attaches a partition list outcome to a scheme and disk geometry.
pub open spec fn disk_with(
    o: Outcome<Seq<PartitionView>>,
    scheme: PartitionScheme,
    disk_size: u64,
    sector_size: u64,
) -> Outcome<DiskInfoView> {
    match o {
        Outcome::Done(ps) => Outcome::Done(
            DiskInfoView { scheme, partitions: ps, disk_size, sector_size },
        ),
        Outcome::Failed(e) => Outcome::Failed(e),
        Outcome::Panics => Outcome::Panics,
    }
}

// ----- MBR -----

/// Whether any entry of the table is a GPT protective entry (type 0xEE).
pub open spec fn spec_is_protective(es: Seq<PartitionEntry>) -> bool {
    exists|i: int| 0 <= i < es.len() && #[trigger] es[i].partition_type == 0xee
}

/// A table that holds a protective entry (type 0xEE) stands for a GPT disk.
pub fn is_protective_mbr(partitions: &[PartitionEntry]) -> (r: bool)
    ensures
        r == spec_is_protective(partitions@),
{
    let mut i: usize = 0;
    while i < partitions.len()
        invariant
            i <= partitions@.len(),
            forall|j: int| 0 <= j < i ==> #[trigger] partitions@[j].partition_type != 0xee,
        decreases partitions@.len() - i,
    {
        if partitions[i].partition_type == 0xee {
            return true;
        }
        i = i + 1;
    }
    false
}

/// The partition that MBR entry `e`, in table position `i`, describes.
pub open spec fn mbr_partition(i: int, e: PartitionEntry) -> PartitionView {
    PartitionView {
        number: (i + 1) as u8,
        scheme: PartitionScheme::MBR,
        partition_type: partition_type_name(e.partition_type),
        start_sector: e.starting_lba as u64,
        end_sector: (e.starting_lba + e.total_sectors - 1) as u64,
        size_bytes: (e.total_sectors * 512) as u64,
        bootable: e.boot_indicator == 0x80,
        active: e.boot_indicator == 0x80,
    }
}

/// Every entry has a last sector (its start plus length is at least 1).
pub open spec fn mbr_entries_sound(es: Seq<PartitionEntry>) -> bool {
    forall|i: int| 0 <= i < es.len() ==> #[trigger] es[i].starting_lba + es[i].total_sectors >= 1
}

/// The partitions that a list of MBR entries describes, numbered from 1.
pub open spec fn mbr_partitions(es: Seq<PartitionEntry>) -> Seq<PartitionView> {
    Seq::new(es.len(), |i: int| mbr_partition(i, es[i]))
}

/// Turns MBR entries into partitions numbered from 1 in table order.
pub fn analyze_mbr(partitions: Vec<PartitionEntry>, disk_size: u64, sector_size: u64) -> (r: Result<
    DiskInfo,
    ReadError,
>)
    requires
        mbr_entries_sound(partitions@),
    ensures
        disk_outcome(r) == Outcome::Done(
            DiskInfoView {
                scheme: PartitionScheme::MBR,
                partitions: mbr_partitions(partitions@),
                disk_size,
                sector_size,
            },
        ),
{
    let mut result_partitions: Vec<Partition> = Vec::new();
    let mut i: usize = 0;
    while i < partitions.len()
        invariant
            i <= partitions@.len(),
            mbr_entries_sound(partitions@),
            partition_views(result_partitions@) == mbr_partitions(partitions@).take(i as int),
        decreases partitions@.len() - i,
    {
        let entry = &partitions[i];
        let partition = Partition {
            number: (i + 1) as u8,
            scheme: PartitionScheme::MBR,
            partition_type: String::from_str(partition_type_to_string(entry.partition_type)),
            start_sector: entry.start_sector(),
            end_sector: entry.end_sector(),
            size_bytes: entry.size_bytes(),
            bootable: entry.boot_indicator == 0x80,
            active: entry.boot_indicator == 0x80,
        };
        result_partitions.push(partition);
        assert(mbr_partitions(partitions@).take(i + 1) =~= mbr_partitions(partitions@).take(
            i as int,
        ).push(mbr_partition(i as int, partitions@[i as int])));
        i = i + 1;
    }
    assert(mbr_partitions(partitions@).take(i as int) =~= mbr_partitions(partitions@));
    Ok(DiskInfo { scheme: PartitionScheme::MBR, partitions: result_partitions, disk_size, sector_size })
}

// ----- GPT -----

/// The bytes "EFI PART", the GPT header signature.
pub open spec fn gpt_signature() -> Seq<u8> {
    seq![0x45u8, 0x46, 0x49, 0x20, 0x50, 0x41, 0x52, 0x54]
}

/// Whether sector 1 of the image carries the GPT signature.
pub fn detect_gpt(reader: &mut SectorReader) -> (r: Result<bool, ReadError>)
    ensures
        *final(reader) == *old(reader),
        match sector_outcome(old(reader)@.image, 1) {
            Outcome::Done(h) => r == Ok::<bool, ReadError>(
                h.len() >= 8 && h.subrange(0, 8) == gpt_signature(),
            ),
            Outcome::Failed(e) => r == Err::<bool, ReadError>(e),
            Outcome::Panics => false,
        },
{
    let gpt_header = reader.read_sector(1)?;
    if gpt_header.len() >= 8 {
        let sig: [u8; 8] = [0x45, 0x46, 0x49, 0x20, 0x50, 0x41, 0x52, 0x54];
        let signature = &gpt_header.as_slice()[0..8];
        return Ok(bytes_equal(signature, sig.as_slice()));
    }
    Ok(false)
}

pub open spec fn guid_efi_system() -> Seq<u8> {
    seq![0x28u8, 0x73, 0x2A, 0xC1, 0x1F, 0xF8, 0xD2, 0x11, 0xBA, 0x4B, 0x00, 0xA0, 0xC9, 0x3E, 0xC9, 0x3B]
}

pub open spec fn guid_microsoft_reserved() -> Seq<u8> {
    seq![0xE3u8, 0xC9, 0xE3, 0x16, 0x0E, 0x75, 0xC8, 0x44, 0xBC, 0xDE, 0x1F, 0x69, 0x66, 0x45, 0x78, 0x20]
}

pub open spec fn guid_basic_data() -> Seq<u8> {
    seq![0xA2u8, 0xA0, 0xD0, 0xEB, 0xE5, 0xB9, 0x33, 0x44, 0x87, 0xC0, 0x68, 0xB6, 0xB7, 0x26, 0x99, 0xC7]
}

pub open spec fn guid_linux_filesystem() -> Seq<u8> {
    seq![0x0Fu8, 0xC6, 0x3D, 0xAF, 0x84, 0xE3, 0x47, 0x9E, 0xA6, 0x1C, 0xF1, 0x0E, 0x08, 0x5E, 0xC7, 0xFF]
}

pub open spec fn guid_linux_swap() -> Seq<u8> {
    seq![0x06u8, 0x57, 0xFD, 0x69, 0x81, 0x24, 0x41, 0xBA, 0xBB, 0x95, 0x05, 0xF8, 0x4B, 0xE3, 0x2B, 0x4F]
}

pub open spec fn guid_bios_boot() -> Seq<u8> {
    seq![0x21u8, 0x6F, 0x5D, 0xB8, 0x63, 0xD9, 0x49, 0x4A, 0x87, 0x3C, 0xB5, 0x61, 0x6F, 0xE7, 0x2C, 0x6E]
}

pub open spec fn guid_microsoft_recovery() -> Seq<u8> {
    seq![0xDEu8, 0x94, 0xBA, 0xA4, 0x06, 0xD1, 0x41, 0xD4, 0xA6, 0x91, 0x00, 0x26, 0x95, 0xC6, 0x63, 0xD3]
}

/// The name of a GPT partition type GUID (as its 16 stored bytes).
pub open spec fn guid_type_name(g: Seq<u8>) -> Seq<char> {
    if g.len() < 16 { "Unknown"@ }
    else if g == guid_efi_system() { "EFI System"@ }
    else if g == guid_microsoft_reserved() { "Microsoft Reserved"@ }
    else if g == guid_basic_data() { "Basic Data"@ }
    else if g == guid_linux_filesystem() { "Linux Filesystem"@ }
    else if g == guid_linux_swap() { "Linux Swap"@ }
    else if g == guid_bios_boot() { "BIOS Boot"@ }
    else if g == guid_microsoft_recovery() { "Microsoft Recovery"@ }
    else { "Unknown GUID"@ }
}

/// Human-readable name of a GPT partition type GUID.
pub fn guid_to_partition_type(guid: &[u8]) -> (r: &'static str)
    ensures
        r@ == guid_type_name(guid@),
{
    if guid.len() < 16 {
        return "Unknown";
    }
    let efi: [u8; 16] = [0x28, 0x73, 0x2A, 0xC1, 0x1F, 0xF8, 0xD2, 0x11, 0xBA, 0x4B, 0x00, 0xA0, 0xC9, 0x3E, 0xC9, 0x3B];
    let msr: [u8; 16] = [0xE3, 0xC9, 0xE3, 0x16, 0x0E, 0x75, 0xC8, 0x44, 0xBC, 0xDE, 0x1F, 0x69, 0x66, 0x45, 0x78, 0x20];
    let basic: [u8; 16] = [0xA2, 0xA0, 0xD0, 0xEB, 0xE5, 0xB9, 0x33, 0x44, 0x87, 0xC0, 0x68, 0xB6, 0xB7, 0x26, 0x99, 0xC7];
    let linux: [u8; 16] = [0x0F, 0xC6, 0x3D, 0xAF, 0x84, 0xE3, 0x47, 0x9E, 0xA6, 0x1C, 0xF1, 0x0E, 0x08, 0x5E, 0xC7, 0xFF];
    let swap: [u8; 16] = [0x06, 0x57, 0xFD, 0x69, 0x81, 0x24, 0x41, 0xBA, 0xBB, 0x95, 0x05, 0xF8, 0x4B, 0xE3, 0x2B, 0x4F];
    let bios: [u8; 16] = [0x21, 0x6F, 0x5D, 0xB8, 0x63, 0xD9, 0x49, 0x4A, 0x87, 0x3C, 0xB5, 0x61, 0x6F, 0xE7, 0x2C, 0x6E];
    let recovery: [u8; 16] = [0xDE, 0x94, 0xBA, 0xA4, 0x06, 0xD1, 0x41, 0xD4, 0xA6, 0x91, 0x00, 0x26, 0x95, 0xC6, 0x63, 0xD3];
    if bytes_equal(guid, efi.as_slice()) {
        "EFI System"
    } else if bytes_equal(guid, msr.as_slice()) {
        "Microsoft Reserved"
    } else if bytes_equal(guid, basic.as_slice()) {
        "Basic Data"
    } else if bytes_equal(guid, linux.as_slice()) {
        "Linux Filesystem"
    } else if bytes_equal(guid, swap.as_slice()) {
        "Linux Swap"
    } else if bytes_equal(guid, bios.as_slice()) {
        "BIOS Boot"
    } else if bytes_equal(guid, recovery.as_slice()) {
        "Microsoft Recovery"
    } else {
        "Unknown GUID"
    }
}

/// An entry describes a partition when it is at least 128 bytes long and
/// its type GUID (bytes 0..16) is not all zeros.
pub open spec fn gpt_entry_used(entry: Seq<u8>) -> bool {
    entry.len() >= 128 && !(forall|j: int| 0 <= j < 16 ==> entry[j] == 0)
}

/// The size computation `(last - first + 1) * 512` of a used entry
/// stays within `u64`.
pub open spec fn gpt_entry_sizable(entry: Seq<u8>) -> bool {
    le64(entry, 32) <= le64(entry, 40) && (le64(entry, 40) - le64(entry, 32) + 1) * 512
        <= u64::MAX
}

/// The partition that a GPT entry describes, under the given number.
pub open spec fn gpt_partition(entry: Seq<u8>, number: u8) -> PartitionView {
    PartitionView {
        number,
        scheme: PartitionScheme::GPT,
        partition_type: guid_type_name(entry.subrange(0, 16)),
        start_sector: le64(entry, 32),
        end_sector: le64(entry, 40),
        size_bytes: ((le64(entry, 40) - le64(entry, 32) + 1) * 512) as u64,
        bootable: le64(entry, 48) & 4 != 0,
        active: le64(entry, 48) & 4 != 0,
    }
}

/// Decodes one GPT partition entry; unused or short entries give `None`.
pub fn parse_gpt_partition_entry(entry: &[u8], number: u8) -> (r: Option<Partition>)
    requires
        gpt_entry_used(entry@) ==> gpt_entry_sizable(entry@),
    ensures
        gpt_entry_used(entry@) ==> r is Some && r->0@ == gpt_partition(entry@, number),
        !gpt_entry_used(entry@) ==> r is None,
{
    if entry.len() < 128 {
        return None;
    }
    let partition_type_guid = &entry[0..16];
    if all_zero(partition_type_guid) {
        assert forall|j: int| 0 <= j < 16 implies entry@[j] == 0 by {
            assert(partition_type_guid@[j] == entry@[j]);
        }
        return None;
    }
    let name_field = &entry[56..128];
    proof {
        lemma_even_name_field(name_field@, 0);
    }
    let _partition_name = parse_gpt_partition_name(name_field);
    let start_lba = read_le_u64(entry, 32);
    let end_lba = read_le_u64(entry, 40);
    let attributes = read_le_u64(entry, 48);
    Some(
        Partition {
            number,
            scheme: PartitionScheme::GPT,
            partition_type: String::from_str(guid_to_partition_type(partition_type_guid)),
            start_sector: start_lba,
            end_sector: end_lba,
            size_bytes: (end_lba - start_lba + 1) * 512,
            bootable: (attributes & 0x4) != 0,
            active: (attributes & 0x4) != 0,
        },
    )
}

/// The UTF-16LE units of a name field, taken two bytes at a time from byte
/// `p` on, up to the first zero unit or the end of the field.
pub open spec fn name_units(b: Seq<u8>, p: nat) -> Seq<u16>
    decreases b.len() - p,
{
    if p + 1 >= b.len() {
        Seq::empty()
    } else if le16(b, p as int) == 0 {
        Seq::empty()
    } else {
        seq![le16(b, p as int)] + name_units(b, p + 2)
    }
}

/// Reading the name field two bytes at a time from byte `p` on reaches a
/// lone last byte: the field has odd length and no zero unit before its end.
pub open spec fn name_hits_lone_byte(b: Seq<u8>, p: nat) -> bool
    decreases b.len() - p,
{
    if p >= b.len() {
        false
    } else if p + 1 >= b.len() {
        true
    } else if le16(b, p as int) == 0 {
        false
    } else {
        name_hits_lone_byte(b, p + 2)
    }
}

/// A field of even length read from an even position never reaches a lone
/// byte.
proof fn lemma_even_name_field(b: Seq<u8>, p: nat)
    requires
        b.len() % 2 == 0,
        p % 2 == 0,
    ensures
        !name_hits_lone_byte(b, p),
    decreases b.len() - p,
{
    if p + 1 < b.len() {
        lemma_even_name_field(b, p + 2);
    }
}

/// Decodes a GPT partition name: UTF-16LE units up to the first zero unit.
/// Units below 0xD800 are read one character each.
pub fn parse_gpt_partition_name(name_bytes: &[u8]) -> (r: String)
    requires
        !name_hits_lone_byte(name_bytes@, 0),
    ensures
        r@ == utf16_decoded(name_units(name_bytes@, 0)),
        (forall|i: int|
            0 <= i < name_units(name_bytes@, 0).len() ==> #[trigger] name_units(name_bytes@, 0)[i]
                < 0xD800) ==> r@ == name_units(name_bytes@, 0).map_values(|u: u16| u as char),
{
    let n = name_bytes.len();
    let mut units: Vec<u16> = Vec::new();
    let mut pos: usize = 0;
    if n == 0 {
        assert(units@ =~= name_units(name_bytes@, 0));
        proof {
            lemma_utf16_plain(units@);
        }
        return decode_utf16_lossy(units.as_slice());
    }
    while pos < n
        invariant
            n == name_bytes@.len(),
            pos <= n,
            !name_hits_lone_byte(name_bytes@, pos as nat),
            units@ + name_units(name_bytes@, pos as nat) == name_units(name_bytes@, 0),
        ensures
            units@ == name_units(name_bytes@, 0),
        decreases n - pos,
    {
        let u = read_le_u16(name_bytes, pos);
        if u == 0 {
            break;
        }
        let ghost prev = units@;
        units.push(u);
        assert(prev + name_units(name_bytes@, pos as nat) =~= units@ + name_units(
            name_bytes@,
            (pos + 2) as nat,
        ));
        pos = pos + 2;
    }
    proof {
        if forall|i: int| 0 <= i < units@.len() ==> units@[i] < 0xD800 {
            lemma_utf16_plain(units@);
        }
    }
    decode_utf16_lossy(units.as_slice())
}

/// Entry `i` of the GPT partition array, appended to `ps` when used: the
/// entry lies `i * entry_size` bytes past sector `lba` and is read from the
/// sector that holds its first byte; an entry that runs past that sector is
/// skipped.
pub open spec fn gpt_step(
    image: Seq<u8>,
    lba: u64,
    entry_size: u32,
    sector_size: u64,
    i: int,
    ps: Seq<PartitionView>,
) -> Outcome<Seq<PartitionView>> {
    let q = i * entry_size;
    let ss = sector_size as int;
    if sector_size == 0 {
        Outcome::Panics
    } else if lba + q / ss > u64::MAX {
        Outcome::Panics
    } else {
        match sector_outcome(image, lba + q / ss) {
            Outcome::Done(sd) => {
                let off = q % ss;
                if off + entry_size > u64::MAX {
                    Outcome::Panics
                } else if off + entry_size <= sd.len() {
                    let entry = sd.subrange(off, off + entry_size);
                    if gpt_entry_used(entry) {
                        if gpt_entry_sizable(entry) {
                            Outcome::Done(ps.push(gpt_partition(entry, (i + 1) as u8)))
                        } else {
                            Outcome::Panics
                        }
                    } else {
                        Outcome::Done(ps)
                    }
                } else {
                    Outcome::Done(ps)
                }
            },
            Outcome::Failed(e) => Outcome::Failed(e),
            Outcome::Panics => Outcome::Panics,
        }
    }
}

/// The first `k` entries of the GPT partition array, in order; the first
/// read error or fault ends the walk.
pub open spec fn gpt_entries(
    image: Seq<u8>,
    lba: u64,
    entry_size: u32,
    sector_size: u64,
    k: nat,
) -> Outcome<Seq<PartitionView>>
    decreases k,
{
    if k == 0 {
        Outcome::Done(Seq::empty())
    } else {
        match gpt_entries(image, lba, entry_size, sector_size, (k - 1) as nat) {
            Outcome::Done(ps) => gpt_step(image, lba, entry_size, sector_size, k - 1, ps),
            other => other,
        }
    }
}

/// A walk that did not finish stays unfinished.
proof fn lemma_gpt_entries_stop(
    image: Seq<u8>,
    lba: u64,
    entry_size: u32,
    sector_size: u64,
    k: nat,
    j: nat,
)
    requires
        k <= j,
        !(gpt_entries(image, lba, entry_size, sector_size, k) is Done),
    ensures
        gpt_entries(image, lba, entry_size, sector_size, j) == gpt_entries(
            image,
            lba,
            entry_size,
            sector_size,
            k,
        ),
    decreases j - k,
{
    if k < j {
        lemma_gpt_entries_stop(image, lba, entry_size, sector_size, k, (j - 1) as nat);
    }
}

/// The GPT header fields: partition array LBA (offset 72), number of
/// entries (offset 80) and entry size (offset 84); at most 128 entries are
/// read.
pub open spec fn spec_analyze_gpt(image: Seq<u8>, disk_size: u64, sector_size: u64) -> Outcome<
    DiskInfoView,
> {
    match sector_outcome(image, 1) {
        Outcome::Done(h) => if h.len() < 92 {
            Outcome::Done(
                DiskInfoView {
                    scheme: PartitionScheme::GPT,
                    partitions: Seq::empty(),
                    disk_size,
                    sector_size,
                },
            )
        } else {
            let n = le32(h, 80);
            let max = if n < 128 { n as nat } else { 128nat };
            disk_with(
                gpt_entries(image, le64(h, 72), le32(h, 84), sector_size, max),
                PartitionScheme::GPT,
                disk_size,
                sector_size,
            )
        },
        Outcome::Failed(e) => Outcome::Failed(e),
        Outcome::Panics => Outcome::Panics,
    }
}

/// Reads the GPT header at sector 1 and the used entries of its partition
/// array.
pub fn analyze_gpt(reader: &mut SectorReader, disk_size: u64, sector_size: u64) -> (r: Result<
    DiskInfo,
    ReadError,
>)
    requires
        !(spec_analyze_gpt(old(reader)@.image, disk_size, sector_size) is Panics),
    ensures
        *final(reader) == *old(reader),
        disk_outcome(r) == spec_analyze_gpt(old(reader)@.image, disk_size, sector_size),
{
    let ghost image = reader@.image;
    let mut result_partitions: Vec<Partition> = Vec::new();
    let gpt_header = reader.read_sector(1)?;
    if gpt_header.len() < 92 {
        let empty: Vec<Partition> = Vec::new();
        return Ok(
            DiskInfo {
                scheme: PartitionScheme::GPT,
                partitions: empty,
                disk_size,
                sector_size,
            },
        );
    }
    let partition_entry_lba = read_le_u64(gpt_header.as_slice(), 72);
    let number_of_entries = read_le_u32(gpt_header.as_slice(), 80);
    let entry_size = read_le_u32(gpt_header.as_slice(), 84);
    let max_entries: u32 = if number_of_entries < 128 { number_of_entries } else { 128 };
    let ghost k = max_entries as nat;
    assert(partition_views(result_partitions@) =~= Seq::<PartitionView>::empty());
    assert(spec_analyze_gpt(image, disk_size, sector_size) == disk_with(
        gpt_entries(image, partition_entry_lba, entry_size, sector_size, k),
        PartitionScheme::GPT,
        disk_size,
        sector_size,
    ));
    let mut i: u32 = 0;
    while i < max_entries
        invariant
            *reader == *old(reader),
            image == reader@.image,
            i <= max_entries <= 128,
            k == max_entries,
            spec_analyze_gpt(image, disk_size, sector_size) == disk_with(
                gpt_entries(image, partition_entry_lba, entry_size, sector_size, k),
                PartitionScheme::GPT,
                disk_size,
                sector_size,
            ),
            gpt_entries(image, partition_entry_lba, entry_size, sector_size, k) !is Panics,
            gpt_entries(image, partition_entry_lba, entry_size, sector_size, i as nat)
                == Outcome::Done(partition_views(result_partitions@)),
        decreases max_entries - i,
    {
        let ghost ps = partition_views(result_partitions@);
        let ghost step = gpt_step(image, partition_entry_lba, entry_size, sector_size, i as int, ps);
        proof {
            if !(step is Done) {
                lemma_gpt_entries_stop(image, partition_entry_lba, entry_size, sector_size, (i + 1) as nat, k);
            }
        }
        assert((i as u64) * (entry_size as u64) <= 128 * 0xffff_ffffu64) by (nonlinear_arith)
            requires
                i <= 128,
        ;
        let q: u64 = (i as u64) * (entry_size as u64);
        let entry_sector: u64 = partition_entry_lba + q / sector_size;
        let entry_offset: u64 = q % sector_size;
        let sector_data = match reader.read_sector(entry_sector) {
            Ok(d) => d,
            Err(e) => {
                return Err(e);
            },
        };
        let n = sector_data.len();
        if entry_offset + (entry_size as u64) <= n as u64 {
            let lo = entry_offset as usize;
            let hi = lo + entry_size as usize;
            let entry = &sector_data.as_slice()[lo..hi];
            let parsed = parse_gpt_partition_entry(entry, (i as u8) + 1);
            match parsed {
                Some(partition) => {
                    let ghost prev = result_partitions@;
                    result_partitions.push(partition);
                    assert(partition_views(result_partitions@) =~= partition_views(prev).push(
                        partition@,
                    ));
                },
                None => {},
            }
        }
        i = i + 1;
    }
    Ok(DiskInfo { scheme: PartitionScheme::GPT, partitions: result_partitions, disk_size, sector_size })
}

// ----- whole disk -----

/// The partition that the raw 16-byte MBR slot `b`, in table position `i`,
/// describes.
pub open spec fn slot_partition(i: int, b: Seq<u8>) -> PartitionView {
    PartitionView {
        number: (i + 1) as u8,
        scheme: PartitionScheme::MBR,
        partition_type: partition_type_name(b[4]),
        start_sector: le32(b, 8) as u64,
        end_sector: (le32(b, 8) + le32(b, 12) - 1) as u64,
        size_bytes: (le32(b, 12) * 512) as u64,
        bootable: b[0] == 0x80,
        active: b[0] == 0x80,
    }
}

/// The partition scheme of an image: a valid MBR whose table holds a
/// protective entry (type 0xEE) means GPT, any other valid MBR means MBR;
/// without a valid MBR, the "EFI PART" signature in sector 1 means GPT and
/// its absence means an unknown scheme.
pub open spec fn spec_analyze_partitions(image: Seq<u8>, disk_size: u64) -> Outcome<DiskInfoView> {
    match sector_outcome(image, 0) {
        Outcome::Done(mbr) => if spec_has_valid_mbr(mbr) {
            let slots = partition_table_slots(mbr);
            if exists|i: int| 0 <= i < slots.len() && #[trigger] slots[i][4] == 0xee {
                spec_analyze_gpt(image, disk_size, 512)
            } else if forall|i: int|
                0 <= i < slots.len() ==> le32(#[trigger] slots[i], 8) + le32(slots[i], 12) >= 1 {
                Outcome::Done(
                    DiskInfoView {
                        scheme: PartitionScheme::MBR,
                        partitions: Seq::new(slots.len(), |i: int| slot_partition(i, slots[i])),
                        disk_size,
                        sector_size: 512,
                    },
                )
            } else {
                Outcome::Panics
            }
        } else {
            match sector_outcome(image, 1) {
                Outcome::Done(h) => if h.len() >= 8 && h.subrange(0, 8) == gpt_signature() {
                    spec_analyze_gpt(image, disk_size, 512)
                } else {
                    Outcome::Done(
                        DiskInfoView {
                            scheme: PartitionScheme::Unknown,
                            partitions: Seq::empty(),
                            disk_size,
                            sector_size: 512,
                        },
                    )
                },
                Outcome::Failed(e) => Outcome::Failed(e),
                Outcome::Panics => Outcome::Panics,
            }
        },
        Outcome::Failed(e) => Outcome::Failed(e),
        Outcome::Panics => Outcome::Panics,
    }
}

/// Determines the partition scheme of the image and lists its partitions.
pub fn analyze_partitions(reader: &mut SectorReader) -> (r: Result<DiskInfo, ReadError>)
    requires
        !(spec_analyze_partitions(old(reader)@.image, old(reader)@.device_size) is Panics),
    ensures
        *final(reader) == *old(reader),
        disk_outcome(r) == spec_analyze_partitions(old(reader)@.image, old(reader)@.device_size),
{
    let disk_size = reader.device_size();
    let sector_size = reader.sector_size();
    let mbr = reader.read_sector(0)?;
    if has_valid_mbr(mbr.as_slice()) {
        let partition_table = extract_partition_table(mbr.as_slice());
        let ghost slots = partition_table_slots(mbr@);
        if is_protective_mbr(partition_table.as_slice()) {
            proof {
                let i = choose|i: int| 0 <= i < partition_table@.len() && #[trigger] partition_table@[i].partition_type == 0xee;
                assert(entry_decodes(partition_table@[i], slots[i]));
            }
            return analyze_gpt(reader, disk_size, sector_size);
        } else {
            proof {
                assert forall|i: int| 0 <= i < slots.len() implies #[trigger] slots[i][4] != 0xee by {
                    assert(entry_decodes(partition_table@[i], slots[i]));
                }
                assert forall|i: int| 0 <= i < partition_table@.len() implies
                    #[trigger] partition_table@[i].starting_lba + partition_table@[i].total_sectors >= 1 by {
                }
            }
            let r = analyze_mbr(partition_table, disk_size, sector_size);
            proof {
                assert forall|i: int| 0 <= i < slots.len() implies mbr_partitions(partition_table@)[i]
                    == slot_partition(i, slots[i]) by {
                }
                assert(mbr_partitions(partition_table@) =~= Seq::new(slots.len(), |i: int| slot_partition(i, slots[i])));
            }
            return r;
        }
    }
    if detect_gpt(reader)? {
        return analyze_gpt(reader, disk_size, sector_size);
    }
    let empty: Vec<Partition> = Vec::new();
    assert(partition_views(empty@) =~= Seq::<PartitionView>::empty());
    Ok(DiskInfo { scheme: PartitionScheme::Unknown, partitions: empty, disk_size, sector_size })
}

// ----- checked analysis -----

/// Why a checked run gave no result: a read failed, or the image holds
/// values whose arithmetic would overflow.
#[derive(Debug, Clone, Copy, PartialEq, Eq, Structural)]
pub enum ScanError {
    Read(ReadError),
    Overflow,
}

/// A checked result answers an outcome: the value when it is done, the
/// read error when it failed, `Overflow` where the arithmetic overflows.
pub open spec fn disk_checked(r: Result<DiskInfo, ScanError>, o: Outcome<DiskInfoView>) -> bool {
    match o {
        Outcome::Done(d) => r is Ok && r->Ok_0@ == d,
        Outcome::Failed(e) => r == Err::<DiskInfo, ScanError>(ScanError::Read(e)),
        Outcome::Panics => r == Err::<DiskInfo, ScanError>(ScanError::Overflow),
    }
}

/// Whether an entry is unused or its size can be computed.
fn gpt_entry_sound(entry: &[u8]) -> (r: bool)
    ensures
        r == (gpt_entry_used(entry@) ==> gpt_entry_sizable(entry@)),
{
    if entry.len() < 128 {
        return true;
    }
    if all_zero(&entry[0..16]) {
        assert forall|j: int| 0 <= j < 16 implies entry@[j] == 0 by {
            assert(entry@.subrange(0, 16)[j] == entry@[j]);
        }
        return true;
    }
    assert(entry@.subrange(0, 16) != Seq::new(16, |j: int| 0u8) ==> !(forall|j: int|
        0 <= j < 16 ==> entry@[j] == 0)) by {
        if forall|j: int| 0 <= j < 16 ==> entry@[j] == 0 {
            assert(entry@.subrange(0, 16) =~= Seq::new(16, |j: int| 0u8));
        }
    }
    let start_lba = read_le_u64(entry, 32);
    let end_lba = read_le_u64(entry, 40);
    start_lba <= end_lba && end_lba - start_lba < 0x7F_FFFF_FFFF_FFFF
}

/// Whether analysing the GPT of the image (with 512-byte sectors) would
/// overflow.
fn gpt_overflows(reader: &mut SectorReader, disk_size: u64) -> (r: bool)
    ensures
        *final(reader) == *old(reader),
        r == (spec_analyze_gpt(old(reader)@.image, disk_size, 512) is Panics),
{
    let ghost image = reader@.image;
    let header = match reader.read_sector(1) {
        Ok(h) => h,
        Err(_) => {
            return false;
        },
    };
    if header.len() < 92 {
        return false;
    }
    let lba = read_le_u64(header.as_slice(), 72);
    let number_of_entries = read_le_u32(header.as_slice(), 80);
    let entry_size = read_le_u32(header.as_slice(), 84);
    let max_entries: u32 = if number_of_entries < 128 { number_of_entries } else { 128 };
    let ghost k = max_entries as nat;
    let ghost whole = gpt_entries(image, lba, entry_size, 512, k);
    assert(spec_analyze_gpt(image, disk_size, 512) == disk_with(whole, PartitionScheme::GPT, disk_size, 512));
    let mut i: u32 = 0;
    while i < max_entries
        invariant
            *reader == *old(reader),
            image == reader@.image,
            image == old(reader)@.image,
            i <= max_entries <= 128,
            k == max_entries,
            whole == gpt_entries(image, lba, entry_size, 512, k),
            spec_analyze_gpt(image, disk_size, 512) == disk_with(whole, PartitionScheme::GPT, disk_size, 512),
            gpt_entries(image, lba, entry_size, 512, i as nat) is Done,
        decreases max_entries - i,
    {
        let ghost ps = gpt_entries(image, lba, entry_size, 512, i as nat)->Done_0;
        let ghost step = gpt_step(image, lba, entry_size, 512, i as int, ps);
        assert(gpt_entries(image, lba, entry_size, 512, (i + 1) as nat) == step);
        proof {
            if !(step is Done) {
                lemma_gpt_entries_stop(image, lba, entry_size, 512, (i + 1) as nat, k);
            }
        }
        assert((i as u64) * (entry_size as u64) <= 128 * 0xffff_ffffu64) by (nonlinear_arith)
            requires
                i <= 128,
        ;
        let q: u64 = (i as u64) * (entry_size as u64);
        let qs = q / 512;
        if lba > u64::MAX - qs {
            return true;
        }
        let entry_sector = lba + qs;
        if entry_sector > u64::MAX / 512 {
            return true;
        }
        let sector_data = match reader.read_sector(entry_sector) {
            Ok(d) => d,
            Err(_) => {
                return false;
            },
        };
        let off = q % 512;
        if off + (entry_size as u64) <= sector_data.len() as u64 {
            let lo = off as usize;
            let hi = lo + entry_size as usize;
            let entry = &sector_data.as_slice()[lo..hi];
            if !gpt_entry_sound(entry) {
                return true;
            }
        }
        i = i + 1;
    }
    false
}

/// Whether `analyze_partitions` would overflow on this reader's image,
/// that is, whether its outcome is a fault rather than a result or a read
/// error.
pub fn analysis_overflows(reader: &mut SectorReader) -> (r: bool)
    ensures
        *final(reader) == *old(reader),
        r == (spec_analyze_partitions(old(reader)@.image, old(reader)@.device_size) is Panics),
{
    let disk_size = reader.device_size();
    let mbr = match reader.read_sector(0) {
        Ok(m) => m,
        Err(_) => {
            return false;
        },
    };
    if has_valid_mbr(mbr.as_slice()) {
        let table = extract_partition_table(mbr.as_slice());
        let ghost slots = partition_table_slots(mbr@);
        if is_protective_mbr(table.as_slice()) {
            proof {
                let i = choose|i: int| 0 <= i < table@.len() && #[trigger] table@[i].partition_type == 0xee;
                assert(entry_decodes(table@[i], slots[i]));
            }
            return gpt_overflows(reader, disk_size);
        }
        proof {
            assert forall|i: int| 0 <= i < slots.len() implies #[trigger] slots[i][4] != 0xee by {
                assert(entry_decodes(table@[i], slots[i]));
            }
        }
        assert(sector_outcome(old(reader)@.image, 0) == Outcome::Done(mbr@));
        let mut i: usize = 0;
        while i < table.len()
            invariant
                *reader == *old(reader),
                sector_outcome(old(reader)@.image, 0) == Outcome::Done(mbr@),
                spec_has_valid_mbr(mbr@),
                slots == partition_table_slots(mbr@),
                forall|j: int| 0 <= j < slots.len() ==> #[trigger] slots[j][4] != 0xee,
                i <= table@.len(),
                table@.len() == slots.len(),
                forall|j: int| 0 <= j < table@.len() ==> entry_decodes(#[trigger] table@[j], slots[j]),
                forall|j: int| 0 <= j < i ==> le32(#[trigger] slots[j], 8) + le32(slots[j], 12) >= 1,
            decreases table@.len() - i,
        {
            assert(entry_decodes(table@[i as int], slots[i as int]));
            if table[i].starting_lba == 0 && table[i].total_sectors == 0 {
                assert(!(le32(slots[i as int], 8) + le32(slots[i as int], 12) >= 1));
                return true;
            }
            i = i + 1;
        }
        return false;
    }
    match detect_gpt(reader) {
        Ok(true) => gpt_overflows(reader, disk_size),
        _ => false,
    }
}

/// Analyses the partitions of the image, answering `Overflow` where
/// `analyze_partitions` would overflow.
pub fn analyze_partitions_checked(reader: &mut SectorReader) -> (r: Result<DiskInfo, ScanError>)
    ensures
        *final(reader) == *old(reader),
        disk_checked(r, spec_analyze_partitions(old(reader)@.image, old(reader)@.device_size)),
{
    if analysis_overflows(reader) {
        return Err(ScanError::Overflow);
    }
    match analyze_partitions(reader) {
        Ok(d) => Ok(d),
        Err(e) => Err(ScanError::Read(e)),
    }
}

// ----- filtering -----

/// Partition type names under which a file system may be found.
pub open spec fn is_filesystem_type_name(name: Seq<char>) -> bool {
    ||| name == "Basic Data"@
    ||| name == "Linux Filesystem"@
    ||| name == "FAT32"@
    ||| name == "FAT16"@
    ||| name == "NTFS/exFAT"@
    ||| name == "FAT12"@
    ||| name == "FAT16B"@
    ||| name == "FAT16 LBA"@
    ||| name == "FAT32 LBA"@
}

/// Whether a partition type name is one that may hold a file system.
pub fn is_filesystem_type(name: &String) -> (r: bool)
    ensures
        r == is_filesystem_type_name(name@),
{
    *name == String::from_str("Basic Data") || *name == String::from_str("Linux Filesystem")
        || *name == String::from_str("FAT32") || *name == String::from_str("FAT16")
        || *name == String::from_str("NTFS/exFAT") || *name == String::from_str("FAT12")
        || *name == String::from_str("FAT16B") || *name == String::from_str("FAT16 LBA")
        || *name == String::from_str("FAT32 LBA")
}

/// The partitions whose type may hold a file system, in their order.
pub open spec fn filesystem_partitions(ps: Seq<PartitionView>) -> Seq<PartitionView>
    decreases ps.len(),
{
    if ps.len() == 0 {
        Seq::empty()
    } else {
        let rest = filesystem_partitions(ps.drop_last());
        if is_filesystem_type_name(ps.last().partition_type) {
            rest.push(ps.last())
        } else {
            rest
        }
    }
}

/// Selects the partitions whose type may hold a file system.
pub fn find_filesystem_partitions(disk_info: &DiskInfo) -> (r: Vec<&Partition>)
    ensures
        r@.map_values(|p: &Partition| p@) == filesystem_partitions(disk_info@.partitions),
{
    let ghost all = disk_info@.partitions;
    let mut out: Vec<&Partition> = Vec::new();
    let mut i: usize = 0;
    while i < disk_info.partitions.len()
        invariant
            i <= disk_info.partitions@.len(),
            all == partition_views(disk_info.partitions@),
            out@.map_values(|p: &Partition| p@) == filesystem_partitions(all.take(i as int)),
        decreases disk_info.partitions@.len() - i,
    {
        let p = &disk_info.partitions[i];
        assert(all.take(i + 1).drop_last() =~= all.take(i as int));
        if is_filesystem_type(&p.partition_type) {
            out.push(p);
        }
        i = i + 1;
    }
    assert(all.take(i as int) =~= all);
    out
}

// ----- laws -----

/// An MBR partition's last sector minus its first, plus one, is its size
/// in sectors, and its size is a whole number of sectors.
pub proof fn law_mbr_partition_extent(i: int, e: PartitionEntry)
    requires
        e.starting_lba + e.total_sectors >= 1,
    ensures
        mbr_partition(i, e).end_sector + 1 - mbr_partition(i, e).start_sector
            == mbr_partition(i, e).size_bytes / 512,
        mbr_partition(i, e).size_bytes % 512 == 0,
{
}

/// A GPT partition's size is its sector span times 512, and it never ends
/// before it starts.
pub proof fn law_gpt_partition_extent(entry: Seq<u8>, number: u8)
    requires
        gpt_entry_used(entry),
        gpt_entry_sizable(entry),
    ensures
        gpt_partition(entry, number).start_sector <= gpt_partition(entry, number).end_sector,
        gpt_partition(entry, number).size_bytes == (gpt_partition(entry, number).end_sector
            - gpt_partition(entry, number).start_sector + 1) * 512,
{
}

proof fn lemma_gpt_entries_shape(
    image: Seq<u8>,
    lba: u64,
    entry_size: u32,
    sector_size: u64,
    k: nat,
)
    requires
        k <= 128,
        gpt_entries(image, lba, entry_size, sector_size, k) is Done,
    ensures
        ({
            let ps = gpt_entries(image, lba, entry_size, sector_size, k)->Done_0;
            &&& ps.len() <= k
            &&& forall|j: int|
                0 <= j < ps.len() ==> (#[trigger] ps[j]).scheme == PartitionScheme::GPT && 1
                    <= ps[j].number <= k
        }),
    decreases k,
{
    if k > 0 {
        lemma_gpt_entries_shape(image, lba, entry_size, sector_size, (k - 1) as nat);
    }
}

/// The bytes of entry `i` of a GPT partition array of `entry_size`-byte
/// entries that starts at sector `lba` (of 512 bytes): they lie
/// `i * entry_size` bytes past the first byte of that sector.
pub open spec fn gpt_array_entry(image: Seq<u8>, lba: u64, entry_size: u32, i: int) -> Seq<u8> {
    let start = lba * 512 + i * entry_size;
    image.subrange(start, start + entry_size)
}

proof fn lemma_gpt_prefix(image: Seq<u8>, lba: u64, entry_size: u32, sector_size: u64, i: nat, k: nat)
    requires
        i <= k,
        gpt_entries(image, lba, entry_size, sector_size, k) is Done,
    ensures
        gpt_entries(image, lba, entry_size, sector_size, i) is Done,
        gpt_entries(image, lba, entry_size, sector_size, i)->Done_0.len() <= gpt_entries(
            image,
            lba,
            entry_size,
            sector_size,
            k,
        )->Done_0.len(),
        gpt_entries(image, lba, entry_size, sector_size, k)->Done_0.subrange(
            0,
            gpt_entries(image, lba, entry_size, sector_size, i)->Done_0.len() as int,
        ) == gpt_entries(image, lba, entry_size, sector_size, i)->Done_0,
    decreases k - i,
{
    let pk = gpt_entries(image, lba, entry_size, sector_size, k)->Done_0;
    if i == k {
        assert(pk.subrange(0, pk.len() as int) =~= pk);
    } else {
        let k1 = (k - 1) as nat;
        assert(gpt_entries(image, lba, entry_size, sector_size, k1) is Done);
        lemma_gpt_prefix(image, lba, entry_size, sector_size, i, k1);
        let p1 = gpt_entries(image, lba, entry_size, sector_size, k1)->Done_0;
        let pi = gpt_entries(image, lba, entry_size, sector_size, i)->Done_0;
        assert(pk == p1 || (pk.len() == p1.len() + 1 && pk.subrange(0, p1.len() as int) == p1)) by {
            if pk != p1 {
                assert(pk.subrange(0, p1.len() as int) =~= p1);
            }
        }
        assert(pk.subrange(0, pi.len() as int) =~= p1.subrange(0, pi.len() as int));
    }
}

/// A GPT disk lists every used entry: each of the first `min(n, 128)`
/// entries of the partition array (`n` being the entry count in the
/// header) that lies within one sector and is in use gives the partition it
/// describes, numbered by its place in the array.
#[verifier::spinoff_prover]
pub proof fn law_gpt_lists_used_entries(image: Seq<u8>, disk_size: u64)
    requires
        spec_analyze_gpt(image, disk_size, 512) is Done,
    ensures
        ({
            let h = image.subrange(512, 1024);
            let lba = le64(h, 72);
            let n = le32(h, 80);
            let es = le32(h, 84);
            let max = if n < 128 { n as int } else { 128 };
            let ps = spec_analyze_gpt(image, disk_size, 512)->Done_0.partitions;
            forall|i: int|
                0 <= i < max && (i * es) % 512 + es <= 512 && gpt_entry_used(
                    #[trigger] gpt_array_entry(image, lba, es, i),
                ) ==> ps.contains(gpt_partition(gpt_array_entry(image, lba, es, i), (i + 1) as u8))
        }),
{
    let h = image.subrange(512, 1024);
    assert(sector_outcome(image, 1) == Outcome::Done(h));
    let lba = le64(h, 72);
    let n = le32(h, 80);
    let es = le32(h, 84);
    let max = if n < 128 { n as nat } else { 128nat };
    let pm = gpt_entries(image, lba, es, 512, max)->Done_0;
    assert(spec_analyze_gpt(image, disk_size, 512)->Done_0.partitions == pm);
    assert forall|i: int|
        0 <= i < max && (i * es) % 512 + es <= 512 && gpt_entry_used(
            #[trigger] gpt_array_entry(image, lba, es, i),
        ) implies pm.contains(gpt_partition(gpt_array_entry(image, lba, es, i), (i + 1) as u8)) by {
        lemma_gpt_entry_listed(image, lba, es, max, i);
    }
}

/// Entry `i` of the array is read where `gpt_step` reads it: in the sector
/// holding its first byte, at its offset within that sector.
proof fn lemma_gpt_entry_place(image: Seq<u8>, lba: u64, es: u32, i: int)
    requires
        0 <= i,
        (i * es) % 512 + es <= 512,
        sector_outcome(image, lba + (i * es) / 512) is Done,
    ensures
        ({
            let q = i * es;
            let sd = sector_outcome(image, lba + q / 512)->Done_0;
            &&& q % 512 + es <= sd.len()
            &&& sd.subrange(q % 512, q % 512 + es) == gpt_array_entry(image, lba, es, i)
        }),
{
    let q = i * es;
    let sector = lba + q / 512;
    let off = q % 512;
    assert(q >= 0) by (nonlinear_arith)
        requires
            i >= 0,
            es >= 0,
            q == i * es,
    ;
    assert(sector * 512 + off == lba * 512 + q) by {
        vstd::arithmetic::div_mod::lemma_fundamental_div_mod(q, 512);
    }
    let sd = sector_outcome(image, sector)->Done_0;
    assert(sd.subrange(off, off + es) =~= gpt_array_entry(image, lba, es, i));
}

#[verifier::spinoff_prover]
proof fn lemma_gpt_entry_listed(image: Seq<u8>, lba: u64, es: u32, max: nat, i: int)
    requires
        gpt_entries(image, lba, es, 512, max) is Done,
        0 <= i < max,
        (i * es) % 512 + es <= 512,
        gpt_entry_used(gpt_array_entry(image, lba, es, i)),
    ensures
        gpt_entries(image, lba, es, 512, max)->Done_0.contains(
            gpt_partition(gpt_array_entry(image, lba, es, i), (i + 1) as u8),
        ),
{
    let pm = gpt_entries(image, lba, es, 512, max)->Done_0;
    lemma_gpt_prefix(image, lba, es, 512, (i + 1) as nat, max);
    lemma_gpt_prefix(image, lba, es, 512, i as nat, (i + 1) as nat);
    let pi = gpt_entries(image, lba, es, 512, i as nat)->Done_0;
    let p1 = gpt_entries(image, lba, es, 512, (i + 1) as nat)->Done_0;
    let entry = gpt_array_entry(image, lba, es, i);
    assert(p1 == pi.push(gpt_partition(entry, (i + 1) as u8))) by {
        assert(gpt_entries(image, lba, es, 512, (i + 1) as nat) == gpt_step(image, lba, es, 512, i, pi));
        lemma_gpt_entry_place(image, lba, es, i);
    }
    assert(pm[pi.len() as int] == p1[pi.len() as int]);
}

/// What a disk analysis reports is consistent: the sector size is 512, the
/// disk size is the one the device reports, every partition carries the disk's scheme and
/// a number from 1, an MBR disk has at most four partitions, a GPT disk at
/// most 128, and a disk of unknown scheme none.
pub proof fn law_analysis_consistent(image: Seq<u8>, disk_size: u64)
    requires
        spec_analyze_partitions(image, disk_size) is Done,
    ensures
        ({
            let info = spec_analyze_partitions(image, disk_size)->Done_0;
            &&& info.sector_size == 512
            &&& info.disk_size == disk_size
            &&& forall|j: int|
                0 <= j < info.partitions.len() ==> (#[trigger] info.partitions[j]).scheme
                    == info.scheme && info.partitions[j].number >= 1
            &&& info.scheme == PartitionScheme::MBR ==> info.partitions.len() <= 4
            &&& info.scheme == PartitionScheme::GPT ==> info.partitions.len() <= 128
            &&& info.scheme == PartitionScheme::Unknown ==> info.partitions.len() == 0
        }),
{
    let mbr = sector_outcome(image, 0)->Done_0;
    let gpt = spec_analyze_gpt(image, disk_size, 512);
    if gpt is Done {
        let h = sector_outcome(image, 1)->Done_0;
        if h.len() >= 92 {
            let n = le32(h, 80);
            let max = if n < 128 { n as nat } else { 128nat };
            lemma_gpt_entries_shape(image, le64(h, 72), le32(h, 84), 512, max);
        }
    }
    if spec_has_valid_mbr(mbr) {
        crate::sector::law_partition_table(mbr);
    }
}

/// The file-system partitions are taken from the given ones, in order, and
/// each has a type name that may hold a file system.
pub proof fn law_filesystem_partitions(ps: Seq<PartitionView>)
    ensures
        filesystem_partitions(ps).len() <= ps.len(),
        forall|j: int|
            0 <= j < filesystem_partitions(ps).len() ==> is_filesystem_type_name(
                (#[trigger] filesystem_partitions(ps)[j]).partition_type,
            ) && ps.contains(filesystem_partitions(ps)[j]),
    decreases ps.len(),
{
    if ps.len() > 0 {
        law_filesystem_partitions(ps.drop_last());
        let rest = filesystem_partitions(ps.drop_last());
        assert forall|j: int| 0 <= j < rest.len() implies ps.contains(#[trigger] rest[j]) by {
        }
    }
}

/// Partitions of a file-system type are all kept.
pub proof fn law_filesystem_partitions_complete(ps: Seq<PartitionView>, j: int)
    requires
        0 <= j < ps.len(),
        is_filesystem_type_name(ps[j].partition_type),
    ensures
        filesystem_partitions(ps).contains(ps[j]),
    decreases ps.len(),
{
    let rest = filesystem_partitions(ps.drop_last());
    if j == ps.len() - 1 {
        assert(filesystem_partitions(ps).last() == ps[j]);
    } else {
        law_filesystem_partitions_complete(ps.drop_last(), j);
        let k = choose|k: int| 0 <= k < rest.len() && rest[k] == ps[j];
        if is_filesystem_type_name(ps.last().partition_type) {
            assert(filesystem_partitions(ps)[k] == ps[j]);
        }
    }
}

} // verus!
