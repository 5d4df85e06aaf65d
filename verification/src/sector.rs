//! Sector-level access to a disk image and the MBR partition table.

use vstd::prelude::*;
use crate::bytes::{le32, read_le_u32, copy_range};

verus! {

/// Bytes per sector on every device this library reads.
pub const SECTOR_SIZE: u64 = 512;

/// Why a read from a disk image failed.
#[derive(Debug, Clone, Copy, PartialEq, Eq, Structural)]
pub enum ReadError {
    /// The byte offset cannot be sought to (it exceeds `i64::MAX`).
    Seek,
    /// The image ends before the requested bytes.
    Read,
}

/// What a computation over a disk image comes to: a value, a read error,
/// or an arithmetic fault (overflow or division by zero) on the way.
pub enum Outcome<T> {
    Done(T),
    Failed(ReadError),
    Panics,
}

/// A `Result` of a read, seen as an outcome.
pub open spec fn lift<T>(r: Result<T, ReadError>) -> Outcome<T> {
    match r {
        Ok(v) => Outcome::Done(v),
        Err(e) => Outcome::Failed(e),
    }
}

/// The bytes inside a read result.
pub open spec fn bytes_result(r: Result<Vec<u8>, ReadError>) -> Result<Seq<u8>, ReadError> {
    match r {
        Ok(v) => Ok(v@),
        Err(e) => Err(e),
    }
}

/// Reading `size` bytes at byte `offset` of `image`: seeking past `i64::MAX`
/// fails, an empty read succeeds, and a read that runs past the end fails.
pub open spec fn spec_read_at(image: Seq<u8>, offset: int, size: int) -> Result<Seq<u8>, ReadError> {
    if offset > i64::MAX {
        Err(ReadError::Seek)
    } else if size == 0 {
        Ok(Seq::<u8>::empty())
    } else if offset + size > image.len() {
        Err(ReadError::Read)
    } else {
        Ok(image.subrange(offset, offset + size))
    }
}

/// Reading sector `sector`; the byte offset must fit in a `u64`.
pub open spec fn sector_outcome(image: Seq<u8>, sector: int) -> Outcome<Seq<u8>> {
    if sector * 512 > u64::MAX {
        Outcome::Panics
    } else {
        lift(spec_read_at(image, sector * 512, 512))
    }
}

/// The state of a reader: the image's bytes, the size the device reports
/// and the sequential position.
pub struct ReaderView {
    pub image: Seq<u8>,
    pub device_size: u64,
    pub current_sector: u64,
}

/// Sector reader over a disk image held in memory.
pub struct SectorReader {
    data: Vec<u8>,
    device_size: u64,
    sector_size: u64,
    current_sector: u64,
}

impl View for SectorReader {
    type V = ReaderView;

    closed spec fn view(&self) -> ReaderView {
        ReaderView {
            image: self.data@,
            device_size: self.device_size,
            current_sector: self.current_sector,
        }
    }
}

impl SectorReader {
    #[verifier::type_invariant]
    spec fn well_formed(self) -> bool {
        self.sector_size == SECTOR_SIZE
    }

    /// A reader over the given image of a device that reports
    /// `device_size` bytes, positioned at sector 0.
    pub fn from_image(image: Vec<u8>, device_size: u64) -> (r: Self)
        ensures
            r@.image == image@,
            r@.device_size == device_size,
            r@.current_sector == 0,
    {
        SectorReader { data: image, device_size, sector_size: SECTOR_SIZE, current_sector: 0 }
    }

    /// Size of the device in bytes, as it reports it.
    pub fn device_size(&self) -> (r: u64)
        ensures
            r == self@.device_size,
    {
        proof {
            use_type_invariant(self);
        }
        self.device_size
    }

    /// Sector size in bytes (always 512).
    pub fn sector_size(&self) -> (r: u64)
        ensures
            r == SECTOR_SIZE,
    {
        proof {
            use_type_invariant(self);
        }
        self.sector_size
    }

    /// Number of whole sectors of the device.
    pub fn total_sectors(&self) -> (r: u64)
        ensures
            r == self@.device_size / 512,
    {
        proof {
            use_type_invariant(self);
        }
        self.device_size / self.sector_size
    }

    /// Reads `size` bytes at byte `offset`.
    pub fn read_at(&mut self, offset: u64, size: usize) -> (r: Result<Vec<u8>, ReadError>)
        ensures
            *final(self) == *old(self),
            bytes_result(r) == spec_read_at(old(self)@.image, offset as int, size as int),
    {
        proof {
            use_type_invariant(&*self);
        }
        if offset > 0x7fff_ffff_ffff_ffffu64 {
            return Err(ReadError::Seek);
        }
        if size == 0 {
            return Ok(Vec::new());
        }
        let len = self.data.len();
        if offset > len as u64 {
            return Err(ReadError::Read);
        }
        let start = offset as usize;
        if size > len - start {
            return Err(ReadError::Read);
        }
        Ok(copy_range(self.data.as_slice(), start, size))
    }

    /// Reads sector number `sector`.
    pub fn read_sector(&mut self, sector: u64) -> (r: Result<Vec<u8>, ReadError>)
        requires
            sector * 512 <= u64::MAX,
        ensures
            *final(self) == *old(self),
            lift(bytes_result(r)) == sector_outcome(old(self)@.image, sector as int),
    {
        proof {
            use_type_invariant(&*self);
        }
        let offset = sector * self.sector_size;
        let size = self.sector_size as usize;
        self.read_at(offset, size)
    }

    /// Reads `count` consecutive sectors starting at `start_sector`.
    pub fn read_sectors(&mut self, start_sector: u64, count: u64) -> (r: Result<Vec<u8>, ReadError>)
        requires
            start_sector * 512 <= u64::MAX,
            count * 512 <= u64::MAX,
        ensures
            *final(self) == *old(self),
            bytes_result(r) == spec_read_at(
                old(self)@.image,
                start_sector * 512,
                ((count * 512) as u64) as usize as int,
            ),
    {
        proof {
            use_type_invariant(&*self);
        }
        let offset = start_sector * self.sector_size;
        let size = (count * self.sector_size) as usize;
        self.read_at(offset, size)
    }

    /// Moves the sequential position to `sector`; fails, leaving the
    /// position unchanged, when the byte offset cannot be sought to.
    pub fn seek_to_sector(&mut self, sector: u64) -> (r: Result<(), ReadError>)
        requires
            sector * 512 <= u64::MAX,
        ensures
            final(self)@.image == old(self)@.image,
            final(self)@.device_size == old(self)@.device_size,
            sector * 512 > i64::MAX ==> r == Err::<(), ReadError>(ReadError::Seek)
                && final(self)@.current_sector == old(self)@.current_sector,
            sector * 512 <= i64::MAX ==> r == Ok::<(), ReadError>(())
                && final(self)@.current_sector == sector,
    {
        proof {
            use_type_invariant(&*self);
        }
        let offset = sector * self.sector_size;
        if offset > 0x7fff_ffff_ffff_ffffu64 {
            return Err(ReadError::Seek);
        }
        self.current_sector = sector;
        Ok(())
    }

    /// Reads the sector at the sequential position and advances past it;
    /// on failure the position is unchanged.
    pub fn read_next_sector(&mut self) -> (r: Result<Vec<u8>, ReadError>)
        requires
            old(self)@.current_sector * 512 <= u64::MAX,
        ensures
            final(self)@.image == old(self)@.image,
            final(self)@.device_size == old(self)@.device_size,
            lift(bytes_result(r)) == sector_outcome(old(self)@.image, old(self)@.current_sector as int),
            r is Ok ==> final(self)@.current_sector == old(self)@.current_sector + 1,
            r is Err ==> final(self)@.current_sector == old(self)@.current_sector,
    {
        let sector = self.read_sector(self.current_sector);
        proof {
            use_type_invariant(&*self);
        }
        match sector {
            Ok(s) => {
                self.current_sector = self.current_sector + 1;
                Ok(s)
            },
            Err(e) => Err(e),
        }
    }

    /// The sequential position.
    pub fn current_sector(&self) -> (r: u64)
        ensures
            r == self@.current_sector,
    {
        self.current_sector
    }

    /// Whether the sequential position is at or past the last whole sector.
    pub fn is_end(&self) -> (r: bool)
        ensures
            r == (self@.current_sector >= self@.device_size / 512),
    {
        self.current_sector >= self.total_sectors()
    }

    /// Reads `count` sectors from `start_sector` in chunks of at most 1 MiB,
    /// telling `progress_callback` after each chunk how many sectors are read
    /// out of `count`.
    pub fn read_with_progress<F: Fn(u64, u64)>(
        &mut self,
        start_sector: u64,
        count: u64,
        progress_callback: F,
    ) -> (r: Result<Vec<u8>, ReadError>)
        requires
            start_sector * 512 <= u64::MAX,
            count * 512 <= u64::MAX,
            forall|a: u64, b: u64| progress_callback.requires((a, b)),
        ensures
            *final(self) == *old(self),
            bytes_result(r) == spec_read_at(
                old(self)@.image,
                start_sector * 512,
                ((count * 512) as u64) as usize as int,
            ),
    {
        proof {
            use_type_invariant(&*self);
        }
        let offset = start_sector * self.sector_size;
        let size = (count * self.sector_size) as usize;
        if offset > 0x7fff_ffff_ffff_ffffu64 {
            return Err(ReadError::Seek);
        }
        if size == 0 {
            return Ok(Vec::new());
        }
        let len = self.data.len();
        if offset > len as u64 {
            return Err(ReadError::Read);
        }
        let total_sectors = count;
        let mut sectors_read: u64 = 0;
        let chunk_size: usize = 1024 * 1024;
        let mut bytes_read: usize = 0;
        let mut buffer: Vec<u8> = Vec::new();
        while bytes_read < size
            invariant
                self.data@.len() == len,
                *self == *old(self),
                chunk_size == 1024 * 1024,
                offset == start_sector * 512,
                size == ((count * 512) as u64) as usize,
                offset <= i64::MAX,
                bytes_read <= size,
                offset + bytes_read <= len,
                buffer@ == self.data@.subrange(offset as int, offset + bytes_read),
                sectors_read <= bytes_read / 512,
                forall|a: u64, b: u64| progress_callback.requires((a, b)),
            decreases size - bytes_read,
        {
            let bytes_to_read = if chunk_size < size - bytes_read {
                chunk_size
            } else {
                size - bytes_read
            };
            let start = offset as usize + bytes_read;
            if bytes_to_read > len - start {
                return Err(ReadError::Read);
            }
            let chunk = copy_range(self.data.as_slice(), start, bytes_to_read);
            let ghost prev = buffer@;
            buffer.extend_from_slice(chunk.as_slice());
            assert(buffer@ =~= prev + chunk@) by {
                assert forall|i: int| 0 <= i < buffer@.len() implies buffer@[i] == (prev + chunk@)[i] by {
                }
            }
            bytes_read = bytes_read + bytes_to_read;
            let sectors_in_chunk = (bytes_to_read / 512) as u64;
            sectors_read = sectors_read + sectors_in_chunk;
            progress_callback(sectors_read, total_sectors);
        }
        Ok(buffer)
    }
}

/// Reads sector 0, where the Master Boot Record lives.
pub fn read_mbr(reader: &mut SectorReader) -> (r: Result<Vec<u8>, ReadError>)
    ensures
        *final(reader) == *old(reader),
        lift(bytes_result(r)) == sector_outcome(old(reader)@.image, 0),
{
    reader.read_sector(0)
}

/// A boot sector or MBR is valid when it holds at least 512 bytes and ends
/// with the signature 0x55 0xAA at offsets 510 and 511.
pub open spec fn spec_has_valid_mbr(mbr: Seq<u8>) -> bool {
    mbr.len() >= 512 && mbr[510] == 0x55 && mbr[511] == 0xAA
}

/// Whether the sector carries the 0x55 0xAA boot signature.
pub fn has_valid_mbr(mbr: &[u8]) -> (r: bool)
    ensures
        r == spec_has_valid_mbr(mbr@),
{
    if mbr.len() < 512 {
        return false;
    }
    mbr[510] == 0x55 && mbr[511] == 0xAA
}

/// One 16-byte entry of the MBR partition table.
#[derive(Debug, Clone)]
pub struct PartitionEntry {
    pub boot_indicator: u8,
    pub starting_chs: [u8; 3],
    pub partition_type: u8,
    pub ending_chs: [u8; 3],
    pub starting_lba: u32,
    pub total_sectors: u32,
}

/// `e` is the entry encoded by the 16 bytes `b`.
pub open spec fn entry_decodes(e: PartitionEntry, b: Seq<u8>) -> bool {
    &&& b.len() >= 16
    &&& e.boot_indicator == b[0]
    &&& e.starting_chs@ == seq![b[1], b[2], b[3]]
    &&& e.partition_type == b[4]
    &&& e.ending_chs@ == seq![b[5], b[6], b[7]]
    &&& e.starting_lba == le32(b, 8)
    &&& e.total_sectors == le32(b, 12)
}

impl PartitionEntry {
    /// Decodes an entry from its first 16 bytes.
    pub fn from_bytes(bytes: &[u8]) -> (r: Self)
        requires
            bytes@.len() >= 16,
        ensures
            entry_decodes(r, bytes@),
    {
        let starting_chs: [u8; 3] = [bytes[1], bytes[2], bytes[3]];
        let ending_chs: [u8; 3] = [bytes[5], bytes[6], bytes[7]];
        PartitionEntry {
            boot_indicator: bytes[0],
            starting_chs,
            partition_type: bytes[4],
            ending_chs,
            starting_lba: read_le_u32(bytes, 8),
            total_sectors: read_le_u32(bytes, 12),
        }
    }

    /// An entry is in use when its partition type is not 0x00.
    pub fn is_valid(&self) -> (r: bool)
        ensures
            r == (self.partition_type != 0),
    {
        self.partition_type != 0x00
    }

    /// First sector of the partition.
    pub fn start_sector(&self) -> (r: u64)
        ensures
            r == self.starting_lba,
    {
        self.starting_lba as u64
    }

    /// Last sector of the partition: start plus length minus one.
    pub fn end_sector(&self) -> (r: u64)
        requires
            self.starting_lba + self.total_sectors >= 1,
        ensures
            r == self.starting_lba + self.total_sectors - 1,
    {
        self.starting_lba as u64 + self.total_sectors as u64 - 1
    }

    /// Size of the partition in bytes.
    pub fn size_bytes(&self) -> (r: u64)
        ensures
            r == self.total_sectors * 512,
    {
        self.total_sectors as u64 * 512
    }
}

/// The byte offset of slot `k` (0 to 3) of the MBR partition table.
pub open spec fn slot_offset(k: int) -> int {
    446 + 16 * k
}

/// The raw 16-byte slots among the first `k` of the table that lie inside
/// `mbr` and hold a partition type other than 0x00, in slot order.
pub open spec fn table_slots(mbr: Seq<u8>, k: nat) -> Seq<Seq<u8>>
    decreases k,
{
    if k == 0 {
        Seq::empty()
    } else {
        let prev = table_slots(mbr, (k - 1) as nat);
        let off = slot_offset(k - 1);
        if off + 16 <= mbr.len() && mbr[off + 4] != 0 {
            prev.push(mbr.subrange(off, off + 16))
        } else {
            prev
        }
    }
}

/// The in-use slots of the four-entry MBR partition table.
pub open spec fn partition_table_slots(mbr: Seq<u8>) -> Seq<Seq<u8>> {
    table_slots(mbr, 4)
}

/// Decodes the in-use entries of the MBR partition table.
pub fn extract_partition_table(mbr: &[u8]) -> (r: Vec<PartitionEntry>)
    ensures
        r@.len() == partition_table_slots(mbr@).len(),
        forall|i: int| 0 <= i < r@.len() ==> entry_decodes(#[trigger] r@[i], partition_table_slots(mbr@)[i]),
{
    let mut partitions: Vec<PartitionEntry> = Vec::new();
    let n = mbr.len();
    let mut i: usize = 0;
    while i < 4
        invariant
            n == mbr@.len(),
            i <= 4,
            partitions@.len() == table_slots(mbr@, i as nat).len(),
            forall|j: int| 0 <= j < partitions@.len() ==> entry_decodes(#[trigger] partitions@[j], table_slots(mbr@, i as nat)[j]),
        decreases 4 - i,
    {
        let offset = 446 + (i * 16);
        if offset + 16 <= n {
            let slot = &mbr[offset..offset + 16];
            let entry = PartitionEntry::from_bytes(slot);
            if entry.is_valid() {
                partitions.push(entry);
            }
        }
        i = i + 1;
    }
    partitions
}

/// The name of an MBR partition type byte.
pub open spec fn partition_type_name(t: u8) -> Seq<char> {
    if t == 0x00 { "Empty"@ }
    else if t == 0x01 { "FAT12"@ }
    else if t == 0x04 { "FAT16 < 32M"@ }
    else if t == 0x05 { "Extended"@ }
    else if t == 0x06 { "FAT16B"@ }
    else if t == 0x07 { "NTFS/exFAT"@ }
    else if t == 0x0b { "FAT32"@ }
    else if t == 0x0c { "FAT32 LBA"@ }
    else if t == 0x0e { "FAT16 LBA"@ }
    else if t == 0x0f { "Extended LBA"@ }
    else if t == 0x82 { "Linux Swap"@ }
    else if t == 0x83 { "Linux"@ }
    else if t == 0x85 { "Linux Extended"@ }
    else if t == 0xee { "GPT Protective"@ }
    else if t == 0xef { "EFI System"@ }
    else { "Unknown"@ }
}

/// Human-readable name of an MBR partition type.
pub fn partition_type_to_string(partition_type: u8) -> (r: &'static str)
    ensures
        r@ == partition_type_name(partition_type),
{
    match partition_type {
        0x00 => "Empty",
        0x01 => "FAT12",
        0x04 => "FAT16 < 32M",
        0x05 => "Extended",
        0x06 => "FAT16B",
        0x07 => "NTFS/exFAT",
        0x0b => "FAT32",
        0x0c => "FAT32 LBA",
        0x0e => "FAT16 LBA",
        0x0f => "Extended LBA",
        0x82 => "Linux Swap",
        0x83 => "Linux",
        0x85 => "Linux Extended",
        0xee => "GPT Protective",
        0xef => "EFI System",
        _ => "Unknown",
    }
}

// ----- laws -----

/// Splitting a read: when `a + b` bytes can be read at `offset`, reading
/// the first `a` bytes and then the next `b` bytes gives the same bytes.
pub proof fn law_read_split(image: Seq<u8>, offset: int, a: int, b: int)
    requires
        0 <= offset,
        0 <= a,
        0 <= b,
        offset + a <= i64::MAX,
        spec_read_at(image, offset, a + b) is Ok,
    ensures
        spec_read_at(image, offset, a) is Ok,
        spec_read_at(image, offset + a, b) is Ok,
        spec_read_at(image, offset, a + b)->Ok_0 == spec_read_at(image, offset, a)->Ok_0
            + spec_read_at(image, offset + a, b)->Ok_0,
{
    if a + b > 0 {
        assert(image.subrange(offset, offset + a + b) =~= image.subrange(offset, offset + a)
            + image.subrange(offset + a, offset + a + b));
    }
}

/// A sector read gives exactly 512 bytes, the image's bytes at 512 times
/// the sector number.
pub proof fn law_sector_contents(image: Seq<u8>, sector: int)
    requires
        0 <= sector,
        sector_outcome(image, sector) is Done,
    ensures
        sector_outcome(image, sector)->Done_0 == image.subrange(sector * 512, sector * 512 + 512),
        sector_outcome(image, sector)->Done_0.len() == 512,
{
}

/// The MBR partition table has at most four entries, all in use, each
/// taken from its 16-byte slot at offset 446.
pub proof fn law_partition_table(mbr: Seq<u8>)
    ensures
        partition_table_slots(mbr).len() <= 4,
        forall|i: int|
            0 <= i < partition_table_slots(mbr).len() ==> (#[trigger] partition_table_slots(mbr)[i]).len()
                == 16 && partition_table_slots(mbr)[i][4] != 0,
{
    lemma_table_slots(mbr, 4);
}

proof fn lemma_table_slots(mbr: Seq<u8>, k: nat)
    ensures
        table_slots(mbr, k).len() <= k,
        forall|i: int|
            0 <= i < table_slots(mbr, k).len() ==> (#[trigger] table_slots(mbr, k)[i]).len() == 16
                && table_slots(mbr, k)[i][4] != 0,
    decreases k,
{
    if k > 0 {
        lemma_table_slots(mbr, (k - 1) as nat);
    }
}

} // verus!
