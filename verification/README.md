# stick_recovery

The core of a USB-stick recovery tool, written in Verus and verified.

`src/` is the library. A disk image is held in memory by `SectorReader`;
every read is specified over the image's bytes and leaves it unchanged.

- `sector`: sector reads, the MBR signature and partition table.
- `partition`: MBR / GPT detection and the partition list of a disk.
- `filesystem`: boot-sector recognition (FAT32, exFAT, NTFS, FAT16), FAT32
  boot parameters, directory entries (live, and deleted ones on request),
  cluster chains and file contents.
- `scanner`: scan modes, file-type guessing, the quick scan (which also
  finds deleted files), the partition summary and the sample results of the
  signature scans.
- `device`: mount points in a mount table, removable-device decisions,
  decimal parsing.
- `report`, `text`, `bytes`: sizes for listings, decimal notation, text
  decoding, little-endian integers.

Each public function states its result exactly in its `ensures`; inputs on
which the computation would overflow or divide by zero are excluded by its
`requires`, stated as the same computation coming to `Outcome::Panics`.
For the whole-image entry points, `analyze_partitions_checked`,
`quick_scan_checked` and `partition_scan_checked` take any image and answer
`ScanError::Overflow` exactly on those inputs. Proof functions named
`law_*` state properties across functions.

`app/` is the command-line program: argument parsing, reading devices and
images from disk, sysfs and `/proc/mounts`, and printing.
