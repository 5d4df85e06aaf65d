//! Verified core of a USB-stick recovery tool: partition tables, boot
//! sectors and FAT32 structures decoded from a disk image held in memory.

pub mod bytes;
pub mod sector;
pub mod text;
pub mod partition;
pub mod filesystem;
pub mod scanner;
pub mod device;
pub mod report;
