//! A read-only FAT32 filesystem driver over an abstract sector-addressable
//! block device.
//!
//! The driver locates a FAT32 partition in a master boot record, parses the
//! extended BIOS parameter block, caches whole logical sectors in memory,
//! walks the file allocation table to resolve cluster chains, decodes
//! directory entries (including long-filename reconstruction) and exposes
//! file streams with positioned read and seek.
//!
//! A few small companions live alongside the driver: power-of-two
//! address alignment, byte-string buffers for path handling, decoded
//! ARM boot tags, and the data types of the SD memory-card protocol.

pub mod align;
pub mod atag;
pub mod bytes;
pub mod bytestr;
pub mod device;
pub mod error;
pub mod mbr;
pub mod sd;
pub mod text;
pub mod vfat;

pub use device::{BlockDevice, RamDisk};
pub use error::Error;
