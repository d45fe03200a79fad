//! The FAT32 volume: cluster addressing, the file allocation table, the
//! sector cache, directory decoding and file streams.

pub mod cache;
pub mod dir;
pub mod entry;
pub mod vfat;
pub mod ebpb;
pub mod fat;
pub mod file;
pub mod metadata;
pub mod model;
pub mod path;

pub use cache::{CachedDevice, Partition};
pub use dir::{decode_entries, Dir, EntryIter, VFatLfnDirEntry, VFatRegularDirEntry, VFatUnknownDirEntry};
pub use ebpb::BiosParameterBlock;
pub use entry::Entry;
pub use fat::{Cluster, FatEntry, Status};
pub use file::{File, SeekFrom};
pub use metadata::{Attributes, Date, Metadata, Time, Timestamp};
pub use vfat::VFat;
