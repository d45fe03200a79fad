//! The master boot record: a fixed 512-byte record holding the partition
//! table.

use vstd::prelude::*;

use crate::bytes::{copy_bytes, read_le16, read_le32, spec_le16, spec_le32};
use crate::device::BlockDevice;
use crate::error::Error;

verus! {

/// A cylinder-head-sector address as stored in a partition table slot:
/// the head byte followed by the two packed sector-and-cylinder bytes,
/// kept here as one little-endian 16-bit value.
#[derive(Copy, Clone, Debug, PartialEq, Eq, Structural)]
pub struct CHS {
    pub head: u8,
    pub sector_and_cylinder: u16,
}

/// One of the four slots of the partition table.
#[derive(Copy, Clone, Debug, PartialEq, Eq, Structural)]
pub struct PartitionEntry {
    /// `0x00` (inactive) or `0x80` (bootable); anything else marks a
    /// corrupt table.
    pub boot_indicator: u8,
    pub starting_chs: CHS,
    /// The partition type; `0x0B` and `0x0C` are the FAT32 variants.
    pub partition_type: u8,
    pub ending_chs: CHS,
    /// The first sector of the partition, as a logical block address.
    pub relative_sector: u32,
    /// How many sectors the partition spans.
    pub total_sectors: u32,
}

/// The partition table slot recorded at byte offset `off` of an MBR
/// sector.
pub open spec fn spec_partition_entry(b: Seq<u8>, off: int) -> PartitionEntry {
    PartitionEntry {
        boot_indicator: b[off],
        starting_chs: CHS { head: b[off + 1], sector_and_cylinder: spec_le16(b, off + 2) },
        partition_type: b[off + 4],
        ending_chs: CHS { head: b[off + 5], sector_and_cylinder: spec_le16(b, off + 6) },
        relative_sector: spec_le32(b, off + 8),
        total_sectors: spec_le32(b, off + 12),
    }
}

/// Whether an MBR sector carries the `0x55 0xAA` trailing signature.
pub open spec fn spec_mbr_signature_ok(b: Seq<u8>) -> bool {
    b[510] == 0x55 && b[511] == 0xAA
}

/// Whether partition slot `k` of an MBR sector carries a known boot
/// indicator.
pub open spec fn spec_boot_indicator_ok(b: Seq<u8>, k: int) -> bool {
    b[446 + 16 * k] == 0x00 || b[446 + 16 * k] == 0x80
}

/// The master boot record: 436 bytes of bootstrap code, a 10-byte disk
/// id, four partition table slots and the two-byte signature.
#[derive(Debug)]
pub struct MasterBootRecord {
    pub bootstrap: Vec<u8>,
    pub disk_id: Vec<u8>,
    pub partitions: Vec<PartitionEntry>,
    pub signature: Vec<u8>,
}

impl MasterBootRecord {
    /// How a parsed record relates to the 512-byte sector it came from.
    pub open spec fn parsed_from(&self, b: Seq<u8>) -> bool {
        &&& self.bootstrap@ == b.subrange(0, 436)
        &&& self.disk_id@ == b.subrange(436, 446)
        &&& self.partitions@.len() == 4
        &&& forall|k: int|
            0 <= k < 4 ==> #[trigger] self.partitions@[k] == spec_partition_entry(b, 446 + 16 * k)
        &&& self.signature@ == b.subrange(510, 512)
    }

    /// Reads and parses the master boot record from physical sector 0 of
    /// `device`. Fails with `BadSignature` if the trailing signature is
    /// not `0x55 0xAA`, with `UnknownBootIndicator(k)` if slot `k` is the
    /// first whose boot indicator is neither `0x00` nor `0x80`, and with
    /// `Io` if the device read fails.
    pub fn from<T: BlockDevice>(device: &mut T) -> (r: Result<MasterBootRecord, Error>)
        requires
            old(device).wf(),
            old(device).spec_sector_size() >= 512,
        ensures
            final(device).wf(),
            final(device).spec_sectors() == old(device).spec_sectors(),
            final(device).spec_sector_size() == old(device).spec_sector_size(),
            match r {
                Ok(m) => {
                    let b = old(device).spec_sectors()[0];
                    &&& spec_mbr_signature_ok(b)
                    &&& forall|k: int| 0 <= k < 4 ==> spec_boot_indicator_ok(b, k)
                    &&& m.parsed_from(b)
                },
                Err(e) => {
                    let b = old(device).spec_sectors()[0];
                    ||| e is Io
                    ||| (e is BadSignature && !spec_mbr_signature_ok(b))
                    ||| (e matches Error::UnknownBootIndicator(k) && spec_mbr_signature_ok(b) && 0
                        <= k < 4 && !spec_boot_indicator_ok(b, k as int) && forall|j: int|
                        0 <= j < k ==> spec_boot_indicator_ok(b, j))
                },
            },
    {
        let mut buf: Vec<u8> = Vec::new();
        match device.read_all_sector(0, &mut buf) {
            Ok(u) => {},
            Err(e) => {
                return Err(e);
            },
        }
        let ghost b = old(device).spec_sectors()[0];
        if buf[510] != 0x55 || buf[511] != 0xAA {
            return Err(Error::BadSignature);
        }
        let mut partitions: Vec<PartitionEntry> = Vec::new();
        let mut k: usize = 0;
        while k < 4
            invariant
                0 <= k <= 4,
                device.wf(),
                device.spec_sectors() == old(device).spec_sectors(),
                device.spec_sector_size() == old(device).spec_sector_size(),
                buf@ == b,
                b == old(device).spec_sectors()[0],
                spec_mbr_signature_ok(b),
                b.len() >= 512,
                partitions@.len() == k,
                forall|j: int| 0 <= j < k ==> spec_boot_indicator_ok(b, j),
                forall|j: int|
                    0 <= j < k ==> #[trigger] partitions@[j] == spec_partition_entry(
                        b,
                        446 + 16 * j,
                    ),
            decreases 4 - k,
        {
            let off = 446 + 16 * k;
            let boot = buf[off];
            if boot != 0x00 && boot != 0x80 {
                return Err(Error::UnknownBootIndicator(k as u8));
            }
            let entry = PartitionEntry {
                boot_indicator: boot,
                starting_chs: CHS { head: buf[off + 1], sector_and_cylinder: read_le16(
                    &buf,
                    off + 2,
                ) },
                partition_type: buf[off + 4],
                ending_chs: CHS { head: buf[off + 5], sector_and_cylinder: read_le16(
                    &buf,
                    off + 6,
                ) },
                relative_sector: read_le32(&buf, off + 8),
                total_sectors: read_le32(&buf, off + 12),
            };
            partitions.push(entry);
            k = k + 1;
        }
        Ok(
            MasterBootRecord {
                bootstrap: copy_bytes(&buf, 0, 436),
                disk_id: copy_bytes(&buf, 436, 10),
                partitions,
                signature: copy_bytes(&buf, 510, 2),
            },
        )
    }
}

} // verus!
