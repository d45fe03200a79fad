//! The extended BIOS parameter block: the fixed 512-byte record at the
//! start of a FAT32 partition that describes its geometry.

use vstd::prelude::*;

use crate::bytes::{copy_bytes, read_le16, read_le32, spec_le16, spec_le32};
use crate::device::BlockDevice;
use crate::error::Error;

verus! {

/// Whether a BIOS parameter block sector carries the `0x55 0xAA`
/// trailing signature.
pub open spec fn spec_bpb_signature_ok(b: Seq<u8>) -> bool {
    b[510] == 0x55 && b[511] == 0xAA
}

/// The FAT32 extended BIOS parameter block, decoded field by field from
/// its fixed little-endian layout.
#[derive(Debug)]
pub struct BiosParameterBlock {
    pub jump_boot: Vec<u8>,
    pub oem_identifier: Vec<u8>,
    /// The logical sector size in bytes.
    pub bytes_per_sector: u16,
    pub sectors_per_cluster: u8,
    /// Logical sectors before the first FAT.
    pub reserved_sectors: u16,
    pub number_of_fats: u8,
    /// Always 0 for FAT32, which stores directories in the data region.
    pub max_root_entries: u16,
    /// 0 for FAT32; the 32-bit field at offset 32 is used instead.
    pub total_sectors_16: u16,
    pub media: u8,
    /// 0 for FAT32; the 32-bit field at offset 36 is used instead.
    pub sectors_per_fat_16: u16,
    pub sectors_per_track: u16,
    pub number_of_heads: u16,
    pub hidden_sectors: u32,
    pub total_sectors_32: u32,
    pub sectors_per_fat_32: u32,
    pub ext_flags: u16,
    pub fat_version: Vec<u8>,
    /// The cluster number of the root directory, conventionally 2 but
    /// read from disk, never assumed.
    pub root_dir_cluster: u32,
    pub fsinfo_sector: u16,
    pub backup_boot_sector: u16,
    pub reserved: Vec<u8>,
    pub drive_number: u8,
    pub reserved1: u8,
    pub ext_boot_signature: u8,
    pub volume_id: u32,
    pub volume_label: Vec<u8>,
    pub fs_type: Vec<u8>,
    pub boot_code: Vec<u8>,
    pub boot_sector_signature: Vec<u8>,
}

impl BiosParameterBlock {
    /// How a parsed block relates to the 512-byte sector it came from.
    pub open spec fn parsed_from(&self, b: Seq<u8>) -> bool {
        &&& self.jump_boot@ == b.subrange(0, 3)
        &&& self.oem_identifier@ == b.subrange(3, 11)
        &&& self.bytes_per_sector == spec_le16(b, 11)
        &&& self.sectors_per_cluster == b[13]
        &&& self.reserved_sectors == spec_le16(b, 14)
        &&& self.number_of_fats == b[16]
        &&& self.max_root_entries == spec_le16(b, 17)
        &&& self.total_sectors_16 == spec_le16(b, 19)
        &&& self.media == b[21]
        &&& self.sectors_per_fat_16 == spec_le16(b, 22)
        &&& self.sectors_per_track == spec_le16(b, 24)
        &&& self.number_of_heads == spec_le16(b, 26)
        &&& self.hidden_sectors == spec_le32(b, 28)
        &&& self.total_sectors_32 == spec_le32(b, 32)
        &&& self.sectors_per_fat_32 == spec_le32(b, 36)
        &&& self.ext_flags == spec_le16(b, 40)
        &&& self.fat_version@ == b.subrange(42, 44)
        &&& self.root_dir_cluster == spec_le32(b, 44)
        &&& self.fsinfo_sector == spec_le16(b, 48)
        &&& self.backup_boot_sector == spec_le16(b, 50)
        &&& self.reserved@ == b.subrange(52, 64)
        &&& self.drive_number == b[64]
        &&& self.reserved1 == b[65]
        &&& self.ext_boot_signature == b[66]
        &&& self.volume_id == spec_le32(b, 67)
        &&& self.volume_label@ == b.subrange(71, 82)
        &&& self.fs_type@ == b.subrange(82, 90)
        &&& self.boot_code@ == b.subrange(90, 510)
        &&& self.boot_sector_signature@ == b.subrange(510, 512)
    }

    /// Reads and parses the extended BIOS parameter block from physical
    /// sector `sector` of `device`. Fails with `BadSignature` if the
    /// trailing signature is not `0x55 0xAA`, and with `Io` if the
    /// device read fails.
    pub fn from<T: BlockDevice>(device: &mut T, sector: u64) -> (r: Result<
        BiosParameterBlock,
        Error,
    >)
        requires
            old(device).wf(),
            old(device).spec_sector_size() >= 512,
        ensures
            final(device).wf(),
            final(device).spec_sectors() == old(device).spec_sectors(),
            final(device).spec_sector_size() == old(device).spec_sector_size(),
            match r {
                Ok(bpb) => {
                    let b = old(device).spec_sectors()[sector as int];
                    &&& spec_bpb_signature_ok(b)
                    &&& bpb.parsed_from(b)
                },
                Err(e) => {
                    let b = old(device).spec_sectors()[sector as int];
                    ||| e is Io
                    ||| (e is BadSignature && !spec_bpb_signature_ok(b))
                },
            },
    {
        let mut buf: Vec<u8> = Vec::new();
        match device.read_all_sector(sector, &mut buf) {
            Ok(u) => {},
            Err(e) => {
                return Err(e);
            },
        }
        if buf[510] != 0x55 || buf[511] != 0xAA {
            return Err(Error::BadSignature);
        }
        Ok(
            BiosParameterBlock {
                jump_boot: copy_bytes(&buf, 0, 3),
                oem_identifier: copy_bytes(&buf, 3, 8),
                bytes_per_sector: read_le16(&buf, 11),
                sectors_per_cluster: buf[13],
                reserved_sectors: read_le16(&buf, 14),
                number_of_fats: buf[16],
                max_root_entries: read_le16(&buf, 17),
                total_sectors_16: read_le16(&buf, 19),
                media: buf[21],
                sectors_per_fat_16: read_le16(&buf, 22),
                sectors_per_track: read_le16(&buf, 24),
                number_of_heads: read_le16(&buf, 26),
                hidden_sectors: read_le32(&buf, 28),
                total_sectors_32: read_le32(&buf, 32),
                sectors_per_fat_32: read_le32(&buf, 36),
                ext_flags: read_le16(&buf, 40),
                fat_version: copy_bytes(&buf, 42, 2),
                root_dir_cluster: read_le32(&buf, 44),
                fsinfo_sector: read_le16(&buf, 48),
                backup_boot_sector: read_le16(&buf, 50),
                reserved: copy_bytes(&buf, 52, 12),
                drive_number: buf[64],
                reserved1: buf[65],
                ext_boot_signature: buf[66],
                volume_id: read_le32(&buf, 67),
                volume_label: copy_bytes(&buf, 71, 11),
                fs_type: copy_bytes(&buf, 82, 8),
                boot_code: copy_bytes(&buf, 90, 420),
                boot_sector_signature: copy_bytes(&buf, 510, 2),
            },
        )
    }
}

} // verus!
