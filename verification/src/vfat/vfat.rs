//! The mounted FAT32 volume: geometry, FAT access, cluster reads and
//! chain reads.

use vstd::arithmetic::div_mod::{
    lemma_fundamental_div_mod, lemma_fundamental_div_mod_converse, lemma_mod_bound, lemma_mod_mod,
    lemma_mod_multiples_basic,
};
use vstd::prelude::*;

use crate::bytes::{copy_bytes, read_le32, spec_le16, spec_le32};
use crate::device::BlockDevice;
use crate::error::Error;
use crate::mbr::{
    spec_boot_indicator_ok, spec_mbr_signature_ok, spec_partition_entry, MasterBootRecord,
    PartitionEntry,
};
use crate::vfat::cache::{CachedDevice, Partition};
use crate::vfat::ebpb::{spec_bpb_signature_ok, BiosParameterBlock};
use crate::vfat::fat::{Cluster, FatEntry, Status};
use crate::vfat::model::{
    chain_cap, chain_content, chain_defect, is_chain, is_data_path, lemma_chain_content_snoc,
    lemma_walk_in_path, walk_bad, walk_data, walk_reserved, DiskModel, FsModel,
};

verus! {

/// Whether partition table slot `k` of an MBR sector names one of the
/// two FAT32 partition types, `0x0B` or `0x0C`.
pub open spec fn spec_slot_is_fat32(b: Seq<u8>, k: int) -> bool {
    b[446 + 16 * k + 4] == 0x0B || b[446 + 16 * k + 4] == 0x0C
}

/// The first partition table slot holding a FAT32 partition, or 4 if
/// none of the four slots does.
pub open spec fn spec_first_fat32_slot(b: Seq<u8>) -> int {
    if spec_slot_is_fat32(b, 0) {
        0
    } else if spec_slot_is_fat32(b, 1) {
        1
    } else if spec_slot_is_fat32(b, 2) {
        2
    } else if spec_slot_is_fat32(b, 3) {
        3
    } else {
        4
    }
}

/// The master boot record parsed whole: a valid signature and known
/// boot indicators in all four slots.
pub open spec fn spec_mbr_parse_ok(b: Seq<u8>) -> bool {
    &&& spec_mbr_signature_ok(b)
    &&& forall|j: int| 0 <= j < 4 ==> spec_boot_indicator_ok(b, j)
}

/// The geometry checks a mount performs on the BIOS parameter block
/// sector `bb`, against the chosen partition slot `pe` and the
/// device's sector size: a logical sector size at least the device's,
/// a multiple of it and of 32, a non-zero cluster size, a root cluster
/// in the data range, the partition size agreeing between the two
/// records, and a volume no larger than its FAT can describe.
pub open spec fn spec_geometry_ok(bb: Seq<u8>, pe: PartitionEntry, dev_ss: int) -> bool {
    let lss = spec_le16(bb, 11) as int;
    let spc = bb[13] as int;
    let total = spec_le32(bb, 32) as int;
    let spf = spec_le32(bb, 36) as int;
    &&& dev_ss <= lss
    &&& lss % dev_ss == 0
    &&& lss % 32 == 0
    &&& spc != 0
    &&& spec_le32(bb, 44) >= 2
    &&& pe.total_sectors as int == lss * total / dev_ss
    &&& total <= spec_le16(bb, 14) + (bb[16] as int) * spf + spc * (lss * spf / 4)
}

/// A mounted FAT32 volume over a cached block device.
pub struct VFat<T: BlockDevice> {
    device: CachedDevice<T>,
    bytes_per_sector: u16,
    sectors_per_cluster: u8,
    sectors_per_fat: u32,
    fat_start_sector: u64,
    data_start_sector: u64,
    root_dir_cluster: Cluster,
}

impl<T: BlockDevice> VFat<T> {
    /// The mathematical model of this volume: the device bytes plus the
    /// geometry fixed at mount time.
    pub closed spec fn model(&self) -> FsModel {
        FsModel {
            disk: self.device.disk_model(),
            spc: self.sectors_per_cluster as int,
            fat_start: self.fat_start_sector as int,
            data_start: self.data_start_sector as int,
            root: self.root_dir_cluster.0 as int,
        }
    }

    /// The volume invariant: the cache is consistent with the device and
    /// the geometry obeys the mount-time bounds.
    pub closed spec fn wf(&self) -> bool {
        &&& self.device.wf()
        &&& self.device.disk_model() == self.model().disk
        &&& self.model().wf()
        &&& self.bytes_per_sector as int == self.model().disk.lss
    }

    /// A well-formed volume has a well-formed model.
    pub proof fn lemma_model_wf(&self)
        requires
            self.wf(),
        ensures
            self.model().wf(),
    {
    }

    /// The root directory's cluster number.
    pub fn root_cluster(&self) -> (r: Cluster)
        requires
            self.wf(),
        ensures
            r.0 as int == self.model().root,
    {
        self.root_dir_cluster
    }

    /// The size of one cluster in bytes.
    pub fn cluster_size(&self) -> (r: usize)
        requires
            self.wf(),
        ensures
            r as int == self.model().cluster_size(),
            512 <= r <= 0xFFFFFF,
    {
        proof {
            let spc = self.sectors_per_cluster as int;
            let lss = self.bytes_per_sector as int;
            assert(512 <= spc * lss <= 0xFFFFFF) by (nonlinear_arith)
                requires
                    1 <= spc <= 0xFF,
                    512 <= lss <= 0xFFFF,
            ;
        }
        (self.sectors_per_cluster as usize) * (self.bytes_per_sector as usize)
    }

    /// Fetches the FAT entry recorded for `cluster`: four little-endian
    /// bytes at byte offset `cluster * 4` of the FAT region, read
    /// through the sector cache.
    pub fn fat_entry(&mut self, cluster: Cluster) -> (r: Result<FatEntry, Error>)
        requires
            old(self).wf(),
        ensures
            final(self).wf(),
            final(self).model() == old(self).model(),
            match r {
                Ok(fe) => fe.0 == old(self).model().fat_raw(cluster.0 as int),
                Err(e) => e is Io,
            },
    {
        let c = cluster.inner() as u64;
        let lss = self.bytes_per_sector as u64;
        let sector_offset = (c * 4) / lss;
        let byte_offset = ((c * 4) % lss) as usize;
        proof {
            let ci = c as int;
            let ls = lss as int;
            lemma_mod_bound(ci * 4, ls);
            lemma_fundamental_div_mod(ci * 4, ls);
            assert(ci * 4 / ls <= ci * 4) by (nonlinear_arith)
                requires
                    ls >= 1,
                    ci >= 0,
            ;
            assert(ls % 4 == 0) by {
                lemma_mod_mod(ls, 4, 8);
                assert(4 * 8 == 32);
                assert(ls % 32 == 0);
                assert((ls % 32) % 4 == 0);
            }
            assert((ci * 4) % ls % 4 == 0) by {
                lemma_fundamental_div_mod(ls, 4);
                assert(4 * (ls / 4) == ls);
                lemma_mod_mod(ci * 4, 4, ls / 4);
                lemma_mod_multiples_basic(ci, 4);
                assert(ci * 4 == 4 * ci) by (nonlinear_arith);
            }
            assert((ci * 4) % ls + 4 <= ls) by (nonlinear_arith)
                requires
                    (ci * 4) % ls < ls,
                    (ci * 4) % ls % 4 == 0,
                    ls % 4 == 0,
                    (ci * 4) % ls >= 0,
                    ls >= 4,
            ;
        }
        let sector = self.fat_start_sector + sector_offset;
        let v = match self.device.get(sector) {
            Ok(v) => v,
            Err(e) => {
                return Err(e);
            },
        };
        proof {
            crate::vfat::model::lemma_logical_len(self.model().disk, sector as int);
        }
        let fe = read_le32(&v, byte_offset);
        Ok(FatEntry(fe))
    }

    /// Reads up to `limit` bytes of cluster `cluster`, starting at byte
    /// `offset` inside the cluster and never crossing the cluster's end:
    /// exactly the smaller of `limit` and what the cluster still holds
    /// past `offset`. Fails with `InvalidInput` when the cluster's FAT
    /// status is neither `Data` nor `Eoc`, and with `InvalidData` when
    /// the FAT claims data for one of the two reserved cluster numbers.
    pub fn read_cluster(&mut self, cluster: Cluster, offset: usize, limit: usize) -> (r: Result<
        Vec<u8>,
        Error,
    >)
        requires
            old(self).wf(),
            offset < old(self).model().cluster_size(),
        ensures
            final(self).wf(),
            final(self).model() == old(self).model(),
            match r {
                Ok(v) => {
                    let m = old(self).model();
                    let c = cluster.0 as int;
                    let n = if limit as int <= m.cluster_size() - offset {
                        limit as int
                    } else {
                        m.cluster_size() - offset
                    };
                    &&& (m.cluster_status(c) is Data || m.cluster_status(c) is Eoc)
                    &&& c >= 2
                    &&& v@.len() == n
                    &&& v@ == m.cluster_content(c).subrange(offset as int, offset + n)
                },
                Err(e) => {
                    let m = old(self).model();
                    let c = cluster.0 as int;
                    ||| e is Io
                    ||| (e is InvalidInput && !(m.cluster_status(c) is Data || m.cluster_status(
                        c,
                    ) is Eoc))
                    ||| (e is InvalidData && (m.cluster_status(c) is Data || m.cluster_status(c)
                        is Eoc) && c < 2)
                },
            },
    {
        let ghost m = self.model();
        let fe = match self.fat_entry(cluster) {
            Ok(fe) => fe,
            Err(e) => {
                return Err(e);
            },
        };
        let status_ok = match fe.status() {
            Status::Data(next) => true,
            Status::Eoc(raw) => true,
            _ => false,
        };
        if !status_ok {
            return Err(Error::InvalidInput);
        }
        if cluster.inner() < 2 {
            return Err(Error::InvalidData);
        }
        let ghost c = cluster.0 as int;
        let lss = self.bytes_per_sector as usize;
        let cs = self.cluster_size();
        let n = if limit <= cs - offset {
            limit
        } else {
            cs - offset
        };
        proof {
            assert(m.spc * (c - 2) >= 0 && m.spc * (c - 2) <= 0xFF * 0xFFFFFFFF)
                by (nonlinear_arith)
                requires
                    1 <= m.spc <= 0xFF,
                    2 <= c <= 0xFFFFFFFF,
            ;
        }
        let start_sector = self.data_start_sector + (self.sectors_per_cluster as u64) * (
        (cluster.inner() as u64) - 2);
        let end = offset + n;
        let mut out: Vec<u8> = Vec::new();
        let mut pos = offset;
        proof {
            crate::vfat::model::lemma_cluster_content_len(m, c);
            assert(out@ =~= m.cluster_content(c).subrange(offset as int, offset as int));
        }
        while pos < end
            invariant
                old(self).wf(),
                self.wf(),
                self.model() == m,
                m == old(self).model(),
                2 <= cluster.0,
                c == cluster.0 as int,
                offset <= pos <= end,
                end == offset + n,
                n <= limit,
                end <= cs,
                cs == m.cluster_size(),
                lss == m.disk.lss,
                lss == self.bytes_per_sector,
                start_sector == m.cluster_first_sector(c),
                m.disk.part_start <= start_sector,
                start_sector + m.spc <= 0x30000000000,
                pos == offset + out@.len(),
                out@ == m.cluster_content(c).subrange(offset as int, pos as int),
            decreases end - pos,
        {
            let i = pos / lss;
            let from = pos % lss;
            let rem = end - pos;
            let take = if lss - from <= rem {
                lss - from
            } else {
                rem
            };
            proof {
                lemma_mod_bound(pos as int, lss as int);
                lemma_fundamental_div_mod(pos as int, lss as int);
                assert((lss as int) * m.spc == m.spc * (lss as int)) by (nonlinear_arith);
                vstd::arithmetic::div_mod::lemma_multiply_divide_lt(
                    pos as int,
                    lss as int,
                    m.spc,
                );
            }
            let v = match self.device.get(start_sector + (i as u64)) {
                Ok(v) => v,
                Err(e) => {
                    return Err(e);
                },
            };
            proof {
                crate::vfat::model::lemma_logical_len(m.disk, start_sector + i);
            }
            let mut chunk = copy_bytes(&v, from, take);
            proof {
                let content = m.cluster_content(c);
                crate::vfat::model::lemma_cluster_content_len(m, c);
                assert forall|t: int| 0 <= t < take implies chunk@[t] == content[pos + t] by {
                    crate::vfat::model::lemma_concat_logical_index(
                        m,
                        m.cluster_first_sector(c),
                        m.spc,
                        pos + t,
                    );
                    assert(pos + t == (i as int) * (lss as int) + (from + t))
                        by (nonlinear_arith)
                        requires
                            pos == (lss as int) * (i as int) + from,
                    ;
                    lemma_fundamental_div_mod_converse(
                        pos + t,
                        lss as int,
                        i as int,
                        from + t,
                    );
                }
                assert(chunk@ =~= content.subrange(pos as int, pos + take));
                assert(out@ + chunk@ =~= content.subrange(offset as int, pos + take));
            }
            out.append(&mut chunk);
            pos = pos + take;
        }
        Ok(out)
    }

    /// Reads the whole cluster chain that starts at `start`: the contents
    /// of every cluster from `start` along `Data` links up to and
    /// including the cluster marked `Eoc`. Fails with `InvalidInput`
    /// exactly when the first cluster's status is neither `Data` nor
    /// `Eoc`, and with `InvalidData` only on a chain defect: a status
    /// other than `Data` or `Eoc` behind the head, a reserved cluster
    /// number chained, or no end marker within the FAT region's
    /// capacity (a cycle).
    pub fn read_chain(&mut self, start: Cluster) -> (r: Result<Vec<u8>, Error>)
        requires
            old(self).wf(),
        ensures
            final(self).wf(),
            final(self).model() == old(self).model(),
            match r {
                Ok(v) => exists|ks: Seq<int>|
                    {
                        &&& #[trigger] is_chain(old(self).model(), ks)
                        &&& ks[0] == start.0 as int
                        &&& v@ == chain_content(old(self).model(), ks)
                        &&& v@.len() == ks.len() * old(self).model().cluster_size()
                    },
                Err(e) => {
                    let m = old(self).model();
                    let h = m.cluster_status(start.0 as int);
                    ||| e is Io
                    ||| (e is InvalidInput && !(h is Data || h is Eoc))
                    ||| (e is InvalidData && chain_defect(m, start.0 as int, chain_cap(m)))
                },
            },
    {
        let ghost m = self.model();
        let cs = self.cluster_size();
        proof {
            let w = (self.data_start_sector - self.fat_start_sector) as int;
            let q = (self.bytes_per_sector as int) / 4;
            assert(0 <= w * q <= 0x20000000000 * 0x4000) by (nonlinear_arith)
                requires
                    0 <= w <= 0x20000000000,
                    0 <= q <= 0x4000,
            ;
        }
        let bound = (self.data_start_sector - self.fat_start_sector) * ((self.bytes_per_sector
            as u64) / 4) + 1;
        let ghost cap = chain_cap(m);
        let mut steps: u64 = 0;
        let mut out: Vec<u8> = Vec::new();
        let mut curr = start;
        let mut first: bool = true;
        let ghost mut done: Seq<int> = Seq::empty();
        proof {
            assert(out@ =~= chain_content(m, done));
            assert(done.push(curr.0 as int)[0] == start.0 as int);
        }
        while steps < bound
            invariant
                steps <= bound,
                old(self).wf(),
                self.wf(),
                self.model() == m,
                m == old(self).model(),
                cs as int == m.cluster_size(),
                512 <= cs,
                bound as int == cap + 1,
                cap == chain_cap(m),
                is_data_path(m, done.push(curr.0 as int)),
                done.push(curr.0 as int)[0] == start.0 as int,
                forall|j: int| 0 <= j < done.len() ==> done[j] >= 2,
                out@ == chain_content(m, done),
                out@.len() == done.len() * m.cluster_size(),
                first ==> done.len() == 0,
                !first ==> done.len() >= 1,
                steps == done.len(),
            decreases bound - steps,
        {
            let fe = match self.fat_entry(curr) {
                Ok(f) => f,
                Err(e) => {
                    return Err(e);
                },
            };
            let following = match fe.status() {
                Status::Data(next) => Some(next),
                Status::Eoc(raw) => None,
                _ => {
                    if first {
                        return Err(Error::InvalidInput);
                    } else {
                        proof {
                            let p = done.push(curr.0 as int);
                            lemma_walk_in_path(m, p, done.len() as int);
                            assert(walk_bad(m, start.0 as int, done.len()));
                        }
                        return Err(Error::InvalidData);
                    }
                },
            };
            let mut chunk = match self.read_cluster(curr, 0, cs) {
                Ok(v) => v,
                Err(e) => {
                    let ghost h = m.cluster_status(curr.0 as int);
                    proof {
                        assert(h is Data || h is Eoc);
                        assert(e is Io || e is InvalidData);
                        if e is InvalidData {
                            let p = done.push(curr.0 as int);
                            lemma_walk_in_path(m, p, done.len() as int);
                            assert(walk_reserved(m, start.0 as int, done.len()));
                        }
                    }
                    return Err(e);
                },
            };
            proof {
                crate::vfat::model::lemma_cluster_content_len(m, curr.0 as int);
                assert(chunk@ =~= m.cluster_content(curr.0 as int));
                lemma_chain_content_snoc(m, done, curr.0 as int);
                let k = done.len() as int;
                let csz = m.cluster_size();
                assert((k + 1) * csz == k * csz + csz) by (nonlinear_arith);
            }
            out.append(&mut chunk);
            let ghost prev = curr.0 as int;
            match following {
                None => {
                    proof {
                        done = done.push(prev);
                        let ks = done;
                        assert(ks.last() == prev);
                        assert(is_chain(m, ks));
                        assert(ks[0] == start.0 as int);
                        assert(out@ == chain_content(m, ks));
                        assert(out@.len() == ks.len() * m.cluster_size());
                    }
                    return Ok(out);
                },
                Some(next_cluster) => {
                    proof {
                        done = done.push(prev);
                        let p = done.push(next_cluster.0 as int);
                        assert forall|j: int| 0 <= j < p.len() - 1 implies (
                        #[trigger] m.cluster_status(p[j]) matches Status::Data(n) && n.0 == p[j
                            + 1]) by {
                            if j < done.len() - 1 {
                                let q = done;
                                assert(q[j] == p[j] && q[j + 1] == p[j + 1]);
                                assert(is_data_path(m, q));
                            } else {
                                assert(p[j] == prev && p[j + 1] == next_cluster.0 as int);
                            }
                        }
                        assert(is_data_path(m, p));
                    }
                    curr = next_cluster;
                    first = false;
                },
            }
            steps = steps + 1;
        }
        proof {
            // The cap is exhausted: every cluster within it carries a
            // `Data` link, so the chain never ends - a cycle.
            let p = done.push(curr.0 as int);
            assert forall|k: nat| k <= cap implies #[trigger] walk_data(
                m,
                start.0 as int,
                k,
            ) by {
                lemma_walk_in_path(m, p, k as int);
                assert(m.cluster_status(p[k as int]) matches Status::Data(n) && n.0 == p[k as int
                    + 1]);
            }
        }
        Err(Error::InvalidData)
    }

    /// Mounts the first FAT32 partition of `device`: reads the master
    /// boot record, selects the first partition table slot whose type is
    /// `0x0B` or `0x0C` (failing with `NotFound` if none is), parses the
    /// extended BIOS parameter block at that partition's start, checks
    /// the recorded geometry for consistency and wraps the device in a
    /// sector cache. A geometry that contradicts itself — a partition
    /// size disagreeing between the two records, a logical sector size
    /// smaller than the device's or not a multiple of it and of 32, a
    /// zero cluster size, a root cluster below 2, or a volume larger
    /// than its FAT can describe — aborts the mount with `InvalidData`.
    pub fn from(device: T) -> (r: Result<VFat<T>, Error>)
        requires
            device.wf(),
            512 <= device.spec_sector_size(),
        ensures
            match r {
                Ok(v) => {
                    let b0 = device.spec_sectors()[0];
                    let k = spec_first_fat32_slot(b0);
                    let pe = spec_partition_entry(b0, 446 + 16 * k);
                    let bb = device.spec_sectors()[pe.relative_sector as int];
                    &&& v.wf()
                    &&& spec_mbr_signature_ok(b0)
                    &&& (forall|j: int| 0 <= j < 4 ==> spec_boot_indicator_ok(b0, j))
                    &&& 0 <= k < 4
                    &&& spec_bpb_signature_ok(bb)
                    &&& v.model().disk == (DiskModel {
                        sectors: device.spec_sectors(),
                        dev_ss: device.spec_sector_size() as int,
                        part_start: pe.relative_sector as int,
                        lss: crate::bytes::spec_le16(bb, 11) as int,
                    })
                    &&& v.model().spc == bb[13] as int
                    &&& v.model().fat_start == pe.relative_sector + crate::bytes::spec_le16(
                        bb,
                        14,
                    )
                    &&& v.model().data_start == v.model().fat_start + (bb[16] as int) * (
                    crate::bytes::spec_le32(bb, 36) as int)
                    &&& v.model().root == crate::bytes::spec_le32(bb, 44) as int
                },
                Err(e) => {
                    let b0 = device.spec_sectors()[0];
                    let k = spec_first_fat32_slot(b0);
                    let pe = spec_partition_entry(b0, 446 + 16 * k);
                    let bb = device.spec_sectors()[pe.relative_sector as int];
                    ||| e is Io
                    ||| (e is BadSignature && !spec_mbr_signature_ok(b0))
                    ||| (e matches Error::UnknownBootIndicator(j) && spec_mbr_signature_ok(b0)
                        && 0 <= j < 4 && !spec_boot_indicator_ok(b0, j as int) && (forall|x: int|
                        0 <= x < j ==> spec_boot_indicator_ok(b0, x)))
                    ||| (e is NotFound && spec_mbr_parse_ok(b0) && k == 4)
                    ||| (e is BadSignature && spec_mbr_parse_ok(b0) && 0 <= k < 4
                        && !spec_bpb_signature_ok(bb))
                    ||| (e is InvalidData && spec_mbr_parse_ok(b0) && 0 <= k < 4
                        && spec_bpb_signature_ok(bb) && !spec_geometry_ok(
                        bb,
                        pe,
                        device.spec_sector_size() as int,
                    ))
                },
            },
    {
        let mut device = device;
        let mbr = match MasterBootRecord::from(&mut device) {
            Ok(m) => m,
            Err(e) => {
                return Err(e);
            },
        };
        let ghost b0 = device.spec_sectors()[0];
        let k: usize = if mbr.partitions[0].partition_type == 0x0B || mbr.partitions[0].partition_type == 0x0C {
            0
        } else if mbr.partitions[1].partition_type == 0x0B || mbr.partitions[1].partition_type == 0x0C {
            1
        } else if mbr.partitions[2].partition_type == 0x0B || mbr.partitions[2].partition_type == 0x0C {
            2
        } else if mbr.partitions[3].partition_type == 0x0B || mbr.partitions[3].partition_type == 0x0C {
            3
        } else {
            return Err(Error::NotFound);
        };
        let pe = mbr.partitions[k];
        proof {
            assert(pe == spec_partition_entry(b0, 446 + 16 * spec_first_fat32_slot(b0)));
        }
        let bpb = match BiosParameterBlock::from(&mut device, pe.relative_sector as u64) {
            Ok(b) => b,
            Err(e) => {
                return Err(e);
            },
        };
        let dev_ss = device.sector_size();
        let lss = bpb.bytes_per_sector;
        let spc = bpb.sectors_per_cluster;
        if (lss as u64) < dev_ss || (lss as u64) % dev_ss != 0 || lss % 32 != 0 || spc == 0 {
            return Err(Error::InvalidData);
        }
        if bpb.root_dir_cluster < 2 {
            return Err(Error::InvalidData);
        }
        proof {
            let a = lss as int;
            let b = bpb.total_sectors_32 as int;
            assert(0 <= a * b <= 0xFFFF * 0xFFFFFFFF) by (nonlinear_arith)
                requires
                    0 <= a <= 0xFFFF,
                    0 <= b <= 0xFFFFFFFF,
            ;
            let c = bpb.sectors_per_fat_32 as int;
            assert(0 <= a * c <= 0xFFFF * 0xFFFFFFFF) by (nonlinear_arith)
                requires
                    0 <= a <= 0xFFFF,
                    0 <= c <= 0xFFFFFFFF,
            ;
            let f = bpb.number_of_fats as int;
            assert(0 <= f * c <= 0xFF * 0xFFFFFFFF) by (nonlinear_arith)
                requires
                    0 <= f <= 0xFF,
                    0 <= c <= 0xFFFFFFFF,
            ;
        }
        if (pe.total_sectors as u64) != (lss as u64) * (bpb.total_sectors_32 as u64) / dev_ss {
            return Err(Error::InvalidData);
        }
        let max_clusters = (lss as u64) * (bpb.sectors_per_fat_32 as u64) / 4;
        proof {
            let a = lss as int;
            let c = bpb.sectors_per_fat_32 as int;
            vstd::arithmetic::div_mod::lemma_div_is_ordered(a * c, 0xFFFF * 0xFFFFFFFFint, 4);
            let s = spc as int;
            let mc = max_clusters as int;
            assert(0 <= s * mc <= 0xFF * 0x400000000000) by (nonlinear_arith)
                requires
                    0 <= s <= 0xFF,
                    0 <= mc <= 0x400000000000,
            ;
        }
        if !((bpb.total_sectors_32 as u64) <= (bpb.reserved_sectors as u64) + (bpb.number_of_fats
            as u64) * (bpb.sectors_per_fat_32 as u64) + (spc as u64) * max_clusters) {
            return Err(Error::InvalidData);
        }
        let fat_start = (pe.relative_sector as u64) + (bpb.reserved_sectors as u64);
        let data_start = fat_start + (bpb.number_of_fats as u64) * (bpb.sectors_per_fat_32
            as u64);
        let cached = CachedDevice::new(
            device,
            Partition { start: pe.relative_sector as u64, sector_size: lss as u64 },
        );
        let v = VFat {
            device: cached,
            bytes_per_sector: lss,
            sectors_per_cluster: spc,
            sectors_per_fat: bpb.sectors_per_fat_32,
            fat_start_sector: fat_start,
            data_start_sector: data_start,
            root_dir_cluster: Cluster(bpb.root_dir_cluster),
        };
        proof {
            assert(v.model().wf());
        }
        Ok(v)
    }
}

} // verus!
