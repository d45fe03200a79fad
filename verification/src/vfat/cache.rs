//! The sector cache: wraps the raw block device, translates logical
//! (partition-relative) sector numbers to physical sectors, and caches
//! whole logical sectors in memory with a dirty flag per entry.

use std::collections::HashMap;

use vstd::prelude::*;

use crate::bytes::copy_bytes;
use crate::device::BlockDevice;
use crate::error::Error;
use crate::vfat::model::{
    concat_phys, lemma_concat_phys_snoc, normalize_sector, DiskModel,
};

verus! {

broadcast use vstd::std_specs::hash::group_hash_axioms;

/// Where a partition lives on the device and how large its logical
/// sectors are. Immutable once the filesystem is mounted.
pub struct Partition {
    /// The physical sector where the partition begins.
    pub start: u64,
    /// The size, in bytes, of a logical sector in the partition.
    pub sector_size: u64,
}

/// One cached logical sector.
struct CacheEntry {
    data: Vec<u8>,
    dirty: bool,
}

/// A block device wrapped with a sector cache. Sectors before
/// `partition.start` map one to one to physical sectors and are the size
/// of a physical sector; sectors at or after it are scaled by
/// `partition.sector_size / device sector size` and offset by
/// `partition.start`, and are the size of a logical sector. Entries are
/// created on first access and never evicted.
pub struct CachedDevice<T: BlockDevice> {
    device: T,
    cache: HashMap<u64, CacheEntry>,
    partition: Partition,
}

impl<T: BlockDevice> CachedDevice<T> {
    /// The disk bytes and partition translation this cache serves.
    pub closed spec fn disk_model(&self) -> DiskModel {
        DiskModel {
            sectors: self.device.spec_sectors(),
            dev_ss: self.device.spec_sector_size() as int,
            part_start: self.partition.start as int,
            lss: self.partition.sector_size as int,
        }
    }

    /// The cache invariant: the device is servable, the translation is
    /// well formed, and every cached sector holds exactly the logical
    /// sector's bytes.
    pub closed spec fn wf(&self) -> bool {
        &&& self.device.wf()
        &&& self.disk_model().wf()
        &&& forall|k: u64|
            self.cache@.contains_key(k) ==> #[trigger] self.cache@[k].data@
                == self.disk_model().logical(k as int)
    }

    /// Whether sector `sector` is cached and marked dirty.
    pub closed spec fn spec_dirty(&self, sector: u64) -> bool {
        self.cache@.contains_key(sector) && self.cache@[sector].dirty
    }

    /// Wraps `device` with an empty cache over `partition`. The
    /// partition's logical sector size must be a whole multiple of the
    /// device's sector size and at least as large; the device sectors
    /// must hold at least the 512 bytes a boot record needs; and the
    /// partition fields must fit the 32- and 16-bit on-disk fields they
    /// were read from.
    pub fn new(device: T, partition: Partition) -> (r: CachedDevice<T>)
        requires
            device.wf(),
            512 <= device.spec_sector_size(),
            device.spec_sector_size() <= partition.sector_size,
            partition.sector_size as int % device.spec_sector_size() as int == 0,
            partition.sector_size <= 0xFFFF,
            partition.start <= 0xFFFFFFFF,
        ensures
            r.wf(),
            r.disk_model() == (DiskModel {
                sectors: device.spec_sectors(),
                dev_ss: device.spec_sector_size() as int,
                part_start: partition.start as int,
                lss: partition.sector_size as int,
            }),
    {
        CachedDevice { device, cache: HashMap::new(), partition }
    }

    /// Fills the cache entry for `sector` from the device if it is not
    /// already present.
    fn load(&mut self, sector: u64) -> (r: Result<(), Error>)
        requires
            old(self).wf(),
        ensures
            final(self).wf(),
            final(self).disk_model() == old(self).disk_model(),
            forall|s: u64| final(self).spec_dirty(s) == old(self).spec_dirty(s),
            match r {
                Ok(u) => final(self).cache@.contains_key(sector),
                Err(e) => e is Io,
            },
    {
        if self.cache.contains_key(&sector) {
            return Ok(());
        }
        let ghost dm = self.disk_model();
        let dev_ss = self.device.sector_size();
        let (phys_start, factor): (u64, u64) = if sector < self.partition.start {
            (sector, 1u64)
        } else {
            let factor = self.partition.sector_size / dev_ss;
            let off = sector - self.partition.start;
            if factor == 0 || off > (u64::MAX - self.partition.start) / factor {
                return Err(Error::Io);
            }
            proof {
                let s = self.partition.start as int;
                let f = factor as int;
                let o = off as int;
                let cap = (u64::MAX - self.partition.start) as int;
                vstd::arithmetic::div_mod::lemma_fundamental_div_mod(cap, f);
                vstd::arithmetic::div_mod::lemma_mod_bound(cap, f);
                assert(o * f <= (cap / f) * f) by (nonlinear_arith)
                    requires
                        o <= cap / f,
                        f >= 1,
                ;
            }
            (self.partition.start + off * factor, factor)
        };
        proof {
            assert(phys_start == dm.phys_of(sector as int) && factor == dm.width(sector as int));
        }
        if phys_start > u64::MAX - factor {
            return Err(Error::Io);
        }
        let mut buf: Vec<u8> = Vec::new();
        let mut i: u64 = 0;
        while i < factor
            invariant
                0 <= i <= factor,
                phys_start + factor <= u64::MAX,
                old(self).wf(),
                dm == old(self).disk_model(),
                self.device.wf(),
                self.device.spec_sectors() == dm.sectors,
                self.device.spec_sector_size() as int == dm.dev_ss,
                buf@ == concat_phys(dm, phys_start as int, i as int),
                self.partition.start == old(self).partition.start,
                self.partition.sector_size == old(self).partition.sector_size,
                self.cache@ == old(self).cache@,
                phys_start == dm.phys_of(sector as int),
                factor == dm.width(sector as int),
            decreases factor - i,
        {
            let r = self.device.read_all_sector(phys_start + i, &mut buf);
            match r {
                Ok(u) => {
                    proof {
                        let n = (phys_start + i) as int;
                        let row = dm.sectors[n];
                        assert(normalize_sector(row, dm.dev_ss) =~= row);
                        lemma_concat_phys_snoc(dm, phys_start as int, i as int);
                    }
                },
                Err(e) => {
                    return Err(e);
                },
            }
            i = i + 1;
        }
        proof {
            assert(buf@ == dm.logical(sector as int));
        }
        self.cache.insert(sector, CacheEntry { data: buf, dirty: false });
        proof {
            assert forall|k: u64| self.cache@.contains_key(k) implies #[trigger] self.cache@[k].data@
                == self.disk_model().logical(k as int) by {
                if k != sector {
                    assert(old(self).cache@.contains_key(k));
                    assert(old(self).cache@[k].data@ == old(self).disk_model().logical(k as int));
                }
            }
        }
        Ok(())
    }

    /// Returns a copy of the bytes of cached sector `sector`, reading it
    /// from the device first if it is not cached yet. Reading never
    /// marks anything dirty: a fresh fill comes in clean.
    pub fn get(&mut self, sector: u64) -> (r: Result<Vec<u8>, Error>)
        requires
            old(self).wf(),
        ensures
            final(self).wf(),
            final(self).disk_model() == old(self).disk_model(),
            forall|s: u64| final(self).spec_dirty(s) == old(self).spec_dirty(s),
            match r {
                Ok(v) => v@ == old(self).disk_model().logical(sector as int),
                Err(e) => e is Io,
            },
    {
        match self.load(sector) {
            Ok(u) => {},
            Err(e) => {
                return Err(e);
            },
        }
        match self.cache.get(&sector) {
            Some(entry) => {
                let v = copy_bytes(&entry.data, 0, entry.data.len());
                proof {
                    assert(v@ =~= entry.data@);
                }
                Ok(v)
            },
            None => Err(Error::Io),
        }
    }

    /// Like `get`, but also marks the entry dirty, for callers that
    /// intend to write into the returned sector. The driver is
    /// read-only, so this path exists for API symmetry; nothing is ever
    /// written back.
    pub fn get_mut(&mut self, sector: u64) -> (r: Result<Vec<u8>, Error>)
        requires
            old(self).wf(),
        ensures
            final(self).wf(),
            final(self).disk_model() == old(self).disk_model(),
            forall|s: u64| s != sector ==> final(self).spec_dirty(s) == old(self).spec_dirty(s),
            match r {
                Ok(v) => v@ == old(self).disk_model().logical(sector as int)
                    && final(self).spec_dirty(sector),
                Err(e) => e is Io,
            },
    {
        let v = match self.get(sector) {
            Ok(v) => v,
            Err(e) => {
                return Err(e);
            },
        };
        let again = copy_bytes(&v, 0, v.len());
        proof {
            assert(again@ =~= v@);
        }
        self.cache.insert(sector, CacheEntry { data: again, dirty: true });
        Ok(v)
    }

    /// The device's native sector size in bytes.
    pub fn sector_size(&self) -> (r: u64)
        requires
            self.wf(),
        ensures
            r as int == self.disk_model().dev_ss,
    {
        self.device.sector_size()
    }
}

} // verus!
