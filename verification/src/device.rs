//! The block-device capability the driver is mounted on, and a simple
//! in-memory device backed by a vector of sectors.

use vstd::prelude::*;

use crate::error::Error;

verus! {

/// A sector-addressable block device. Sector numbers are 0-based indices
/// in the device's native sector size. A read may always fail with an
/// I/O error; when it succeeds it hands back exactly the device's bytes.
pub trait BlockDevice: Sized {
    /// Whether the device is in a servable state.
    spec fn wf(&self) -> bool;

    /// The device's native sector size in bytes.
    spec fn spec_sector_size(&self) -> u64;

    /// The whole content of the device, one inner sequence per sector.
    spec fn spec_sectors(&self) -> Seq<Seq<u8>>;

    /// The device's native sector size in bytes.
    fn sector_size(&self) -> (r: u64)
        requires
            self.wf(),
        ensures
            r == self.spec_sector_size(),
    ;

    /// Appends the whole content of sector `n` to `buf`: exactly one full
    /// sector, or an I/O failure that leaves `buf` untouched.
    fn read_all_sector(&mut self, n: u64, buf: &mut Vec<u8>) -> (r: Result<(), Error>)
        requires
            old(self).wf(),
        ensures
            final(self).wf(),
            final(self).spec_sector_size() == old(self).spec_sector_size(),
            final(self).spec_sectors() == old(self).spec_sectors(),
            match r {
                Ok(u) => n < old(self).spec_sectors().len() && final(buf)@ == old(buf)@ + old(
                    self,
                ).spec_sectors()[n as int] && old(self).spec_sectors()[n as int].len() == old(
                    self,
                ).spec_sector_size(),
                Err(e) => final(buf)@ == old(buf)@ && e is Io,
            },
    ;
}

/// An in-memory block device: a vector of equally sized sectors. Reads
/// outside the vector fail like a device I/O error; reads inside it never
/// fail.
pub struct RamDisk {
    sector_size: usize,
    sectors: Vec<Vec<u8>>,
}

impl RamDisk {
    /// Builds an in-memory device from whole sectors. Returns the device
    /// exactly when the sector size is at least 512 bytes and every given
    /// sector has exactly that many bytes.
    pub fn new(sector_size: usize, sectors: Vec<Vec<u8>>) -> (r: Option<RamDisk>)
        ensures
            match r {
                Some(d) => d.wf() && d.spec_sector_size() == sector_size && d.spec_sectors()
                    == sectors.deep_view(),
                None => !(512 <= sector_size && forall|i: int|
                    0 <= i < sectors@.len() ==> #[trigger] sectors@[i]@.len() == sector_size),
            },
    {
        if sector_size < 512 {
            return None;
        }
        let mut i: usize = 0;
        while i < sectors.len()
            invariant
                0 <= i <= sectors@.len(),
                forall|j: int| 0 <= j < i ==> #[trigger] sectors@[j]@.len() == sector_size,
            decreases sectors@.len() - i,
        {
            if sectors[i].len() != sector_size {
                return None;
            }
            i = i + 1;
        }
        proof {
            assert(sectors.deep_view().len() == sectors@.len());
            assert(forall|j: int|
                0 <= j < sectors@.len() ==> sectors.deep_view()[j] == #[trigger] sectors@[j]@);
        }
        Some(RamDisk { sector_size, sectors })
    }
}

impl BlockDevice for RamDisk {
    closed spec fn wf(&self) -> bool {
        &&& 512 <= self.sector_size
        &&& forall|i: int|
            0 <= i < self.sectors@.len() ==> #[trigger] self.sectors@[i]@.len()
                == self.sector_size
    }

    closed spec fn spec_sector_size(&self) -> u64 {
        self.sector_size as u64
    }

    closed spec fn spec_sectors(&self) -> Seq<Seq<u8>> {
        self.sectors.deep_view()
    }

    fn sector_size(&self) -> (r: u64) {
        self.sector_size as u64
    }

    fn read_all_sector(&mut self, n: u64, buf: &mut Vec<u8>) -> (r: Result<(), Error>) {
        if n >= self.sectors.len() as u64 {
            return Err(Error::Io);
        }
        let row = &self.sectors[n as usize];
        let mut j: usize = 0;
        while j < row.len()
            invariant
                0 <= j <= row@.len(),
                buf@ == old(buf)@ + row@.take(j as int),
            decreases row@.len() - j,
        {
            let b = row[j];
            buf.push(b);
            proof {
                assert(row@.take(j + 1) == row@.take(j as int).push(row@[j as int]));
            }
            j = j + 1;
        }
        proof {
            assert(row@.take(row@.len() as int) == row@);
            assert(self.spec_sectors()[n as int] == row@);
        }
        Ok(())
    }
}

} // verus!
