//! Raw 32-bit file allocation table entries and their decoded status.

use vstd::prelude::*;

verus! {

/// A cluster number. Clusters 0 and 1 are reserved by FAT32; data clusters
/// start at 2. The number is only meaningful relative to the mounted
/// volume's FAT; no arithmetic is defined on it outside chain-following.
#[derive(Copy, Clone, Debug, PartialEq, Eq, Structural)]
pub struct Cluster(pub u32);

impl Cluster {
    /// The raw cluster number.
    pub fn inner(&self) -> (r: u32)
        ensures
            r == self.0,
    {
        self.0
    }
}

impl From<u32> for Cluster {
    fn from(raw: u32) -> (r: Cluster) {
        Cluster(raw)
    }
}

impl vstd::std_specs::convert::FromSpecImpl<u32> for Cluster {
    open spec fn obeys_from_spec() -> bool {
        true
    }

    open spec fn from_spec(raw: u32) -> Cluster {
        Cluster(raw)
    }
}

/// The decoded meaning of a FAT entry.
#[derive(Copy, Clone, Debug, PartialEq, Eq, Structural)]
pub enum Status {
    /// The cluster is unused.
    Free,
    /// The cluster is reserved by the FAT32 convention.
    Reserved,
    /// The cluster holds data and the chain continues at the payload.
    Data(Cluster),
    /// The cluster is marked bad (disk failure).
    Bad,
    /// The cluster holds data and ends its chain; the payload is the raw
    /// end-of-chain marker.
    Eoc(u32),
}

/// A raw 32-bit FAT entry as stored on disk. Only the low 28 bits are
/// significant; the high 4 bits are reserved and ignored.
#[derive(Copy, Clone, Debug, PartialEq, Eq, Structural)]
pub struct FatEntry(pub u32);

/// How a raw FAT entry value decodes, by the FAT32 convention: the low 28
/// bits partition into free (0), reserved (1 and 0xFFFFFF0-0xFFFFFF6),
/// data (2-0xFFFFFEF), bad (0xFFFFFF7) and end-of-chain (0xFFFFFF8-0xFFFFFFF).
pub open spec fn spec_status(raw: u32) -> Status {
    let v = raw & 0x0FFFFFFF;
    if v == 0 {
        Status::Free
    } else if v == 1 {
        Status::Reserved
    } else if v <= 0x0FFFFFEF {
        Status::Data(Cluster(v))
    } else if v <= 0x0FFFFFF6 {
        Status::Reserved
    } else if v == 0x0FFFFFF7 {
        Status::Bad
    } else {
        Status::Eoc(v)
    }
}

impl FatEntry {
    /// Decodes the status of this FAT entry.
    pub fn status(&self) -> (r: Status)
        ensures
            r == spec_status(self.0),
    {
        let v = self.0 & 0x0FFFFFFF;
        if v == 0 {
            Status::Free
        } else if v == 1 {
            Status::Reserved
        } else if v <= 0x0FFFFFEF {
            Status::Data(Cluster(v))
        } else if v <= 0x0FFFFFF6 {
            Status::Reserved
        } else if v == 0x0FFFFFF7 {
            Status::Bad
        } else {
            Status::Eoc(v)
        }
    }
}

/// The status round-trip over the whole data range: a raw value whose low
/// 28 bits lie in `[0x2, 0xFFFFFEF]` always decodes to `Data` carrying that
/// cluster number, and a raw value whose low 28 bits lie in
/// `[0xFFFFFF8, 0xFFFFFFF]` always decodes to `Eoc` carrying those bits.
pub proof fn lemma_status_round_trip(raw: u32)
    ensures
        2 <= raw & 0x0FFFFFFF <= 0x0FFFFFEF ==> spec_status(raw) == Status::Data(
            Cluster(raw & 0x0FFFFFFF),
        ),
        0x0FFFFFF8 <= raw & 0x0FFFFFFF <= 0x0FFFFFFF ==> spec_status(raw) == Status::Eoc(
            raw & 0x0FFFFFFF,
        ),
        raw & 0x0FFFFFFF == 0 ==> spec_status(raw) == Status::Free,
        raw & 0x0FFFFFFF == 1 ==> spec_status(raw) == Status::Reserved,
        raw & 0x0FFFFFFF == 0x0FFFFFF7 ==> spec_status(raw) == Status::Bad,
{
}

} // verus!
