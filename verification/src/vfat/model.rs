//! The mathematical model of a mounted volume: device sectors, the
//! logical-sector translation, FAT entries, cluster contents, cluster
//! chains and file byte streams, all as pure functions of the disk bytes.

use vstd::arithmetic::div_mod::{
    lemma_fundamental_div_mod, lemma_fundamental_div_mod_converse, lemma_mod_bound,
};
use vstd::prelude::*;

use crate::bytes::spec_le32;
use crate::vfat::fat::{spec_status, Status};

verus! {

/// A sector viewed as exactly `l` bytes: truncated, or padded with zero
/// bytes, if the underlying sequence has another length. A device that
/// honours its contract always serves sectors of the advertised length,
/// and on those this is the identity.
pub open spec fn normalize_sector(s: Seq<u8>, l: int) -> Seq<u8> {
    Seq::new(
        l as nat,
        |j: int|
            if 0 <= j < s.len() {
                s[j]
            } else {
                0u8
            },
    )
}

/// The device bytes together with the partition translation.
pub ghost struct DiskModel {
    /// The raw device sectors.
    pub sectors: Seq<Seq<u8>>,
    /// The device's native sector size in bytes.
    pub dev_ss: int,
    /// The physical sector where the partition begins.
    pub part_start: int,
    /// The size of a logical sector inside the partition, in bytes.
    pub lss: int,
}

impl DiskModel {
    /// The bounds every mounted translation obeys: device sectors of at
    /// least 512 bytes, a logical sector size that is a multiple of the
    /// device's and fits in 16 bits, and a partition start that fits in
    /// 32 bits.
    pub open spec fn wf(self) -> bool {
        &&& 512 <= self.dev_ss
        &&& self.dev_ss <= self.lss
        &&& self.lss <= 0xFFFF
        &&& self.lss % self.dev_ss == 0
        &&& 0 <= self.part_start <= 0xFFFFFFFF
    }

    /// How many device sectors one logical sector spans.
    pub open spec fn factor(self) -> int {
        self.lss / self.dev_ss
    }

    /// Device sector `i`, sized to exactly one device sector.
    pub open spec fn phys(self, i: int) -> Seq<u8> {
        normalize_sector(self.sectors[i], self.dev_ss)
    }

    /// The first device sector backing logical sector `n`.
    pub open spec fn phys_of(self, n: int) -> int {
        if n < self.part_start {
            n
        } else {
            self.part_start + (n - self.part_start) * self.factor()
        }
    }

    /// How many device sectors back logical sector `n`.
    pub open spec fn width(self, n: int) -> int {
        if n < self.part_start {
            1
        } else {
            self.factor()
        }
    }

    /// Logical sector `n`: a sector below the partition start maps one to
    /// one onto a device sector; a sector at or above it is the
    /// concatenation of `factor` consecutive device sectors, offset by
    /// the partition start.
    pub open spec fn logical(self, n: int) -> Seq<u8> {
        concat_phys(self, self.phys_of(n), self.width(n))
    }

    /// The size of logical sector `n` in bytes.
    pub open spec fn logical_len(self, n: int) -> int {
        if n < self.part_start {
            self.dev_ss
        } else {
            self.lss
        }
    }

    /// Whether every device sector backing logical sector `n` exists.
    pub open spec fn in_range(self, n: int) -> bool {
        0 <= self.phys_of(n) && self.phys_of(n) + self.width(n) <= self.sectors.len()
    }
}

/// Device sectors `[start, start + count)` concatenated, each sized to
/// one device sector.
pub open spec fn concat_phys(d: DiskModel, start: int, count: int) -> Seq<u8>
    decreases count,
{
    if count <= 0 {
        Seq::empty()
    } else {
        d.phys(start) + concat_phys(d, start + 1, count - 1)
    }
}

/// The concatenation of `count` device sectors holds `count` times the
/// device sector size in bytes.
pub proof fn lemma_concat_phys_len(d: DiskModel, start: int, count: int)
    requires
        d.dev_ss >= 0,
        count >= 0,
    ensures
        concat_phys(d, start, count).len() == count * d.dev_ss,
    decreases count,
{
    if count > 0 {
        lemma_concat_phys_len(d, start + 1, count - 1);
        let ss = d.dev_ss;
        assert((count - 1) * ss + ss == count * ss) by (nonlinear_arith);
    } else {
        let ss = d.dev_ss;
        assert(0 * ss == 0) by (nonlinear_arith);
    }
}

/// Byte `i` of a concatenation of device sectors comes from sector
/// `i / dev_ss`, at offset `i % dev_ss`.
pub proof fn lemma_concat_phys_index(d: DiskModel, start: int, count: int, i: int)
    requires
        d.dev_ss >= 1,
        0 <= i < count * d.dev_ss,
    ensures
        concat_phys(d, start, count)[i] == d.phys(start + i / d.dev_ss)[i % d.dev_ss],
    decreases count,
{
    let ss = d.dev_ss;
    if count <= 0 {
        assert(count * ss <= 0) by (nonlinear_arith)
            requires
                count <= 0,
                ss >= 1,
        ;
    } else {
        lemma_concat_phys_len(d, start + 1, count - 1);
        if i < ss {
            lemma_fundamental_div_mod_converse(i, ss, 0, i);
        } else {
            assert(i - ss < (count - 1) * ss) by (nonlinear_arith)
                requires
                    i < count * ss,
            ;
            lemma_concat_phys_index(d, start + 1, count - 1, i - ss);
            lemma_fundamental_div_mod(i - ss, ss);
            lemma_mod_bound(i - ss, ss);
            let q = (i - ss) / ss;
            let r = (i - ss) % ss;
            assert(i == (q + 1) * ss + r) by (nonlinear_arith)
                requires
                    i - ss == q * ss + r,
            ;
            lemma_fundamental_div_mod_converse(i, ss, q + 1, r);
        }
    }
}

/// A concatenation of device sectors grows one sector at a time.
pub proof fn lemma_concat_phys_snoc(d: DiskModel, start: int, count: int)
    requires
        count >= 0,
    ensures
        concat_phys(d, start, count + 1) == concat_phys(d, start, count) + d.phys(start + count),
    decreases count,
{
    if count == 0 {
        assert(concat_phys(d, start + 1, 0) == Seq::<u8>::empty());
        assert(concat_phys(d, start, 1) == d.phys(start) + concat_phys(d, start + 1, 0));
        assert(concat_phys(d, start, 1) =~= concat_phys(d, start, 0) + d.phys(start));
    } else {
        lemma_concat_phys_snoc(d, start + 1, count - 1);
        assert(concat_phys(d, start, count + 1) == d.phys(start) + concat_phys(
            d,
            start + 1,
            count,
        ));
        assert(concat_phys(d, start, count) == d.phys(start) + concat_phys(
            d,
            start + 1,
            count - 1,
        ));
        assert(concat_phys(d, start, count + 1) =~= concat_phys(d, start, count) + d.phys(
            start + count,
        ));
    }
}

/// Logical sectors inside the partition hold exactly `lss` bytes, those
/// below it exactly `dev_ss`.
pub proof fn lemma_logical_len(d: DiskModel, n: int)
    requires
        d.wf(),
    ensures
        d.logical(n).len() == d.logical_len(n),
{
    lemma_concat_phys_len(d, d.phys_of(n), d.width(n));
    lemma_fundamental_div_mod(d.lss, d.dev_ss);
    let ss = d.dev_ss;
    let f = d.factor();
    if n < d.part_start {
        assert(1 * ss == ss) by (nonlinear_arith);
    } else {
        assert(d.logical(n).len() == f * ss);
        assert(ss * f == f * ss) by (nonlinear_arith);
        assert(d.lss == f * ss + d.lss % ss);
    }
}

/// The full volume model: the disk translation plus the FAT32 geometry
/// read from the BIOS parameter block.
pub ghost struct FsModel {
    /// The disk bytes and the partition translation.
    pub disk: DiskModel,
    /// Sectors per cluster.
    pub spc: int,
    /// The first logical sector of the file allocation table.
    pub fat_start: int,
    /// The first logical sector of the data region.
    pub data_start: int,
    /// The cluster number of the root directory.
    pub root: int,
}

impl FsModel {
    /// The bounds every mounted volume obeys.
    pub open spec fn wf(self) -> bool {
        &&& self.disk.wf()
        &&& self.disk.lss % 32 == 0
        &&& 1 <= self.spc <= 0xFF
        &&& self.disk.part_start <= self.fat_start
        &&& self.fat_start <= self.data_start
        &&& self.data_start <= 0x20000000000
        &&& 2 <= self.root <= 0xFFFFFFFF
    }

    /// The size of one cluster in bytes.
    pub open spec fn cluster_size(self) -> int {
        self.spc * self.disk.lss
    }

    /// The raw 32-bit FAT entry recorded for cluster `c`: four
    /// little-endian bytes at byte offset `c * 4` of the FAT region.
    pub open spec fn fat_raw(self, c: int) -> u32 {
        spec_le32(
            self.disk.logical(self.fat_start + c * 4 / self.disk.lss),
            c * 4 % self.disk.lss,
        )
    }

    /// The decoded FAT status of cluster `c`.
    pub open spec fn cluster_status(self, c: int) -> Status {
        spec_status(self.fat_raw(c))
    }

    /// The first logical sector of cluster `c`'s data.
    pub open spec fn cluster_first_sector(self, c: int) -> int {
        self.data_start + self.spc * (c - 2)
    }

    /// The bytes of cluster `c`: `spc` consecutive logical sectors of the
    /// data region.
    pub open spec fn cluster_content(self, c: int) -> Seq<u8> {
        concat_logical(self, self.cluster_first_sector(c), self.spc)
    }

    /// The cluster reached from `c` after following `k` `Data` links of
    /// the FAT, if the statuses along the way allow it.
    pub open spec fn walk(self, c: int, k: nat) -> Option<int>
        decreases k,
    {
        if k == 0 {
            Some(c)
        } else {
            match self.cluster_status(c) {
                Status::Data(next) => self.walk(next.0 as int, (k - 1) as nat),
                _ => None,
            }
        }
    }

    /// Byte `i` of the stream that starts at cluster `start`: the chain
    /// is followed to the cluster covering `i` and indexed at `i` modulo
    /// the cluster size.
    pub open spec fn byte_at(self, start: int, i: int) -> u8 {
        if self.cluster_size() >= 1 && i >= 0 && self.walk(start, (i / self.cluster_size()) as nat)
            is Some {
            self.cluster_content(self.walk(start, (i / self.cluster_size()) as nat)->Some_0)[i
                % self.cluster_size()]
        } else {
            vstd::pervasive::arbitrary()
        }
    }

    /// Bytes `[lo, lo + n)` of the stream that starts at cluster `start`.
    pub open spec fn stream_slice(self, start: int, lo: int, n: int) -> Seq<u8> {
        Seq::new(n as nat, |i: int| self.byte_at(start, lo + i))
    }
}

/// Logical sectors `[first, first + count)` concatenated.
pub open spec fn concat_logical(m: FsModel, first: int, count: int) -> Seq<u8>
    decreases count,
{
    if count <= 0 {
        Seq::empty()
    } else {
        m.disk.logical(first) + concat_logical(m, first + 1, count - 1)
    }
}

/// The concatenation of `count` logical sectors of the data region holds
/// `count` times the logical sector size.
pub proof fn lemma_concat_logical_len(m: FsModel, first: int, count: int)
    requires
        m.wf(),
        first >= m.disk.part_start,
        count >= 0,
    ensures
        concat_logical(m, first, count).len() == count * m.disk.lss,
    decreases count,
{
    let ls = m.disk.lss;
    if count > 0 {
        lemma_logical_len(m.disk, first);
        lemma_concat_logical_len(m, first + 1, count - 1);
        assert((count - 1) * ls + ls == count * ls) by (nonlinear_arith);
    } else {
        assert(0 * ls == 0) by (nonlinear_arith);
    }
}

/// Byte `i` of a concatenation of logical sectors comes from sector
/// `i / lss`, at offset `i % lss`.
pub proof fn lemma_concat_logical_index(m: FsModel, first: int, count: int, i: int)
    requires
        m.wf(),
        first >= m.disk.part_start,
        0 <= i < count * m.disk.lss,
    ensures
        concat_logical(m, first, count)[i] == m.disk.logical(first + i / m.disk.lss)[i
            % m.disk.lss],
    decreases count,
{
    let ls = m.disk.lss;
    if count <= 0 {
        assert(count * ls <= 0) by (nonlinear_arith)
            requires
                count <= 0,
                ls >= 1,
        ;
    } else {
        lemma_logical_len(m.disk, first);
        lemma_concat_logical_len(m, first + 1, count - 1);
        if i < ls {
            lemma_fundamental_div_mod_converse(i, ls, 0, i);
        } else {
            assert(i - ls < (count - 1) * ls) by (nonlinear_arith)
                requires
                    i < count * ls,
            ;
            lemma_concat_logical_index(m, first + 1, count - 1, i - ls);
            lemma_fundamental_div_mod(i - ls, ls);
            lemma_mod_bound(i - ls, ls);
            let q = (i - ls) / ls;
            let r = (i - ls) % ls;
            assert(i == (q + 1) * ls + r) by (nonlinear_arith)
                requires
                    i - ls == q * ls + r,
            ;
            lemma_fundamental_div_mod_converse(i, ls, q + 1, r);
        }
    }
}

/// A cluster holds exactly one cluster size of bytes.
pub proof fn lemma_cluster_content_len(m: FsModel, c: int)
    requires
        m.wf(),
        c >= 2,
    ensures
        m.cluster_content(c).len() == m.cluster_size(),
    decreases m.spc,
{
    assert(m.spc * (c - 2) >= 0) by (nonlinear_arith)
        requires
            m.spc >= 1,
            c >= 2,
    ;
    lemma_concat_logical_len(m, m.cluster_first_sector(c), m.spc);
}

/// Every link of `ks` but the last carries a `Data` status naming its
/// successor.
pub open spec fn is_data_path(m: FsModel, ks: Seq<int>) -> bool {
    forall|j: int|
        0 <= j < ks.len() - 1 ==> (#[trigger] m.cluster_status(ks[j]) matches Status::Data(n)
            && n.0 == ks[j + 1])
}

/// `ks` is a whole cluster chain: a data path of data-region cluster
/// numbers whose last cluster carries `Eoc`.
pub open spec fn is_chain(m: FsModel, ks: Seq<int>) -> bool {
    &&& ks.len() >= 1
    &&& is_data_path(m, ks)
    &&& forall|j: int| 0 <= j < ks.len() ==> #[trigger] ks[j] >= 2
    &&& m.cluster_status(ks.last()) is Eoc
}

/// How many clusters any chain of this volume can hold: the whole
/// region between the FAT's start and the data region, read as 4-byte
/// entries. Every proper chain has distinct clusters with FAT entries,
/// so none is longer.
pub open spec fn chain_cap(m: FsModel) -> nat {
    ((m.data_start - m.fat_start) * (m.disk.lss / 4)) as nat
}

/// Walking `k` links from `start` lands on a cluster whose status is
/// neither `Data` nor `Eoc`.
pub open spec fn walk_bad(m: FsModel, start: int, k: nat) -> bool {
    m.walk(start, k) matches Some(c) && !(m.cluster_status(c) is Data || m.cluster_status(c)
        is Eoc)
}

/// Walking `k` links from `start` lands on a reserved cluster number
/// (below 2) that the FAT nonetheless marks as data.
pub open spec fn walk_reserved(m: FsModel, start: int, k: nat) -> bool {
    m.walk(start, k) matches Some(c) && (m.cluster_status(c) is Data || m.cluster_status(c)
        is Eoc) && c < 2
}

/// Walking `k` links from `start` lands on a cluster marked `Data`.
pub open spec fn walk_data(m: FsModel, start: int, k: nat) -> bool {
    m.walk(start, k) matches Some(c) && m.cluster_status(c) is Data
}

/// Walking `k` links from `start` lands on a cluster marked `Eoc`.
pub open spec fn walk_eoc(m: FsModel, start: int, k: nat) -> bool {
    m.walk(start, k) matches Some(c) && m.cluster_status(c) is Eoc
}

/// The chain from `start` cannot be read whole: a status other than
/// `Data` or `Eoc` behind the first cluster, a reserved cluster number
/// marked as data, or no end marker within the FAT's capacity (a
/// cycle, which the FAT cannot describe without one).
pub open spec fn chain_defect(m: FsModel, start: int, cap: nat) -> bool {
    ||| exists|k: nat| 1 <= k && #[trigger] walk_bad(m, start, k)
    ||| exists|k: nat| #[trigger] walk_reserved(m, start, k)
    ||| forall|k: nat| k <= cap ==> #[trigger] walk_data(m, start, k)
}

/// Somewhere within the first `limit` bytes of the stream from
/// `start`, the chain is flawed: a covering cluster's status is
/// neither `Data` nor `Eoc`, or a reserved cluster number is chained.
pub open spec fn chain_flaw_within(m: FsModel, start: int, limit: int) -> bool {
    exists|k: nat|
        k * m.cluster_size() < limit && (#[trigger] walk_bad(m, start, k) || walk_reserved(
            m,
            start,
            k,
        ))
}

/// The chain from `start` reaches its end marker although fewer than
/// `size` bytes lie on it.
pub open spec fn chain_ends_before(m: FsModel, start: int, size: int) -> bool {
    exists|k: nat| #[trigger] walk_eoc(m, start, k) && (k + 1) * m.cluster_size() < size
}

/// The bytes of a whole chain: the contents of its clusters in order.
pub open spec fn chain_content(m: FsModel, ks: Seq<int>) -> Seq<u8>
    decreases ks.len(),
{
    if ks.len() == 0 {
        Seq::empty()
    } else {
        m.cluster_content(ks[0]) + chain_content(m, ks.skip(1))
    }
}

/// One more `Data` link extends a walk by one step.
pub proof fn lemma_walk_step(m: FsModel, start: int, k: nat, c: int, next: int)
    requires
        m.walk(start, k) == Some(c),
        m.cluster_status(c) matches Status::Data(n) && n.0 == next,
    ensures
        m.walk(start, (k + 1) as nat) == Some(next),
    decreases k,
{
    if k == 0 {
        assert(m.walk(start, 1) == m.walk(next, 0));
    } else {
        match m.cluster_status(start) {
            Status::Data(n2) => {
                lemma_walk_step(m, n2.0 as int, (k - 1) as nat, c, next);
            },
            _ => {
                assert(false);
            },
        }
    }
}

/// The bytes of a chain grow cluster by cluster.
pub proof fn lemma_chain_content_snoc(m: FsModel, ks: Seq<int>, c: int)
    ensures
        chain_content(m, ks.push(c)) == chain_content(m, ks) + m.cluster_content(c),
    decreases ks.len(),
{
    if ks.len() == 0 {
        assert(ks.push(c).skip(1) =~= Seq::<int>::empty());
        assert(chain_content(m, ks.push(c)) == m.cluster_content(ks.push(c)[0]) + chain_content(
            m,
            ks.push(c).skip(1),
        ));
        assert(chain_content(m, ks.push(c)) =~= chain_content(m, ks) + m.cluster_content(c));
    } else {
        assert(ks.push(c).skip(1) =~= ks.skip(1).push(c));
        lemma_chain_content_snoc(m, ks.skip(1), c);
        assert(chain_content(m, ks.push(c)) == m.cluster_content(ks[0]) + chain_content(
            m,
            ks.skip(1).push(c),
        ));
        assert(chain_content(m, ks.push(c)) =~= chain_content(m, ks) + m.cluster_content(c));
    }
}

/// Following `j` links of a data path lands on its `j`-th cluster.
pub proof fn lemma_walk_in_path(m: FsModel, ks: Seq<int>, j: int)
    requires
        is_data_path(m, ks),
        0 <= j < ks.len(),
    ensures
        m.walk(ks[0], j as nat) == Some(ks[j]),
    decreases j,
{
    if j > 0 {
        let tail = ks.skip(1);
        assert(is_data_path(m, tail)) by {
            assert(forall|x: int|
                0 <= x < tail.len() - 1 ==> tail[x] == ks[x + 1] && #[trigger] tail[x + 1] == ks[x
                    + 2]);
        }
        lemma_walk_in_path(m, tail, j - 1);
        assert(m.cluster_status(ks[0]) matches Status::Data(n) && n.0 == ks[1]);
        assert(m.walk(ks[0], j as nat) == m.walk(ks[1], (j - 1) as nat));
        assert(tail[0] == ks[1] && tail[j - 1] == ks[j]);
    }
}

/// The FAT determines the chain: two chains from the same head are the
/// same chain.
pub proof fn lemma_chain_deterministic(m: FsModel, ks1: Seq<int>, ks2: Seq<int>)
    requires
        is_chain(m, ks1),
        is_chain(m, ks2),
        ks1[0] == ks2[0],
    ensures
        ks1 == ks2,
    decreases ks1.len(),
{
    if ks1.len() == 1 || ks2.len() == 1 {
        if ks1.len() != ks2.len() {
            let (a, b) = if ks1.len() == 1 {
                (ks1, ks2)
            } else {
                (ks2, ks1)
            };
            assert(m.cluster_status(a.last()) is Eoc);
            assert(m.cluster_status(b[0]) matches Status::Data(n));
        }
        if ks1.len() == 1 && ks2.len() == 1 {
            assert(ks1 =~= ks2);
        }
    } else {
        let t1 = ks1.skip(1);
        let t2 = ks2.skip(1);
        assert(is_chain(m, t1)) by {
            assert(t1.last() == ks1.last());
            assert(forall|x: int|
                0 <= x < t1.len() - 1 ==> t1[x] == ks1[x + 1] && #[trigger] t1[x + 1] == ks1[x
                    + 2]);
            assert(forall|x: int| 0 <= x < t1.len() ==> #[trigger] t1[x] == ks1[x + 1]);
        }
        assert(is_chain(m, t2)) by {
            assert(t2.last() == ks2.last());
            assert(forall|x: int|
                0 <= x < t2.len() - 1 ==> t2[x] == ks2[x + 1] && #[trigger] t2[x + 1] == ks2[x
                    + 2]);
            assert(forall|x: int| 0 <= x < t2.len() ==> #[trigger] t2[x] == ks2[x + 1]);
        }
        assert(m.cluster_status(ks1[0]) matches Status::Data(n) && n.0 == ks1[1]);
        assert(m.cluster_status(ks2[0]) matches Status::Data(n) && n.0 == ks2[1]);
        assert(t1[0] == t2[0]);
        lemma_chain_deterministic(m, t1, t2);
        assert(ks1 =~= ks2) by {
            assert(forall|x: int| 1 <= x < ks1.len() ==> ks1[x] == t1[x - 1] && #[trigger] ks2[x]
                == t2[x - 1]);
        }
    }
}


/// A chain of `k` clusters holds `k` clusters' worth of bytes.
pub proof fn lemma_chain_content_len(m: FsModel, ks: Seq<int>)
    requires
        m.wf(),
        forall|j: int| 0 <= j < ks.len() ==> #[trigger] ks[j] >= 2,
    ensures
        chain_content(m, ks).len() == ks.len() * m.cluster_size(),
    decreases ks.len(),
{
    let cs = m.cluster_size();
    if ks.len() == 0 {
        assert(0 * cs == 0) by (nonlinear_arith);
    } else {
        lemma_cluster_content_len(m, ks[0]);
        assert(forall|j: int|
            0 <= j < ks.skip(1).len() ==> #[trigger] ks.skip(1)[j] == ks[j + 1]);
        lemma_chain_content_len(m, ks.skip(1));
        let k = ks.len() as int;
        assert((k - 1) * cs + cs == k * cs) by (nonlinear_arith);
    }
}

/// Byte `i` of a chain's content comes from the cluster covering `i`,
/// at offset `i` modulo the cluster size.
pub proof fn lemma_chain_content_index(m: FsModel, ks: Seq<int>, i: int)
    requires
        m.wf(),
        forall|j: int| 0 <= j < ks.len() ==> #[trigger] ks[j] >= 2,
        0 <= i < ks.len() * m.cluster_size(),
    ensures
        chain_content(m, ks)[i] == m.cluster_content(ks[i / m.cluster_size()])[i
            % m.cluster_size()],
    decreases ks.len(),
{
    let cs = m.cluster_size();
    if ks.len() == 0 {
        assert(0 * cs == 0) by (nonlinear_arith);
    } else {
        assert(cs >= 512) by (nonlinear_arith)
            requires
                m.spc >= 1,
                m.disk.lss >= 512,
                cs == m.spc * m.disk.lss,
        ;
        lemma_cluster_content_len(m, ks[0]);
        assert(forall|j: int|
            0 <= j < ks.skip(1).len() ==> #[trigger] ks.skip(1)[j] == ks[j + 1]);
        lemma_chain_content_len(m, ks.skip(1));
        if i < cs {
            lemma_fundamental_div_mod_converse(i, cs, 0, i);
        } else {
            let k = ks.len() as int;
            assert(i - cs < (k - 1) * cs) by (nonlinear_arith)
                requires
                    i < k * cs,
            ;
            lemma_chain_content_index(m, ks.skip(1), i - cs);
            lemma_fundamental_div_mod(i - cs, cs);
            lemma_mod_bound(i - cs, cs);
            let q = (i - cs) / cs;
            let r = (i - cs) % cs;
            assert(i == (q + 1) * cs + r) by (nonlinear_arith)
                requires
                    i - cs == q * cs + r,
            ;
            lemma_fundamental_div_mod_converse(i, cs, q + 1, r);
            assert(0 <= q) by (nonlinear_arith)
                requires
                    q * cs + r == i - cs,
                    0 <= i - cs,
                    0 <= r < cs,
                    cs >= 1,
            ;
            assert(cs * (k - 1) == (k - 1) * cs) by (nonlinear_arith);
            vstd::arithmetic::div_mod::lemma_multiply_divide_lt(i - cs, cs, k - 1);
            assert(ks.skip(1)[q] == ks[q + 1]);
        }
    }
}

/// A whole chain read and a positioned stream read agree: the bytes of
/// a chain are exactly the stream that starts at its head, over the
/// chain's full extent.
pub proof fn lemma_chain_is_stream(m: FsModel, ks: Seq<int>)
    requires
        m.wf(),
        is_chain(m, ks),
        forall|j: int| 0 <= j < ks.len() ==> #[trigger] ks[j] >= 2,
    ensures
        chain_content(m, ks) == m.stream_slice(ks[0], 0, ks.len() * m.cluster_size()),
{
    let cs = m.cluster_size();
    let n = ks.len() * cs;
    assert(cs >= 512) by (nonlinear_arith)
        requires
            m.spc >= 1,
            m.disk.lss >= 512,
            cs == m.spc * m.disk.lss,
    ;
    lemma_chain_content_len(m, ks);
    assert forall|i: int| 0 <= i < n implies chain_content(m, ks)[i] == m.byte_at(ks[0], i) by {
        lemma_chain_content_index(m, ks, i);
        assert((cs as int) * (ks.len() as int) == (ks.len() as int) * cs) by (nonlinear_arith);
        vstd::arithmetic::div_mod::lemma_multiply_divide_lt(i, cs, ks.len() as int);
        lemma_walk_in_path(m, ks, i / cs);
    }
    assert(chain_content(m, ks) =~= m.stream_slice(ks[0], 0, n));
}

/// Reading a stream in two goes yields the same bytes as reading it in
/// one: the slice `[lo, mid)` followed by the slice `[mid, hi)` is the
/// slice `[lo, hi)`.
pub proof fn lemma_stream_slice_concat(m: FsModel, start: int, lo: int, mid: int, hi: int)
    requires
        lo <= mid <= hi,
    ensures
        m.stream_slice(start, lo, mid - lo) + m.stream_slice(start, mid, hi - mid)
            == m.stream_slice(start, lo, hi - lo),
{
    assert(m.stream_slice(start, lo, mid - lo) + m.stream_slice(start, mid, hi - mid)
        =~= m.stream_slice(start, lo, hi - lo));
}

/// Starting a read at offset `k` yields what a read from the start
/// yields with its first `k` bytes discarded.
pub proof fn lemma_stream_slice_skip(m: FsModel, start: int, k: int, n: int)
    requires
        0 <= k <= n,
    ensures
        m.stream_slice(start, k, n - k) == m.stream_slice(start, 0, n).skip(k),
{
    assert(m.stream_slice(start, k, n - k) =~= m.stream_slice(start, 0, n).skip(k));
}

} // verus!
