//! File streams: positioned read and seek over a cluster chain.

use vstd::arithmetic::div_mod::{
    lemma_fundamental_div_mod, lemma_fundamental_div_mod_converse, lemma_mod_bound,
};
use vstd::prelude::*;

use crate::device::BlockDevice;
use crate::error::Error;
use crate::vfat::fat::{Cluster, Status};
use crate::vfat::metadata::Metadata;
use crate::vfat::model::{
    chain_ends_before, chain_flaw_within, lemma_walk_step, walk_bad, walk_eoc, walk_reserved,
    FsModel,
};
use crate::vfat::vfat::VFat;

verus! {

/// Where a seek is measured from.
#[derive(Copy, Clone, Debug, PartialEq, Eq, Structural)]
pub enum SeekFrom {
    /// An absolute offset from the start of the file.
    Start(u64),
    /// A (non-positive) offset relative to the end of the file.
    End(i64),
    /// An offset relative to the current position.
    Current(i64),
}

/// The absolute offset a seek resolves to, before range checking.
pub open spec fn spec_seek_target(pos: SeekFrom, offset: int, size: int) -> int {
    match pos {
        SeekFrom::Start(s) => s as int,
        SeekFrom::End(e) => size + e,
        SeekFrom::Current(c) => offset + c,
    }
}

/// An open file: its names, metadata, size, and the read cursor — the
/// absolute byte offset together with the cluster that covers it.
#[derive(Debug)]
pub struct File {
    /// The reconstructed long name, when the directory carried one.
    pub long_name: Option<String>,
    /// The 8.3 name from the regular directory entry.
    pub short_name: String,
    pub metadata: Metadata,
    /// The file's size in bytes, as the directory entry records it.
    pub file_size: u32,
    /// The first cluster of the file's chain.
    pub start_cluster: Cluster,
    /// The current read position in bytes from the start of the file.
    pub absolute_offset: u32,
    /// The cluster covering `absolute_offset`, tracked so a read does
    /// not walk the whole chain from the start.
    pub curr_cluster: Cluster,
}

impl File {
    /// The cursor invariant with respect to a mounted volume: the offset
    /// never passes the file size, and `curr_cluster` is the chain's
    /// cluster covering the offset — or, when the offset sits exactly at
    /// the end of a file that fills its last cluster to the brim, the
    /// chain's final cluster, whose status is the end marker.
    pub open spec fn wf_with(&self, m: FsModel) -> bool {
        &&& self.absolute_offset <= self.file_size
        &&& {
            ||| m.walk(
                self.start_cluster.0 as int,
                (self.absolute_offset as int / m.cluster_size()) as nat,
            ) == Some(self.curr_cluster.0 as int)
            ||| (self.absolute_offset == self.file_size && self.absolute_offset as int
                % m.cluster_size() == 0 && self.absolute_offset > 0 && m.walk(
                self.start_cluster.0 as int,
                (self.absolute_offset as int / m.cluster_size() - 1) as nat,
            ) == Some(self.curr_cluster.0 as int) && m.cluster_status(self.curr_cluster.0 as int)
                is Eoc)
        }
    }

    /// The displayed name: the long name when one exists, else the 8.3
    /// name.
    pub open spec fn spec_name(&self) -> Seq<char> {
        if self.long_name is Some {
            self.long_name->0@
        } else {
            self.short_name@
        }
    }

    /// The file's effective name: its long name if it has one, else its
    /// short name.
    pub fn name(&self) -> (r: &String)
        ensures
            r@ == self.spec_name(),
    {
        match &self.long_name {
            Some(n) => n,
            None => &self.short_name,
        }
    }

    /// The file's size in bytes.
    pub fn size(&self) -> (r: u64)
        ensures
            r == self.file_size,
    {
        self.file_size as u64
    }

    /// Reads up to `limit` bytes at the current offset and advances the
    /// offset by what was read: exactly the smaller of `limit` and the
    /// bytes left before `file_size`. At the end of the file it reads
    /// zero bytes, which is not an error. Fails with `UnexpectedEof`
    /// only when the chain ends although the recorded size claims more
    /// data, and with `InvalidData` only when a flawed link lies within
    /// the file's extent.
    pub fn read<T: BlockDevice>(&mut self, fs: &mut VFat<T>, limit: usize) -> (r: Result<
        Vec<u8>,
        Error,
    >)
        requires
            old(fs).wf(),
            old(self).wf_with(old(fs).model()),
        ensures
            final(fs).wf(),
            final(fs).model() == old(fs).model(),
            final(self).long_name == old(self).long_name,
            final(self).short_name == old(self).short_name,
            final(self).metadata == old(self).metadata,
            final(self).file_size == old(self).file_size,
            final(self).start_cluster == old(self).start_cluster,
            final(self).absolute_offset <= final(self).file_size,
            match r {
                Ok(v) => {
                    let m = old(fs).model();
                    let n = if limit as int <= old(self).file_size - old(self).absolute_offset {
                        limit as int
                    } else {
                        old(self).file_size - old(self).absolute_offset
                    };
                    &&& v@.len() == n
                    &&& v@ == m.stream_slice(
                        old(self).start_cluster.0 as int,
                        old(self).absolute_offset as int,
                        n,
                    )
                    &&& final(self).absolute_offset == old(self).absolute_offset + n
                    &&& final(self).wf_with(m)
                },
                Err(e) => {
                    let m = old(fs).model();
                    let start = old(self).start_cluster.0 as int;
                    let size = old(self).file_size as int;
                    &&& (e is Io || e is InvalidData || e is UnexpectedEof)
                    &&& (e is UnexpectedEof ==> chain_ends_before(m, start, size))
                    &&& (e is InvalidData ==> chain_flaw_within(m, start, size))
                },
            },
            old(self).absolute_offset == old(self).file_size ==> (r matches Ok(v) && v@.len()
                == 0),
    {
        let ghost m = fs.model();
        let ghost start = self.start_cluster.0 as int;
        let ghost old_off = self.absolute_offset as int;
        if self.absolute_offset == self.file_size {
            let out: Vec<u8> = Vec::new();
            proof {
                assert(out@ =~= m.stream_slice(start, old_off, 0));
            }
            return Ok(out);
        }
        let cs = fs.cluster_size();
        let remaining = (self.file_size - self.absolute_offset) as usize;
        let n = if limit <= remaining {
            limit
        } else {
            remaining
        };
        let mut out: Vec<u8> = Vec::new();
        proof {
            assert(out@ =~= m.stream_slice(start, old_off, 0));
        }
        while out.len() < n
            invariant
                old(fs).wf(),
                fs.wf(),
                fs.model() == m,
                m == old(fs).model(),
                cs as int == m.cluster_size(),
                512 <= cs,
                self.long_name == old(self).long_name,
                self.short_name == old(self).short_name,
                self.metadata == old(self).metadata,
                self.file_size == old(self).file_size,
                self.start_cluster == old(self).start_cluster,
                start == self.start_cluster.0 as int,
                old_off == old(self).absolute_offset as int,
                n <= old(self).file_size - old(self).absolute_offset,
                out@.len() <= n,
                self.absolute_offset == old_off + out@.len(),
                self.absolute_offset <= self.file_size,
                out@ == m.stream_slice(start, old_off, out@.len() as int),
                out@.len() < n ==> m.walk(
                    start,
                    (self.absolute_offset as int / m.cluster_size()) as nat,
                ) == Some(self.curr_cluster.0 as int),
                out@.len() == n ==> self.wf_with(m),
            decreases n - out@.len(),
        {
            let ghost off = self.absolute_offset as int;
            let ghost idx = off / m.cluster_size();
            let oic = (self.absolute_offset as usize) % cs;
            let want = n - out.len();
            proof {
                fs.lemma_model_wf();
                lemma_mod_bound(off, cs as int);
                lemma_fundamental_div_mod(off, cs as int);
            }
            let chunk = match fs.read_cluster(self.curr_cluster, oic, want) {
                Ok(v) => v,
                Err(e) => {
                    proof {
                        if !(e is Io) {
                            assert(idx * (cs as int) <= off) by (nonlinear_arith)
                                requires
                                    off == (cs as int) * idx + oic,
                                    oic >= 0,
                            ;
                            if e is InvalidInput {
                                assert(walk_bad(m, start, idx as nat));
                            } else {
                                assert(walk_reserved(m, start, idx as nat));
                            }
                            assert(chain_flaw_within(m, start, old(self).file_size as int));
                        }
                    }
                    return if matches!(e, Error::InvalidInput) {
                        Err(Error::InvalidData)
                    } else {
                        Err(e)
                    };
                },
            };
            let got = chunk.len();
            proof {
                let c = self.curr_cluster.0 as int;
                crate::vfat::model::lemma_cluster_content_len(m, c);
                assert(got >= 1);
                assert(oic + got <= cs);
                assert forall|t: int| 0 <= t < got implies chunk@[t] == m.byte_at(
                    start,
                    off + t,
                ) by {
                    assert(off + t == idx * (cs as int) + (oic + t)) by (nonlinear_arith)
                        requires
                            off == (cs as int) * idx + oic,
                    ;
                    lemma_fundamental_div_mod_converse(off + t, cs as int, idx, oic + t);
                    assert(m.walk(start, ((off + t) / m.cluster_size()) as nat) == Some(c));
                    assert(chunk@[t] == m.cluster_content(c)[oic + t]);
                }
                let total = out@.len() + got;
                assert(out@ + chunk@ =~= m.stream_slice(start, old_off, old_off + total
                    - old_off)) by {
                    assert forall|p: int| 0 <= p < total implies (out@ + chunk@)[p] == m.byte_at(
                        start,
                        old_off + p,
                    ) by {
                        if p < out@.len() {
                            assert(out@[p] == m.stream_slice(start, old_off, out@.len() as int)[p]);
                        } else {
                            assert((out@ + chunk@)[p] == chunk@[p - out@.len()]);
                        }
                    }
                }
            }
            let ghost prev_len = out@.len() as int;
            let mut moved = chunk;
            out.append(&mut moved);
            self.absolute_offset = self.absolute_offset + (got as u32);
            proof {
                assert(out@ == m.stream_slice(start, old_off, out@.len() as int));
            }
            if oic + got == cs {
                // The read consumed the cluster to its end: follow the
                // FAT before anything more is served.
                let fe = match fs.fat_entry(self.curr_cluster) {
                    Ok(f) => f,
                    Err(e) => {
                        return Err(e);
                    },
                };
                match fe.status() {
                    Status::Data(next) => {
                        proof {
                            lemma_walk_step(
                                m,
                                start,
                                idx as nat,
                                self.curr_cluster.0 as int,
                                next.0 as int,
                            );
                            assert(self.absolute_offset as int == (idx + 1) * (cs as int))
                                by (nonlinear_arith)
                                requires
                                    off == (cs as int) * idx + oic,
                                    self.absolute_offset as int == off + got,
                                    oic + got == cs,
                            ;
                            lemma_fundamental_div_mod_converse(
                                self.absolute_offset as int,
                                cs as int,
                                idx + 1,
                                0,
                            );
                        }
                        self.curr_cluster = next;
                    },
                    Status::Eoc(raw) => {
                        proof {
                            assert(self.absolute_offset as int == (idx + 1) * (cs as int))
                                by (nonlinear_arith)
                                requires
                                    off == (cs as int) * idx + oic,
                                    self.absolute_offset as int == off + got,
                                    oic + got == cs,
                            ;
                            lemma_fundamental_div_mod_converse(
                                self.absolute_offset as int,
                                cs as int,
                                idx + 1,
                                0,
                            );
                        }
                        if self.absolute_offset < self.file_size {
                            proof {
                                assert(walk_eoc(m, start, idx as nat));
                                assert(chain_ends_before(m, start, old(self).file_size as int));
                            }
                            return Err(Error::UnexpectedEof);
                        }
                        proof {
                            assert(out@.len() == n);
                        }
                    },
                    _ => {
                        // A cluster that was just read has status `Data`
                        // or `Eoc`, so this arm cannot run.
                        proof {
                            assert(false);
                        }
                        return Err(Error::InvalidData);
                    },
                }
            } else {
                proof {
                    assert(got == want || oic + got == cs);
                    assert(out@.len() == n);
                    let noff = self.absolute_offset as int;
                    assert(noff == idx * (cs as int) + (oic + got)) by (nonlinear_arith)
                        requires
                            off == (cs as int) * idx + oic,
                            noff == off + got,
                    ;
                    lemma_fundamental_div_mod_converse(noff, cs as int, idx, oic + got);
                }
            }
        }
        Ok(out)
    }

    /// Resolves `pos` to an absolute offset and moves the cursor there,
    /// walking the cluster chain from the start to find the covering
    /// cluster, so it also restores a consistent cursor after a failed
    /// read. A target below zero or past the file size is rejected with
    /// `InvalidInput`; seeking exactly to the file size is allowed, and
    /// a target inside the first cluster always succeeds, since no
    /// device read decides it. On success returns the new offset; on
    /// any failure the cursor is unchanged.
    pub fn seek<T: BlockDevice>(&mut self, fs: &mut VFat<T>, pos: SeekFrom) -> (r: Result<
        u64,
        Error,
    >)
        requires
            old(fs).wf(),
            old(self).absolute_offset <= old(self).file_size,
        ensures
            final(fs).wf(),
            final(fs).model() == old(fs).model(),
            final(self).long_name == old(self).long_name,
            final(self).short_name == old(self).short_name,
            final(self).metadata == old(self).metadata,
            final(self).file_size == old(self).file_size,
            final(self).start_cluster == old(self).start_cluster,
            match r {
                Ok(k) => {
                    let t = spec_seek_target(
                        pos,
                        old(self).absolute_offset as int,
                        old(self).file_size as int,
                    );
                    &&& 0 <= t <= old(self).file_size
                    &&& k == t
                    &&& final(self).absolute_offset == t
                    &&& final(self).wf_with(old(fs).model())
                },
                Err(e) => {
                    let m = old(fs).model();
                    let start = old(self).start_cluster.0 as int;
                    let t = spec_seek_target(
                        pos,
                        old(self).absolute_offset as int,
                        old(self).file_size as int,
                    );
                    &&& *final(self) == *old(self)
                    &&& (e is InvalidInput <==> (t < 0 || t > old(self).file_size))
                    &&& (e is InvalidInput || e is Io || e is UnexpectedEof || e is InvalidData)
                    &&& (e is UnexpectedEof ==> chain_ends_before(
                        m,
                        start,
                        old(self).file_size as int,
                    ))
                    &&& (e is InvalidData ==> chain_flaw_within(
                        m,
                        start,
                        old(self).file_size as int,
                    ))
                },
            },
            (spec_seek_target(pos, old(self).absolute_offset as int, old(self).file_size as int)
                < 0 || spec_seek_target(
                pos,
                old(self).absolute_offset as int,
                old(self).file_size as int,
            ) > old(self).file_size) ==> r == Result::<u64, Error>::Err(Error::InvalidInput),
            ({
                let t = spec_seek_target(
                    pos,
                    old(self).absolute_offset as int,
                    old(self).file_size as int,
                );
                0 <= t <= old(self).file_size && t < old(fs).model().cluster_size()
            }) ==> r is Ok,
    {
        let ghost m = fs.model();
        let size = self.file_size;
        let target: u32 = match pos {
            SeekFrom::Start(s) => {
                if s > size as u64 {
                    return Err(Error::InvalidInput);
                }
                s as u32
            },
            SeekFrom::End(e) => {
                if e > 0 {
                    return Err(Error::InvalidInput);
                }
                if e == i64::MIN {
                    return Err(Error::InvalidInput);
                }
                let neg = (-e) as u64;
                if neg > size as u64 {
                    return Err(Error::InvalidInput);
                }
                size - (neg as u32)
            },
            SeekFrom::Current(c) => {
                if c >= 0 {
                    if (c as u64) > ((size - self.absolute_offset) as u64) {
                        return Err(Error::InvalidInput);
                    }
                    self.absolute_offset + (c as u32)
                } else {
                    if c == i64::MIN {
                        return Err(Error::InvalidInput);
                    }
                    let neg = (-c) as u64;
                    if neg > self.absolute_offset as u64 {
                        return Err(Error::InvalidInput);
                    }
                    self.absolute_offset - (neg as u32)
                }
            },
        };
        let cs = fs.cluster_size();
        let mut curr = self.start_cluster;
        let mut coff: u64 = 0;
        let ghost start = self.start_cluster.0 as int;
        proof {
            vstd::arithmetic::div_mod::lemma_fundamental_div_mod_converse(0, cs as int, 0, 0);
        }
        while coff + (cs as u64) <= target as u64
            invariant
                old(fs).wf(),
                fs.wf(),
                fs.model() == m,
                m == old(fs).model(),
                *self == *old(self),
                cs as int == m.cluster_size(),
                512 <= cs <= 0xFFFFFF,
                start == self.start_cluster.0 as int,
                size == self.file_size,
                target <= self.file_size,
                spec_seek_target(
                    pos,
                    old(self).absolute_offset as int,
                    old(self).file_size as int,
                ) == target as int,
                coff <= target,
                coff as int % (cs as int) == 0,
                coff as int / (cs as int) * (cs as int) == coff,
                m.walk(start, (coff as int / (cs as int)) as nat) == Some(curr.0 as int),
            decreases target as int - coff,
        {
            let fe = match fs.fat_entry(curr) {
                Ok(f) => f,
                Err(e) => {
                    return Err(e);
                },
            };
            match fe.status() {
                Status::Eoc(raw) => {
                    proof {
                        let k = coff as int / (cs as int);
                        assert((coff as int + cs as int) == (k + 1) * (cs as int))
                            by (nonlinear_arith)
                            requires
                                k * (cs as int) == coff as int,
                        ;
                    }
                    if coff + (cs as u64) == target as u64 && target == size {
                        // The target is the first byte past the last
                        // full cluster: tolerated exactly at the end of
                        // the file.
                        proof {
                            let k = coff as int / (cs as int);
                            lemma_fundamental_div_mod_converse(
                                target as int,
                                cs as int,
                                k + 1,
                                0,
                            );
                        }
                        self.absolute_offset = target;
                        self.curr_cluster = curr;
                        return Ok(target as u64);
                    }
                    proof {
                        let k = coff as int / (cs as int);
                        assert(walk_eoc(m, start, k as nat));
                        assert((k as nat + 1) * m.cluster_size() < self.file_size);
                        assert(chain_ends_before(m, start, self.file_size as int));
                    }
                    return Err(Error::UnexpectedEof);
                },
                Status::Data(next) => {
                    proof {
                        let k = coff as int / (cs as int);
                        lemma_walk_step(m, start, k as nat, curr.0 as int, next.0 as int);
                        assert((coff as int + cs as int) == (k + 1) * (cs as int))
                            by (nonlinear_arith)
                            requires
                                k * (cs as int) == coff as int,
                        ;
                        lemma_fundamental_div_mod_converse(
                            coff as int + cs as int,
                            cs as int,
                            k + 1,
                            0,
                        );
                    }
                    curr = next;
                    coff = coff + (cs as u64);
                },
                _ => {
                    proof {
                        let k = coff as int / (cs as int);
                        assert(walk_bad(m, start, k as nat));
                        assert(k * (cs as int) < self.file_size);
                        assert(chain_flaw_within(m, start, self.file_size as int));
                    }
                    return Err(Error::InvalidData);
                },
            }
        }
        proof {
            let k = coff as int / (cs as int);
            lemma_fundamental_div_mod_converse(
                target as int,
                cs as int,
                k,
                target as int - coff as int,
            );
        }
        self.absolute_offset = target;
        self.curr_cluster = curr;
        Ok(target as u64)
    }

    /// The write path is defined but unconditionally refused: this
    /// driver is read-only.
    pub fn write<T: BlockDevice>(&mut self, fs: &mut VFat<T>, buf: &Vec<u8>) -> (r: Result<
        usize,
        Error,
    >)
        ensures
            r == Result::<usize, Error>::Err(Error::NotImplemented),
            *final(self) == *old(self),
            *final(fs) == *old(fs),
    {
        Err(Error::NotImplemented)
    }

    /// Flushing is part of the write path and unconditionally refused.
    pub fn flush<T: BlockDevice>(&mut self, fs: &mut VFat<T>) -> (r: Result<(), Error>)
        ensures
            r == Result::<(), Error>::Err(Error::NotImplemented),
            *final(self) == *old(self),
            *final(fs) == *old(fs),
    {
        Err(Error::NotImplemented)
    }

    /// Synchronising on-disk state is part of the write path and
    /// unconditionally refused.
    pub fn sync<T: BlockDevice>(&mut self, fs: &mut VFat<T>) -> (r: Result<(), Error>)
        ensures
            r == Result::<(), Error>::Err(Error::NotImplemented),
            *final(self) == *old(self),
            *final(fs) == *old(fs),
    {
        Err(Error::NotImplemented)
    }
}

} // verus!
