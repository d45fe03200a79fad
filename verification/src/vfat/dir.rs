//! The directory decoder: fixed 32-byte records, long-filename
//! reconstruction from reversed fragment runs, iteration and
//! case-insensitive lookup.

use vstd::prelude::*;

use crate::bytes::{spec_le16, spec_le32};
use crate::device::BlockDevice;
use crate::error::Error;
use crate::text::{char_from_u32, is_scalar_value, push_char};
use vstd::string::StrSliceExecFns;
use crate::vfat::entry::Entry;
use crate::vfat::fat::{Cluster, Status};
use crate::vfat::file::File;
use crate::vfat::metadata::{spec_lfn, Attributes, Date, Metadata, Time, Timestamp};
use crate::vfat::model::{chain_cap, chain_content, chain_defect, is_chain, FsModel};
use crate::vfat::vfat::VFat;

verus! {

/// The ID byte of record `j`: byte 0 of the record. `0x00` ends the
/// directory, `0xE5` marks a deleted entry.
pub open spec fn rec_id(b: Seq<u8>, j: int) -> u8 {
    b[32 * j]
}

/// The attribute byte of record `j`: byte 11 of the record.
pub open spec fn rec_attrs(b: Seq<u8>, j: int) -> u8 {
    b[32 * j + 11]
}

/// Whether a 16-bit name unit ends a long-name fragment early.
pub open spec fn lfn_term(u: u16) -> bool {
    u == 0 || u == 0xFFFF
}

/// The index of the first terminating unit, or the length if none
/// terminates.
pub open spec fn first_lfn_term(us: Seq<u16>) -> int
    decreases us.len(),
{
    if us.len() == 0 {
        0
    } else if lfn_term(us[0]) {
        0
    } else {
        1 + first_lfn_term(us.skip(1))
    }
}

/// What `first_lfn_term` finds: the earliest terminator.
pub proof fn lemma_first_lfn_term(us: Seq<u16>)
    ensures
        0 <= first_lfn_term(us) <= us.len(),
        forall|k: int| 0 <= k < first_lfn_term(us) ==> !lfn_term(#[trigger] us[k]),
        first_lfn_term(us) < us.len() ==> lfn_term(us[first_lfn_term(us)]),
    decreases us.len(),
{
    if us.len() > 0 && !lfn_term(us[0]) {
        lemma_first_lfn_term(us.skip(1));
        assert forall|k: int| 0 <= k < first_lfn_term(us) implies !lfn_term(#[trigger] us[k]) by {
            if k > 0 {
                assert(us.skip(1)[k - 1] == us[k]);
            }
        }
        if first_lfn_term(us) < us.len() {
            assert(us.skip(1)[first_lfn_term(us.skip(1))] == us[first_lfn_term(us)]);
        }
    }
}

/// Whether a byte ends an 8.3 name field early.
pub open spec fn name_term(c: u8) -> bool {
    c == 0 || c == 0x20
}

/// The index of the first terminating byte, or the length if none
/// terminates.
pub open spec fn first_name_term(bs: Seq<u8>) -> int
    decreases bs.len(),
{
    if bs.len() == 0 {
        0
    } else if name_term(bs[0]) {
        0
    } else {
        1 + first_name_term(bs.skip(1))
    }
}

/// What `first_name_term` finds: the earliest terminator.
pub proof fn lemma_first_name_term(bs: Seq<u8>)
    ensures
        0 <= first_name_term(bs) <= bs.len(),
        forall|k: int| 0 <= k < first_name_term(bs) ==> !name_term(#[trigger] bs[k]),
        first_name_term(bs) < bs.len() ==> name_term(bs[first_name_term(bs)]),
    decreases bs.len(),
{
    if bs.len() > 0 && !name_term(bs[0]) {
        lemma_first_name_term(bs.skip(1));
        assert forall|k: int| 0 <= k < first_name_term(bs) implies !name_term(#[trigger] bs[k]) by {
            if k > 0 {
                assert(bs.skip(1)[k - 1] == bs[k]);
            }
        }
        if first_name_term(bs) < bs.len() {
            assert(bs.skip(1)[first_name_term(bs.skip(1))] == bs[first_name_term(bs)]);
        }
    }
}

/// The byte offset, inside a long-name record, of name unit `i` of 13:
/// five units at offset 1, six at offset 14, two at offset 28.
pub open spec fn lfn_unit_off(i: int) -> int {
    if i < 5 {
        1 + 2 * i
    } else if i < 11 {
        14 + 2 * (i - 5)
    } else {
        28 + 2 * (i - 11)
    }
}

/// The 13 raw name units of long-name record `j`.
pub open spec fn frag_units_raw(b: Seq<u8>, j: int) -> Seq<u16> {
    Seq::new(13, |i: int| spec_le16(b, 32 * j + lfn_unit_off(i)))
}

/// The name units record `j` contributes: its 13 units cut at the
/// first terminator.
pub open spec fn frag_units(b: Seq<u8>, j: int) -> Seq<u16> {
    frag_units_raw(b, j).take(first_lfn_term(frag_units_raw(b, j)))
}

/// The units of the fragment run covering records `[lo, hi)`, read
/// highest record first: fragments are stored highest-position-first
/// and are consumed in reverse to yield the name left to right.
pub open spec fn run_units(b: Seq<u8>, lo: int, hi: int) -> Seq<u16>
    decreases hi - lo,
{
    if hi <= lo {
        Seq::empty()
    } else {
        frag_units(b, hi - 1) + run_units(b, lo, hi - 1)
    }
}

/// A fragment run grows downwards one record at a time.
pub proof fn lemma_run_units_snoc(b: Seq<u8>, lo: int, hi: int)
    requires
        lo <= hi,
    ensures
        run_units(b, lo - 1, hi) == run_units(b, lo, hi) + frag_units(b, lo - 1),
    decreases hi - lo,
{
    if hi == lo {
        assert(run_units(b, lo - 1, lo - 1) =~= Seq::<u16>::empty());
        assert(run_units(b, lo - 1, hi) =~= run_units(b, lo, hi) + frag_units(b, lo - 1));
    } else {
        lemma_run_units_snoc(b, lo, hi - 1);
        assert(run_units(b, lo - 1, hi) =~= run_units(b, lo, hi) + frag_units(b, lo - 1));
    }
}

/// Every unit of a sequence is a Unicode scalar value.
pub open spec fn units_valid(us: Seq<u16>) -> bool {
    forall|i: int| 0 <= i < us.len() ==> is_scalar_value(#[trigger] us[i] as u32)
}

/// The declared position of the fragment run starting at record `j`:
/// the low five bits of its sequence number.
pub open spec fn run_pos(b: Seq<u8>, j: int) -> int {
    (rec_id(b, j) & 0x1F) as int
}

/// Whether a well-formed long-name run starts at record `j` of `n`:
/// the first physical fragment carries bit 6 and the highest position,
/// the fragments below it count down to position 1 and all carry the
/// long-name attribute pattern, and the run is immediately followed by
/// exactly one regular record.
pub open spec fn run_ok(b: Seq<u8>, n: int, j: int) -> bool {
    let pos = run_pos(b, j);
    &&& rec_id(b, j) & 0x40 != 0
    &&& 1 <= pos
    &&& j + pos < n
    &&& forall|t: int|
        0 <= t < pos ==> spec_lfn(#[trigger] rec_attrs(b, j + pos - 1 - t)) && (rec_id(
            b,
            j + pos - 1 - t,
        ) & 0x1F) as int == t + 1
    &&& rec_id(b, j + pos) != 0
    &&& rec_id(b, j + pos) != 0xE5
    &&& !spec_lfn(rec_attrs(b, j + pos))
}

/// The displayed 8.3 name bytes: the name cut at its first terminator,
/// then a dot and the extension cut the same way, the dot and
/// extension omitted when the extension is empty.
pub open spec fn spec_short_display(name: Seq<u8>, ext: Seq<u8>) -> Seq<u8> {
    let n = name.take(first_name_term(name));
    let e = ext.take(first_name_term(ext));
    if e.len() == 0 {
        n
    } else {
        n + seq![46u8] + e
    }
}

/// Whether an 8.3 name decodes: non-empty, and every displayed byte
/// plain ASCII.
pub open spec fn spec_short_ok(name: Seq<u8>, ext: Seq<u8>) -> bool {
    &&& first_name_term(name) > 0
    &&& forall|k: int|
        0 <= k < spec_short_display(name, ext).len() ==> #[trigger] spec_short_display(
            name,
            ext,
        )[k] < 0x80
}

/// One decoded directory entry, at the level of the on-disk numbers:
/// the name units, the raw attribute and timestamp fields, the first
/// cluster and the size.
pub ghost struct DirEntryModel {
    /// The long name's units, when a fragment run preceded the record.
    pub long_units: Option<Seq<u16>>,
    /// The displayed 8.3 name bytes.
    pub short_bytes: Seq<u8>,
    pub attrs: u8,
    pub created_time: u16,
    pub created_date: u16,
    pub created_in_10ms: u8,
    pub accessed_date: u16,
    pub modified_time: u16,
    pub modified_date: u16,
    pub first_cluster: u32,
    pub size: u32,
}

/// The name an entry is looked up under: its long-name units, or its
/// 8.3 bytes widened to units.
pub open spec fn name_units(d: DirEntryModel) -> Seq<u16> {
    match d.long_units {
        Some(us) => us,
        None => Seq::new(d.short_bytes.len(), |i: int| d.short_bytes[i] as u16),
    }
}

/// The regular record `j`, decoded field by field, carrying `long` as
/// its long-name units.
pub open spec fn spec_regular_model(b: Seq<u8>, j: int, long: Option<Seq<u16>>) -> DirEntryModel {
    DirEntryModel {
        long_units: long,
        short_bytes: spec_short_display(
            b.subrange(32 * j, 32 * j + 8),
            b.subrange(32 * j + 8, 32 * j + 11),
        ),
        attrs: b[32 * j + 11],
        created_time: spec_le16(b, 32 * j + 14),
        created_date: spec_le16(b, 32 * j + 16),
        created_in_10ms: b[32 * j + 13],
        accessed_date: spec_le16(b, 32 * j + 18),
        modified_time: spec_le16(b, 32 * j + 22),
        modified_date: spec_le16(b, 32 * j + 24),
        first_cluster: (spec_le16(b, 32 * j + 26) + spec_le16(b, 32 * j + 20) * 0x10000) as u32,
        size: spec_le32(b, 32 * j + 28),
    }
}

/// The metadata a decoded record carries: creation date, time and
/// 10-millisecond field; access date with a zero time; modification
/// date and time.
pub open spec fn spec_metadata(d: DirEntryModel) -> Metadata {
    Metadata {
        attributes: Attributes(d.attrs),
        created: Timestamp {
            date: Date(d.created_date),
            time: Time(d.created_time),
            additional_in_10ms: d.created_in_10ms,
        },
        accessed: Timestamp { date: Date(d.accessed_date), time: Time(0), additional_in_10ms: 0 },
        modified: Timestamp {
            date: Date(d.modified_date),
            time: Time(d.modified_time),
            additional_in_10ms: 0,
        },
    }
}

/// A string spells a unit sequence: same length, same code points.
pub open spec fn str_decodes_units(s: Seq<char>, us: Seq<u16>) -> bool {
    &&& s.len() == us.len()
    &&& forall|i: int| 0 <= i < s.len() ==> (#[trigger] s[i]) as u32 == us[i] as u32
}

/// A string spells a byte sequence: same length, same code points.
pub open spec fn str_decodes_bytes(s: Seq<char>, bs: Seq<u8>) -> bool {
    &&& s.len() == bs.len()
    &&& forall|i: int| 0 <= i < s.len() ==> (#[trigger] s[i]) as u32 == bs[i] as u32
}

/// How an executable `Entry` realises a decoded record: same kind by
/// the directory attribute bit, names spelling the decoded units,
/// exactly the decoded metadata, cluster and size, and a fresh cursor
/// for files.
pub open spec fn entry_matches(e: Entry, d: DirEntryModel) -> bool {
    match e {
        Entry::File(f) => {
            &&& d.attrs & 0x10 == 0
            &&& f.metadata == spec_metadata(d)
            &&& f.file_size == d.size
            &&& f.start_cluster.0 == d.first_cluster
            &&& f.absolute_offset == 0
            &&& f.curr_cluster == f.start_cluster
            &&& (f.long_name is Some <==> d.long_units is Some)
            &&& (f.long_name is Some ==> str_decodes_units(f.long_name->0@, d.long_units->0))
            &&& str_decodes_bytes(f.short_name@, d.short_bytes)
        },
        Entry::Dir(dd) => {
            &&& d.attrs & 0x10 != 0
            &&& dd.metadata == spec_metadata(d)
            &&& dd.start_cluster.0 == d.first_cluster
            &&& (dd.long_name is Some <==> d.long_units is Some)
            &&& (dd.long_name is Some ==> str_decodes_units(dd.long_name->0@, d.long_units->0))
            &&& str_decodes_bytes(dd.short_name@, d.short_bytes)
        },
    }
}

/// A sequence of entries realises a sequence of decoded records, one
/// for one, in order.
pub open spec fn entries_match(es: Seq<Entry>, ds: Seq<DirEntryModel>) -> bool {
    &&& es.len() == ds.len()
    &&& forall|i: int| 0 <= i < es.len() ==> entry_matches(#[trigger] es[i], ds[i])
}

/// The decoded entries of a directory byte stream, from record `j` on:
/// a `0x00` ID ends the stream, `0xE5` records are skipped, a
/// long-name attribute pattern opens a fragment run that must be
/// followed by one regular record, and every other record is a regular
/// entry on its own. `None` when the stream is malformed: a broken
/// fragment run, a name unit outside the scalar range, or an 8.3 name
/// that is empty or not ASCII.
pub open spec fn spec_entries(b: Seq<u8>, j: int) -> Option<Seq<DirEntryModel>>
    decreases b.len() as int / 32 - j,
{
    let n = b.len() as int / 32;
    if j < 0 || j >= n {
        Some(Seq::empty())
    } else if rec_id(b, j) == 0 {
        Some(Seq::empty())
    } else if rec_id(b, j) == 0xE5 {
        spec_entries(b, j + 1)
    } else if spec_lfn(rec_attrs(b, j)) {
        let pos = run_pos(b, j);
        if run_ok(b, n, j) && units_valid(run_units(b, j, j + pos)) && spec_short_ok(
            b.subrange(32 * (j + pos), 32 * (j + pos) + 8),
            b.subrange(32 * (j + pos) + 8, 32 * (j + pos) + 11),
        ) {
            match spec_entries(b, j + pos + 1) {
                Some(rest) => Some(
                    seq![spec_regular_model(b, j + pos, Some(run_units(b, j, j + pos)))] + rest,
                ),
                None => None,
            }
        } else {
            None
        }
    } else {
        if spec_short_ok(b.subrange(32 * j, 32 * j + 8), b.subrange(32 * j + 8, 32 * j + 11)) {
            match spec_entries(b, j + 1) {
                Some(rest) => Some(seq![spec_regular_model(b, j, None)] + rest),
                None => None,
            }
        } else {
            None
        }
    }
}

/// An 8.3-style regular directory record, decoded by fixed offsets.
#[derive(Debug)]
pub struct VFatRegularDirEntry {
    /// The eight raw name bytes.
    pub file_name: Vec<u8>,
    /// The three raw extension bytes.
    pub file_ext: Vec<u8>,
    pub attributes: Attributes,
    pub created_in_10ms: u8,
    pub created_time: Time,
    pub created_date: Date,
    pub accessed_date: Date,
    /// The high 16 bits of the first cluster number.
    pub first_cluster_high: u16,
    pub modified_time: Time,
    pub modified_date: Date,
    /// The low 16 bits of the first cluster number.
    pub first_cluster_low: u16,
    pub file_size: u32,
}

/// A long-filename fragment record, decoded by fixed offsets.
#[derive(Debug)]
pub struct VFatLfnDirEntry {
    /// Bit 6 marks the first physical fragment; the low five bits give
    /// the 1-based position.
    pub sequence_number: u8,
    /// The fragment's name units, cut at the first terminator.
    pub units: Vec<u16>,
    pub attributes: Attributes,
    pub entry_type: u8,
    /// The checksum of the 8.3 name, carried but not verified here.
    pub checksum: u8,
}

/// The two bytes every record shape shares: the leading ID byte and
/// the attribute byte, enough to decide which shape applies.
#[derive(Copy, Clone, Debug, PartialEq, Eq, Structural)]
pub struct VFatUnknownDirEntry {
    pub id: u8,
    pub attributes: Attributes,
}

/// Reads the ID and attribute bytes of record `j`.
pub fn decode_unknown(buf: &Vec<u8>, j: usize) -> (r: VFatUnknownDirEntry)
    requires
        32 * j + 32 <= buf@.len(),
    ensures
        r.id == rec_id(buf@, j as int),
        r.attributes.0 == rec_attrs(buf@, j as int),
{
    // Materializes the vector length so the record offsets are visibly
    // in bounds.
    let n = buf.len();
    VFatUnknownDirEntry { id: buf[32 * j], attributes: Attributes(buf[32 * j + 11]) }
}

/// Decodes record `j` as a regular 8.3 entry.
pub fn decode_regular(buf: &Vec<u8>, j: usize) -> (r: VFatRegularDirEntry)
    requires
        32 * j + 32 <= buf@.len(),
    ensures
        r.file_name@ == buf@.subrange(32 * j, 32 * j + 8),
        r.file_ext@ == buf@.subrange(32 * j + 8, 32 * j + 11),
        r.attributes.0 == rec_attrs(buf@, j as int),
        r.created_in_10ms == buf@[32 * j + 13],
        r.created_time.0 == spec_le16(buf@, 32 * j + 14),
        r.created_date.0 == spec_le16(buf@, 32 * j + 16),
        r.accessed_date.0 == spec_le16(buf@, 32 * j + 18),
        r.first_cluster_high == spec_le16(buf@, 32 * j + 20),
        r.modified_time.0 == spec_le16(buf@, 32 * j + 22),
        r.modified_date.0 == spec_le16(buf@, 32 * j + 24),
        r.first_cluster_low == spec_le16(buf@, 32 * j + 26),
        r.file_size == spec_le32(buf@, 32 * j + 28),
{
    // Materializes the vector length so the record offsets are visibly
    // in bounds.
    let n = buf.len();
    let base = 32 * j;
    VFatRegularDirEntry {
        file_name: crate::bytes::copy_bytes(buf, base, 8),
        file_ext: crate::bytes::copy_bytes(buf, base + 8, 3),
        attributes: Attributes(buf[base + 11]),
        created_in_10ms: buf[base + 13],
        created_time: Time(crate::bytes::read_le16(buf, base + 14)),
        created_date: Date(crate::bytes::read_le16(buf, base + 16)),
        accessed_date: Date(crate::bytes::read_le16(buf, base + 18)),
        first_cluster_high: crate::bytes::read_le16(buf, base + 20),
        modified_time: Time(crate::bytes::read_le16(buf, base + 22)),
        modified_date: Date(crate::bytes::read_le16(buf, base + 24)),
        first_cluster_low: crate::bytes::read_le16(buf, base + 26),
        file_size: crate::bytes::read_le32(buf, base + 28),
    }
}

/// Decodes record `j` as a long-filename fragment, its units cut at
/// the first terminator.
pub fn decode_lfn(buf: &Vec<u8>, j: usize) -> (r: VFatLfnDirEntry)
    requires
        32 * j + 32 <= buf@.len(),
    ensures
        r.sequence_number == rec_id(buf@, j as int),
        r.attributes.0 == rec_attrs(buf@, j as int),
        r.entry_type == buf@[32 * j + 12],
        r.checksum == buf@[32 * j + 13],
        r.units@ == frag_units(buf@, j as int),
{
    // Materializes the vector length so the record offsets are visibly
    // in bounds.
    let n = buf.len();
    let base = 32 * j;
    let mut raw: Vec<u16> = Vec::new();
    let mut i: usize = 0;
    while i < 13
        invariant
            0 <= i <= 13,
            32 * j + 32 <= buf@.len(),
            base == 32 * j,
            raw@.len() == i,
            forall|k: int| 0 <= k < i ==> #[trigger] raw@[k] == frag_units_raw(buf@, j as int)[k],
        decreases 13 - i,
    {
        let off = if i < 5 {
            1 + 2 * i
        } else if i < 11 {
            14 + 2 * (i - 5)
        } else {
            28 + 2 * (i - 11)
        };
        raw.push(crate::bytes::read_le16(buf, base + off));
        i = i + 1;
    }
    proof {
        assert(raw@ =~= frag_units_raw(buf@, j as int));
    }
    let mut term: usize = 13;
    let mut t: usize = 0;
    let mut found: bool = false;
    while t < 13
        invariant
            0 <= t <= 13,
            raw@ == frag_units_raw(buf@, j as int),
            raw@.len() == 13,
            !found ==> term == 13 && forall|k: int| 0 <= k < t ==> !lfn_term(#[trigger] raw@[k]),
            found ==> 0 <= term < 13 && term <= t && lfn_term(raw@[term as int]) && forall|k: int|
                0 <= k < term ==> !lfn_term(#[trigger] raw@[k]),
        decreases 13 - t,
    {
        if !found && (raw[t] == 0 || raw[t] == 0xFFFF) {
            term = t;
            found = true;
        }
        t = t + 1;
    }
    proof {
        lemma_first_lfn_term(raw@);
        if found {
            assert(term as int == first_lfn_term(raw@));
        } else {
            assert(first_lfn_term(raw@) == 13);
        }
    }
    let mut units = raw;
    units.truncate(term);
    proof {
        assert(units@ =~= frag_units(buf@, j as int));
    }
    VFatLfnDirEntry {
        sequence_number: buf[base],
        units,
        attributes: Attributes(buf[base + 11]),
        entry_type: buf[base + 12],
        checksum: buf[base + 13],
    }
}

/// Builds a `String` from name units, one character per unit. Fails
/// with `InvalidData` exactly when a unit is not a Unicode scalar
/// value.
pub fn build_long_name(units: &Vec<u16>) -> (r: Result<String, Error>)
    ensures
        match r {
            Ok(s) => units_valid(units@) && str_decodes_units(s@, units@),
            Err(e) => e is InvalidData && !units_valid(units@),
        },
{
    let mut s = String::new();
    let mut i: usize = 0;
    while i < units.len()
        invariant
            0 <= i <= units@.len(),
            s@.len() == i,
            forall|k: int| 0 <= k < i ==> (#[trigger] s@[k]) as u32 == units@[k] as u32,
            forall|k: int| 0 <= k < i ==> is_scalar_value(#[trigger] units@[k] as u32),
        decreases units@.len() - i,
    {
        let u = units[i];
        match char_from_u32(u as u32) {
            Some(c) => {
                push_char(&mut s, c);
            },
            None => {
                return Err(Error::InvalidData);
            },
        }
        i = i + 1;
    }
    Ok(s)
}

/// Builds the displayed 8.3 name from the raw name and extension
/// bytes: each cut at its first `0x00` or space, joined with a dot
/// when the extension is non-empty. Fails with `InvalidData` exactly
/// when the name is empty or a displayed byte is not ASCII.
pub fn build_short_name(name: &Vec<u8>, ext: &Vec<u8>) -> (r: Result<String, Error>)
    requires
        name@.len() == 8,
        ext@.len() == 3,
    ensures
        match r {
            Ok(s) => spec_short_ok(name@, ext@) && str_decodes_bytes(
                s@,
                spec_short_display(name@, ext@),
            ),
            Err(e) => e is InvalidData && !spec_short_ok(name@, ext@),
        },
{
    let nlen = scan_name_term(name);
    let elen = scan_name_term(ext);
    if nlen == 0 {
        return Err(Error::InvalidData);
    }
    let ghost disp = spec_short_display(name@, ext@);
    proof {
        lemma_first_name_term(name@);
        lemma_first_name_term(ext@);
        if elen == 0 {
            assert(disp =~= name@.take(nlen as int));
        } else {
            assert(disp =~= name@.take(nlen as int) + seq![46u8] + ext@.take(elen as int));
        }
    }
    let mut s = String::new();
    let mut i: usize = 0;
    while i < nlen
        invariant
            0 <= i <= nlen,
            name@.len() == 8,
            ext@.len() == 3,
            nlen as int == first_name_term(name@),
            elen as int == first_name_term(ext@),
            0 < nlen <= name@.len(),
            elen <= ext@.len(),
            disp == spec_short_display(name@, ext@),
            s@.len() == i,
            forall|k: int| 0 <= k < i ==> (#[trigger] s@[k]) as u32 == name@[k] as u32,
            forall|k: int| 0 <= k < i ==> name@[k] < 0x80,
        decreases nlen - i,
    {
        let c = name[i];
        if c >= 0x80 {
            proof {
                assert(disp[i as int] == name@[i as int]);
            }
            return Err(Error::InvalidData);
        }
        match char_from_u32(c as u32) {
            Some(ch) => {
                push_char(&mut s, ch);
            },
            None => {
                proof {
                    assert(false);
                }
                return Err(Error::InvalidData);
            },
        }
        i = i + 1;
    }
    if elen > 0 {
        match char_from_u32(46) {
            Some(dot) => {
                push_char(&mut s, dot);
            },
            None => {
                proof {
                    assert(false);
                }
                return Err(Error::InvalidData);
            },
        }
        let mut t: usize = 0;
        while t < elen
            invariant
                0 <= t <= elen,
                name@.len() == 8,
                ext@.len() == 3,
                nlen as int == first_name_term(name@),
                elen as int == first_name_term(ext@),
                0 < elen <= ext@.len(),
                0 < nlen <= name@.len(),
                disp == spec_short_display(name@, ext@),
                s@.len() == nlen + 1 + t,
                forall|k: int| 0 <= k < nlen ==> (#[trigger] s@[k]) as u32 == name@[k] as u32,
                forall|k: int| 0 <= k < nlen ==> name@[k] < 0x80,
                s@[nlen as int] as u32 == 46,
                forall|k: int|
                    0 <= k < t ==> (#[trigger] s@[nlen + 1 + k]) as u32 == ext@[k] as u32,
                forall|k: int| 0 <= k < t ==> ext@[k] < 0x80,
            decreases elen - t,
        {
            let c = ext[t];
            if c >= 0x80 {
                proof {
                    assert(disp[nlen + 1 + t] == ext@[t as int]);
                }
                return Err(Error::InvalidData);
            }
            match char_from_u32(c as u32) {
                Some(ch) => {
                    push_char(&mut s, ch);
                },
                None => {
                    proof {
                        assert(false);
                    }
                    return Err(Error::InvalidData);
                },
            }
            t = t + 1;
        }
    }
    proof {
        if elen == 0 {
            assert forall|k: int| 0 <= k < disp.len() implies disp[k] < 0x80 by {
                assert(disp[k] == name@[k]);
            }
        } else {
            assert forall|k: int| 0 <= k < disp.len() implies disp[k] < 0x80 by {
                if k < nlen {
                    assert(disp[k] == name@[k]);
                } else if k == nlen {
                    assert(disp[k] == 46);
                } else {
                    assert(disp[k] == ext@[k - nlen - 1]);
                }
            }
        }
        assert(s@.len() == disp.len());
        assert forall|k: int| 0 <= k < s@.len() implies (#[trigger] s@[k]) as u32 == disp[k]
            as u32 by {
            if elen == 0 {
                assert(disp[k] == name@[k]);
            } else if k < nlen {
                assert(disp[k] == name@[k]);
            } else if k == nlen {
                assert(disp[k] == 46);
            } else {
                assert(disp[k] == ext@[k - nlen - 1]);
                let k2 = k - nlen - 1;
                assert((s@[nlen + 1 + k2]) as u32 == ext@[k2] as u32);
            }
        }
        assert(str_decodes_bytes(s@, disp));
    }
    Ok(s)
}

/// The length of the used part of an 8.3 name field: the index of its
/// first `0x00` or space byte, or the whole field.
fn scan_name_term(bs: &Vec<u8>) -> (r: usize)
    ensures
        r as int == first_name_term(bs@),
{
    let mut t: usize = 0;
    while t < bs.len()
        invariant
            0 <= t <= bs@.len(),
            forall|k: int| 0 <= k < t ==> !name_term(#[trigger] bs@[k]),
        decreases bs@.len() - t,
    {
        if bs[t] == 0 || bs[t] == 0x20 {
            proof {
                lemma_first_name_term(bs@);
            }
            return t;
        }
        t = t + 1;
    }
    proof {
        lemma_first_name_term(bs@);
    }
    bs.len()
}

/// A directory handle: its names, metadata and start cluster. The
/// mounted volume is passed to each operation rather than stored in
/// the handle.
#[derive(Debug)]
pub struct Dir {
    /// The reconstructed long name, when the parent directory carried
    /// one.
    pub long_name: Option<String>,
    /// The 8.3 name from the regular directory entry.
    pub short_name: String,
    pub metadata: Metadata,
    /// The first cluster of the directory's own entry chain.
    pub start_cluster: Cluster,
}

impl Dir {
    /// The displayed name: the long name when one exists, else the 8.3
    /// name.
    pub open spec fn spec_name(&self) -> Seq<char> {
        if self.long_name is Some {
            self.long_name->0@
        } else {
            self.short_name@
        }
    }

    /// The directory's effective name.
    pub fn name(&self) -> (r: &String)
        ensures
            r@ == self.spec_name(),
    {
        match &self.long_name {
            Some(n) => n,
            None => &self.short_name,
        }
    }
}


/// Builds the executable entry for regular record `j`, carrying
/// `long_name` when a fragment run preceded it. The directory
/// attribute bit decides between a file and a directory; a file's
/// cursor starts at offset zero on its first cluster.
fn regular_to_entry(
    buf: &Vec<u8>,
    j: usize,
    long_name: Option<String>,
    Ghost(long_units): Ghost<Option<Seq<u16>>>,
) -> (r: Result<Entry, Error>)
    requires
        32 * j + 32 <= buf@.len(),
        long_name is Some <==> long_units is Some,
        long_name is Some ==> str_decodes_units(long_name->0@, long_units->0),
    ensures
        match r {
            Ok(e) => spec_short_ok(
                buf@.subrange(32 * j, 32 * j + 8),
                buf@.subrange(32 * j + 8, 32 * j + 11),
            ) && entry_matches(e, spec_regular_model(buf@, j as int, long_units)),
            Err(e) => e is InvalidData && !spec_short_ok(
                buf@.subrange(32 * j, 32 * j + 8),
                buf@.subrange(32 * j + 8, 32 * j + 11),
            ),
        },
{
    let rec = decode_regular(buf, j);
    let short = match build_short_name(&rec.file_name, &rec.file_ext) {
        Ok(s) => s,
        Err(e) => {
            return Err(e);
        },
    };
    let meta = Metadata {
        attributes: rec.attributes,
        created: Timestamp {
            date: rec.created_date,
            time: rec.created_time,
            additional_in_10ms: rec.created_in_10ms,
        },
        accessed: Timestamp { date: rec.accessed_date, time: Time(0), additional_in_10ms: 0 },
        modified: Timestamp {
            date: rec.modified_date,
            time: rec.modified_time,
            additional_in_10ms: 0,
        },
    };
    let cluster = Cluster(
        (rec.first_cluster_low as u32) + (rec.first_cluster_high as u32) * 0x10000,
    );
    if rec.attributes.directory() {
        Ok(Entry::Dir(Dir { long_name, short_name: short, metadata: meta, start_cluster: cluster }))
    } else {
        Ok(
            Entry::File(
                File {
                    long_name,
                    short_name: short,
                    metadata: meta,
                    file_size: rec.file_size,
                    start_cluster: cluster,
                    absolute_offset: 0,
                    curr_cluster: cluster,
                },
            ),
        )
    }
}

/// Decodes a whole directory byte stream into entries, exactly as
/// `spec_entries` describes: succeeds exactly when the stream is well
/// formed from its first record to its end marker or its end.
pub fn decode_entries(buf: &Vec<u8>) -> (r: Result<Vec<Entry>, Error>)
    ensures
        r is Ok <==> spec_entries(buf@, 0) is Some,
        r matches Ok(v) ==> entries_match(v@, spec_entries(buf@, 0)->0),
        r matches Err(e) ==> e is InvalidData,
{
    let nrecs = buf.len() / 32;
    proof {
        vstd::arithmetic::div_mod::lemma_fundamental_div_mod(buf@.len() as int, 32);
        vstd::arithmetic::div_mod::lemma_mod_bound(buf@.len() as int, 32);
    }
    let mut acc: Vec<Entry> = Vec::new();
    let ghost mut gacc: Seq<DirEntryModel> = Seq::empty();
    let mut j: usize = 0;
    proof {
        if spec_entries(buf@, 0) is Some {
            assert(gacc + spec_entries(buf@, 0)->0 =~= spec_entries(buf@, 0)->0);
        }
    }
    while j < nrecs
        invariant
            0 <= j <= nrecs,
            nrecs as int == buf@.len() as int / 32,
            32 * (nrecs as int) <= buf@.len(),
            entries_match(acc@, gacc),
            spec_entries(buf@, j as int) is Some ==> spec_entries(buf@, 0) == Some(
                gacc + spec_entries(buf@, j as int)->0,
            ),
            spec_entries(buf@, j as int) is None ==> spec_entries(buf@, 0) is None,
        decreases nrecs - j,
    {
        let ghost b = buf@;
        let ghost n = nrecs as int;
        let u = decode_unknown(buf, j);
        if u.id == 0x00 {
            proof {
                assert(spec_entries(b, j as int) == Some(Seq::<DirEntryModel>::empty()));
                assert(gacc + Seq::<DirEntryModel>::empty() =~= gacc);
            }
            return Ok(acc);
        }
        if u.id == 0xE5 {
            proof {
                assert(spec_entries(b, j as int) == spec_entries(b, j + 1));
            }
            j = j + 1;
        } else if u.attributes.lfn() {
            let seqno = u.id;
            let pos = (seqno & 0x1F) as usize;
            proof {
                assert((seqno & 0x1F) < 32) by (bit_vector);
                assert(pos == run_pos(b, j as int));
            }
            if seqno & 0x40 == 0 || pos < 1 || pos >= nrecs - j {
                proof {
                    assert(!run_ok(b, n, j as int));
                    assert(spec_entries(b, j as int) is None);
                }
                return Err(Error::InvalidData);
            }
            let mut units: Vec<u16> = Vec::new();
            let mut t: usize = 0;
            proof {
                assert(units@ =~= run_units(b, (j + pos) as int, (j + pos) as int));
            }
            while t < pos
                invariant
                    0 <= t <= pos,
                    1 <= pos,
                    j + pos < nrecs,
                    nrecs as int == b.len() as int / 32,
                    32 * (nrecs as int) <= b.len(),
                    b == buf@,
                    n == nrecs as int,
                    0 <= j < nrecs,
                    rec_id(b, j as int) != 0,
                    rec_id(b, j as int) != 0xE5,
                    spec_lfn(rec_attrs(b, j as int)),
                    rec_id(b, j as int) & 0x40 != 0,
                    pos as int == run_pos(b, j as int),
                    entries_match(acc@, gacc),
                    spec_entries(b, j as int) is Some ==> spec_entries(b, 0) == Some(
                        gacc + spec_entries(b, j as int)->0,
                    ),
                    spec_entries(b, j as int) is None ==> spec_entries(b, 0) is None,
                    units@ == run_units(b, (j + pos - t) as int, (j + pos) as int),
                    forall|tt: int|
                        0 <= tt < t ==> spec_lfn(#[trigger] rec_attrs(b, j + pos - 1 - tt)) && (
                        rec_id(b, j + pos - 1 - tt) & 0x1F) as int == tt + 1,
                decreases pos - t,
            {
                let idx = j + pos - 1 - t;
                let frag = decode_lfn(buf, idx);
                let frag_pos = (frag.sequence_number & 0x1F) as usize;
                if !frag.attributes.lfn() || frag_pos != t + 1 {
                    proof {
                        assert(!run_ok(b, n, j as int));
                        assert(spec_entries(b, j as int) is None);
                    }
                    return Err(Error::InvalidData);
                }
                let mut fu = frag.units;
                proof {
                    assert(idx as int == j + pos - 1 - t);
                    assert(spec_lfn(rec_attrs(b, j + pos - 1 - t)));
                    assert((rec_id(b, j + pos - 1 - t) & 0x1F) as int == t + 1);
                    lemma_run_units_snoc(b, (j + pos - t) as int, (j + pos) as int);
                }
                let ghost gathered = units@;
                units.append(&mut fu);
                proof {
                    assert(units@ == gathered + frag_units(b, idx as int));
                    assert(gathered + frag_units(b, (j + pos - t) as int - 1) == run_units(
                        b,
                        (j + pos - t) as int - 1,
                        (j + pos) as int,
                    ));
                    assert((j + pos - t) as int - 1 == (j + pos - (t + 1)) as int);
                }
                t = t + 1;
            }
            let u2 = decode_unknown(buf, j + pos);
            if u2.id == 0 || u2.id == 0xE5 || u2.attributes.lfn() {
                proof {
                    assert(!run_ok(b, n, j as int));
                    assert(spec_entries(b, j as int) is None);
                }
                return Err(Error::InvalidData);
            }
            proof {
                assert(run_ok(b, n, j as int));
            }
            let long = match build_long_name(&units) {
                Ok(s) => s,
                Err(e) => {
                    proof {
                        assert(spec_entries(b, j as int) is None);
                    }
                    return Err(Error::InvalidData);
                },
            };
            let e = match regular_to_entry(
                buf,
                j + pos,
                Some(long),
                Ghost(Some(run_units(b, j as int, (j + pos) as int))),
            ) {
                Ok(e) => e,
                Err(er) => {
                    proof {
                        assert(spec_entries(b, j as int) is None);
                    }
                    return Err(Error::InvalidData);
                },
            };
            let ghost d = spec_regular_model(
                b,
                (j + pos) as int,
                Some(run_units(b, j as int, (j + pos) as int)),
            );
            proof {
                let jj = j as int;
                let rest = spec_entries(b, jj + pos + 1);
                if rest is Some {
                    assert(spec_entries(b, jj) == Some(seq![d] + rest->0));
                    assert((gacc + seq![d]) + rest->0 =~= gacc + (seq![d] + rest->0));
                }
                let gacc0 = gacc;
                gacc = gacc.push(d);
                assert(gacc =~= gacc0 + seq![d]);
            }
            acc.push(e);
            j = j + pos + 1;
        } else {
            let e = match regular_to_entry(buf, j, None, Ghost(None)) {
                Ok(e) => e,
                Err(er) => {
                    proof {
                        assert(spec_entries(b, j as int) is None);
                    }
                    return Err(Error::InvalidData);
                },
            };
            let ghost d = spec_regular_model(b, j as int, None);
            proof {
                let jj = j as int;
                let rest = spec_entries(b, jj + 1);
                if rest is Some {
                    assert(spec_entries(b, jj) == Some(seq![d] + rest->0));
                    assert((gacc + seq![d]) + rest->0 =~= gacc + (seq![d] + rest->0));
                }
                let gacc0 = gacc;
                gacc = gacc.push(d);
                assert(gacc =~= gacc0 + seq![d]);
            }
            acc.push(e);
            j = j + 1;
        }
    }
    proof {
        assert(spec_entries(buf@, j as int) == Some(Seq::<DirEntryModel>::empty()));
        assert(gacc + Seq::<DirEntryModel>::empty() =~= gacc);
    }
    Ok(acc)
}


/// A directory byte stream that begins with the end-of-directory
/// marker decodes to no entries at all, whatever bytes trail it.
pub proof fn lemma_end_marker_yields_no_entries(b: Seq<u8>)
    requires
        b.len() >= 32,
        b[0] == 0,
    ensures
        spec_entries(b, 0) == Some(Seq::<DirEntryModel>::empty()),
{
    vstd::arithmetic::div_mod::lemma_fundamental_div_mod(b.len() as int, 32);
    vstd::arithmetic::div_mod::lemma_mod_bound(b.len() as int, 32);
    assert(b.len() as int / 32 >= 1);
    assert(rec_id(b, 0) == 0);
}


/// A directory's listing is unique: the FAT determines the chain and
/// the chain's bytes determine the decode.
pub proof fn lemma_listing_unique(
    m: FsModel,
    start: int,
    ds1: Seq<DirEntryModel>,
    ds2: Seq<DirEntryModel>,
)
    requires
        dir_listing_is(m, start, ds1),
        dir_listing_is(m, start, ds2),
    ensures
        ds1 == ds2,
{
    let ks1 = choose|ks: Seq<int>|
        is_chain(m, ks) && ks[0] == start && spec_entries(chain_content(m, ks), 0) == Some(ds1);
    let ks2 = choose|ks: Seq<int>|
        is_chain(m, ks) && ks[0] == start && spec_entries(chain_content(m, ks), 0) == Some(ds2);
    crate::vfat::model::lemma_chain_deterministic(m, ks1, ks2);
}

/// Only one listing index can be the first match.
pub proof fn lemma_found_at_unique(q: Seq<char>, ds: Seq<DirEntryModel>, i1: int, i2: int)
    requires
        found_at(q, ds, i1),
        found_at(q, ds, i2),
    ensures
        i1 == i2,
{
}

/// A decoded directory listing handed out entry by entry.
pub struct EntryIter {
    entries: Vec<Entry>,
}

impl EntryIter {
    /// The entries not yet handed out, in directory order.
    pub closed spec fn remaining(&self) -> Seq<Entry> {
        self.entries@
    }

    /// How many entries are left to hand out.
    pub fn len(&self) -> (r: usize)
        ensures
            r == self.remaining().len(),
    {
        self.entries.len()
    }

    /// Hands out the next entry, front to back.
    pub fn next_entry(&mut self) -> (r: Option<Entry>)
        ensures
            old(self).remaining().len() == 0 ==> r is None && final(self).remaining()
                == old(self).remaining(),
            old(self).remaining().len() > 0 ==> r == Some(old(self).remaining()[0])
                && final(self).remaining() == old(self).remaining().skip(1),
    {
        if self.entries.len() == 0 {
            None
        } else {
            let e = self.entries.remove(0);
            proof {
                assert(self.entries@ =~= old(self).entries@.skip(1));
            }
            Some(e)
        }
    }
}

/// The directory at cluster `c` has a whole chain, but the chain's
/// bytes do not decode as a directory.
pub open spec fn listing_undecodable(m: FsModel, c: int) -> bool {
    exists|ks: Seq<int>|
        #![auto]
        is_chain(m, ks) && ks[0] == c && spec_entries(chain_content(m, ks), 0) is None
}

/// Any on-disk shape that leaves the directory at cluster `c` without
/// a listing: a head status that is not data, a defective chain, or
/// chain bytes that do not decode.
pub open spec fn listing_defect(m: FsModel, c: int) -> bool {
    ||| !(m.cluster_status(c) is Data || m.cluster_status(c) is Eoc)
    ||| chain_defect(m, c, chain_cap(m))
    ||| listing_undecodable(m, c)
}

/// A cluster whose own status is not data heads no chain, so the
/// directory supposedly starting there has no listing at all.
pub proof fn lemma_no_listing_without_data(m: FsModel, c: int)
    requires
        !(m.cluster_status(c) is Data || m.cluster_status(c) is Eoc),
    ensures
        forall|ds: Seq<DirEntryModel>| !(#[trigger] dir_listing_is(m, c, ds)),
{
    assert forall|ds: Seq<DirEntryModel>| !(#[trigger] dir_listing_is(m, c, ds)) by {
        if dir_listing_is(m, c, ds) {
            let ks = choose|ks: Seq<int>|
                is_chain(m, ks) && ks[0] == c && spec_entries(chain_content(m, ks), 0) == Some(
                    ds,
                );
            if ks.len() == 1 {
                assert(ks.last() == c);
            } else {
                assert(m.cluster_status(ks[0]) matches Status::Data(n) && n.0 == ks[1]);
            }
        }
    }
}

/// A volume's directory listing `ds` for the directory starting at
/// cluster `start`: the decoded form of the full chain read from
/// `start`.
pub open spec fn dir_listing_is(m: FsModel, start: int, ds: Seq<DirEntryModel>) -> bool {
    exists|ks: Seq<int>|
        #[trigger] is_chain(m, ks) && ks[0] == start && spec_entries(chain_content(m, ks), 0)
            == Some(ds)
}

/// An ASCII upper-case code point folded to lower case; anything else
/// unchanged.
pub open spec fn lower32(c: u32) -> u32 {
    if 65 <= c <= 90 {
        (c + 32) as u32
    } else {
        c
    }
}

/// Case-insensitive equality between a query and an entry's name
/// units, folding only ASCII letters.
pub open spec fn eq_icase_units(q: Seq<char>, us: Seq<u16>) -> bool {
    &&& q.len() == us.len()
    &&& forall|i: int|
        0 <= i < q.len() ==> lower32((#[trigger] q[i]) as u32) == lower32(us[i] as u32)
}

/// No entry of the listing matches the query.
pub open spec fn no_match_in(q: Seq<char>, ds: Seq<DirEntryModel>) -> bool {
    forall|j: int| 0 <= j < ds.len() ==> !eq_icase_units(q, name_units(#[trigger] ds[j]))
}

/// The query matches entry `i` of the listing and no earlier one.
pub open spec fn found_at(q: Seq<char>, ds: Seq<DirEntryModel>, i: int) -> bool {
    &&& 0 <= i < ds.len()
    &&& eq_icase_units(q, name_units(ds[i]))
    &&& forall|j: int| 0 <= j < i ==> !eq_icase_units(q, name_units(#[trigger] ds[j]))
}

/// Folds an ASCII upper-case code point to lower case.
fn lower_code(c: u32) -> (r: u32)
    ensures
        r == lower32(c),
{
    if 65 <= c && c <= 90 {
        c + 32
    } else {
        c
    }
}

/// Case-insensitive string comparison folding only ASCII letters.
fn eq_ignore_ascii_case_str(a: &str, b: &str) -> (r: bool)
    ensures
        r == (a@.len() == b@.len() && forall|i: int|
            0 <= i < a@.len() ==> lower32((#[trigger] a@[i]) as u32) == lower32(b@[i] as u32)),
{
    let n = a.unicode_len();
    if n != b.unicode_len() {
        return false;
    }
    let mut i: usize = 0;
    while i < n
        invariant
            0 <= i <= n,
            n == a@.len(),
            n == b@.len(),
            forall|k: int| 0 <= k < i ==> lower32((#[trigger] a@[k]) as u32) == lower32(
                b@[k] as u32,
            ),
        decreases n - i,
    {
        let ca = a.get_char(i);
        let cb = b.get_char(i);
        if lower_code(ca as u32) != lower_code(cb as u32) {
            return false;
        }
        i = i + 1;
    }
    true
}

impl Dir {
    /// Reads the directory's whole cluster chain and decodes it into an
    /// iterator over its entries.
    pub fn entries<T: BlockDevice>(&self, fs: &mut VFat<T>) -> (r: Result<EntryIter, Error>)
        requires
            old(fs).wf(),
        ensures
            final(fs).wf(),
            final(fs).model() == old(fs).model(),
            match r {
                Ok(it) => exists|ds: Seq<DirEntryModel>|
                    {
                        &&& #[trigger] dir_listing_is(
                            old(fs).model(),
                            self.start_cluster.0 as int,
                            ds,
                        )
                        &&& entries_match(it.remaining(), ds)
                    },
                Err(e) => {
                    let m = old(fs).model();
                    let c = self.start_cluster.0 as int;
                    ||| e is Io
                    ||| (e is InvalidInput && !(m.cluster_status(c) is Data || m.cluster_status(
                        c,
                    ) is Eoc))
                    ||| (e is InvalidData && (chain_defect(m, c, chain_cap(m))
                        || listing_undecodable(m, c)))
                },
            },
    {
        let ghost m = fs.model();
        let buf = match fs.read_chain(self.start_cluster) {
            Ok(v) => v,
            Err(e) => {
                return Err(e);
            },
        };
        match decode_entries(&buf) {
            Ok(v) => {
                proof {
                    let ks = choose|ks: Seq<int>|
                        is_chain(m, ks) && ks[0] == self.start_cluster.0 as int && buf@
                            == chain_content(m, ks) && buf@.len() == ks.len() * m.cluster_size();
                    let ds = spec_entries(buf@, 0)->0;
                    assert(dir_listing_is(m, self.start_cluster.0 as int, ds));
                }
                Ok(EntryIter { entries: v })
            },
            Err(e) => {
                proof {
                    let ks = choose|ks: Seq<int>|
                        is_chain(m, ks) && ks[0] == self.start_cluster.0 as int && buf@
                            == chain_content(m, ks) && buf@.len() == ks.len() * m.cluster_size();
                    assert(spec_entries(chain_content(m, ks), 0) is None);
                    assert(listing_undecodable(m, self.start_cluster.0 as int));
                }
                Err(Error::InvalidData)
            },
        }
    }

    /// Finds the entry named `name`, comparing case-insensitively over
    /// ASCII letters, and returns the first match in directory order.
    /// Fails with `NotFound` when the whole listing holds no match, and
    /// with `InvalidInput` or `InvalidData` only when the directory has
    /// no readable, decodable listing at all.
    pub fn find<T: BlockDevice>(&self, fs: &mut VFat<T>, name: &str) -> (r: Result<Entry, Error>)
        requires
            old(fs).wf(),
        ensures
            final(fs).wf(),
            final(fs).model() == old(fs).model(),
            match r {
                Ok(e) => exists|ds: Seq<DirEntryModel>, i: int|
                    #![auto]
                    dir_listing_is(old(fs).model(), self.start_cluster.0 as int, ds) && found_at(
                        name@,
                        ds,
                        i,
                    ) && entry_matches(e, ds[i]),
                Err(er) => {
                    let m = old(fs).model();
                    let c = self.start_cluster.0 as int;
                    &&& (er is NotFound || er is Io || er is InvalidInput || er is InvalidData)
                    &&& (er is InvalidInput ==> !(m.cluster_status(c) is Data || m.cluster_status(
                        c,
                    ) is Eoc))
                    &&& (er is InvalidData ==> chain_defect(m, c, chain_cap(m))
                        || listing_undecodable(m, c))
                    &&& er is NotFound ==> exists|ds: Seq<DirEntryModel>|
                        {
                            &&& #[trigger] dir_listing_is(
                                old(fs).model(),
                                self.start_cluster.0 as int,
                                ds,
                            )
                            &&& no_match_in(name@, ds)
                        }
                },
            },
    {
        let ghost m = fs.model();
        let it = match self.entries(fs) {
            Ok(it) => it,
            Err(e) => {
                return Err(e);
            },
        };
        let ghost ds = choose|ds: Seq<DirEntryModel>|
            #[trigger] dir_listing_is(m, self.start_cluster.0 as int, ds) && entries_match(
                it.remaining(),
                ds,
            );
        let mut v = it;
        let mut i: usize = 0;
        let total = v.len();
        while i < total
            invariant
                old(fs).wf(),
                fs.wf(),
                fs.model() == m,
                m == old(fs).model(),
                dir_listing_is(m, self.start_cluster.0 as int, ds),
                entries_match(v.remaining(), ds.skip(i as int)),
                0 <= i <= ds.len(),
                total == ds.len(),
                v.remaining().len() == ds.len() - i,
                forall|j: int| 0 <= j < i ==> !eq_icase_units(name@, name_units(#[trigger] ds[j])),
            decreases ds.len() - i,
        {
            let ghost prev = v.remaining();
            let e = match v.next_entry() {
                Some(e) => e,
                None => {
                    proof {
                        assert(false);
                    }
                    return Err(Error::NotFound);
                },
            };
            let ghost d = ds[i as int];
            proof {
                assert(e == prev[0]);
                assert(entry_matches(e, d)) by {
                    assert(ds.skip(i as int)[0] == d);
                }
                assert(entries_match(v.remaining(), ds.skip(i + 1))) by {
                    assert forall|k: int| 0 <= k < prev.skip(1).len() implies entry_matches(
                        #[trigger] prev.skip(1)[k],
                        ds.skip(i + 1)[k],
                    ) by {
                        assert(prev.skip(1)[k] == prev[k + 1]);
                        assert(ds.skip(i + 1)[k] == ds.skip(i as int)[k + 1]);
                        assert(entry_matches(prev[k + 1], ds.skip(i as int)[k + 1]));
                    }
                }
            }
            let matched = eq_ignore_ascii_case_str(e.name().as_str(), name);
            proof {
                let en = e.spec_name();
                let us = name_units(d);
                assert(en.len() == us.len() && forall|k: int|
                    0 <= k < en.len() ==> (#[trigger] en[k]) as u32 == us[k] as u32) by {
                    match e {
                        Entry::File(f) => {
                            if f.long_name is Some {
                            } else {
                            }
                        },
                        Entry::Dir(dd) => {
                            if dd.long_name is Some {
                            } else {
                            }
                        },
                    }
                }
                if matched {
                    assert(eq_icase_units(name@, us)) by {
                        assert(forall|k: int|
                            0 <= k < name@.len() ==> lower32((#[trigger] name@[k]) as u32)
                                == lower32(en[k] as u32));
                    }
                    assert(found_at(name@, ds, i as int));
                } else {
                    assert(!eq_icase_units(name@, us)) by {
                        if eq_icase_units(name@, us) {
                            assert(forall|k: int|
                                0 <= k < en.len() ==> lower32((#[trigger] en[k]) as u32)
                                    == lower32(name@[k] as u32));
                        }
                    }
                }
            }
            if matched {
                return Ok(e);
            }
            i = i + 1;
        }
        proof {
            assert(i as int == ds.len());
        }
        Err(Error::NotFound)
    }
}

} // verus!

