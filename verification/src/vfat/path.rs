//! Path resolution: walking an absolute path component by component
//! through directory lookups.

use vstd::prelude::*;
use vstd::string::StrSliceExecFns;

use crate::device::BlockDevice;
use crate::error::Error;
use crate::text::push_char;
use crate::vfat::dir::Dir;
use crate::vfat::entry::Entry;
use crate::vfat::metadata::{Attributes, Date, Metadata, Time, Timestamp};
use crate::vfat::vfat::VFat;

verus! {


/// The first separator at or after position `i`, or the path's length
/// when none follows.
pub open spec fn next_sep(p: Seq<char>, i: int) -> int
    decreases p.len() - i,
{
    if i < 0 || i >= p.len() {
        p.len() as int
    } else if p[i] == '/' {
        i
    } else {
        next_sep(p, i + 1)
    }
}

/// What `next_sep` finds: the earliest separator at or after `i`.
pub proof fn lemma_next_sep(p: Seq<char>, i: int)
    requires
        0 <= i <= p.len(),
    ensures
        i <= next_sep(p, i) <= p.len(),
        forall|k: int| i <= k < next_sep(p, i) ==> p[k] != '/',
        next_sep(p, i) < p.len() ==> p[next_sep(p, i)] == '/',
    decreases p.len() - i,
{
    if i < p.len() && p[i] != '/' {
        lemma_next_sep(p, i + 1);
    }
}

/// The path's components from position `i` on: the stretches between
/// separators, empty stretches included.
pub open spec fn split_path(p: Seq<char>, i: int) -> Seq<Seq<char>>
    decreases p.len() + 1 - i,
    via split_path_decreases
{
    if i < 0 || i > p.len() {
        Seq::empty()
    } else {
        seq![p.subrange(i, next_sep(p, i))] + split_path(p, next_sep(p, i) + 1)
    }
}

#[via_fn]
proof fn split_path_decreases(p: Seq<char>, i: int) {
    if 0 <= i <= p.len() {
        lemma_next_sep(p, i);
    }
}

/// Whether the directory at cluster `c` has a decodable listing.
pub open spec fn has_listing(m: crate::vfat::model::FsModel, c: int) -> bool {
    exists|ds: Seq<crate::vfat::dir::DirEntryModel>| crate::vfat::dir::dir_listing_is(m, c, ds)
}

/// The directory's listing, when one exists; unique by
/// `lemma_listing_unique`.
pub open spec fn the_listing(m: crate::vfat::model::FsModel, c: int) -> Seq<
    crate::vfat::dir::DirEntryModel,
> {
    choose|ds: Seq<crate::vfat::dir::DirEntryModel>| crate::vfat::dir::dir_listing_is(m, c, ds)
}

/// Whether some listing entry matches the query case-insensitively.
pub open spec fn has_match(q: Seq<char>, ds: Seq<crate::vfat::dir::DirEntryModel>) -> bool {
    exists|i: int| crate::vfat::dir::found_at(q, ds, i)
}

/// The index of the first match, when one exists; unique by
/// `lemma_found_at_unique`.
pub open spec fn the_match(q: Seq<char>, ds: Seq<crate::vfat::dir::DirEntryModel>) -> int {
    choose|i: int| crate::vfat::dir::found_at(q, ds, i)
}

/// One resolved position: the root, or a decoded directory entry.
pub type ResolvedSpec = Option<crate::vfat::dir::DirEntryModel>;

/// One resolution step over the spec-level stack: an empty or `.`
/// component changes nothing, `..` pops and fails at the root, and any
/// other component must find its first case-insensitive match in the
/// listing of the directory on top of the stack.
pub open spec fn spec_step(
    m: crate::vfat::model::FsModel,
    root: int,
    stack: Seq<ResolvedSpec>,
    comp: Seq<char>,
) -> Option<Seq<ResolvedSpec>> {
    if comp.len() == 0 || comp == seq!['.'] {
        Some(stack)
    } else if comp == seq!['.', '.'] {
        if stack.len() <= 1 {
            None
        } else {
            Some(stack.drop_last())
        }
    } else {
        let c = match stack.last() {
            Option::None => root,
            Option::Some(d) => d.first_cluster as int,
        };
        let dir_ok = match stack.last() {
            Option::None => true,
            Option::Some(d) => d.attrs & 0x10 != 0,
        };
        if stack.len() >= 1 && dir_ok && has_listing(m, c) {
            let ds = the_listing(m, c);
            if has_match(comp, ds) {
                Some(stack.push(Some(ds[the_match(comp, ds)])))
            } else {
                None
            }
        } else {
            None
        }
    }
}

/// The spec-level stack after the first `k` components, starting from
/// the synthesized root.
pub open spec fn spec_resolve(
    m: crate::vfat::model::FsModel,
    root: int,
    comps: Seq<Seq<char>>,
    k: int,
) -> Option<Seq<ResolvedSpec>>
    decreases k,
{
    if k <= 0 {
        Some(seq![Option::<crate::vfat::dir::DirEntryModel>::None])
    } else {
        match spec_resolve(m, root, comps, k - 1) {
            Option::None => Option::None,
            Option::Some(st) => spec_step(m, root, st, comps[k - 1]),
        }
    }
}

/// How an executable entry realises one resolved position: the root
/// position is the synthesized root directory, any other is an entry
/// realising its decoded record.
pub open spec fn resolved_matches(
    m: crate::vfat::model::FsModel,
    e: Entry,
    s: ResolvedSpec,
) -> bool {
    match s {
        Option::None => {
            &&& e matches Entry::Dir(d)
            &&& d.start_cluster.0 as int == m.root
            &&& d.long_name is None
            &&& d.short_name@ == Seq::<char>::empty()
            &&& d.metadata == spec_root_metadata()
        },
        Option::Some(d) => crate::vfat::dir::entry_matches(e, d),
    }
}

/// A whole executable stack realises a spec-level stack.
pub open spec fn stack_matches(
    m: crate::vfat::model::FsModel,
    es: Seq<Entry>,
    gs: Seq<ResolvedSpec>,
) -> bool {
    &&& es.len() == gs.len()
    &&& forall|i: int| 0 <= i < es.len() ==> resolved_matches(m, #[trigger] es[i], gs[i])
}

/// Every component is empty or `.`: such a path resolves to the root
/// without a single device read.
pub open spec fn trivial_comps(cs: Seq<Seq<char>>) -> bool {
    forall|k: int| 0 <= k < cs.len() ==> ((#[trigger] cs[k]).len() == 0 || cs[k] == seq!['.'])
}

/// Once a resolution prefix fails, every longer prefix fails too.
pub proof fn lemma_resolve_none_sticks(
    m: crate::vfat::model::FsModel,
    root: int,
    comps: Seq<Seq<char>>,
    k: int,
    k2: int,
)
    requires
        spec_resolve(m, root, comps, k) is None,
        0 <= k <= k2,
    ensures
        spec_resolve(m, root, comps, k2) is None,
    decreases k2,
{
    if k < k2 {
        lemma_resolve_none_sticks(m, root, comps, k, k2 - 1);
    }
}

/// The metadata the synthesized root directory carries: only the
/// directory attribute bit, with zeroed timestamps.
pub open spec fn spec_root_metadata() -> Metadata {
    Metadata {
        attributes: Attributes(0x10),
        created: Timestamp { date: Date(0), time: Time(0), additional_in_10ms: 0 },
        accessed: Timestamp { date: Date(0), time: Time(0), additional_in_10ms: 0 },
        modified: Timestamp { date: Date(0), time: Time(0), additional_in_10ms: 0 },
    }
}

impl<T: BlockDevice> VFat<T> {
    /// The root directory, synthesized from the mount's recorded root
    /// cluster: it has no name of its own and carries only the
    /// directory attribute.
    pub fn root_dir(&self) -> (r: Dir)
        requires
            self.wf(),
        ensures
            r.start_cluster.0 as int == self.model().root,
            r.long_name is None,
            r.short_name@ == Seq::<char>::empty(),
            r.metadata == spec_root_metadata(),
    {
        Dir {
            long_name: None,
            short_name: String::new(),
            metadata: Metadata {
                attributes: Attributes(0x10),
                created: Timestamp { date: Date(0), time: Time(0), additional_in_10ms: 0 },
                accessed: Timestamp { date: Date(0), time: Time(0), additional_in_10ms: 0 },
                modified: Timestamp { date: Date(0), time: Time(0), additional_in_10ms: 0 },
            },
            start_cluster: self.root_cluster(),
        }
    }

    /// Resolves an absolute path: the root is synthesized from the
    /// recorded root cluster, `.` components are skipped, `..` pops the
    /// resolution stack and fails with `InvalidInput` at the root, and
    /// every other component is looked up case-insensitively in the
    /// directory resolved so far, failing with `InvalidInput` when that
    /// is a file. A path that does not begin with `/` is rejected with
    /// `InvalidInput` outright. On success the returned entry realises
    /// the last position of the component-by-component resolution that
    /// `spec_resolve` describes.
    #[verifier::rlimit(60)]
    pub fn open(&mut self, path: &str) -> (r: Result<Entry, Error>)
        requires
            old(self).wf(),
        ensures
            final(self).wf(),
            final(self).model() == old(self).model(),
            (path@.len() == 0 || path@[0] != '/') ==> r == Result::<Entry, Error>::Err(
                Error::InvalidInput,
            ),
            r matches Err(e) ==> (e is InvalidInput || e is NotFound || e is Io
                || e is InvalidData),
            r matches Ok(e) ==> {
                let m = old(self).model();
                let comps = split_path(path@, 1);
                let res = spec_resolve(m, m.root, comps, comps.len() as int);
                &&& path@.len() > 0
                &&& path@[0] == '/'
                &&& res is Some
                &&& res->0.len() >= 1
                &&& resolved_matches(m, e, res->0.last())
            },
            r matches Err(e) ==> {
                let m = old(self).model();
                let comps = split_path(path@, 1);
                &&& (e is InvalidInput ==> (path@.len() == 0 || path@[0] != '/' || path@.len()
                    == usize::MAX || spec_resolve(m, m.root, comps, comps.len() as int) is None))
                &&& (e is NotFound ==> spec_resolve(m, m.root, comps, comps.len() as int)
                    is None)
                &&& (e is InvalidData ==> exists|c: int|
                    #[trigger] crate::vfat::dir::listing_defect(m, c))
            },
            (path@.len() > 0 && path@[0] == '/' && path@.len() < usize::MAX && trivial_comps(
                split_path(path@, 1),
            )) ==> r is Ok,
    {
        let ghost m = self.model();
        let ghost p = path@;
        let n = path.unicode_len();
        if n == 0 {
            return Err(Error::InvalidInput);
        }
        if n == usize::MAX {
            // Such a path cannot even be indexed; treat it as malformed
            // caller input.
            return Err(Error::InvalidInput);
        }
        if path.get_char(0) != '/' {
            return Err(Error::InvalidInput);
        }
        let ghost comps = split_path(p, 1);
        let mut stack: Vec<Entry> = Vec::new();
        stack.push(Entry::Dir(self.root_dir()));
        let ghost mut gstack: Seq<ResolvedSpec> = seq![
            Option::<crate::vfat::dir::DirEntryModel>::None,
        ];
        let ghost mut t: int = 0;
        let mut i: usize = 1;
        proof {
            assert(split_path(p, 1) =~= comps.skip(0));
            assert(stack_matches(m, stack@, gstack));
        }
        while i <= n
            invariant
                old(self).wf(),
                self.wf(),
                self.model() == m,
                m == old(self).model(),
                1 <= i <= n + 1,
                n < usize::MAX,
                n == p.len(),
                p == path@,
                p.len() > 0,
                p[0] == '/',
                comps == split_path(p, 1),
                0 <= t <= comps.len(),
                split_path(p, i as int) == comps.skip(t),
                spec_resolve(m, m.root, comps, t) == Some(gstack),
                stack_matches(m, stack@, gstack),
                stack@.len() >= 1,
            decreases n + 1 - i,
        {
            // Collect the next component, up to the next separator or
            // the end of the path.
            let mut comp = String::new();
            let mut j = i;
            let mut stop: bool = false;
            while j < n && !stop
                invariant
                    i <= j <= n,
                    n == p.len(),
                    p == path@,
                    comp@ == p.subrange(i as int, j as int),
                    forall|k: int| i <= k < j ==> p[k] != '/',
                    stop ==> j < n && p[j as int] == '/',
                decreases n - j, (if stop { 0int } else { 1int }),
            {
                let c = path.get_char(j);
                if c == '/' {
                    stop = true;
                } else {
                    push_char(&mut comp, c);
                    proof {
                        assert(p.subrange(i as int, j + 1) == p.subrange(i as int, j as int).push(
                            p[j as int],
                        ));
                    }
                    j = j + 1;
                }
            }
            proof {
                lemma_next_sep(p, i as int);
                let ns = next_sep(p, i as int);
                if (j as int) < ns {
                    assert(p[j as int] == '/');
                } else if ns < j as int {
                    assert(p[ns] != '/');
                }
                assert(j as int == ns);
                assert(comps.skip(t)[0] == p.subrange(i as int, ns));
                assert(comps.skip(t).len() >= 1);
                assert(comps[t] == comp@);
                assert(split_path(p, ns + 1) == comps.skip(t).skip(1));
                assert(comps.skip(t).skip(1) =~= comps.skip(t + 1));
            }
            let clen = comp.unicode_len();
            let is_dot = clen == 1 && comp.as_str().get_char(0) == '.';
            let is_dotdot = clen == 2 && comp.as_str().get_char(0) == '.' && comp.as_str()
                .get_char(1) == '.';
            proof {
                if is_dot {
                    assert(comp@ =~= seq!['.']);
                }
                if is_dotdot {
                    assert(comp@ =~= seq!['.', '.']);
                }
                if clen == 1 && !is_dot {
                    assert(comp@ != seq!['.']) by {
                        if comp@ == seq!['.'] {
                            assert(comp@[0] == '.');
                        }
                    }
                }
                assert(comp@ == seq!['.'] ==> comp@[0] == '.' && comp@.len() == 1);
                assert(comp@ == seq!['.', '.'] ==> comp@[0] == '.' && comp@[1] == '.'
                    && comp@.len() == 2);
            }
            if clen == 0 || is_dot {
                // An empty component or `.` leaves the position alone.
                proof {
                    assert(spec_step(m, m.root, gstack, comp@) == Some(gstack));
                    t = t + 1;
                }
            } else if is_dotdot {
                if stack.len() <= 1 {
                    // Cannot escape above the root.
                    proof {
                        assert(gstack.len() <= 1);
                        assert(spec_step(m, m.root, gstack, comp@) is None);
                        assert(spec_resolve(m, m.root, comps, t + 1) is None);
                        lemma_resolve_none_sticks(m, m.root, comps, t + 1, comps.len() as int);
                        assert(comps[t].len() != 0 && comps[t] != seq!['.']);
                        assert(!trivial_comps(comps));
                    }
                    return Err(Error::InvalidInput);
                }
                let _popped = stack.pop();
                proof {
                    assert(spec_step(m, m.root, gstack, comp@) == Some(gstack.drop_last()));
                    gstack = gstack.drop_last();
                    t = t + 1;
                    assert(stack_matches(m, stack@, gstack));
                }
            } else {
                proof {
                    assert(comp@ != seq!['.']) by {
                        if comp@ == seq!['.'] {
                            assert(comp@.len() == 1);
                        }
                    }
                    assert(comp@ != seq!['.', '.']) by {
                        if comp@ == seq!['.', '.'] {
                            assert(comp@.len() == 2);
                        }
                    }
                }
                let next = match &stack[stack.len() - 1] {
                    Entry::Dir(d) => {
                        match d.find(self, comp.as_str()) {
                            Ok(e) => {
                                proof {
                                    let top = stack@.last();
                                    assert(resolved_matches(m, top, gstack.last()));
                                    let c = match gstack.last() {
                                        Option::None => m.root,
                                        Option::Some(dd) => dd.first_cluster as int,
                                    };
                                    assert(c == d.start_cluster.0 as int);
                                    let wds = choose|
                                        ds: Seq<crate::vfat::dir::DirEntryModel>,
                                        idx: int,
                                    |
                                        #![auto]
                                        crate::vfat::dir::dir_listing_is(
                                            m,
                                            d.start_cluster.0 as int,
                                            ds,
                                        ) && crate::vfat::dir::found_at(comp@, ds, idx)
                                            && crate::vfat::dir::entry_matches(e, ds[idx]);
                                    assert(crate::vfat::dir::dir_listing_is(m, c, wds.0)
                                        && crate::vfat::dir::found_at(comp@, wds.0, wds.1)
                                        && crate::vfat::dir::entry_matches(e, wds.0[wds.1]));
                                    assert(has_listing(m, c));
                                    assert(crate::vfat::dir::dir_listing_is(
                                        m,
                                        c,
                                        the_listing(m, c),
                                    ));
                                    crate::vfat::dir::lemma_listing_unique(
                                        m,
                                        c,
                                        the_listing(m, c),
                                        wds.0,
                                    );
                                    assert(has_match(comp@, the_listing(m, c)));
                                    assert(crate::vfat::dir::found_at(
                                        comp@,
                                        the_listing(m, c),
                                        the_match(comp@, the_listing(m, c)),
                                    ));
                                    crate::vfat::dir::lemma_found_at_unique(
                                        comp@,
                                        the_listing(m, c),
                                        the_match(comp@, the_listing(m, c)),
                                        wds.1,
                                    );
                                    assert(spec_step(m, m.root, gstack, comp@) == Some(
                                        gstack.push(Some(wds.0[wds.1])),
                                    ));
                                    gstack = gstack.push(Some(wds.0[wds.1]));
                                    t = t + 1;
                                }
                                e
                            },
                            Err(e) => {
                                proof {
                                    let top = stack@.last();
                                    assert(resolved_matches(m, top, gstack.last()));
                                    let c = match gstack.last() {
                                        Option::None => m.root,
                                        Option::Some(dd) => dd.first_cluster as int,
                                    };
                                    assert(c == d.start_cluster.0 as int);
                                    if e is InvalidInput {
                                        crate::vfat::dir::lemma_no_listing_without_data(m, c);
                                        assert(!has_listing(m, c));
                                        assert(spec_step(m, m.root, gstack, comp@) is None);
                                        assert(spec_resolve(m, m.root, comps, t + 1) is None);
                                        lemma_resolve_none_sticks(
                                            m,
                                            m.root,
                                            comps,
                                            t + 1,
                                            comps.len() as int,
                                        );
                                    }
                                    if e is NotFound {
                                        let nds = choose|ds: Seq<crate::vfat::dir::DirEntryModel>|
                                            {
                                                &&& #[trigger] crate::vfat::dir::dir_listing_is(
                                                    m,
                                                    c,
                                                    ds,
                                                )
                                                &&& crate::vfat::dir::no_match_in(comp@, ds)
                                            };
                                        assert(crate::vfat::dir::dir_listing_is(m, c, nds)
                                            && crate::vfat::dir::no_match_in(comp@, nds));
                                        assert(has_listing(m, c));
                                        assert(crate::vfat::dir::dir_listing_is(
                                            m,
                                            c,
                                            the_listing(m, c),
                                        ));
                                        crate::vfat::dir::lemma_listing_unique(
                                            m,
                                            c,
                                            the_listing(m, c),
                                            nds,
                                        );
                                        assert(!has_match(comp@, the_listing(m, c))) by {
                                            if has_match(comp@, the_listing(m, c)) {
                                                let fi = choose|fi: int|
                                                    crate::vfat::dir::found_at(
                                                        comp@,
                                                        the_listing(m, c),
                                                        fi,
                                                    );
                                                assert(crate::vfat::dir::found_at(
                                                    comp@,
                                                    nds,
                                                    fi,
                                                ));
                                            }
                                        }
                                        assert(spec_step(m, m.root, gstack, comp@) is None);
                                        assert(spec_resolve(m, m.root, comps, t + 1) is None);
                                        lemma_resolve_none_sticks(
                                            m,
                                            m.root,
                                            comps,
                                            t + 1,
                                            comps.len() as int,
                                        );
                                    }
                                    if e is InvalidData {
                                        assert(crate::vfat::dir::listing_defect(m, c));
                                    }
                                    assert(comps[t].len() != 0 && comps[t] != seq!['.']);
                                    assert(!trivial_comps(comps));
                                }
                                return Err(e);
                            },
                        }
                    },
                    Entry::File(f) => {
                        // A path component below a file cannot resolve.
                        proof {
                            let top = stack@.last();
                            assert(resolved_matches(m, top, gstack.last()));
                            assert(gstack.last() matches Option::Some(dd) && dd.attrs & 0x10
                                == 0);
                            assert(spec_step(m, m.root, gstack, comp@) is None);
                            assert(spec_resolve(m, m.root, comps, t + 1) is None);
                            lemma_resolve_none_sticks(m, m.root, comps, t + 1, comps.len() as int);
                            assert(comps[t].len() != 0 && comps[t] != seq!['.']);
                            assert(!trivial_comps(comps));
                        }
                        return Err(Error::InvalidInput);
                    },
                };
                stack.push(next);
                proof {
                    assert(stack_matches(m, stack@, gstack)) by {
                        assert(forall|q: int|
                            0 <= q < stack@.len() - 1 ==> #[trigger] stack@[q] == stack@.subrange(
                                0,
                                stack@.len() - 1,
                            )[q]);
                    }
                }
            }
            i = j + 1;
        }
        proof {
            assert(i as int == n + 1);
            assert(split_path(p, i as int) =~= Seq::<Seq<char>>::empty());
            assert(comps.skip(t).len() == 0);
            assert(t == comps.len());
        }
        match stack.pop() {
            Some(e) => {
                proof {
                    assert(resolved_matches(m, e, gstack.last()));
                }
                Ok(e)
            },
            None => {
                proof {
                    assert(false);
                }
                Err(Error::InvalidInput)
            },
        }
    }
}

} // verus!
