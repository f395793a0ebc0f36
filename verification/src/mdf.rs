use std::collections::hash_map::DefaultHasher;
use std::hash::Hasher;
use vstd::prelude::*;
use vstd::string::StringExecFns;
use vstd::std_specs::hash::DefaultHasherAdditionalSpecFns;
use crate::error::MtfError;
use crate::iter::StreamWithData;
use crate::pages::{parse_page_ptr, spec_num_pages, spec_page_ptr, PagePointer, PAGE_SIZE};

verus! {

broadcast use vstd::slice::group_slice_axioms;

/// Aim for about this many page ids per outer bucket; with runs of a few
/// hundred pages each bucket then holds a handful of entries.
pub const DIVISOR: usize = 1024;

/// One run of contiguous page ids: pages `start ..= stop` of one file sit at
/// payload page offsets `base ..= base + (stop - start)`.
#[derive(Debug, Clone, Copy, PartialEq, Eq, Structural)]
pub struct IndexEntry {
    pub start: u32,
    pub stop: u32,
    pub base: u32,
}

/// The two-level sparse index: per file (index `file_id - 1`), per outer
/// bucket (index `page_id / DIVISOR`), the runs that start in that bucket;
/// plus the highest page id seen per file.
#[derive(Debug, Clone, PartialEq)]
pub struct MTFBackupIndex {
    pub idx: Vec<Vec<Vec<IndexEntry>>>,
    pub outer_level_entries: usize,
    pub divisor: usize,
    pub max_page_ids: Vec<Option<u32>>,
}

/// The mathematical shape of an index: sequences all the way down.
pub struct IndexModel {
    pub idx: Seq<Seq<Seq<IndexEntry>>>,
    pub max: Seq<Option<u32>>,
    pub outer: int,
}

/// The nested sequences a nested vector denotes.
pub open spec fn idx_model(v: Seq<Vec<Vec<IndexEntry>>>) -> Seq<Seq<Seq<IndexEntry>>> {
    v.map_values(|f: Vec<Vec<IndexEntry>>| f@.map_values(|b: Vec<IndexEntry>| b@))
}

/// A file with `outer` buckets, all still empty.
pub open spec fn spec_empty_file(outer: int) -> Seq<Seq<IndexEntry>> {
    Seq::new(outer as nat, |b: int| Seq::<IndexEntry>::empty())
}

/// The walking state of the scan: the index built so far, the maxima, and
/// the open run (`start` at payload page `start_idx`, last member `old`).
pub struct BuildState {
    pub idx: Seq<Seq<Seq<IndexEntry>>>,
    pub max: Seq<Option<u32>>,
    pub start: PagePointer,
    pub old: PagePointer,
    pub start_idx: int,
}

/// Closing a run: grow the outer vector up to the run's file, append the
/// entry to the bucket its first page id selects, and raise the file's
/// maximum. `None` where the bucket lies outside the outer level.
pub open spec fn spec_write_entry(
    idx: Seq<Seq<Seq<IndexEntry>>>,
    max: Seq<Option<u32>>,
    outer: int,
    start: PagePointer,
    end: PagePointer,
    start_idx: int,
) -> Option<(Seq<Seq<Seq<IndexEntry>>>, Seq<Option<u32>>)> {
    let f = end.file_id as int;
    let idx1 = if idx.len() >= f {
        idx
    } else {
        idx + Seq::new((f - idx.len()) as nat, |j: int| spec_empty_file(outer))
    };
    let max1 = if max.len() >= f {
        max
    } else {
        max + Seq::new((f - max.len()) as nat, |j: int| None::<u32>)
    };
    let b = start.page_id as int / (DIVISOR as int);
    if b >= outer {
        None
    } else {
        let e = IndexEntry { start: start.page_id, stop: end.page_id, base: start_idx as u32 };
        let idx2 = idx1.update(f - 1, idx1[f - 1].update(b, idx1[f - 1][b].push(e)));
        let newmax: u32 = if max1[f - 1] is Some && max1[f - 1].unwrap() >= end.page_id {
            max1[f - 1].unwrap()
        } else {
            end.page_id
        };
        let max2 = max1.update(f - 1, Some(newmax));
        Some((idx2, max2))
    }
}

/// The scan from payload page `i` on, with state `s`: skip uninitialised
/// pages; extend the run while the file agrees and the page id is the
/// successor; else close the run and open a new one; close the last run at
/// the end.
pub open spec fn spec_build_loop(data: Seq<u8>, i: int, s: BuildState, outer: int) -> Option<
    (Seq<Seq<Seq<IndexEntry>>>, Seq<Option<u32>>),
>
    decreases spec_num_pages(data) - i,
{
    if i >= spec_num_pages(data) {
        spec_write_entry(s.idx, s.max, outer, s.start, s.old, s.start_idx)
    } else {
        match spec_page_ptr(data, i) {
            None => spec_build_loop(data, i + 1, s, outer),
            Some(new) => {
                if s.start.file_id != new.file_id || s.old.page_id + 1 != new.page_id {
                    match spec_write_entry(s.idx, s.max, outer, s.start, s.old, s.start_idx) {
                        None => None,
                        Some(grown) => spec_build_loop(
                            data,
                            i + 1,
                            BuildState {
                                idx: grown.0,
                                max: grown.1,
                                start: new,
                                old: new,
                                start_idx: i,
                            },
                            outer,
                        ),
                    }
                } else {
                    spec_build_loop(data, i + 1, BuildState { old: new, ..s }, outer)
                }
            },
        }
    }
}

/// How many outer buckets an index over `n` pages has.
pub open spec fn spec_outer(n: int) -> int {
    (n + (DIVISOR as int) - 1) / (DIVISOR as int)
}

/// The index the scan builds over a payload, or `None` where the scan cannot
/// run: an empty payload, an uninitialised first page, more pages than a
/// 32-bit offset can address, or a run starting past the outer level.
pub open spec fn spec_build(data: Seq<u8>) -> Option<IndexModel> {
    let n = spec_num_pages(data);
    if n == 0 || n > u32::MAX {
        None
    } else {
        match spec_page_ptr(data, 0) {
            None => None,
            Some(p0) => {
                let s0 = BuildState {
                    idx: Seq::empty(),
                    max: Seq::empty(),
                    start: p0,
                    old: p0,
                    start_idx: 0,
                };
                match spec_build_loop(data, 1, s0, spec_outer(n)) {
                    None => None,
                    Some(out) => Some(
                        IndexModel { idx: out.0, max: out.1, outer: spec_outer(n) },
                    ),
                }
            },
        }
    }
}

/// The first entry of `bucket`, from position `j` on, whose run contains `p`.
pub open spec fn spec_find_in(bucket: Seq<IndexEntry>, p: u32, j: int) -> Option<IndexEntry>
    decreases bucket.len() - j,
{
    if j < 0 || j >= bucket.len() {
        None
    } else if bucket[j].start <= p && p <= bucket[j].stop {
        Some(bucket[j])
    } else {
        spec_find_in(bucket, p, j + 1)
    }
}

/// The first matching entry scanning buckets `b` down to 0.
pub open spec fn spec_scan(file: Seq<Seq<IndexEntry>>, p: u32, b: int) -> Option<IndexEntry>
    decreases b + 1,
{
    if b < 0 {
        None
    } else {
        match spec_find_in(file[b], p, 0) {
            Some(e) => Some(e),
            None => spec_scan(file, p, b - 1),
        }
    }
}

/// What looking `ptr` up yields: the entry found by scanning buckets from
/// `page_id / DIVISOR` (clipped to the outer level) downward.
pub open spec fn spec_lookup(idx: Seq<Seq<Seq<IndexEntry>>>, outer: int, ptr: PagePointer) -> Option<
    IndexEntry,
> {
    if ptr.file_id == 0 || ptr.file_id > idx.len() || outer <= 0 {
        None
    } else {
        let file = idx[ptr.file_id - 1];
        let b0 = ptr.page_id as int / (DIVISOR as int);
        let b = if b0 <= outer - 1 {
            b0
        } else {
            outer - 1
        };
        spec_scan(file, ptr.page_id, b)
    }
}

impl MTFBackupIndex {
    /// The mathematical index this value denotes.
    pub open spec fn model(self) -> IndexModel {
        IndexModel {
            idx: idx_model(self.idx@),
            max: self.max_page_ids@,
            outer: self.outer_level_entries as int,
        }
    }

    /// Structural soundness: the divisor is fixed, the maxima run parallel
    /// to the files, every file has the full outer level, and every run is
    /// ordered and short enough that its offsets fit 32 bits.
    pub open spec fn wf(self) -> bool {
        &&& self.divisor == DIVISOR
        &&& self.idx@.len() <= 0xFFFF
        &&& self.max_page_ids@.len() == self.idx@.len()
        &&& forall|f: int|
            0 <= f < self.idx@.len() ==> (#[trigger] self.idx@[f])@.len()
                == self.outer_level_entries
        &&& forall|f: int, b: int, k: int|
            0 <= f < self.idx@.len() && 0 <= b < self.idx@[f]@.len() && 0 <= k
                < self.idx@[f]@[b]@.len() ==> {
                let e = #[trigger] self.idx@[f]@[b]@[k];
                e.start <= e.stop && e.base + (e.stop - e.start) <= u32::MAX
            }
    }
}

/// Closes a run into the index, growing the outer vector to the run's file
/// first. `Invariant` where the run's first page id selects a bucket past
/// the outer level.
#[verifier::rlimit(100)]
#[verifier::spinoff_prover]
fn write_entry(
    idx: &mut Vec<Vec<Vec<IndexEntry>>>,
    max: &mut Vec<Option<u32>>,
    outer: usize,
    start: PagePointer,
    end: PagePointer,
    start_idx: u32,
) -> (r: Result<(), MtfError>)
    requires
        end.file_id >= 1,
        old(max)@.len() == old(idx)@.len(),
        forall|f: int| 0 <= f < old(idx)@.len() ==> (#[trigger] old(idx)@[f])@.len() == outer,
    ensures
        final(max)@.len() == final(idx)@.len(),
        final(idx)@.len() <= if old(idx)@.len() >= end.file_id {
            old(idx)@.len() as int
        } else {
            end.file_id as int
        },
        forall|f: int| 0 <= f < final(idx)@.len() ==> (#[trigger] final(idx)@[f])@.len() == outer,
        r is Ok <==> spec_write_entry(
            idx_model(old(idx)@),
            old(max)@,
            outer as int,
            start,
            end,
            start_idx as int,
        ) is Some,
        r is Ok ==> ({
            let out = spec_write_entry(
                idx_model(old(idx)@),
                old(max)@,
                outer as int,
                start,
                end,
                start_idx as int,
            ).unwrap();
            idx_model(final(idx)@) == out.0 && final(max)@ == out.1
        }),
        r is Err ==> r == Err::<(), MtfError>(MtfError::Invariant),
{
    let ghost g_idx0 = idx_model(old(idx)@);
    let ghost g_max0 = old(max)@;
    let ghost fint = end.file_id as int;
    let ghost idx1 = if g_idx0.len() >= fint {
        g_idx0
    } else {
        g_idx0 + Seq::new((fint - g_idx0.len()) as nat, |j: int| spec_empty_file(outer as int))
    };
    let ghost max1 = if g_max0.len() >= fint {
        g_max0
    } else {
        g_max0 + Seq::new((fint - g_max0.len()) as nat, |j: int| None::<u32>)
    };
    while idx.len() < end.file_id as usize
        invariant
            old(max)@.len() == old(idx)@.len(),
            max@.len() == idx@.len(),
            idx@.len() >= old(idx)@.len(),
            idx@.len() <= if old(idx)@.len() >= end.file_id {
                old(idx)@.len() as int
            } else {
                end.file_id as int
            },
            forall|f: int| 0 <= f < old(idx)@.len() ==> #[trigger] idx@[f] == old(idx)@[f],
            forall|f: int| 0 <= f < old(max)@.len() ==> #[trigger] max@[f] == old(max)@[f],
            forall|f: int|
                old(idx)@.len() <= f < idx@.len() ==> (#[trigger] idx@[f])@.map_values(
                    |b: Vec<IndexEntry>| b@,
                ) == spec_empty_file(outer as int),
            forall|f: int| old(max)@.len() <= f < max@.len() ==> (#[trigger] max@[f]) is None,
            forall|f: int| 0 <= f < idx@.len() ==> (#[trigger] idx@[f])@.len() == outer,
        decreases end.file_id as int - idx@.len(),
    {
        let mut fresh: Vec<Vec<IndexEntry>> = Vec::new();
        let mut b: usize = 0;
        while b < outer
            invariant
                b <= outer,
                fresh@.len() == b,
                forall|j: int|
                    0 <= j < b ==> (#[trigger] fresh@[j])@ == Seq::<IndexEntry>::empty(),
            decreases outer - b,
        {
            fresh.push(Vec::new());
            b = b + 1;
        }
        proof {
            assert(fresh@.map_values(|bb: Vec<IndexEntry>| bb@) =~= spec_empty_file(outer as int));
        }
        let ghost pi = idx@;
        let ghost pm = max@;
        idx.push(fresh);
        max.push(None);
        proof {
            assert forall|f: int| 0 <= f < old(idx)@.len() implies #[trigger] idx@[f] == old(
                idx,
            )@[f] by {
                assert(idx@[f] == pi[f]);
            }
            assert forall|f: int| 0 <= f < old(max)@.len() implies #[trigger] max@[f] == old(
                max,
            )@[f] by {
                assert(max@[f] == pm[f]);
            }
        }
    }
    proof {
        assert forall|j: int| 0 <= j < idx1.len() implies idx_model(idx@)[j] == idx1[j] by {
            if j < old(idx)@.len() {
                assert(idx@[j] == old(idx)@[j]);
            } else {
                assert(idx@[j]@.map_values(|b: Vec<IndexEntry>| b@) == spec_empty_file(
                    outer as int,
                ));
            }
        }
        assert(idx_model(idx@) =~= idx1);
        assert forall|j: int| 0 <= j < max1.len() implies max@[j] == max1[j] by {
            if j < old(max)@.len() {
                assert(max@[j] == old(max)@[j]);
            } else {
                assert(max@[j] is None);
            }
        }
        assert(max@ =~= max1);
    }
    let b = (start.page_id as usize) / DIVISOR;
    if b >= outer {
        return Err(MtfError::Invariant);
    }
    let fi = (end.file_id as usize) - 1;
    let e = IndexEntry { start: start.page_id, stop: end.page_id, base: start_idx };
    let ghost v1 = idx@;
    let mut file_buckets = idx.remove(fi);
    let ghost fb0 = file_buckets@;
    let mut bucket = file_buckets.remove(b);
    bucket.push(e);
    file_buckets.insert(b, bucket);
    proof {
        assert(file_buckets@ =~= fb0.update(b as int, file_buckets@[b as int]));
        assert(file_buckets@[b as int]@ == v1[fi as int]@[b as int]@.push(e));
    }
    let ghost fb1: Vec<Vec<IndexEntry>> = file_buckets;
    idx.insert(fi, file_buckets);
    proof {
        assert(idx@ =~= v1.update(fi as int, fb1));
        let inner2 = idx1[fi as int].update(b as int, idx1[fi as int][b as int].push(e));
        assert forall|j2: int| 0 <= j2 < inner2.len() implies fb1@[j2]@ == inner2[j2] by {
            if j2 != b {
                assert(fb1@[j2] == v1[fi as int]@[j2]);
            }
        }
        assert(fb1@.map_values(|bb: Vec<IndexEntry>| bb@) =~= inner2);
        let idx2 = idx1.update(fint - 1, inner2);
        assert forall|j: int| 0 <= j < idx2.len() implies idx_model(idx@)[j] == idx2[j] by {
            if j != fi {
                assert(idx@[j] == v1[j]);
            }
        }
        assert(idx_model(idx@) =~= idx2);
    }
    let prev = max.remove(fi);
    let newmax: u32 = match prev {
        Some(m) => if m >= end.page_id {
            m
        } else {
            end.page_id
        },
        None => end.page_id,
    };
    max.insert(fi, Some(newmax));
    proof {
        assert(max@ =~= max1.update(fint - 1, Some(newmax)));
    }
    Ok(())
}

impl MTFBackupIndex {
    /// Scans the payload at page stride, recognising runs of contiguous
    /// `(file_id, page_id)`, and builds the two-level index over them. The
    /// result is a function of the payload alone. `Invariant` where the scan
    /// cannot run: an empty payload, an uninitialised first page, more pages
    /// than 32 bits can offset, or a run starting past the outer level.
    #[verifier::rlimit(100)]
    #[verifier::spinoff_prover]
    pub fn build(data: &[u8]) -> (r: Result<MTFBackupIndex, MtfError>)
        ensures
            r is Ok <==> spec_build(data@) is Some,
            r is Ok ==> ({
                let m = spec_build(data@).unwrap();
                let out = r.unwrap();
                &&& idx_model(out.idx@) == m.idx
                &&& out.max_page_ids@ == m.max
                &&& out.outer_level_entries == m.outer
                &&& out.divisor == DIVISOR
                &&& out.wf()
            }),
            r is Err ==> r == Err::<MTFBackupIndex, MtfError>(MtfError::Invariant),
    {
        proof {
            assert(data@.len() == vstd::slice::spec_slice_len(data));
        }
        let n = data.len() / PAGE_SIZE;
        if n == 0 {
            return Err(MtfError::Invariant);
        }
        if n > u32::MAX as usize {
            return Err(MtfError::Invariant);
        }
        let outer = (n + (DIVISOR - 1)) / DIVISOR;
        let start0 = match parse_page_ptr(data, 0) {
            Some(p) => p,
            None => {
                return Err(MtfError::Invariant);
            },
        };
        let ghost s0 = BuildState {
            idx: Seq::empty(),
            max: Seq::empty(),
            start: start0,
            old: start0,
            start_idx: 0,
        };
        let mut idx: Vec<Vec<Vec<IndexEntry>>> = Vec::new();
        let mut max: Vec<Option<u32>> = Vec::new();
        let mut start = start0;
        let mut old = start0;
        let mut start_idx: usize = 0;
        let mut i: usize = 1;
        proof {
            assert(idx_model(idx@) =~= Seq::<Seq<Seq<IndexEntry>>>::empty());
            assert(max@ =~= Seq::<Option<u32>>::empty());
        }
        while i < n
            invariant
                1 <= i <= n,
                n == spec_num_pages(data@),
                n <= u32::MAX,
                n * PAGE_SIZE <= data@.len() <= usize::MAX,
                outer == spec_outer(n as int),
                max@.len() == idx@.len(),
                forall|f: int| 0 <= f < idx@.len() ==> (#[trigger] idx@[f])@.len() == outer,
                idx@.len() <= 0xFFFF,
                start.file_id == old.file_id,
                old.file_id >= 1,
                start_idx < i,
                spec_page_ptr(data@, 0) == Some(start0),
                spec_build(data@) == (match spec_build_loop(data@, 1, s0, outer as int) {
                    None => None::<IndexModel>,
                    Some(out) => Some(
                        IndexModel { idx: out.0, max: out.1, outer: outer as int },
                    ),
                }),
                spec_build_loop(
                    data@,
                    i as int,
                    BuildState {
                        idx: idx_model(idx@),
                        max: max@,
                        start: start,
                        old: old,
                        start_idx: start_idx as int,
                    },
                    outer as int,
                ) == spec_build_loop(data@, 1, s0, outer as int),
            decreases n - i,
        {
            let ghost pre = BuildState {
                idx: idx_model(idx@),
                max: max@,
                start: start,
                old: old,
                start_idx: start_idx as int,
            };
            let p = parse_page_ptr(data, i);
            match p {
                None => {
                    proof {
                        assert(spec_build_loop(data@, i + 1, pre, outer as int) == spec_build_loop(
                            data@,
                            i as int,
                            pre,
                            outer as int,
                        ));
                    }
                    i = i + 1;
                },
                Some(new) => {
                    if start.file_id != new.file_id || (old.page_id as u64) + 1 != (
                    new.page_id as u64) {
                        match write_entry(&mut idx, &mut max, outer, start, old, start_idx as u32) {
                            Ok(_) => {},
                            Err(e) => {
                                proof {
                                    assert(spec_build_loop(data@, i as int, pre, outer as int)
                                        is None);
                                    assert(spec_build(data@) is None);
                                }
                                return Err(e);
                            },
                        }
                        start = new;
                        old = new;
                        start_idx = i;
                        proof {
                            let post = BuildState {
                                idx: idx_model(idx@),
                                max: max@,
                                start: start,
                                old: old,
                                start_idx: start_idx as int,
                            };
                            assert(spec_build_loop(data@, i + 1, post, outer as int)
                                == spec_build_loop(data@, i as int, pre, outer as int));
                        }
                    } else {
                        old = new;
                        proof {
                            let post = BuildState {
                                idx: idx_model(idx@),
                                max: max@,
                                start: start,
                                old: old,
                                start_idx: start_idx as int,
                            };
                            assert(post == (BuildState { old: old, ..pre }));
                            assert(spec_build_loop(data@, i + 1, post, outer as int)
                                == spec_build_loop(data@, i as int, pre, outer as int));
                        }
                    }
                    i = i + 1;
                },
            }
        }
        let ghost fin = BuildState {
            idx: idx_model(idx@),
            max: max@,
            start: start,
            old: old,
            start_idx: start_idx as int,
        };
        proof {
            assert(spec_build_loop(data@, i as int, fin, outer as int) == spec_write_entry(
                fin.idx,
                fin.max,
                outer as int,
                start,
                old,
                start_idx as int,
            ));
        }
        match write_entry(&mut idx, &mut max, outer, start, old, start_idx as u32) {
            Ok(_) => {},
            Err(e) => {
                proof {
                    assert(spec_build_loop(data@, i as int, fin, outer as int) is None);
                    assert(spec_build_loop(data@, 1, s0, outer as int) is None);
                    assert(spec_build(data@) is None);
                }
                return Err(e);
            },
        }
        proof {
            assert(spec_build_loop(data@, i as int, fin, outer as int) is Some);
            assert(spec_build(data@) is Some);
        }
        let out = MTFBackupIndex {
            idx,
            outer_level_entries: outer,
            divisor: DIVISOR,
            max_page_ids: max,
        };
        proof {
            crate::index_laws::lemma_spec_build_sound(data@);
            let m = spec_build(data@).unwrap();
            assert forall|f: int, b: int, k: int|
                0 <= f < out.idx@.len() && 0 <= b < out.idx@[f]@.len() && 0 <= k
                    < out.idx@[f]@[b]@.len() implies ({
                let e = #[trigger] out.idx@[f]@[b]@[k];
                e.start <= e.stop && e.base + (e.stop - e.start) <= u32::MAX
            }) by {
                assert(out.idx@[f]@[b]@[k] == m.idx[f][b][k]);
                assert(crate::index_laws::entry_sound(spec_num_pages(data@), m.idx[f][b][k]));
            }
            assert(out.wf());
        }
        Ok(out)
    }

    /// Translates a page address to its payload page offset: scans the
    /// bucket the page id selects, then the buckets below it; `None` where
    /// no indexed run contains the address.
    #[verifier::rlimit(100)]
    pub fn lookup(&self, ptr: PagePointer) -> (r: Option<u32>)
        requires
            self.wf(),
        ensures
            r == (match spec_lookup(self.model().idx, self.model().outer, ptr) {
                Some(e) => Some((e.base + ptr.page_id - e.start) as u32),
                None => None::<u32>,
            }),
    {
        if ptr.file_id == 0 {
            return None;
        }
        let fi = (ptr.file_id as usize) - 1;
        if fi >= self.idx.len() {
            return None;
        }
        if self.outer_level_entries == 0 {
            return None;
        }
        let ghost file = self.model().idx[ptr.file_id - 1];
        let b0 = (ptr.page_id as usize) / DIVISOR;
        let mut b = if b0 <= self.outer_level_entries - 1 {
            b0
        } else {
            self.outer_level_entries - 1
        };
        let ghost binit = b as int;
        loop
            invariant
                self.wf(),
                ptr.file_id >= 1,
                fi == ptr.file_id - 1,
                fi < self.idx@.len(),
                file == self.model().idx[ptr.file_id - 1],
                0 <= b < self.outer_level_entries,
                spec_scan(file, ptr.page_id, b as int) == spec_scan(file, ptr.page_id, binit),
                binit == (if (ptr.page_id as int) / (DIVISOR as int) <= self.outer_level_entries
                    - 1 {
                    (ptr.page_id as int) / (DIVISOR as int)
                } else {
                    self.outer_level_entries - 1
                }),
            decreases b,
        {
            let bucket_len = self.idx[fi][b].len();
            let mut j: usize = 0;
            while j < bucket_len
                invariant
                    self.wf(),
                    ptr.file_id >= 1,
                    fi == ptr.file_id - 1,
                    fi < self.idx@.len(),
                    0 <= b < self.outer_level_entries,
                    b < self.idx@[fi as int]@.len(),
                    bucket_len == self.idx@[fi as int]@[b as int]@.len(),
                    j <= bucket_len,
                    file == self.model().idx[ptr.file_id - 1],
                    spec_scan(file, ptr.page_id, b as int) == spec_scan(file, ptr.page_id, binit),
                    binit == (if (ptr.page_id as int) / (DIVISOR as int)
                        <= self.outer_level_entries - 1 {
                        (ptr.page_id as int) / (DIVISOR as int)
                    } else {
                        self.outer_level_entries - 1
                    }),
                    spec_find_in(file[b as int], ptr.page_id, 0) == spec_find_in(
                        file[b as int],
                        ptr.page_id,
                        j as int,
                    ),
                decreases bucket_len - j,
            {
                let e = self.idx[fi][b][j];
                proof {
                    assert(file[b as int] == self.idx@[fi as int]@[b as int]@);
                    assert(file[b as int][j as int] == e);
                }
                if e.start <= ptr.page_id && ptr.page_id <= e.stop {
                    proof {
                        assert(spec_find_in(file[b as int], ptr.page_id, j as int) == Some(e));
                        assert(spec_scan(file, ptr.page_id, b as int) == Some(e));
                        assert(spec_lookup(self.model().idx, self.model().outer, ptr) == Some(e));
                    }
                    return Some(e.base + (ptr.page_id - e.start));
                }
                proof {
                    assert(spec_find_in(file[b as int], ptr.page_id, j as int) == spec_find_in(
                        file[b as int],
                        ptr.page_id,
                        j + 1,
                    ));
                }
                j = j + 1;
            }
            proof {
                assert(spec_find_in(file[b as int], ptr.page_id, 0) is None);
                assert(spec_scan(file, ptr.page_id, b as int) == spec_scan(
                    file,
                    ptr.page_id,
                    b - 1,
                ));
            }
            if b == 0 {
                proof {
                    assert(spec_scan(file, ptr.page_id, -1) is None);
                    assert(spec_lookup(self.model().idx, self.model().outer, ptr) is None);
                }
                return None;
            }
            b = b - 1;
        }
    }
}

/// The stream id that carries the embedded database payload.
pub const MQDA_TAG: u32 = 0x4144514D;

/// The character of one hexadecimal digit value.
pub open spec fn hex_digit(d: int) -> char {
    if d == 0 {
        '0'
    } else if d == 1 {
        '1'
    } else if d == 2 {
        '2'
    } else if d == 3 {
        '3'
    } else if d == 4 {
        '4'
    } else if d == 5 {
        '5'
    } else if d == 6 {
        '6'
    } else if d == 7 {
        '7'
    } else if d == 8 {
        '8'
    } else if d == 9 {
        '9'
    } else if d == 10 {
        'a'
    } else if d == 11 {
        'b'
    } else if d == 12 {
        'c'
    } else if d == 13 {
        'd'
    } else if d == 14 {
        'e'
    } else {
        'f'
    }
}

/// A 64-bit value as 16 hex characters, highest nibble first.
pub open spec fn spec_hex16(h: u64) -> Seq<char> {
    Seq::new(16, |i: int| hex_digit(((h >> ((60 - 4 * i) as u64)) & 0xF) as int))
}

fn append_hex_digit(s: &mut String, d: u64)
    requires
        d < 16,
    ensures
        final(s)@ == old(s)@.push(hex_digit(d as int)),
{
    proof {
        reveal_strlit("0");
        reveal_strlit("1");
        reveal_strlit("2");
        reveal_strlit("3");
        reveal_strlit("4");
        reveal_strlit("5");
        reveal_strlit("6");
        reveal_strlit("7");
        reveal_strlit("8");
        reveal_strlit("9");
        reveal_strlit("a");
        reveal_strlit("b");
        reveal_strlit("c");
        reveal_strlit("d");
        reveal_strlit("e");
        reveal_strlit("f");
    }
    let digit = if d == 0 {
        "0"
    } else if d == 1 {
        "1"
    } else if d == 2 {
        "2"
    } else if d == 3 {
        "3"
    } else if d == 4 {
        "4"
    } else if d == 5 {
        "5"
    } else if d == 6 {
        "6"
    } else if d == 7 {
        "7"
    } else if d == 8 {
        "8"
    } else if d == 9 {
        "9"
    } else if d == 10 {
        "a"
    } else if d == 11 {
        "b"
    } else if d == 12 {
        "c"
    } else if d == 13 {
        "d"
    } else if d == 14 {
        "e"
    } else {
        "f"
    };
    s.append(digit);
    proof {
        assert(final(s)@ =~= old(s)@.push(hex_digit(d as int)));
    }
}

fn hex16(h: u64) -> (r: String)
    ensures
        r@ == spec_hex16(h),
{
    let mut s = String::new();
    let mut i: usize = 0;
    while i < 16
        invariant
            i <= 16,
            s@ == spec_hex16(h).take(i as int),
        decreases 16 - i,
    {
        let sh: u64 = 60 - 4 * (i as u64);
        let nib: u64 = (h >> sh) & 0xF;
        proof {
            assert((h >> sh) & 0xF < 16) by (bit_vector);
        }
        append_hex_digit(&mut s, nib);
        proof {
            assert(spec_hex16(h)[i as int] == hex_digit(nib as int));
            assert(s@ =~= spec_hex16(h).take(i + 1));
        }
        i = i + 1;
    }
    proof {
        assert(s@ =~= spec_hex16(h));
    }
    s
}

/// The cache file name for a payload: a fixed prefix and a 64-bit hash of
/// the first ten pages together with the payload length.
pub open spec fn spec_cache_name(data: Seq<u8>) -> Seq<char> {
    ".mtf_backup_index_"@ + spec_hex16(
        DefaultHasher::spec_finish(
            seq![
                data.subrange(0, 10 * (PAGE_SIZE as int)),
                vstd::bytes::spec_u64_to_le_bytes(data.len() as u64),
            ],
        ),
    )
}

impl MTFBackupIndex {
    /// The name of the cache file for this payload, derived from its first
    /// ten pages (system pages, in practice unique) and its length.
    pub fn cache_name(data: &[u8]) -> (r: String)
        requires
            data@.len() >= 10 * PAGE_SIZE,
        ensures
            r@ == spec_cache_name(data@),
    {
        proof {
            assert(data@.len() == vstd::slice::spec_slice_len(data));
        }
        let mut hasher = DefaultHasher::new();
        let head = vstd::slice::slice_subrange(data, 0, 10 * PAGE_SIZE);
        hasher.write(head);
        let len_bytes = vstd::bytes::u64_to_le_bytes(data.len() as u64);
        hasher.write(len_bytes.as_slice());
        let h = hasher.finish();
        proof {
            assert(hasher@ =~= seq![
                data@.subrange(0, 10 * (PAGE_SIZE as int)),
                vstd::bytes::spec_u64_to_le_bytes(data@.len() as u64),
            ]);
        }
        let mut name = String::from_str(".mtf_backup_index_");
        let hex = hex16(h);
        name.append(hex.as_str());
        proof {
            assert(name@ =~= spec_cache_name(data@));
        }
        name
    }
}

/// Random access to the 8192-byte pages of the embedded database payload,
/// answered through the backup index.
pub struct MTFPageProvider<'a> {
    pub data: &'a [u8],
    pub index: MTFBackupIndex,
}

impl<'a> MTFPageProvider<'a> {
    pub open spec fn wf(self) -> bool {
        self.index.wf()
    }

    /// Wraps the `MQDA` stream: its first two bytes belong to no page and
    /// are dropped; the index is built over the rest.
    pub fn from_stream(stream: StreamWithData<'a>) -> (r: Result<MTFPageProvider<'a>, MtfError>)
        requires
            stream.stream.header.id_tag == MQDA_TAG,
            stream.data@.len() >= 2,
        ensures
            r is Ok <==> spec_build(stream.data@.skip(2)) is Some,
            r is Ok ==> ({
                let p = r.unwrap();
                &&& p.data@ == stream.data@.skip(2)
                &&& p.wf()
                &&& Some(p.index.model()) == spec_build(stream.data@.skip(2))
            }),
            r is Err ==> r == Err::<MTFPageProvider<'a>, MtfError>(MtfError::Invariant),
    {
        proof {
            assert(stream.data@.len() == vstd::slice::spec_slice_len(stream.data));
        }
        let payload = vstd::slice::slice_subrange(stream.data, 2, stream.data.len());
        proof {
            assert(payload@ =~= stream.data@.skip(2));
        }
        let index = match MTFBackupIndex::build(payload) {
            Ok(ix) => ix,
            Err(e) => {
                return Err(e);
            },
        };
        Ok(MTFPageProvider { data: payload, index })
    }

    /// The file numbers the index knows: those with a recorded maximum, in
    /// ascending order without duplicates.
    pub fn file_ids(&self) -> (r: Vec<u16>)
        requires
            self.wf(),
        ensures
            forall|j: int|
                0 <= j < r@.len() ==> 1 <= #[trigger] r@[j] && r@[j]
                    <= self.index.max_page_ids@.len() && self.index.max_page_ids@[r@[j] - 1]
                    is Some,
            forall|f: int|
                0 <= f < self.index.max_page_ids@.len() && self.index.max_page_ids@[f] is Some
                    ==> r@.contains((f + 1) as u16),
            forall|i: int, j: int| 0 <= i < j < r@.len() ==> #[trigger] r@[i] < #[trigger] r@[j],
    {
        let mut out: Vec<u16> = Vec::new();
        let mut f: usize = 0;
        let n = self.index.max_page_ids.len();
        while f < n
            invariant
                f <= n,
                n == self.index.max_page_ids@.len() <= 0xFFFF,
                forall|j: int|
                    0 <= j < out@.len() ==> 1 <= #[trigger] out@[j] && out@[j]
                        <= self.index.max_page_ids@.len()
                        && self.index.max_page_ids@[out@[j] - 1] is Some,
                forall|f2: int|
                    0 <= f2 < f && self.index.max_page_ids@[f2] is Some ==> out@.contains(
                        (f2 + 1) as u16,
                    ),
                forall|j: int| 0 <= j < out@.len() ==> #[trigger] out@[j] <= f,
                forall|i: int, j: int| 0 <= i < j < out@.len() ==> #[trigger] out@[i] < #[trigger] out@[j],
            decreases n - f,
        {
            let ghost prev = out@;
            if self.index.max_page_ids[f].is_some() {
                out.push((f as u16) + 1);
            }
            proof {
                assert forall|f2: int|
                    0 <= f2 < f + 1 && self.index.max_page_ids@[f2] is Some implies out@.contains(
                    (f2 + 1) as u16,
                ) by {
                    if f2 < f {
                        let j = choose|j: int| 0 <= j < prev.len() && prev[j] == (f2 + 1) as u16;
                        assert(out@[j] == (f2 + 1) as u16);
                    } else {
                        assert(out@[out@.len() - 1] == (f2 + 1) as u16);
                    }
                }
            }
            f = f + 1;
        }
        out
    }

    /// Highest page number seen for a file, plus one. Over a fully live
    /// payload the stored maximum is exactly the highest observed page id of
    /// the file (`lemma_max_page_ids`).
    pub fn num_pages(&self, file_id: u16) -> (r: u32)
        requires
            1 <= file_id <= self.index.max_page_ids@.len(),
            self.index.max_page_ids@[file_id - 1] is Some,
            self.index.max_page_ids@[file_id - 1].unwrap() < u32::MAX,
        ensures
            r == self.index.max_page_ids@[file_id - 1].unwrap() + 1,
    {
        match self.index.max_page_ids[(file_id as usize) - 1] {
            Some(m) => m + 1,
            None => 0,
        }
    }

    /// Fetches the raw page for `ptr`: the index translates the address, and
    /// the page's own header must carry `ptr` back; a mismatch means the
    /// index is corrupt (`Invariant`). `Ok(None)` for an address the index
    /// does not know or an offset past the payload.
    pub fn get(&self, ptr: PagePointer) -> (r: Result<Option<&'a [u8]>, MtfError>)
        requires
            self.wf(),
        ensures
            spec_lookup(self.index.model().idx, self.index.model().outer, ptr) is None ==> r
                == Ok::<Option<&'a [u8]>, MtfError>(None),
            spec_lookup(self.index.model().idx, self.index.model().outer, ptr) matches Some(e)
                ==> ({
                let off = ((e.base + ptr.page_id - e.start) as u32) as int;
                &&& ((off + 1) * PAGE_SIZE > self.data@.len() ==> r == Ok::<
                    Option<&'a [u8]>,
                    MtfError,
                >(None))
                &&& ((off + 1) * PAGE_SIZE <= self.data@.len() ==> (if spec_page_ptr(
                    self.data@,
                    off,
                ) == Some(ptr) {
                    r is Ok && r.unwrap() is Some && r.unwrap().unwrap()@ == self.data@.subrange(
                        off * PAGE_SIZE,
                        (off + 1) * PAGE_SIZE,
                    )
                } else {
                    r == Err::<Option<&'a [u8]>, MtfError>(MtfError::Invariant)
                }))
            }),
    {
        proof {
            assert(self.data@.len() == vstd::slice::spec_slice_len(self.data));
        }
        let off = match self.index.lookup(ptr) {
            None => {
                return Ok(None);
            },
            Some(v) => v,
        };
        if ((off as u64) + 1) * (PAGE_SIZE as u64) <= self.data.len() as u64 {
            let offu = off as usize;
            let page = vstd::slice::slice_subrange(
                self.data,
                offu * PAGE_SIZE,
                (offu + 1) * PAGE_SIZE,
            );
            match parse_page_ptr(self.data, offu) {
                Some(got) => if got == ptr {
                    Ok(Some(page))
                } else {
                    Err(MtfError::Invariant)
                },
                None => Err(MtfError::Invariant),
            }
        } else {
            Ok(None)
        }
    }
}

} // verus!
