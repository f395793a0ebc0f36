use vstd::prelude::*;
use vstd::arithmetic::div_mod::lemma_div_is_ordered;
use crate::mdf::{
    spec_build, spec_build_loop, spec_find_in, spec_lookup, spec_outer, spec_scan,
    spec_write_entry, BuildState, IndexEntry, IndexModel, DIVISOR,
};
use crate::pages::{spec_num_pages, spec_page_ptr, PagePointer};

verus! {

/// Every payload page holds a live pointer (no zero file numbers). Runs may
/// silently swallow a dead page otherwise, so the round-trip law is stated
/// for fully live payloads.
pub open spec fn all_pages_live(data: Seq<u8>) -> bool {
    forall|i: int| 0 <= i < spec_num_pages(data) ==> (#[trigger] spec_page_ptr(data, i)) is Some
}

/// The key was observed: some payload page carries exactly this pointer.
pub open spec fn observed(data: Seq<u8>, ptr: PagePointer) -> bool {
    exists|i: int|
        0 <= i < spec_num_pages(data) && #[trigger] spec_page_ptr(data, i) == Some(ptr)
}

/// The entry's offsets stay inside the payload and its run is ordered.
pub open spec fn entry_sound(n: int, e: IndexEntry) -> bool {
    &&& e.start <= e.stop
    &&& e.base + (e.stop - e.start) < n
}

/// The entry is a genuine run of file `f`: every page of the run carries the
/// pointer the index promises.
pub open spec fn entry_valid(data: Seq<u8>, f: u16, e: IndexEntry) -> bool {
    &&& entry_sound(spec_num_pages(data), e)
    &&& forall|k: int|
        0 <= k <= e.stop - e.start ==> #[trigger] spec_page_ptr(data, e.base + k) == Some(
            PagePointer { file_id: f, page_id: (e.start + k) as u32 },
        )
}

/// Structural soundness of an index: files of `outer` buckets each, every
/// entry ordered, in-payload, and stored in the bucket its first page id
/// selects.
pub open spec fn index_sound(n: int, idx: Seq<Seq<Seq<IndexEntry>>>, outer: int) -> bool {
    &&& idx.len() <= 0xFFFF
    &&& forall|f: int| 0 <= f < idx.len() ==> (#[trigger] idx[f]).len() == outer
    &&& forall|f: int, b: int, k: int|
        0 <= f < idx.len() && 0 <= b < idx[f].len() && 0 <= k < idx[f][b].len() ==> {
            let e = #[trigger] idx[f][b][k];
            entry_sound(n, e) && b == e.start as int / (DIVISOR as int)
        }
}

/// Every entry is moreover a genuine run of its file.
pub open spec fn index_valid(data: Seq<u8>, idx: Seq<Seq<Seq<IndexEntry>>>, outer: int) -> bool {
    &&& index_sound(spec_num_pages(data), idx, outer)
    &&& forall|f: int, b: int, k: int|
        0 <= f < idx.len() && 0 <= b < idx[f].len() && 0 <= k < idx[f][b].len() ==> entry_valid(
            data,
            (f + 1) as u16,
            #[trigger] idx[f][b][k],
        )
}

/// Some run of `ptr`'s file contains its page id.
pub open spec fn covered(idx: Seq<Seq<Seq<IndexEntry>>>, ptr: PagePointer) -> bool {
    &&& 1 <= ptr.file_id <= idx.len()
    &&& exists|b: int, k: int|
        0 <= b < idx[ptr.file_id - 1].len() && 0 <= k < idx[ptr.file_id - 1][b].len() && (
        #[trigger] idx[ptr.file_id - 1][b][k]).start <= ptr.page_id <= idx[ptr.file_id
            - 1][b][k].stop
}

/// Every page before `upto` whose file is `f` has a page id at most `v`.
pub open spec fn file_page_le(data: Seq<u8>, upto: int, f: u16, v: u32) -> bool {
    forall|j: int|
        0 <= j < upto && (#[trigger] spec_page_ptr(data, j)).unwrap().file_id == f
            ==> spec_page_ptr(data, j).unwrap().page_id <= v
}

/// One slot of the per-file maxima is right for the pages before `upto`:
/// `Some(v)` is an observed page id of the file and bounds all of them,
/// `None` means the file does not occur.
pub open spec fn max_slot_ok(data: Seq<u8>, upto: int, f: u16, slot: Option<u32>) -> bool {
    match slot {
        Some(v) => (exists|j: int|
            0 <= j < upto && #[trigger] spec_page_ptr(data, j) == Some(
                PagePointer { file_id: f, page_id: v },
            )) && file_page_le(data, upto, f, v),
        None => forall|j: int|
            0 <= j < upto ==> (#[trigger] spec_page_ptr(data, j)).unwrap().file_id != f,
    }
}

/// The entry's run is maximal in the payload: the page before its first
/// offset does not chain into it, and the page after its last offset does
/// not extend it (stated for fully live payloads).
pub open spec fn entry_maximal(data: Seq<u8>, f: u16, e: IndexEntry) -> bool {
    &&& (e.base > 0 ==> !((#[trigger] spec_page_ptr(data, e.base - 1)).unwrap().file_id == f
        && spec_page_ptr(data, e.base - 1).unwrap().page_id + 1 == e.start))
    &&& (e.base + (e.stop - e.start) + 1 < spec_num_pages(data) ==> !((#[trigger] spec_page_ptr(
        data,
        e.base + (e.stop - e.start) + 1,
    )).unwrap().file_id == f && spec_page_ptr(data, e.base + (e.stop - e.start) + 1).unwrap(
    ).page_id == e.stop + 1))
}

/// All entries of an index are maximal runs.
pub open spec fn index_maximal(data: Seq<u8>, idx: Seq<Seq<Seq<IndexEntry>>>) -> bool {
    forall|f: int, b: int, k: int|
        0 <= f < idx.len() && 0 <= b < idx[f].len() && 0 <= k < idx[f][b].len() ==> entry_maximal(
            data,
            (f + 1) as u16,
            #[trigger] idx[f][b][k],
        )
}

/// Closing one genuine run keeps the index sound and valid, keeps every key
/// it covered, and covers every key of the run.
proof fn lemma_write_entry_valid(
    data: Seq<u8>,
    idx: Seq<Seq<Seq<IndexEntry>>>,
    max: Seq<Option<u32>>,
    outer: int,
    start: PagePointer,
    end: PagePointer,
    start_idx: int,
)
    requires
        spec_write_entry(idx, max, outer, start, end, start_idx) is Some,
        spec_num_pages(data) <= u32::MAX,
        index_sound(spec_num_pages(data), idx, outer),
        1 <= end.file_id,
        end.file_id == start.file_id,
        start.page_id <= end.page_id,
        0 <= start_idx,
        start_idx + (end.page_id - start.page_id) < spec_num_pages(data),
        forall|k: int|
            0 <= k <= end.page_id - start.page_id && all_pages_live(data)
                ==> #[trigger] spec_page_ptr(data, start_idx + k) == Some(
                PagePointer { file_id: start.file_id, page_id: (start.page_id + k) as u32 },
            ),
        all_pages_live(data) ==> index_valid(data, idx, outer),
        max.len() == idx.len(),
        all_pages_live(data) ==> forall|f2: int|
            0 <= f2 < max.len() ==> max_slot_ok(
                data,
                start_idx,
                (f2 + 1) as u16,
                #[trigger] max[f2],
            ),
        all_pages_live(data) ==> forall|j: int|
            0 <= j < start_idx ==> 1 <= (#[trigger] spec_page_ptr(data, j)).unwrap().file_id
                <= idx.len(),
        all_pages_live(data) ==> index_maximal(data, idx),
        all_pages_live(data) && start_idx > 0 ==> !(spec_page_ptr(
            data,
            start_idx - 1,
        ).unwrap().file_id == start.file_id && spec_page_ptr(data, start_idx - 1).unwrap().page_id
            + 1 == start.page_id),
        all_pages_live(data) && start_idx + (end.page_id - start.page_id) + 1 < spec_num_pages(
            data,
        ) ==> !(spec_page_ptr(
            data,
            start_idx + (end.page_id - start.page_id) + 1,
        ).unwrap().file_id == end.file_id && spec_page_ptr(
            data,
            start_idx + (end.page_id - start.page_id) + 1,
        ).unwrap().page_id == end.page_id + 1),
    ensures
        ({
            let out = spec_write_entry(idx, max, outer, start, end, start_idx).unwrap();
            &&& index_sound(spec_num_pages(data), out.0, outer)
            &&& out.0.len() >= idx.len()
            &&& out.0.len() >= end.file_id
            &&& (max.len() == idx.len() ==> out.1.len() == out.0.len())
            &&& forall|p: PagePointer| covered(idx, p) ==> covered(out.0, p)
            &&& all_pages_live(data) ==> index_valid(data, out.0, outer)
            &&& all_pages_live(data) ==> forall|k: int|
                0 <= k <= end.page_id - start.page_id ==> #[trigger] covered(
                    out.0,
                    PagePointer { file_id: end.file_id, page_id: (start.page_id + k) as u32 },
                )
            &&& all_pages_live(data) ==> forall|f2: int|
                0 <= f2 < out.1.len() ==> max_slot_ok(
                    data,
                    start_idx + (end.page_id - start.page_id) + 1,
                    (f2 + 1) as u16,
                    #[trigger] out.1[f2],
                )
            &&& all_pages_live(data) ==> index_maximal(data, out.0)
        }),
{
    let n = spec_num_pages(data);
    let f = end.file_id as int;
    let idx1 = if idx.len() >= f {
        idx
    } else {
        idx + Seq::new((f - idx.len()) as nat, |j: int| crate::mdf::spec_empty_file(outer))
    };
    let b = start.page_id as int / (DIVISOR as int);
    let e = IndexEntry { start: start.page_id, stop: end.page_id, base: start_idx as u32 };
    let idx2 = idx1.update(f - 1, idx1[f - 1].update(b, idx1[f - 1][b].push(e)));
    let out = spec_write_entry(idx, max, outer, start, end, start_idx).unwrap();
    assert(out.0 == idx2);
    assert(entry_sound(n, e));
    assert(b == e.start as int / (DIVISOR as int));
    // soundness and validity of every entry of the grown, updated index
    assert forall|f2: int, b2: int, k2: int|
        0 <= f2 < idx2.len() && 0 <= b2 < idx2[f2].len() && 0 <= k2 < idx2[f2][b2].len() implies ({
        let e2 = #[trigger] idx2[f2][b2][k2];
        entry_sound(n, e2) && b2 == e2.start as int / (DIVISOR as int) && (all_pages_live(data)
            ==> entry_valid(data, (f2 + 1) as u16, e2))
    }) by {
        if f2 == f - 1 && b2 == b && k2 == idx1[f - 1][b].len() {
            assert(idx2[f2][b2][k2] == e);
            if all_pages_live(data) {
                assert forall|k: int| 0 <= k <= e.stop - e.start implies #[trigger] spec_page_ptr(
                    data,
                    e.base + k,
                ) == Some(PagePointer { file_id: end.file_id, page_id: (e.start + k) as u32 }) by {
                    assert(spec_page_ptr(data, start_idx + k) == Some(
                        PagePointer {
                            file_id: start.file_id,
                            page_id: (start.page_id + k) as u32,
                        },
                    ));
                }
            }
        } else {
            if f2 == f - 1 && b2 == b {
                assert(idx2[f2][b2][k2] == idx1[f - 1][b][k2]);
            }
            if f2 < idx.len() {
                assert(idx1[f2] == idx[f2]);
            } else {
                assert(idx1[f2] == crate::mdf::spec_empty_file(outer));
            }
        }
    }
    // old coverage is kept: the witnesses survive growth and the push
    assert forall|p: PagePointer| covered(idx, p) implies covered(idx2, p) by {
        let (b0, k0) = choose|b0: int, k0: int|
            0 <= b0 < idx[p.file_id - 1].len() && 0 <= k0 < idx[p.file_id - 1][b0].len() && (
            #[trigger] idx[p.file_id - 1][b0][k0]).start <= p.page_id <= idx[p.file_id
                - 1][b0][k0].stop;
        assert(idx1[p.file_id - 1][b0][k0] == idx[p.file_id - 1][b0][k0]);
        assert(idx2[p.file_id - 1][b0].len() >= idx1[p.file_id - 1][b0].len());
        assert(idx2[p.file_id - 1][b0][k0] == idx1[p.file_id - 1][b0][k0]);
    }
    // every entry of the updated index is a maximal run: the old ones were,
    // and the closed run's neighbours break the chain by hypothesis
    if all_pages_live(data) {
        assert forall|f2: int, b2: int, k2: int|
            0 <= f2 < idx2.len() && 0 <= b2 < idx2[f2].len() && 0 <= k2
                < idx2[f2][b2].len() implies entry_maximal(
            data,
            (f2 + 1) as u16,
            #[trigger] idx2[f2][b2][k2],
        ) by {
            if f2 == f - 1 && b2 == b && k2 == idx1[f - 1][b].len() {
                assert(idx2[f2][b2][k2] == e);
                assert(entry_maximal(data, end.file_id, e));
            } else {
                if f2 == f - 1 && b2 == b {
                    assert(idx2[f2][b2][k2] == idx1[f - 1][b][k2]);
                }
                if f2 < idx.len() {
                    assert(idx1[f2] == idx[f2]);
                    assert(entry_maximal(data, (f2 + 1) as u16, idx[f2][b2][k2]));
                } else {
                    assert(idx1[f2] == crate::mdf::spec_empty_file(outer));
                }
            }
        }
    }
    // the new maxima are right for the pages up to the run's end
    if all_pages_live(data) {
        let max1 = if max.len() >= f {
            max
        } else {
            max + Seq::new((f - max.len()) as nat, |j: int| None::<u32>)
        };
        let upto2 = start_idx + (end.page_id - start.page_id) + 1;
        assert forall|f2: int| 0 <= f2 < out.1.len() implies max_slot_ok(
            data,
            upto2,
            (f2 + 1) as u16,
            #[trigger] out.1[f2],
        ) by {
            let fu = (f2 + 1) as u16;
            if f2 == f - 1 {
                let v = out.1[f2].unwrap();
                // the run's last page carries (file, v) or an older page did
                if max1[f2] is Some && max1[f2].unwrap() >= end.page_id {
                    assert(v == max1[f2].unwrap());
                    assert(max_slot_ok(data, start_idx, fu, max[f2]));
                } else {
                    assert(v == end.page_id);
                    assert(spec_page_ptr(data, start_idx + (end.page_id - start.page_id))
                        == Some(PagePointer { file_id: end.file_id, page_id: end.page_id }));
                }
                assert forall|j: int|
                    0 <= j < upto2 && (#[trigger] spec_page_ptr(data, j)).unwrap().file_id == fu
                    implies spec_page_ptr(data, j).unwrap().page_id <= v by {
                    if j < start_idx {
                        assert(max_slot_ok(data, start_idx, fu, max[f2]));
                    } else {
                        let k = j - start_idx;
                        assert(spec_page_ptr(data, start_idx + k) == Some(
                            PagePointer {
                                file_id: start.file_id,
                                page_id: (start.page_id + k) as u32,
                            },
                        ));
                    }
                }
            } else if f2 < max.len() {
                assert(out.1[f2] == max[f2]);
                assert(max_slot_ok(data, start_idx, fu, max[f2]));
                assert forall|j: int|
                    start_idx <= j < upto2 implies (#[trigger] spec_page_ptr(
                    data,
                    j,
                )).unwrap().file_id != fu by {
                    let k = j - start_idx;
                    assert(spec_page_ptr(data, start_idx + k) == Some(
                        PagePointer {
                            file_id: start.file_id,
                            page_id: (start.page_id + k) as u32,
                        },
                    ));
                }
            } else {
                // a freshly grown slot: its file occurs nowhere yet
                assert(out.1[f2] is None);
                assert forall|j: int| 0 <= j < upto2 implies (#[trigger] spec_page_ptr(
                    data,
                    j,
                )).unwrap().file_id != fu by {
                    if j < start_idx {
                        assert(1 <= spec_page_ptr(data, j).unwrap().file_id <= idx.len());
                    } else {
                        let k = j - start_idx;
                        assert(spec_page_ptr(data, start_idx + k) == Some(
                            PagePointer {
                                file_id: start.file_id,
                                page_id: (start.page_id + k) as u32,
                            },
                        ));
                    }
                }
            }
        }
    }
    // the run's own keys are now covered, by the pushed entry
    if all_pages_live(data) {
        assert forall|k: int| 0 <= k <= end.page_id - start.page_id implies #[trigger] covered(
            idx2,
            PagePointer { file_id: end.file_id, page_id: (start.page_id + k) as u32 },
        ) by {
            let pk = PagePointer { file_id: end.file_id, page_id: (start.page_id + k) as u32 };
            let kk = idx1[f - 1][b].len() as int;
            assert(idx2[pk.file_id - 1][b][kk] == e);
            assert(idx2[pk.file_id - 1].len() == idx1[f - 1].len());
            assert(0 <= b < idx2[pk.file_id - 1].len());
            assert(0 <= kk < idx2[pk.file_id - 1][b].len());
            assert((idx2[pk.file_id - 1][b][kk]).start <= pk.page_id <= idx2[pk.file_id
                - 1][b][kk].stop);
        }
    }
}

/// The scan's state invariant, threaded through the whole walk: what must
/// hold of the open run and of the index built so far.
pub open spec fn build_inv(data: Seq<u8>, i: int, s: BuildState, outer: int) -> bool {
    let n = spec_num_pages(data);
    &&& n <= u32::MAX
    &&& outer == spec_outer(n)
    &&& 1 <= i <= n
    &&& index_sound(n, s.idx, outer)
    &&& s.max.len() == s.idx.len()
    &&& 1 <= s.start.file_id
    &&& s.old.file_id == s.start.file_id
    &&& 0 <= s.start_idx < i
    &&& s.start.page_id <= s.old.page_id
    &&& s.old.page_id - s.start.page_id <= i - 1 - s.start_idx
    &&& all_pages_live(data) ==> {
        &&& s.old.page_id - s.start.page_id == i - 1 - s.start_idx
        &&& index_valid(data, s.idx, outer)
        &&& (forall|k: int|
            0 <= k <= i - 1 - s.start_idx ==> #[trigger] spec_page_ptr(data, s.start_idx + k)
                == Some(
                PagePointer {
                    file_id: s.start.file_id,
                    page_id: (s.start.page_id + k) as u32,
                },
            ))
        &&& (forall|j: int|
            0 <= j < s.start_idx ==> covered(s.idx, (#[trigger] spec_page_ptr(data, j)).unwrap()))
        &&& (forall|f2: int|
            0 <= f2 < s.max.len() ==> max_slot_ok(
                data,
                s.start_idx,
                (f2 + 1) as u16,
                #[trigger] s.max[f2],
            ))
        &&& index_maximal(data, s.idx)
        &&& (s.start_idx > 0 ==> !(spec_page_ptr(data, s.start_idx - 1).unwrap().file_id
            == s.start.file_id && spec_page_ptr(data, s.start_idx - 1).unwrap().page_id + 1
            == s.start.page_id))
    }
}

/// Induction over the scan: a completed scan yields a sound index, and over
/// a fully live payload a valid one that covers every page's key.
proof fn lemma_build_loop_valid(data: Seq<u8>, i: int, s: BuildState, outer: int)
    requires
        spec_build_loop(data, i, s, outer) is Some,
        build_inv(data, i, s, outer),
    ensures
        ({
            let out = spec_build_loop(data, i, s, outer).unwrap();
            &&& index_sound(spec_num_pages(data), out.0, outer)
            &&& out.1.len() == out.0.len()
            &&& all_pages_live(data) ==> index_valid(data, out.0, outer)
            &&& all_pages_live(data) ==> forall|j: int|
                0 <= j < spec_num_pages(data) ==> covered(
                    out.0,
                    (#[trigger] spec_page_ptr(data, j)).unwrap(),
                )
            &&& all_pages_live(data) ==> forall|f2: int|
                0 <= f2 < out.1.len() ==> max_slot_ok(
                    data,
                    spec_num_pages(data),
                    (f2 + 1) as u16,
                    #[trigger] out.1[f2],
                )
            &&& all_pages_live(data) ==> index_maximal(data, out.0)
        }),
    decreases spec_num_pages(data) - i,
{
    let n = spec_num_pages(data);
    if all_pages_live(data) {
        assert forall|j: int| 0 <= j < s.start_idx implies 1 <= (#[trigger] spec_page_ptr(
            data,
            j,
        )).unwrap().file_id <= s.idx.len() by {
            assert(covered(s.idx, spec_page_ptr(data, j).unwrap()));
        }
    }
    if i >= n {
        lemma_write_entry_valid(data, s.idx, s.max, outer, s.start, s.old, s.start_idx);
        let out = spec_build_loop(data, i, s, outer).unwrap();
        if all_pages_live(data) {
            assert forall|j: int| 0 <= j < n implies covered(
                out.0,
                (#[trigger] spec_page_ptr(data, j)).unwrap(),
            ) by {
                if j < s.start_idx {
                    assert(covered(s.idx, spec_page_ptr(data, j).unwrap()));
                } else {
                    let k = j - s.start_idx;
                    assert(spec_page_ptr(data, s.start_idx + k) == Some(
                        PagePointer {
                            file_id: s.start.file_id,
                            page_id: (s.start.page_id + k) as u32,
                        },
                    ));
                    assert(j == s.start_idx + k);
                }
            }
        }
    } else {
        match spec_page_ptr(data, i) {
            None => {
                assert(!all_pages_live(data));
                lemma_build_loop_valid(data, i + 1, s, outer);
            },
            Some(new) => {
                if s.start.file_id != new.file_id || s.old.page_id + 1 != new.page_id {
                    lemma_write_entry_valid(data, s.idx, s.max, outer, s.start, s.old, s.start_idx);
                    let grown = spec_write_entry(
                        s.idx,
                        s.max,
                        outer,
                        s.start,
                        s.old,
                        s.start_idx,
                    ).unwrap();
                    let s2 = BuildState {
                        idx: grown.0,
                        max: grown.1,
                        start: new,
                        old: new,
                        start_idx: i,
                    };
                    assert(new.file_id >= 1);
                    if all_pages_live(data) {
                        assert forall|j: int| 0 <= j < i implies covered(
                            s2.idx,
                            (#[trigger] spec_page_ptr(data, j)).unwrap(),
                        ) by {
                            if j < s.start_idx {
                                assert(covered(s.idx, spec_page_ptr(data, j).unwrap()));
                            } else {
                                let k = j - s.start_idx;
                                assert(spec_page_ptr(data, s.start_idx + k) == Some(
                                    PagePointer {
                                        file_id: s.start.file_id,
                                        page_id: (s.start.page_id + k) as u32,
                                    },
                                ));
                                assert(j == s.start_idx + k);
                                assert(covered(
                                    s2.idx,
                                    PagePointer {
                                        file_id: s.old.file_id,
                                        page_id: (s.start.page_id + k) as u32,
                                    },
                                ));
                            }
                        }
                    }
                    lemma_build_loop_valid(data, i + 1, s2, outer);
                } else {
                    let s2 = BuildState { old: new, ..s };
                    lemma_build_loop_valid(data, i + 1, s2, outer);
                }
            },
        }
    }
}

/// A bucket whose tail holds a matching entry makes the forward search
/// succeed.
proof fn lemma_find_in_some(bucket: Seq<IndexEntry>, p: u32, j: int)
    requires
        0 <= j,
        exists|k: int|
            j <= k < bucket.len() && (#[trigger] bucket[k]).start <= p <= bucket[k].stop,
    ensures
        spec_find_in(bucket, p, j) is Some,
    decreases bucket.len() - j,
{
    if !(bucket[j].start <= p <= bucket[j].stop) {
        let k = choose|k: int|
            j <= k < bucket.len() && (#[trigger] bucket[k]).start <= p <= bucket[k].stop;
        assert(k > j);
        lemma_find_in_some(bucket, p, j + 1);
    }
}

/// Whatever the forward search returns is an entry of the bucket, and it
/// contains `p`.
proof fn lemma_find_in_result(bucket: Seq<IndexEntry>, p: u32, j: int)
    requires
        0 <= j,
        spec_find_in(bucket, p, j) is Some,
    ensures
        ({
            let e = spec_find_in(bucket, p, j).unwrap();
            exists|k: int| 0 <= k < bucket.len() && #[trigger] bucket[k] == e && e.start <= p
                <= e.stop
        }),
    decreases bucket.len() - j,
{
    if !(j < bucket.len()) {
    } else if bucket[j].start <= p <= bucket[j].stop {
    } else {
        lemma_find_in_result(bucket, p, j + 1);
    }
}

/// A matching entry in some bucket at or below `b` makes the downward scan
/// succeed, and whatever it returns is an entry of the file containing `p`.
proof fn lemma_scan_props(file: Seq<Seq<IndexEntry>>, p: u32, b: int)
    requires
        b < file.len(),
    ensures
        (exists|b2: int, k: int|
            0 <= b2 <= b && 0 <= k < file[b2].len() && (#[trigger] file[b2][k]).start <= p
                <= file[b2][k].stop) ==> spec_scan(file, p, b) is Some,
        spec_scan(file, p, b) is Some ==> ({
            let e = spec_scan(file, p, b).unwrap();
            exists|b2: int, k: int|
                0 <= b2 <= b && 0 <= k < file[b2].len() && #[trigger] file[b2][k] == e && e.start
                    <= p <= e.stop
        }),
    decreases b + 1,
{
    if b < 0 {
    } else {
        lemma_scan_props(file, p, b - 1);
        if spec_find_in(file[b], p, 0) is Some {
            lemma_find_in_result(file[b], p, 0);
        }
        if exists|b2: int, k: int|
            0 <= b2 <= b && 0 <= k < file[b2].len() && (#[trigger] file[b2][k]).start <= p
                <= file[b2][k].stop {
            let (b2, k) = choose|b2: int, k: int|
                0 <= b2 <= b && 0 <= k < file[b2].len() && (#[trigger] file[b2][k]).start <= p
                    <= file[b2][k].stop;
            if spec_find_in(file[b], p, 0) is None {
                if b2 == b {
                    lemma_find_in_some(file[b], p, 0);
                    assert(false);
                }
            }
        }
    }
}

/// Law: building the index over one payload twice yields structurally
/// identical indices; the index is a function of the payload alone.
pub proof fn lemma_build_deterministic(data: Seq<u8>, m1: IndexModel, m2: IndexModel)
    requires
        spec_build(data) == Some(m1),
        spec_build(data) == Some(m2),
    ensures
        m1.idx == m2.idx,
        m1.max == m2.max,
        m1.outer == m2.outer,
{
}

/// The index an accepted scan yields is structurally sound, whatever the
/// payload held.
pub proof fn lemma_spec_build_sound(data: Seq<u8>)
    requires
        spec_build(data) is Some,
    ensures
        ({
            let m = spec_build(data).unwrap();
            &&& index_sound(spec_num_pages(data), m.idx, m.outer)
            &&& m.max.len() == m.idx.len()
            &&& m.outer == spec_outer(spec_num_pages(data))
            &&& all_pages_live(data) ==> index_valid(data, m.idx, m.outer)
            &&& all_pages_live(data) ==> forall|j: int|
                0 <= j < spec_num_pages(data) ==> covered(
                    m.idx,
                    (#[trigger] spec_page_ptr(data, j)).unwrap(),
                )
            &&& all_pages_live(data) ==> forall|f2: int|
                0 <= f2 < m.max.len() ==> max_slot_ok(
                    data,
                    spec_num_pages(data),
                    (f2 + 1) as u16,
                    #[trigger] m.max[f2],
                )
            &&& all_pages_live(data) ==> index_maximal(data, m.idx)
        }),
{
    let n = spec_num_pages(data);
    let p0 = spec_page_ptr(data, 0).unwrap();
    let s0 = BuildState {
        idx: Seq::empty(),
        max: Seq::empty(),
        start: p0,
        old: p0,
        start_idx: 0,
    };
    lemma_build_loop_valid(data, 1, s0, spec_outer(n));
}

/// Law (round trip): over a fully live payload, every observed page key is
/// found by the lookup scan, and the payload offset it denotes holds a page
/// whose header is exactly that key.
pub proof fn lemma_index_round_trip(data: Seq<u8>, m: IndexModel, ptr: PagePointer)
    requires
        spec_build(data) == Some(m),
        all_pages_live(data),
        observed(data, ptr),
    ensures
        spec_lookup(m.idx, m.outer, ptr) is Some,
        ({
            let e = spec_lookup(m.idx, m.outer, ptr).unwrap();
            let off = e.base + ptr.page_id - e.start;
            &&& 0 <= off < spec_num_pages(data)
            &&& spec_page_ptr(data, off) == Some(ptr)
        }),
{
    let n = spec_num_pages(data);
    lemma_spec_build_sound(data);
    let j = choose|j: int|
        0 <= j < spec_num_pages(data) && #[trigger] spec_page_ptr(data, j) == Some(ptr);
    assert(covered(m.idx, ptr));
    assert(ptr.file_id >= 1);
    let file = m.idx[ptr.file_id - 1];
    let (b2, k2) = choose|b2: int, k2: int|
        0 <= b2 < file.len() && 0 <= k2 < file[b2].len() && (#[trigger] file[b2][k2]).start
            <= ptr.page_id <= file[b2][k2].stop;
    let e0 = file[b2][k2];
    // the matching entry's bucket lies at or below the scan's first bucket
    assert(b2 == e0.start as int / (DIVISOR as int));
    lemma_div_is_ordered(e0.start as int, ptr.page_id as int, DIVISOR as int);
    assert(b2 <= ptr.page_id as int / (DIVISOR as int));
    assert(b2 <= m.outer - 1);
    let b0 = ptr.page_id as int / (DIVISOR as int);
    let binit = if b0 <= m.outer - 1 {
        b0
    } else {
        m.outer - 1
    };
    assert(b2 <= binit);
    lemma_scan_props(file, ptr.page_id, binit);
    assert(spec_scan(file, ptr.page_id, binit) is Some);
    let e = spec_scan(file, ptr.page_id, binit).unwrap();
    let (b3, k3) = choose|b3: int, k3: int|
        0 <= b3 <= binit && 0 <= k3 < file[b3].len() && #[trigger] file[b3][k3] == e && e.start
            <= ptr.page_id <= e.stop;
    assert(entry_valid(data, ptr.file_id, m.idx[ptr.file_id - 1][b3][k3]));
    let k = ptr.page_id - e.start;
    assert(spec_page_ptr(data, e.base + k) == Some(
        PagePointer { file_id: ptr.file_id, page_id: (e.start + k) as u32 },
    ));
    assert((e.start + k) as u32 == ptr.page_id);
}

/// Law: over a fully live payload, the per-file maxima are exactly the
/// highest observed page ids. A recorded maximum was observed and bounds
/// every observed page id of its file; an empty slot means no page of that
/// file stands in the payload.
pub proof fn lemma_max_page_ids(data: Seq<u8>, m: IndexModel, f: u16)
    requires
        spec_build(data) == Some(m),
        all_pages_live(data),
        1 <= f <= m.max.len(),
    ensures
        m.max[f - 1] matches Some(v) ==> observed(data, PagePointer { file_id: f, page_id: v })
            && (forall|p: u32|
            observed(data, PagePointer { file_id: f, page_id: p }) ==> p <= v),
        m.max[f - 1] is None ==> forall|p: u32|
            !observed(data, PagePointer { file_id: f, page_id: p }),
{
    lemma_spec_build_sound(data);
    let n = spec_num_pages(data);
    assert(max_slot_ok(data, n, ((f - 1) + 1) as u16, m.max[f - 1]));
    assert(((f - 1) + 1) as u16 == f);
    match m.max[f - 1] {
        Some(v) => {
            assert(observed(data, PagePointer { file_id: f, page_id: v }));
            assert forall|p: u32|
                observed(data, PagePointer { file_id: f, page_id: p }) implies p <= v by {
                let j = choose|j: int|
                    0 <= j < n && #[trigger] spec_page_ptr(data, j) == Some(
                        PagePointer { file_id: f, page_id: p },
                    );
                assert(spec_page_ptr(data, j).unwrap().file_id == f);
            }
        },
        None => {
            assert forall|p: u32| !observed(data, PagePointer { file_id: f, page_id: p }) by {
                if observed(data, PagePointer { file_id: f, page_id: p }) {
                    let j = choose|j: int|
                        0 <= j < n && #[trigger] spec_page_ptr(data, j) == Some(
                            PagePointer { file_id: f, page_id: p },
                        );
                    assert(spec_page_ptr(data, j).unwrap().file_id == f);
                }
            }
        },
    }
}

/// Law: over a fully live payload, every index entry is a maximal run —
/// neither the page before its first payload offset nor the page after its
/// last one continues the same file's page-id chain.
pub proof fn lemma_runs_maximal(data: Seq<u8>, m: IndexModel)
    requires
        spec_build(data) == Some(m),
        all_pages_live(data),
    ensures
        index_maximal(data, m.idx),
{
    lemma_spec_build_sound(data);
}

} // verus!
