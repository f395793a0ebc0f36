use vstd::prelude::*;
use crate::mdf::{idx_model, IndexEntry, MTFBackupIndex, DIVISOR};

verus! {

broadcast use vstd::slice::group_slice_axioms;

/// First word of every serialised index; stale or foreign cache files are
/// rejected rather than misread.
pub const INDEX_CACHE_VERSION: u64 = 0x3158_4449_5F46_544D;

/// One run as three words: start, stop, base.
pub open spec fn ser_bucket(bucket: Seq<IndexEntry>) -> Seq<u64> {
    seq![bucket.len() as u64] + Seq::new(
        (3 * bucket.len()) as nat,
        |i: int|
            {
                let e = bucket[i / 3];
                if i % 3 == 0 {
                    e.start as u64
                } else if i % 3 == 1 {
                    e.stop as u64
                } else {
                    e.base as u64
                }
            },
    )
}

/// A file: its buckets in order, each with its count before it.
pub open spec fn ser_file(file: Seq<Seq<IndexEntry>>) -> Seq<u64>
    decreases file.len(),
{
    if file.len() == 0 {
        Seq::empty()
    } else {
        ser_file(file.drop_last()) + ser_bucket(file.last())
    }
}

/// All files in order.
pub open spec fn ser_files(idx: Seq<Seq<Seq<IndexEntry>>>) -> Seq<u64>
    decreases idx.len(),
{
    if idx.len() == 0 {
        Seq::empty()
    } else {
        ser_files(idx.drop_last()) + ser_file(idx.last())
    }
}

/// The per-file maxima: a presence word and a value word each.
pub open spec fn ser_max(max: Seq<Option<u32>>) -> Seq<u64>
    decreases max.len(),
{
    if max.len() == 0 {
        Seq::empty()
    } else {
        ser_max(max.drop_last()) + (match max.last() {
            None => seq![0u64, 0u64],
            Some(v) => seq![1u64, v as u64],
        })
    }
}

/// The whole index as words: version, outer level, file count, the files,
/// the maxima.
pub open spec fn ser_words(idx: Seq<Seq<Seq<IndexEntry>>>, max: Seq<Option<u32>>, outer: int) -> Seq<
    u64,
> {
    seq![INDEX_CACHE_VERSION, outer as u64, idx.len() as u64] + ser_files(idx) + ser_max(max)
}

/// Words laid out as little-endian bytes.
pub open spec fn words_bytes(ws: Seq<u64>) -> Seq<u8> {
    Seq::new((8 * ws.len()) as nat, |i: int| vstd::bytes::spec_u64_to_le_bytes(ws[i / 8])[i % 8])
}

/// What serialising an index yields.
pub open spec fn spec_serialize(idx: Seq<Seq<Seq<IndexEntry>>>, max: Seq<Option<u32>>, outer: int) -> Seq<
    u8,
> {
    words_bytes(ser_words(idx, max, outer))
}

impl MTFBackupIndex {
    /// Serialises the index for the cache file. The bytes are a function of
    /// the index alone, so one payload always writes one cache content.
    #[verifier::rlimit(100)]
    #[verifier::spinoff_prover]
    pub fn serialize(&self) -> (r: Vec<u8>)
        ensures
            r@ == spec_serialize(
                self.model().idx,
                self.model().max,
                self.outer_level_entries as int,
            ),
    {
        let ghost gidx = self.model().idx;
        let ghost gmax = self.model().max;
        let mut words: Vec<u64> = Vec::new();
        words.push(INDEX_CACHE_VERSION);
        words.push(self.outer_level_entries as u64);
        words.push(self.idx.len() as u64);
        proof {
            assert(words@ =~= seq![
                INDEX_CACHE_VERSION,
                self.outer_level_entries as u64,
                gidx.len() as u64,
            ]);
        }
        let ghost header = words@;
        let mut f: usize = 0;
        let nf = self.idx.len();
        while f < nf
            invariant
                f <= nf,
                nf == self.idx@.len(),
                gidx == self.model().idx,
                gmax == self.model().max,
                header == seq![
                    INDEX_CACHE_VERSION,
                    self.outer_level_entries as u64,
                    gidx.len() as u64,
                ],
                words@ == header + ser_files(gidx.take(f as int)),
            decreases nf - f,
        {
            let ghost file_words = words@;
            let nb = self.idx[f].len();
            let mut b: usize = 0;
            while b < nb
                invariant
                    b <= nb,
                    f < self.idx@.len(),
                    nb == self.idx@[f as int]@.len(),
                    gidx == self.model().idx,
                    words@ == file_words + ser_file(gidx[f as int].take(b as int)),
                decreases nb - b,
            {
                let ghost bucket_words = words@;
                let ghost bucket = gidx[f as int][b as int];
                let nk = self.idx[f][b].len();
                words.push(nk as u64);
                let mut k: usize = 0;
                while k < nk
                    invariant
                        k <= nk,
                        f < self.idx@.len(),
                        b < self.idx@[f as int]@.len(),
                        nk == self.idx@[f as int]@[b as int]@.len(),
                        gidx == self.model().idx,
                        bucket == gidx[f as int][b as int],
                        words@ == bucket_words + ser_bucket(bucket).take(1 + 3 * k as int),
                    decreases nk - k,
                {
                    let e = self.idx[f][b][k];
                    proof {
                        assert(e == bucket[k as int]);
                        assert(words@ + seq![e.start as u64, e.stop as u64, e.base as u64]
                            =~= bucket_words + ser_bucket(bucket).take(1 + 3 * (k + 1)));
                    }
                    words.push(e.start as u64);
                    words.push(e.stop as u64);
                    words.push(e.base as u64);
                    k = k + 1;
                }
                proof {
                    assert(ser_bucket(bucket).take(1 + 3 * nk as int) =~= ser_bucket(bucket));
                    assert(gidx[f as int].take(b + 1).drop_last() =~= gidx[f as int].take(
                        b as int,
                    ));
                    assert(gidx[f as int].take(b + 1).last() == bucket);
                    assert(words@ =~= file_words + ser_file(gidx[f as int].take(b + 1)));
                }
                b = b + 1;
            }
            proof {
                assert(gidx[f as int].take(nb as int) =~= gidx[f as int]);
                assert(gidx.take(f + 1).drop_last() =~= gidx.take(f as int));
                assert(gidx.take(f + 1).last() == gidx[f as int]);
                assert(words@ =~= header + ser_files(gidx.take(f + 1)));
            }
            f = f + 1;
        }
        proof {
            assert(gidx.take(nf as int) =~= gidx);
        }
        let ghost with_files = words@;
        let mut m: usize = 0;
        let nm = self.max_page_ids.len();
        while m < nm
            invariant
                m <= nm,
                nm == self.max_page_ids@.len(),
                gmax == self.model().max,
                words@ == with_files + ser_max(gmax.take(m as int)),
            decreases nm - m,
        {
            match self.max_page_ids[m] {
                None => {
                    words.push(0);
                    words.push(0);
                },
                Some(v) => {
                    words.push(1);
                    words.push(v as u64);
                },
            }
            proof {
                assert(gmax.take(m + 1).drop_last() =~= gmax.take(m as int));
                assert(gmax.take(m + 1).last() == gmax[m as int]);
                assert(words@ =~= with_files + ser_max(gmax.take(m + 1)));
            }
            m = m + 1;
        }
        proof {
            assert(gmax.take(nm as int) =~= gmax);
            assert(words@ =~= ser_words(gidx, gmax, self.outer_level_entries as int));
        }
        // lay the words out as bytes
        let ghost ws = words@;
        let mut out: Vec<u8> = Vec::new();
        let mut w: usize = 0;
        let nw = words.len();
        while w < nw
            invariant
                w <= nw,
                nw == ws.len(),
                words@ == ws,
                out@ == words_bytes(ws.take(w as int)),
            decreases nw - w,
        {
            let bytes = vstd::bytes::u64_to_le_bytes(words[w]);
            let mut j: usize = 0;
            while j < 8
                invariant
                    j <= 8,
                    w < ws.len(),
                    words@ == ws,
                    bytes@ == vstd::bytes::spec_u64_to_le_bytes(ws[w as int]),
                    bytes@.len() == 8,
                    out@ == words_bytes(ws.take(w as int)) + bytes@.take(j as int),
                decreases 8 - j,
            {
                out.push(bytes[j]);
                proof {
                    assert(out@ =~= words_bytes(ws.take(w as int)) + bytes@.take(j + 1));
                }
                j = j + 1;
            }
            proof {
                assert(out@ =~= words_bytes(ws.take(w + 1)));
            }
            w = w + 1;
        }
        proof {
            assert(ws.take(nw as int) =~= ws);
        }
        out
    }

    /// Reads a cache file back. `None` for anything that is not a
    /// well-formed serialised index of the current version: the caller then
    /// rebuilds from the payload instead of trusting a stale cache. What is
    /// accepted re-serialises to exactly the given bytes, so (with
    /// `lemma_serialize_injective`) a cache written from a well-formed index
    /// can only ever read back as that index.
    #[verifier::rlimit(100)]
    #[verifier::spinoff_prover]
    pub fn deserialize(bytes: &[u8]) -> (r: Option<MTFBackupIndex>)
        ensures
            r is Some ==> r.unwrap().wf(),
            r is Some ==> spec_serialize(
                idx_model(r.unwrap().idx@),
                r.unwrap().max_page_ids@,
                r.unwrap().outer_level_entries as int,
            ) == bytes@,
            r is Some ==> forall|other: MTFBackupIndex|
                other.wf() && bytes@ == #[trigger] spec_serialize(
                    idx_model(other.idx@),
                    other.max_page_ids@,
                    other.outer_level_entries as int,
                ) ==> idx_model(r.unwrap().idx@) == idx_model(other.idx@) && r.unwrap(
                ).max_page_ids@ == other.max_page_ids@ && r.unwrap().outer_level_entries
                    == other.outer_level_entries,
    {
        proof {
            assert(bytes@.len() == vstd::slice::spec_slice_len(bytes));
        }
        let n = bytes.len();
        if n % 8 != 0 || n < 24 {
            return None;
        }
        let nw = n / 8;
        let mut words: Vec<u64> = Vec::new();
        let mut w: usize = 0;
        while w < nw
            invariant
                w <= nw,
                nw == bytes@.len() / 8,
                8 * nw <= bytes@.len() <= usize::MAX,
                words@.len() == w,
            decreases nw - w,
        {
            let mut cur = crate::cursor::ByteCursor { data: bytes, pos: 8 * w };
            let word = match cur.read_u64() {
                Ok(v) => v,
                Err(_) => {
                    return None;
                },
            };
            words.push(word);
            w = w + 1;
        }
        let mut pos: usize = 0;
        let version = words[pos];
        pos = pos + 1;
        if version != INDEX_CACHE_VERSION {
            return None;
        }
        let outer64 = words[pos];
        pos = pos + 1;
        if outer64 > usize::MAX as u64 {
            return None;
        }
        let outer = outer64 as usize;
        let nf64 = words[pos];
        pos = pos + 1;
        if nf64 > 0xFFFF {
            return None;
        }
        let nf = nf64 as usize;
        let mut idx: Vec<Vec<Vec<IndexEntry>>> = Vec::new();
        let mut f: usize = 0;
        while f < nf
            invariant
                f <= nf,
                nf <= 0xFFFF,
                idx@.len() == f,
                forall|f2: int| 0 <= f2 < f ==> (#[trigger] idx@[f2])@.len() == outer,
                forall|f2: int, b2: int, k2: int|
                    0 <= f2 < f && 0 <= b2 < idx@[f2]@.len() && 0 <= k2 < idx@[f2]@[b2]@.len()
                        ==> ({
                        let e = #[trigger] idx@[f2]@[b2]@[k2];
                        e.start <= e.stop && e.base + (e.stop - e.start) <= u32::MAX
                    }),
            decreases nf - f,
        {
            let mut file: Vec<Vec<IndexEntry>> = Vec::new();
            let mut b: usize = 0;
            while b < outer
                invariant
                    b <= outer,
                    file@.len() == b,
                    forall|b2: int, k2: int|
                        0 <= b2 < b && 0 <= k2 < file@[b2]@.len() ==> ({
                            let e = #[trigger] file@[b2]@[k2];
                            e.start <= e.stop && e.base + (e.stop - e.start) <= u32::MAX
                        }),
                decreases outer - b,
            {
                if pos >= words.len() {
                    return None;
                }
                let count64 = words[pos];
                pos = pos + 1;
                if count64 > usize::MAX as u64 {
                    return None;
                }
                let count = count64 as usize;
                let mut bucket: Vec<IndexEntry> = Vec::new();
                let mut k: usize = 0;
                while k < count
                    invariant
                        k <= count,
                        bucket@.len() == k,
                        forall|k2: int|
                            0 <= k2 < k ==> ({
                                let e = #[trigger] bucket@[k2];
                                e.start <= e.stop && e.base + (e.stop - e.start) <= u32::MAX
                            }),
                    decreases count - k,
                {
                    if pos >= words.len() || words.len() - pos < 3 {
                        return None;
                    }
                    let start64 = words[pos];
                    let stop64 = words[pos + 1];
                    let base64 = words[pos + 2];
                    pos = pos + 3;
                    if start64 > u32::MAX as u64 || stop64 > u32::MAX as u64 || base64
                        > u32::MAX as u64 {
                        return None;
                    }
                    if start64 > stop64 {
                        return None;
                    }
                    if base64 + (stop64 - start64) > u32::MAX as u64 {
                        return None;
                    }
                    bucket.push(
                        IndexEntry {
                            start: start64 as u32,
                            stop: stop64 as u32,
                            base: base64 as u32,
                        },
                    );
                    k = k + 1;
                }
                file.push(bucket);
                b = b + 1;
            }
            idx.push(file);
            f = f + 1;
        }
        let mut max: Vec<Option<u32>> = Vec::new();
        let mut m: usize = 0;
        while m < nf
            invariant
                m <= nf,
                max@.len() == m,
            decreases nf - m,
        {
            if pos >= words.len() || words.len() - pos < 2 {
                return None;
            }
            let tag = words[pos];
            let value = words[pos + 1];
            pos = pos + 2;
            if tag == 0 {
                if value != 0 {
                    return None;
                }
                max.push(None);
            } else if tag == 1 {
                if value > u32::MAX as u64 {
                    return None;
                }
                max.push(Some(value as u32));
            } else {
                return None;
            }
            m = m + 1;
        }
        if pos != words.len() {
            // trailing garbage: not something this version wrote
            return None;
        }
        let out = MTFBackupIndex {
            idx,
            outer_level_entries: outer,
            divisor: DIVISOR,
            max_page_ids: max,
        };
        // accept only what this version itself writes for the parsed index
        let back = out.serialize();
        let nb = back.len();
        if nb != bytes.len() {
            return None;
        }
        let mut ci: usize = 0;
        while ci < nb
            invariant
                ci <= nb,
                nb == back@.len(),
                nb == bytes@.len(),
                out.wf(),
                back@ == spec_serialize(
                    idx_model(out.idx@),
                    out.max_page_ids@,
                    out.outer_level_entries as int,
                ),
                forall|j: int| 0 <= j < ci ==> back@[j] == bytes@[j],
            decreases nb - ci,
        {
            if *vstd::slice::slice_index_get(bytes, ci) != back[ci] {
                return None;
            }
            ci = ci + 1;
        }
        proof {
            assert(back@ =~= bytes@);
            assert forall|other: MTFBackupIndex|
                other.wf() && bytes@ == #[trigger] spec_serialize(
                    idx_model(other.idx@),
                    other.max_page_ids@,
                    other.outer_level_entries as int,
                ) implies idx_model(out.idx@) == idx_model(other.idx@) && out.max_page_ids@
                == other.max_page_ids@ && out.outer_level_entries
                == other.outer_level_entries by {
                lemma_serialize_injective(out, other);
            }
        }
        Some(out)
    }
}

/// Law: serialisation is injective on well-formed indices — the bytes of a
/// cache file determine the index that wrote them exactly. Together with
/// `deserialize`'s contract this gives the read-back half of the cache round
/// trip: whatever a cache file deserialises to is the one index whose
/// serialisation the file holds.
pub proof fn lemma_serialize_injective(x: MTFBackupIndex, y: MTFBackupIndex)
    requires
        x.wf(),
        y.wf(),
        spec_serialize(idx_model(x.idx@), x.max_page_ids@, x.outer_level_entries as int)
            == spec_serialize(idx_model(y.idx@), y.max_page_ids@, y.outer_level_entries as int),
    ensures
        idx_model(x.idx@) == idx_model(y.idx@),
        x.max_page_ids@ == y.max_page_ids@,
        x.outer_level_entries == y.outer_level_entries,
{
    lemma_words_bytes_injective(
        ser_words(idx_model(x.idx@), x.max_page_ids@, x.outer_level_entries as int),
        ser_words(idx_model(y.idx@), y.max_page_ids@, y.outer_level_entries as int),
    );
    let w1 = ser_words(idx_model(x.idx@), x.max_page_ids@, x.outer_level_entries as int);
    let w2 = ser_words(idx_model(y.idx@), y.max_page_ids@, y.outer_level_entries as int);
    assert(w1 == w2);
    assert(w1[1] == x.outer_level_entries as u64);
    assert(w1[2] == x.idx@.len() as u64);
    assert(x.outer_level_entries == y.outer_level_entries);
    assert(idx_model(x.idx@).len() == idx_model(y.idx@).len());
    assert(w1.subrange(3, w1.len() as int) =~= ser_files(idx_model(x.idx@)) + ser_max(
        x.max_page_ids@,
    ));
    assert(w1.subrange(3, w1.len() as int) =~= ser_files(idx_model(y.idx@)) + ser_max(
        y.max_page_ids@,
    ));
    assert forall|f: int, b: int|
        0 <= f < x.idx@.len() && 0 <= b < idx_model(x.idx@)[f].len() implies #[trigger] idx_model(
        x.idx@,
    )[f][b].len() <= u64::MAX by {
        assert(idx_model(x.idx@)[f][b] == x.idx@[f]@[b]@);
        assert(x.idx@[f]@[b]@.len() == x.idx@[f]@[b].len());
    }
    assert forall|f: int, b: int|
        0 <= f < y.idx@.len() && 0 <= b < idx_model(y.idx@)[f].len() implies #[trigger] idx_model(
        y.idx@,
    )[f][b].len() <= u64::MAX by {
        assert(idx_model(y.idx@)[f][b] == y.idx@[f]@[b]@);
        assert(y.idx@[f]@[b]@.len() == y.idx@[f]@[b].len());
    }
    lemma_ser_files_prefix(
        idx_model(x.idx@),
        idx_model(y.idx@),
        ser_max(x.max_page_ids@),
        ser_max(y.max_page_ids@),
    );
    lemma_ser_max_prefix(x.max_page_ids@, y.max_page_ids@, Seq::empty(), Seq::empty());
}

/// Equal byte layouts come from equal word sequences.
proof fn lemma_words_bytes_injective(w1: Seq<u64>, w2: Seq<u64>)
    requires
        words_bytes(w1) == words_bytes(w2),
    ensures
        w1 == w2,
{
    vstd::bytes::lemma_auto_spec_u64_to_from_le_bytes();
    assert(words_bytes(w1).len() == 8 * w1.len());
    assert(words_bytes(w2).len() == 8 * w2.len());
    assert(w1.len() == w2.len());
    assert forall|i: int| 0 <= i < w1.len() implies w1[i] == w2[i] by {
        assert forall|j: int| 0 <= j < 8 implies vstd::bytes::spec_u64_to_le_bytes(w1[i])[j]
            == vstd::bytes::spec_u64_to_le_bytes(w2[i])[j] by {
            assert(words_bytes(w1)[8 * i + j] == vstd::bytes::spec_u64_to_le_bytes(w1[i])[j]);
            assert(words_bytes(w2)[8 * i + j] == vstd::bytes::spec_u64_to_le_bytes(w2[i])[j]);
        }
        assert(vstd::bytes::spec_u64_to_le_bytes(w1[i]) =~= vstd::bytes::spec_u64_to_le_bytes(
            w2[i],
        ));
        assert(vstd::bytes::spec_u64_from_le_bytes(vstd::bytes::spec_u64_to_le_bytes(w1[i]))
            == w1[i]);
    }
    assert(w1 =~= w2);
}

/// A serialised bucket and whatever follows it determine the bucket and the
/// remainder: the leading count pins the length, the flat triples pin each
/// entry.
proof fn lemma_ser_bucket_prefix(
    b1: Seq<IndexEntry>,
    b2: Seq<IndexEntry>,
    r1: Seq<u64>,
    r2: Seq<u64>,
)
    requires
        b1.len() <= u64::MAX,
        b2.len() <= u64::MAX,
        ser_bucket(b1) + r1 == ser_bucket(b2) + r2,
    ensures
        b1 == b2,
        r1 == r2,
{
    let w = ser_bucket(b1) + r1;
    assert(ser_bucket(b1).len() == 1 + 3 * b1.len());
    assert(ser_bucket(b2).len() == 1 + 3 * b2.len());
    assert(w[0] == b1.len() as u64);
    assert(w[0] == b2.len() as u64);
    assert(b1.len() == b2.len());
    assert((ser_bucket(b1) + r1).len() == ser_bucket(b1).len() + r1.len());
    assert((ser_bucket(b2) + r2).len() == ser_bucket(b2).len() + r2.len());
    assert(r1.len() == r2.len());
    assert forall|k: int| 0 <= k < b1.len() implies b1[k] == b2[k] by {
        assert(w[1 + 3 * k] == b1[k].start as u64);
        assert(w[1 + 3 * k + 1] == b1[k].stop as u64);
        assert(w[1 + 3 * k + 2] == b1[k].base as u64);
        assert(w[1 + 3 * k] == b2[k].start as u64);
        assert(w[1 + 3 * k + 1] == b2[k].stop as u64);
        assert(w[1 + 3 * k + 2] == b2[k].base as u64);
    }
    assert(b1 =~= b2);
    assert forall|k: int| 0 <= k < r1.len() implies r1[k] == r2[k] by {
        assert(w[ser_bucket(b1).len() + k] == r1[k]);
        assert((ser_bucket(b2) + r2)[ser_bucket(b2).len() + k] == r2[k]);
    }
    assert(r1 =~= r2);
}

/// A serialised file (with a known bucket count on both sides) and whatever
/// follows it determine the file and the remainder.
proof fn lemma_ser_file_prefix(
    f1: Seq<Seq<IndexEntry>>,
    f2: Seq<Seq<IndexEntry>>,
    r1: Seq<u64>,
    r2: Seq<u64>,
)
    requires
        f1.len() == f2.len(),
        forall|b: int| 0 <= b < f1.len() ==> (#[trigger] f1[b]).len() <= u64::MAX,
        forall|b: int| 0 <= b < f2.len() ==> (#[trigger] f2[b]).len() <= u64::MAX,
        ser_file(f1) + r1 == ser_file(f2) + r2,
    ensures
        f1 == f2,
        r1 == r2,
    decreases f1.len(),
{
    if f1.len() == 0 {
        assert(ser_file(f1) + r1 =~= r1);
        assert(ser_file(f2) + r2 =~= r2);
        assert(f1 =~= f2);
    } else {
        assert(ser_file(f1) == ser_file(f1.drop_last()) + ser_bucket(f1.last()));
        assert(ser_file(f2) == ser_file(f2.drop_last()) + ser_bucket(f2.last()));
        assert(ser_file(f1.drop_last()) + (ser_bucket(f1.last()) + r1) =~= ser_file(f1) + r1);
        assert(ser_file(f2.drop_last()) + (ser_bucket(f2.last()) + r2) =~= ser_file(f2) + r2);
        lemma_ser_file_prefix(
            f1.drop_last(),
            f2.drop_last(),
            ser_bucket(f1.last()) + r1,
            ser_bucket(f2.last()) + r2,
        );
        lemma_ser_bucket_prefix(f1.last(), f2.last(), r1, r2);
        assert forall|b: int| 0 <= b < f1.len() implies f1[b] == f2[b] by {
            if b < f1.len() - 1 {
                assert(f1[b] == f1.drop_last()[b]);
                assert(f2[b] == f2.drop_last()[b]);
            }
        }
        assert(f1 =~= f2);
    }
}

/// Serialised files (with equally many files of equal bucket counts) and
/// whatever follows them determine the files and the remainder.
proof fn lemma_ser_files_prefix(
    i1: Seq<Seq<Seq<IndexEntry>>>,
    i2: Seq<Seq<Seq<IndexEntry>>>,
    r1: Seq<u64>,
    r2: Seq<u64>,
)
    requires
        i1.len() == i2.len(),
        forall|f: int| 0 <= f < i1.len() ==> (#[trigger] i1[f]).len() == (#[trigger] i2[f]).len(),
        forall|f: int, b: int|
            0 <= f < i1.len() && 0 <= b < i1[f].len() ==> (#[trigger] i1[f][b]).len() <= u64::MAX,
        forall|f: int, b: int|
            0 <= f < i2.len() && 0 <= b < i2[f].len() ==> (#[trigger] i2[f][b]).len() <= u64::MAX,
        ser_files(i1) + r1 == ser_files(i2) + r2,
    ensures
        i1 == i2,
        r1 == r2,
    decreases i1.len(),
{
    if i1.len() == 0 {
        assert(ser_files(i1) + r1 =~= r1);
        assert(ser_files(i2) + r2 =~= r2);
        assert(i1 =~= i2);
    } else {
        assert(ser_files(i1) == ser_files(i1.drop_last()) + ser_file(i1.last()));
        assert(ser_files(i2) == ser_files(i2.drop_last()) + ser_file(i2.last()));
        assert(ser_files(i1.drop_last()) + (ser_file(i1.last()) + r1) =~= ser_files(i1) + r1);
        assert(ser_files(i2.drop_last()) + (ser_file(i2.last()) + r2) =~= ser_files(i2) + r2);
        lemma_ser_files_prefix(
            i1.drop_last(),
            i2.drop_last(),
            ser_file(i1.last()) + r1,
            ser_file(i2.last()) + r2,
        );
        lemma_ser_file_prefix(i1.last(), i2.last(), r1, r2);
        assert forall|f: int| 0 <= f < i1.len() implies i1[f] == i2[f] by {
            if f < i1.len() - 1 {
                assert(i1[f] == i1.drop_last()[f]);
                assert(i2[f] == i2.drop_last()[f]);
            }
        }
        assert(i1 =~= i2);
    }
}

/// Serialised maxima (equally many) and whatever follows them determine the
/// maxima and the remainder: the tag word tells presence apart.
proof fn lemma_ser_max_prefix(
    m1: Seq<Option<u32>>,
    m2: Seq<Option<u32>>,
    r1: Seq<u64>,
    r2: Seq<u64>,
)
    requires
        m1.len() == m2.len(),
        ser_max(m1) + r1 == ser_max(m2) + r2,
    ensures
        m1 == m2,
        r1 == r2,
    decreases m1.len(),
{
    if m1.len() == 0 {
        assert(ser_max(m1) + r1 =~= r1);
        assert(ser_max(m2) + r2 =~= r2);
        assert(m1 =~= m2);
    } else {
        let t1 = (match m1.last() {
            None => seq![0u64, 0u64],
            Some(v) => seq![1u64, v as u64],
        });
        let t2 = (match m2.last() {
            None => seq![0u64, 0u64],
            Some(v) => seq![1u64, v as u64],
        });
        assert(ser_max(m1) == ser_max(m1.drop_last()) + t1);
        assert(ser_max(m2) == ser_max(m2.drop_last()) + t2);
        assert(ser_max(m1.drop_last()) + (t1 + r1) =~= ser_max(m1) + r1);
        assert(ser_max(m2.drop_last()) + (t2 + r2) =~= ser_max(m2) + r2);
        lemma_ser_max_prefix(m1.drop_last(), m2.drop_last(), t1 + r1, t2 + r2);
        assert(t1.len() == 2 && t2.len() == 2);
        assert((t1 + r1)[0] == t1[0] && (t2 + r2)[0] == t2[0]);
        assert((t1 + r1)[1] == t1[1] && (t2 + r2)[1] == t2[1]);
        assert(m1.last() == m2.last());
        assert(r1.len() == r2.len());
        assert forall|k: int| 0 <= k < r1.len() implies r1[k] == r2[k] by {
            assert((t1 + r1)[2 + k] == r1[k]);
            assert((t2 + r2)[2 + k] == r2[k]);
        }
        assert(r1 =~= r2);
        assert forall|j: int| 0 <= j < m1.len() implies m1[j] == m2[j] by {
            if j < m1.len() - 1 {
                assert(m1[j] == m1.drop_last()[j]);
                assert(m2[j] == m2.drop_last()[j]);
            }
        }
        assert(m1 =~= m2);
    }
}

} // verus!
