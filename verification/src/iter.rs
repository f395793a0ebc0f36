use vstd::prelude::*;
use crate::cursor::ByteCursor;
use crate::dblk::{
    dblk_wf, spec_common_header, spec_dblk_err, spec_sets_after, DBLK, DBLKSets,
};
use crate::error::MtfError;
use crate::stream::{
    lemma_walk_end, spec_pad, spec_stream_walk, stream_wf, Stream, StreamWalk, SPAD_TAG,
};

verus! {

broadcast use vstd::slice::group_slice_axioms;

/// The payload bytes of a stream inside the whole input: from `base` to the
/// end of the payload, clipped to the input's end.
pub open spec fn payload_of(data: Seq<u8>, s: Stream) -> Seq<u8> {
    data.subrange(
        s.base as int,
        if s.base + s.header.length <= data.len() {
            s.base + s.header.length
        } else {
            data.len() as int
        },
    )
}

/// The whole outcome of decoding one DBLK with its stream list at `pos`:
/// the error that stops it, or the position where the next block begins.
pub open spec fn spec_step_end(data: Seq<u8>, pos: int, blocks: Option<u16>) -> Result<
    int,
    MtfError,
> {
    match spec_dblk_err(data, pos, blocks) {
        Some(e) => Err(e),
        None => {
            let off = spec_common_header(data, pos).offset_to_first_event as int;
            if pos + off > usize::MAX {
                Err(MtfError::Io)
            } else {
                match spec_stream_walk(data, pos + off) {
                    StreamWalk::Fail(e) => Err(e),
                    StreamWalk::Tag { end } => Ok(end),
                    StreamWalk::Streams { bases, end } => Ok(end),
                }
            }
        },
    }
}

/// A stream together with its borrowed payload slice.
#[derive(Debug)]
pub struct StreamWithData<'a> {
    pub stream: Stream,
    pub data: &'a [u8],
}

impl<'a> StreamWithData<'a> {
    pub fn from_stream(stream: Stream, data: &'a [u8]) -> (r: StreamWithData<'a>)
        requires
            stream.base <= data@.len(),
        ensures
            r.stream == stream,
            r.data@ == payload_of(data@, stream),
    {
        StreamWithData { data: stream.data(data), stream }
    }

    /// Decodes the stream list at the cursor and pairs each stream with its
    /// payload slice.
    pub fn parse_all(cur: &mut ByteCursor<'a>) -> (r: Result<Vec<StreamWithData<'a>>, MtfError>)
        ensures
            final(cur).data == old(cur).data,
            r is Ok ==> ({
                let v = r.unwrap()@;
                &&& forall|i: int|
                    0 <= i < v.len() ==> stream_wf(old(cur).data@, (#[trigger] v[i]).stream) && v[
                        i
                    ].data@ == payload_of(old(cur).data@, v[i].stream)
                &&& forall|i: int|
                    0 <= i < v.len() - 1 ==> (#[trigger] v[i]).stream.header.id_tag != SPAD_TAG
                        && v[i].stream.header.length != 0 && v[i + 1].stream.base == v[
                        i
                    ].stream.base + 22 + v[i].stream.header.length + spec_pad(
                        v[i].stream.header.length as int,
                    )
                &&& v.len() > 0 ==> v[0].stream.base == old(cur).pos + 22
            }),
            spec_stream_walk(old(cur).data@, old(cur).pos as int) matches StreamWalk::Fail(e)
                ==> r == Err::<Vec<StreamWithData<'a>>, MtfError>(e),
            spec_stream_walk(old(cur).data@, old(cur).pos as int) matches StreamWalk::Tag { end }
                ==> r is Ok && r.unwrap()@.len() == 0 && final(cur).pos == end,
            spec_stream_walk(old(cur).data@, old(cur).pos as int) matches StreamWalk::Streams {
                bases,
                end,
            } ==> r is Ok && ({
                let v = r.unwrap()@;
                &&& v.len() == bases.len()
                &&& (forall|i: int| 0 <= i < v.len() ==> (#[trigger] v[i]).stream.base == bases[i])
                &&& final(cur).pos == end
            }),
    {
        let mut streams = match Stream::parse_all(cur) {
            Ok(v) => v,
            Err(e) => {
                return Err(e);
            },
        };
        let ghost orig = streams@;
        let d: &'a [u8] = cur.data;
        let mut out: Vec<StreamWithData<'a>> = Vec::new();
        while streams.len() > 0
            invariant
                d@ == cur.data@,
                out@.len() + streams@.len() == orig.len(),
                streams@ == orig.subrange(out@.len() as int, orig.len() as int),
                forall|j: int| 0 <= j < orig.len() ==> stream_wf(d@, #[trigger] orig[j]),
                forall|j: int|
                    0 <= j < out@.len() ==> (#[trigger] out@[j]).stream == orig[j] && out@[j].data@
                        == payload_of(d@, orig[j]),
            decreases streams@.len(),
        {
            let s = streams.remove(0);
            proof {
                assert(s == orig[out@.len() as int]);
                assert(streams@ =~= orig.subrange(out@.len() + 1int, orig.len() as int));
            }
            out.push(StreamWithData::from_stream(s, d));
        }
        Ok(out)
    }
}

/// One decoded DBLK with its attached streams.
#[derive(Debug)]
pub struct DBLKWithStreams<'a> {
    pub dblk: DBLK,
    pub streams: Vec<StreamWithData<'a>>,
}

impl<'a> DBLKWithStreams<'a> {
    /// Decodes one DBLK at the cursor, retains it in `sets`, repositions to
    /// `base + offset_to_first_event`, and decodes the stream list there.
    pub fn parse(cur: &mut ByteCursor<'a>, sets: &mut DBLKSets) -> (r: Result<
        DBLKWithStreams<'a>,
        MtfError,
    >)
        ensures
            final(cur).data == old(cur).data,
            r is Err <==> spec_step_end(
                old(cur).data@,
                old(cur).pos as int,
                old(sets).tape_soft_filemark_blocks,
            ) is Err,
            spec_step_end(
                old(cur).data@,
                old(cur).pos as int,
                old(sets).tape_soft_filemark_blocks,
            ) matches Err(e) ==> r == Err::<DBLKWithStreams<'a>, MtfError>(e),
            spec_step_end(
                old(cur).data@,
                old(cur).pos as int,
                old(sets).tape_soft_filemark_blocks,
            ) matches Ok(end) ==> final(cur).pos == end,
            spec_dblk_err(
                old(cur).data@,
                old(cur).pos as int,
                old(sets).tape_soft_filemark_blocks,
            ) is None ==> *final(sets) == spec_sets_after(
                *old(sets),
                old(cur).data@,
                old(cur).pos as int,
            ),
            spec_dblk_err(
                old(cur).data@,
                old(cur).pos as int,
                old(sets).tape_soft_filemark_blocks,
            ) is Some ==> *final(sets) == *old(sets),
            r is Ok ==> ({
                let data = old(cur).data@;
                let base = old(cur).pos as int;
                let d = r.unwrap();
                let v = d.streams@;
                &&& spec_dblk_err(data, base, old(sets).tape_soft_filemark_blocks) is None
                &&& dblk_wf(data, base, old(sets).tape_soft_filemark_blocks, d.dblk)
                &&& forall|i: int|
                    0 <= i < v.len() ==> stream_wf(data, (#[trigger] v[i]).stream) && v[i].data@
                        == payload_of(data, v[i].stream)
                &&& forall|i: int|
                    0 <= i < v.len() - 1 ==> (#[trigger] v[i]).stream.header.id_tag != SPAD_TAG
                        && v[i + 1].stream.base == v[i].stream.base + 22 + v[
                        i
                    ].stream.header.length + spec_pad(v[i].stream.header.length as int)
                &&& v.len() > 0 ==> v[0].stream.base == base + spec_common_header(
                    data,
                    base,
                ).offset_to_first_event + 22
            }),
    {
        let ghost data = cur.data@;
        let base = cur.position();
        let ctx = *sets;
        let dblock = match DBLK::parse(cur, &ctx) {
            Ok(d) => d,
            Err(e) => {
                return Err(e);
            },
        };
        sets.update(&dblock);
        proof {
            assert(*sets == spec_sets_after(*old(sets), data, base as int));
        }
        // every DBLK carries at least the SPAD stream after its body
        let offset = dblock.header.offset_to_first_event;
        if (offset as usize) > usize::MAX - base {
            return Err(MtfError::Io);
        }
        cur.set_position(base + (offset as usize));
        let streams = match StreamWithData::parse_all(cur) {
            Ok(v) => v,
            Err(e) => {
                return Err(e);
            },
        };
        Ok(DBLKWithStreams { dblk: dblock, streams })
    }
}

/// A forward-only walk over the input, one DBLK (with streams) per step. No
/// cursor is stored across steps: only a byte position, from which the view
/// is rebuilt on each call.
pub struct DBLKIterator<'a> {
    pub sets: DBLKSets,
    pub data: &'a [u8],
    pub position: usize,
}

impl<'a> DBLKIterator<'a> {
    pub fn new(data: &'a [u8]) -> (r: DBLKIterator<'a>)
        ensures
            r.data@ == data@,
            r.position == 0,
            r.sets.tape_soft_filemark_blocks is None,
    {
        DBLKIterator { sets: DBLKSets::new(), data, position: 0 }
    }

    /// One step: decodes the DBLK and streams at the current position.
    /// `None` at the input's end and when no byte was consumed (the
    /// no-progress guard); a decode failure is handed to the consumer, who
    /// may stop. On a yielded block the position strictly increases, so a
    /// walk over a finite input terminates, and blocks come in input order.
    pub fn next(&mut self) -> (r: Option<Result<DBLKWithStreams<'a>, MtfError>>)
        ensures
            final(self).data == old(self).data,
            r is None ==> final(self).position == old(self).position,
            old(self).position >= old(self).data@.len() ==> r is None && *final(self) == *old(self),
            old(self).position < old(self).data@.len() ==> ({
                let data = old(self).data@;
                let base = old(self).position as int;
                let blocks = old(self).sets.tape_soft_filemark_blocks;
                let st = spec_step_end(data, base, blocks);
                &&& (st matches Err(e) ==> r == Some(Err::<DBLKWithStreams<'a>, MtfError>(e))
                    && final(self).position == old(self).position)
                &&& (st matches Ok(end) ==> (if end != base {
                    &&& r is Some && r.unwrap() is Ok
                    &&& final(self).position == end
                    &&& final(self).position > old(self).position
                } else {
                    r is None
                }))
                &&& (spec_dblk_err(data, base, blocks) is None ==> final(self).sets
                    == spec_sets_after(old(self).sets, data, base))
                &&& (spec_dblk_err(data, base, blocks) is Some ==> final(self).sets == old(
                    self,
                ).sets)
            }),
            r matches Some(res) && res is Ok ==> ({
                let res = r.unwrap();
                let data = old(self).data@;
                let base = old(self).position as int;
                let d = res.unwrap();
                &&& spec_dblk_err(data, base, old(self).sets.tape_soft_filemark_blocks) is None
                &&& dblk_wf(data, base, old(self).sets.tape_soft_filemark_blocks, d.dblk)
                &&& forall|i: int|
                    0 <= i < d.streams@.len() ==> stream_wf(
                        data,
                        (#[trigger] d.streams@[i]).stream,
                    ) && d.streams@[i].data@ == payload_of(data, d.streams@[i].stream)
                &&& final(self).position != old(self).position
            }),
    {
        if self.position >= self.data.len() {
            return None;
        }
        let mut cursor = ByteCursor::new(self.data);
        cursor.set_position(self.position);
        let mut sets = self.sets;
        let parsed = DBLKWithStreams::parse(&mut cursor, &mut sets);
        self.sets = sets;
        proof {
            let data = self.data@;
            let base = old(self).position as int;
            let blocks = old(self).sets.tape_soft_filemark_blocks;
            if spec_dblk_err(data, base, blocks) is None {
                let off = spec_common_header(data, base).offset_to_first_event as int;
                if base + off <= usize::MAX {
                    lemma_walk_end(data, base + off);
                }
            }
        }
        match parsed {
            Ok(d) => {
                let newpos = cursor.position();
                if newpos != self.position {
                    self.position = newpos;
                    Some(Ok(d))
                } else {
                    None
                }
            },
            Err(e) => Some(Err(e)),
        }
    }
}

} // verus!
