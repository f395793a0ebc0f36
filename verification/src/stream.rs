use vstd::prelude::*;
use crate::checksum::{spec_xor_words, xor_words};
use crate::cursor::{le16, le32, le64, ByteCursor};
use crate::dblk::is_dblk_tag;
use crate::error::MtfError;

verus! {

broadcast use vstd::slice::group_slice_axioms;

/// The stream id marking stream-list padding; the list ends after it.
pub const SPAD_TAG: u32 = 0x44415053;

/// Bits 0..=3 are the defined file-system attributes of a stream header.
pub const FS_ATTR_MASK: u16 = 0x000F;

/// Bits 0..=8 are the defined media-format attributes of a stream header.
pub const MEDIA_ATTR_MASK: u16 = 0x01FF;

/// File-system attribute bits of one stream; only bits of `FS_ATTR_MASK` may
/// be set.
#[derive(Debug, Clone, Copy, PartialEq, Eq, Structural)]
pub struct FileSystemAttributes {
    pub bits: u16,
}

impl FileSystemAttributes {
    pub open spec fn valid(self) -> bool {
        self.bits & FS_ATTR_MASK == self.bits
    }
}

/// Media-format attribute bits of one stream; only bits of
/// `MEDIA_ATTR_MASK` may be set.
#[derive(Debug, Clone, Copy, PartialEq, Eq, Structural)]
pub struct MediaFormatAttributes {
    pub bits: u16,
}

impl MediaFormatAttributes {
    pub open spec fn valid(self) -> bool {
        self.bits & MEDIA_ATTR_MASK == self.bits
    }
}

/// The decoded 22-byte stream header. `id_tag` is the raw little-endian id
/// word; `id` is its four characters.
#[derive(Debug, Clone)]
pub struct StreamHeader {
    pub id: String,
    pub id_tag: u32,
    pub file_system_attributes: FileSystemAttributes,
    pub media_format_attributes: MediaFormatAttributes,
    pub length: u64,
    pub encryption_algorithm: u16,
    pub compression_algorithm: u16,
}

/// A stream: its header and the position of its first payload byte.
#[derive(Debug, Clone)]
pub struct Stream {
    pub header: StreamHeader,
    pub base: usize,
}

/// Bytes of zero padding after a payload of `len` bytes: up to the next
/// 4-byte boundary.
pub open spec fn spec_pad(len: int) -> int {
    (4 - len % 4) % 4
}

/// A parsed stream is well-formed against the input: every header field is
/// the little-endian read of its place in the 22 bytes before `base`, the
/// attribute bits are defined ones, and the stored checksum (word 11) is the
/// XOR of the ten words before it.
pub open spec fn stream_wf(data: Seq<u8>, s: Stream) -> bool {
    let p = s.base - 22;
    &&& 22 <= s.base <= data.len()
    &&& s.header.id_tag == le32(data, p)
    &&& !is_dblk_tag(s.header.id_tag)
    &&& s.header.id@ == crate::strings::spec_ansi_chars(data.subrange(p, p + 4))
    &&& s.header.file_system_attributes == (FileSystemAttributes { bits: le16(data, p + 4) })
    &&& s.header.file_system_attributes.valid()
    &&& s.header.media_format_attributes == (MediaFormatAttributes { bits: le16(data, p + 6) })
    &&& s.header.media_format_attributes.valid()
    &&& s.header.length == le64(data, p + 8)
    &&& s.header.encryption_algorithm == le16(data, p + 16)
    &&& s.header.compression_algorithm == le16(data, p + 18)
    &&& spec_xor_words(data.subrange(p, p + 20), 10) == le16(data, p + 20)
}

/// Law: in every well-formed stream header the XOR of the first ten
/// little-endian words equals the eleventh (the stored checksum).
pub proof fn lemma_stream_checksum(data: Seq<u8>, s: Stream)
    requires
        stream_wf(data, s),
    ensures
        spec_xor_words(data.subrange(s.base - 22, s.base - 2), 10) == le16(data, s.base - 2),
{
}

/// Why parsing one stream header at `p` fails, if it does. A DBLK tag in the
/// id position is no failure: it is the end of the stream list.
pub open spec fn spec_stream_err(data: Seq<u8>, p: int) -> Option<MtfError> {
    if p + 22 > data.len() {
        Some(MtfError::Io)
    } else if is_dblk_tag(le32(data, p)) {
        None
    } else if !(FileSystemAttributes { bits: le16(data, p + 4) }).valid() {
        Some(MtfError::BadFlags)
    } else if !(MediaFormatAttributes { bits: le16(data, p + 6) }).valid() {
        Some(MtfError::BadFlags)
    } else if spec_xor_words(data.subrange(p, p + 20), 10) != le16(data, p + 20) {
        Some(MtfError::Checksum)
    } else {
        None
    }
}

/// The outcome of walking a whole stream list: a failure; a DBLK kind tag in
/// id position (the list collapses to nothing, wherever the tag was met, and
/// the cursor stands on that header); or the payload bases of the streams
/// kept, with the position after the last payload and its padding.
pub enum StreamWalk {
    Fail(MtfError),
    Tag { end: int },
    Streams { bases: Seq<int>, end: int },
}

/// The walk over the stream list at `pos`, one decode step per stream: stop
/// on a DBLK tag (dropping everything seen, as deprecated inputs that place
/// one mid-list want); fail as one header decode fails, or where the step
/// would leave the address space; end the list after `SPAD`, or on a
/// zero-length stream (which is dropped: it would make no progress); and
/// otherwise step over exactly `22 + length + pad(length)` bytes.
pub open spec fn spec_stream_walk(data: Seq<u8>, pos: int) -> StreamWalk
    decreases (if 0 <= pos <= data.len() {
        data.len() - pos + 1
    } else {
        0
    }),
{
    if pos < 0 || pos + 22 > data.len() {
        StreamWalk::Fail(MtfError::Io)
    } else if is_dblk_tag(le32(data, pos)) {
        StreamWalk::Tag { end: pos }
    } else if spec_stream_err(data, pos) is Some {
        StreamWalk::Fail(spec_stream_err(data, pos).unwrap())
    } else {
        let base = pos + 22;
        let l = le64(data, pos + 8) as int;
        if l == 0 {
            StreamWalk::Streams { bases: Seq::empty(), end: base }
        } else if base + l + spec_pad(l) > usize::MAX {
            StreamWalk::Fail(MtfError::Io)
        } else if le32(data, pos) == SPAD_TAG {
            StreamWalk::Streams { bases: seq![base], end: base + l + spec_pad(l) }
        } else {
            match spec_stream_walk(data, base + l + spec_pad(l)) {
                StreamWalk::Fail(e) => StreamWalk::Fail(e),
                StreamWalk::Tag { end } => StreamWalk::Tag { end },
                StreamWalk::Streams { bases, end } => StreamWalk::Streams {
                    bases: seq![base] + bases,
                    end,
                },
            }
        }
    }
}

/// Wherever the walk ends, it ends at or after where it began.
pub proof fn lemma_walk_end(data: Seq<u8>, pos: int)
    ensures
        spec_stream_walk(data, pos) matches StreamWalk::Tag { end } ==> end >= pos,
        spec_stream_walk(data, pos) matches StreamWalk::Streams { bases, end } ==> end >= pos,
    decreases (if 0 <= pos <= data.len() {
        data.len() - pos + 1
    } else {
        0
    }),
{
    if pos >= 0 && pos + 22 <= data.len() && !is_dblk_tag(le32(data, pos)) && spec_stream_err(
        data,
        pos,
    ) is None {
        let base = pos + 22;
        let l = le64(data, pos + 8) as int;
        if l != 0 && base + l + spec_pad(l) <= usize::MAX && le32(data, pos) != SPAD_TAG {
            lemma_walk_end(data, base + l + spec_pad(l));
        }
    }
}

impl Stream {
    /// Decodes one stream header at the cursor. `Ok(None)` and a rewound
    /// cursor where the id is a DBLK kind tag (the block has no further
    /// streams); else the stream whose payload starts 22 bytes in.
    pub fn parse(cur: &mut ByteCursor<'_>) -> (r: Result<Option<Stream>, MtfError>)
        ensures
            final(cur).data == old(cur).data,
            r is Err <==> spec_stream_err(old(cur).data@, old(cur).pos as int) is Some,
            r is Err ==> r == Err::<Option<Stream>, MtfError>(
                spec_stream_err(old(cur).data@, old(cur).pos as int).unwrap(),
            ),
            r == Err::<Option<Stream>, MtfError>(MtfError::Io) ==> final(cur).pos == old(cur).pos,
            (r is Ok && r.unwrap() is None) <==> (old(cur).has(22) && is_dblk_tag(
                le32(old(cur).data@, old(cur).pos as int),
            )),
            r is Ok && r.unwrap() is None ==> final(cur).pos == old(cur).pos,
            r is Ok && r.unwrap() is Some ==> ({
                let s = r.unwrap().unwrap();
                &&& stream_wf(old(cur).data@, s)
                &&& s.base == old(cur).pos + 22
                &&& final(cur).pos == old(cur).pos + 22
            }),
    {
        let p = cur.position();
        if !cur.can_read(22) {
            return Err(MtfError::Io);
        }
        let mut scan = ByteCursor { data: cur.data, pos: p };
        let id = match scan.read_u32() {
            Ok(v) => v,
            Err(_) => {
                return Err(MtfError::Io);
            },
        };
        if crate::dblk::DBLKType::parse(id) != crate::dblk::DBLKType::UNKNOWN {
            // a DBLK kind tag: this block has no streams; un-consume the header
            return Ok(None);
        }
        let mut id_cur = ByteCursor { data: cur.data, pos: p };
        let id_bytes = match id_cur.read_exact(4) {
            Ok(v) => v,
            Err(_) => {
                return Err(MtfError::Io);
            },
        };
        let fs = match scan.read_u16() {
            Ok(v) => v,
            Err(_) => {
                return Err(MtfError::Io);
            },
        };
        let media = match scan.read_u16() {
            Ok(v) => v,
            Err(_) => {
                return Err(MtfError::Io);
            },
        };
        let length = match scan.read_u64() {
            Ok(v) => v,
            Err(_) => {
                return Err(MtfError::Io);
            },
        };
        let encryption_algorithm = match scan.read_u16() {
            Ok(v) => v,
            Err(_) => {
                return Err(MtfError::Io);
            },
        };
        let compression_algorithm = match scan.read_u16() {
            Ok(v) => v,
            Err(_) => {
                return Err(MtfError::Io);
            },
        };
        let stored = match scan.read_u16() {
            Ok(v) => v,
            Err(_) => {
                return Err(MtfError::Io);
            },
        };
        cur.set_position(p + 22);
        let id_str = match crate::strings::StringType::ANSI_STR.bytes_to_string(id_bytes) {
            Ok(s) => s,
            Err(_) => {
                return Err(MtfError::Encoding);
            },
        };
        if !(fs & FS_ATTR_MASK == fs) {
            return Err(MtfError::BadFlags);
        }
        if !(media & MEDIA_ATTR_MASK == media) {
            return Err(MtfError::BadFlags);
        }
        let sum = match xor_words(cur, p, 10) {
            Ok(v) => v,
            Err(_) => {
                return Err(MtfError::Io);
            },
        };
        if sum != stored {
            return Err(MtfError::Checksum);
        }
        Ok(
            Some(
                Stream {
                    header: StreamHeader {
                        id: id_str,
                        id_tag: id,
                        file_system_attributes: FileSystemAttributes { bits: fs },
                        media_format_attributes: MediaFormatAttributes { bits: media },
                        length,
                        encryption_algorithm,
                        compression_algorithm,
                    },
                    base: p + 22,
                },
            ),
        )
    }

    /// Decodes the whole stream list at the cursor. Walks each payload with
    /// its zero padding — per stream exactly `22 + length + pad(length)`
    /// bytes — and stops after `SPAD`, on a zero-length stream (no
    /// progress), or at a DBLK kind tag (which also discards the list, as
    /// deprecated inputs want).
    #[verifier::rlimit(100)]
    #[verifier::spinoff_prover]
    pub fn parse_all(cur: &mut ByteCursor<'_>) -> (r: Result<Vec<Stream>, MtfError>)
        ensures
            final(cur).data == old(cur).data,
            r is Ok ==> ({
                let v = r.unwrap()@;
                &&& forall|i: int|
                    0 <= i < v.len() ==> stream_wf(old(cur).data@, #[trigger] v[i])
                &&& forall|i: int|
                    0 <= i < v.len() - 1 ==> (#[trigger] v[i]).header.id_tag != SPAD_TAG && v[
                        i
                    ].header.length != 0 && v[i + 1].base == v[i].base + 22 + v[i].header.length
                        + spec_pad(v[i].header.length as int)
                &&& v.len() > 0 ==> v[0].base == old(cur).pos + 22
            }),
            spec_stream_walk(old(cur).data@, old(cur).pos as int) matches StreamWalk::Fail(e)
                ==> r == Err::<Vec<Stream>, MtfError>(e),
            spec_stream_walk(old(cur).data@, old(cur).pos as int) matches StreamWalk::Tag { end }
                ==> r is Ok && r.unwrap()@.len() == 0 && final(cur).pos == end,
            spec_stream_walk(old(cur).data@, old(cur).pos as int) matches StreamWalk::Streams {
                bases,
                end,
            } ==> r is Ok && ({
                let v = r.unwrap()@;
                &&& v.len() == bases.len()
                &&& (forall|i: int| 0 <= i < v.len() ==> (#[trigger] v[i]).base == bases[i])
                &&& final(cur).pos == end
            }),
    {
        let ghost data = cur.data@;
        let ghost p0 = cur.pos as int;
        proof {
            assert(data.len() == vstd::slice::spec_slice_len(cur.data));
        }
        let mut streams: Vec<Stream> = Vec::new();
        proof {
            match spec_stream_walk(data, p0) {
                StreamWalk::Streams { bases, end } => {
                    assert(streams@.map_values(|s: Stream| s.base as int) + bases =~= bases);
                },
                _ => {},
            }
        }
        loop
            invariant
                old(cur).data == cur.data,
                old(cur).pos == p0,
                cur.data@ == data,
                data.len() <= usize::MAX,
                spec_stream_walk(data, p0) == (match spec_stream_walk(data, cur.pos as int) {
                    StreamWalk::Fail(e) => StreamWalk::Fail(e),
                    StreamWalk::Tag { end } => StreamWalk::Tag { end },
                    StreamWalk::Streams { bases, end } => StreamWalk::Streams {
                        bases: streams@.map_values(|s: Stream| s.base as int) + bases,
                        end,
                    },
                }),
                forall|i: int|
                    0 <= i < streams@.len() ==> stream_wf(data, #[trigger] streams@[i]),
                forall|i: int|
                    0 <= i < streams@.len() - 1 ==> (#[trigger] streams@[i]).header.id_tag
                        != SPAD_TAG && streams@[i].header.length != 0 && streams@[i + 1].base
                        == streams@[i].base + 22 + streams@[i].header.length + spec_pad(
                        streams@[i].header.length as int,
                    ),
                streams@.len() > 0 ==> streams@[0].base == p0 + 22,
                streams@.len() > 0 ==> cur.pos == streams@.last().base
                    + streams@.last().header.length + spec_pad(
                    streams@.last().header.length as int,
                ) && cur.pos > p0,
                streams@.len() > 0 ==> streams@.last().header.id_tag != SPAD_TAG
                    && streams@.last().header.length != 0,
                streams@.len() == 0 ==> cur.pos == p0,
            decreases (if cur.pos <= data.len() {
                data.len() - cur.pos
            } else {
                0
            }),
        {
            let ghost q = cur.pos as int;
            let ghost mybases = streams@.map_values(|s: Stream| s.base as int);
            let new_stream = match Stream::parse(cur) {
                Ok(s) => s,
                Err(e) => {
                    proof {
                        assert(spec_stream_walk(data, q) == StreamWalk::Fail(e));
                    }
                    return Err(e);
                },
            };
            match new_stream {
                Some(s) => {
                    let length = s.header.length;
                    proof {
                        assert(s.header.length == le64(data, q + 8));
                        assert(!is_dblk_tag(le32(data, q)));
                        assert(spec_stream_err(data, q) is None);
                    }
                    // the payload walk below cannot leave the address space
                    if length > u64::MAX - 3 {
                        proof {
                            assert(spec_stream_walk(data, q) == StreamWalk::Fail(MtfError::Io));
                        }
                        return Err(MtfError::Io);
                    }
                    let rem = length % 4;
                    let pad: u64 = if rem > 0 {
                        4 - rem
                    } else {
                        0
                    };
                    proof {
                        assert(pad == spec_pad(length as int));
                    }
                    if length == 0 {
                        // a zero-length stream would make no progress
                        proof {
                            assert(spec_stream_walk(data, q) == (StreamWalk::Streams {
                                bases: Seq::<int>::empty(),
                                end: q + 22,
                            }));
                            assert(mybases + Seq::<int>::empty() =~= mybases);
                            assert forall|i: int|
                                0 <= i < streams@.len() implies (#[trigger] streams@[i]).base
                                == mybases[i] by {}
                        }
                        return Ok(streams);
                    }
                    let base = cur.position();
                    if length + pad > (usize::MAX - base) as u64 {
                        proof {
                            assert(spec_stream_walk(data, q) == StreamWalk::Fail(MtfError::Io));
                        }
                        return Err(MtfError::Io);
                    }
                    let new_pos = base + (length + pad) as usize;
                    cur.set_position(new_pos);
                    let tag = s.header.id_tag;
                    let ghost prev = streams@;
                    streams.push(s);
                    proof {
                        assert(streams@.map_values(|s2: Stream| s2.base as int) =~= mybases
                            + seq![s.base as int]);
                    }
                    proof {
                        let v = streams@;
                        assert forall|i: int| 0 <= i < v.len() implies stream_wf(
                            data,
                            #[trigger] v[i],
                        ) by {
                            if i < prev.len() {
                                assert(v[i] == prev[i]);
                            } else {
                                assert(v[i] == s);
                            }
                        }
                        assert forall|i: int|
                            0 <= i < v.len() - 1 implies (#[trigger] v[i]).header.id_tag
                            != SPAD_TAG && v[i].header.length != 0 && v[i + 1].base == v[i].base
                            + 22 + v[i].header.length + spec_pad(v[i].header.length as int) by {
                            if i < prev.len() - 1 {
                                assert(v[i] == prev[i]);
                                assert(v[i + 1] == prev[i + 1]);
                            } else {
                                assert(v[i] == prev.last());
                                assert(v[i + 1] == s);
                            }
                        }
                    }
                    if tag == SPAD_TAG {
                        proof {
                            assert(le32(data, q) == SPAD_TAG);
                            assert(spec_stream_walk(data, q) == (StreamWalk::Streams {
                                bases: seq![s.base as int],
                                end: new_pos as int,
                            }));
                            assert(mybases + seq![s.base as int] =~= streams@.map_values(
                                |s2: Stream| s2.base as int,
                            ));
                            assert forall|i: int|
                                0 <= i < streams@.len() implies (#[trigger] streams@[i]).base
                                == (mybases + seq![s.base as int])[i] by {
                                if i < prev.len() {
                                    assert(streams@[i] == prev[i]);
                                }
                            }
                        }
                        return Ok(streams);
                    }
                    proof {
                        assert(le32(data, q) != SPAD_TAG);
                        let wn = spec_stream_walk(data, new_pos as int);
                        match wn {
                            StreamWalk::Fail(e) => {
                                assert(spec_stream_walk(data, q) == StreamWalk::Fail(e));
                            },
                            StreamWalk::Tag { end } => {
                                assert(spec_stream_walk(data, q) == (StreamWalk::Tag { end }));
                            },
                            StreamWalk::Streams { bases, end } => {
                                assert(spec_stream_walk(data, q) == (StreamWalk::Streams {
                                    bases: seq![s.base as int] + bases,
                                    end,
                                }));
                                assert(mybases + (seq![s.base as int] + bases) =~= (mybases
                                    + seq![s.base as int]) + bases);
                            },
                        }
                    }
                },
                None => {
                    // end of the list; deprecated inputs reach this mid-list,
                    // and the list seen so far is then dropped
                    proof {
                        assert(spec_stream_walk(data, q) == (StreamWalk::Tag { end: q }));
                    }
                    return Ok(Vec::new());
                },
            }
        }
    }

    /// The payload slice `[base, min(base + length, data.len()))`.
    pub fn data<'a>(&self, data: &'a [u8]) -> (r: &'a [u8])
        requires
            self.base <= data@.len(),
        ensures
            r@ == data@.subrange(
                self.base as int,
                if self.base + self.header.length <= data@.len() {
                    self.base + self.header.length
                } else {
                    data@.len() as int
                },
            ),
    {
        let start = self.base;
        let avail = data.len() - start;
        let end = if self.header.length > avail as u64 {
            data.len()
        } else {
            start + (self.header.length as usize)
        };
        vstd::slice::slice_subrange(data, start, end)
    }

    /// Copies the whole payload out of the input; `Io` where it does not lie
    /// inside. The cursor position is preserved.
    pub fn read(&self, cur: &mut ByteCursor<'_>) -> (r: Result<Vec<u8>, MtfError>)
        ensures
            final(cur).data == old(cur).data,
            final(cur).pos == old(cur).pos,
            r is Ok <==> self.base + self.header.length <= old(cur).data@.len(),
            r is Ok ==> r.unwrap()@ == old(cur).data@.subrange(
                self.base as int,
                self.base + self.header.length,
            ),
            r is Err ==> r == Err::<Vec<u8>, MtfError>(MtfError::Io),
    {
        let dlen = cur.data.len();
        if self.header.length > (usize::MAX - self.base) as u64 {
            return Err(MtfError::Io);
        }
        let saved = cur.position();
        cur.set_position(self.base);
        let out = cur.read_exact(self.header.length as usize);
        cur.set_position(saved);
        match out {
            Ok(v) => Ok(v),
            Err(_) => Err(MtfError::Io),
        }
    }
}

} // verus!
