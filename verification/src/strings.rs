use vstd::prelude::*;
use crate::cursor::{le16, ByteCursor};
use crate::error::MtfError;

verus! {

broadcast use vstd::slice::group_slice_axioms;

/// How the out-of-band strings of one block are encoded. The common header
/// carries one of these and it applies to every tape address in the block.
#[derive(Debug, Clone, Copy, PartialEq, Eq, Structural)]
pub enum StringType {
    NO_STRINGS,
    ANSI_STR,
    UNICODE_STR,
}

/// The string-type tag of the common header: 0, 1 or 2; anything else is
/// rejected.
pub open spec fn spec_string_type(ty: u8) -> Option<StringType> {
    if ty == 0 {
        Some(StringType::NO_STRINGS)
    } else if ty == 1 {
        Some(StringType::ANSI_STR)
    } else if ty == 2 {
        Some(StringType::UNICODE_STR)
    } else {
        None
    }
}

/// The 16-bit code units of a byte sequence read pairwise little-endian;
/// a trailing odd byte is dropped.
pub open spec fn le_units(bytes: Seq<u8>) -> Seq<u16> {
    Seq::new((bytes.len() / 2) as nat, |i: int| le16(bytes, 2 * i))
}

/// What `String::from_utf16` yields on a unit sequence: `None` where the
/// units are not decodable, else the decoded characters. The result is a
/// function of the units alone.
pub uninterp spec fn utf16_chars(units: Seq<u16>) -> Option<Seq<char>>;

/// ANSI strings are 8-bit-clean: every byte decodes to the character of its
/// value (the first 256 code points).
pub open spec fn spec_ansi_chars(bytes: Seq<u8>) -> Seq<char> {
    Seq::new(bytes.len(), |i: int| bytes[i] as char)
}

/// Relies on `String::push`: it appends exactly the given character.
#[verifier::external_body]
fn string_push_char(s: &mut String, c: char)
    ensures
        final(s)@ == old(s)@.push(c),
{
    s.push(c);
}

/// Relies on `String::from_utf16`: whether and how a unit sequence decodes
/// depends on the units alone.
#[verifier::external_body]
fn string_from_utf16(units: &Vec<u16>) -> (r: Option<String>)
    ensures
        r is Some <==> utf16_chars(units@) is Some,
        r is Some ==> Some(r.unwrap()@) == utf16_chars(units@),
{
    String::from_utf16(units.as_slice()).ok()
}

/// The characters a byte sequence decodes to under a string type, or `None`
/// where it is not decodable (`NO_STRINGS` decodes nothing at all).
pub open spec fn spec_decode_string(ty: StringType, bytes: Seq<u8>) -> Option<Seq<char>> {
    match ty {
        StringType::NO_STRINGS => None,
        StringType::ANSI_STR => Some(spec_ansi_chars(bytes)),
        StringType::UNICODE_STR => utf16_chars(le_units(bytes)),
    }
}

impl StringType {
    pub fn parse(ty: u8) -> (r: Result<StringType, MtfError>)
        ensures
            spec_string_type(ty) is Some ==> r == Ok::<StringType, MtfError>(
                spec_string_type(ty).unwrap(),
            ),
            spec_string_type(ty) is None ==> r == Err::<StringType, MtfError>(MtfError::BadTag),
    {
        match ty {
            0 => Ok(StringType::NO_STRINGS),
            1 => Ok(StringType::ANSI_STR),
            2 => Ok(StringType::UNICODE_STR),
            _ => Err(MtfError::BadTag),
        }
    }

    /// Decodes `data` under this string type; `Encoding` where the bytes are
    /// not valid UTF-16, or where strings were declared absent. ANSI decoding
    /// is 8-bit-clean and never fails.
    pub fn bytes_to_string(&self, data: Vec<u8>) -> (r: Result<String, MtfError>)
        ensures
            r is Ok <==> spec_decode_string(*self, data@) is Some,
            r is Ok ==> Some(r.unwrap()@) == spec_decode_string(*self, data@),
            r is Err ==> r == Err::<String, MtfError>(MtfError::Encoding),
    {
        match self {
            StringType::NO_STRINGS => Err(MtfError::Encoding),
            StringType::ANSI_STR => {
                let mut out = String::new();
                let mut i: usize = 0;
                let n = data.len();
                while i < n
                    invariant
                        i <= n,
                        n == data@.len(),
                        out@ =~= spec_ansi_chars(data@).take(i as int),
                    decreases n - i,
                {
                    string_push_char(&mut out, data[i] as char);
                    proof {
                        assert(out@ =~= spec_ansi_chars(data@).take(i + 1));
                    }
                    i = i + 1;
                }
                proof {
                    assert(out@ =~= spec_ansi_chars(data@));
                }
                Ok(out)
            },
            StringType::UNICODE_STR => {
                let n = data.len() / 2;
                let mut units: Vec<u16> = Vec::new();
                let mut i: usize = 0;
                while i < n
                    invariant
                        i <= n,
                        n == data@.len() / 2,
                        data@.len() <= usize::MAX,
                        units@ =~= le_units(data@).take(i as int),
                    decreases n - i,
                {
                    let b0 = data[2 * i] as u16;
                    let b1 = data[2 * i + 1] as u16;
                    units.push(b0 + b1 * 0x100);
                    proof {
                        assert(units@ =~= le_units(data@).take(i + 1));
                    }
                    i = i + 1;
                }
                proof {
                    assert(units@ =~= le_units(data@));
                }
                match string_from_utf16(&units) {
                    Some(s) => Ok(s),
                    None => Err(MtfError::Encoding),
                }
            },
        }
    }
}

/// An in-block string pointer: `size` bytes at `base + offset`, where `base`
/// is the position of the enclosing block's first byte. `size == 0` denotes
/// an absent string.
#[derive(Debug, Clone, Copy, PartialEq, Eq, Structural)]
pub struct TapeAddress {
    pub size: u16,
    pub offset: u16,
    pub base: usize,
}

/// A tape address packs its size in the low half of a 32-bit word and its
/// offset in the high half.
pub open spec fn spec_tape_address(ta: u32, base: usize) -> TapeAddress {
    TapeAddress { size: (ta % 0x10000) as u16, offset: (ta / 0x10000) as u16, base }
}

/// What resolving a tape address against the whole input yields: nothing for
/// an absent string, `Io` past the end, `Encoding` on undecodable bytes, else
/// the characters of the addressed bytes.
pub open spec fn spec_read_str(ta: TapeAddress, ty: StringType, data: Seq<u8>) -> Result<
    Option<Seq<char>>,
    MtfError,
> {
    if ta.size == 0 {
        Ok(None)
    } else {
        let start = ta.base + ta.offset;
        if start + ta.size > data.len() {
            Err(MtfError::Io)
        } else {
            match spec_decode_string(ty, data.subrange(start as int, start + ta.size)) {
                Some(cs) => Ok(Some(cs)),
                None => Err(MtfError::Encoding),
            }
        }
    }
}

impl TapeAddress {
    pub fn parse(tape_address: u32, base: usize) -> (r: TapeAddress)
        ensures
            r == spec_tape_address(tape_address, base),
    {
        TapeAddress { size: (tape_address % 0x10000) as u16, offset: (tape_address / 0x10000) as u16, base }
    }

    /// Resolves this address: seeks to `base + offset`, reads `size` bytes,
    /// restores the cursor, and decodes them under `ty`. The cursor stands
    /// where it stood, whatever the outcome.
    pub fn read_str(self, ty: &StringType, cur: &mut ByteCursor<'_>) -> (r: Result<
        Option<String>,
        MtfError,
    >)
        ensures
            final(cur).data == old(cur).data,
            final(cur).pos == old(cur).pos,
            r is Ok <==> spec_read_str(self, *ty, old(cur).data@) is Ok,
            r is Ok ==> (r.unwrap() is Some <==> spec_read_str(self, *ty, old(cur).data@).unwrap()
                is Some),
            r is Ok && r.unwrap() is Some ==> Some(r.unwrap().unwrap()@) == spec_read_str(
                self,
                *ty,
                old(cur).data@,
            ).unwrap(),
            r is Err ==> spec_read_str(self, *ty, old(cur).data@) == Err::<
                Option<Seq<char>>,
                MtfError,
            >(r->Err_0),
    {
        if self.size == 0 {
            return Ok(None);
        }
        let dlen = cur.data.len();
        if self.base > usize::MAX - (self.offset as usize) {
            // the addressed range cannot lie inside any slice
            return Err(MtfError::Io);
        }
        let start = self.base + (self.offset as usize);
        let saved = cur.position();
        cur.set_position(start);
        let bytes = match cur.read_exact(self.size as usize) {
            Ok(b) => b,
            Err(e) => {
                cur.set_position(saved);
                return Err(e);
            },
        };
        cur.set_position(saved);
        match ty.bytes_to_string(bytes) {
            Ok(s) => Ok(Some(s)),
            Err(e) => Err(e),
        }
    }
}

} // verus!
