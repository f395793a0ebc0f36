use vstd::prelude::*;
use crate::cursor::{le16, ByteCursor};
use crate::error::MtfError;

verus! {

/// XOR of the first `n` little-endian 16-bit words of `s`.
pub open spec fn spec_xor_words(s: Seq<u8>, n: int) -> u16
    decreases n,
{
    if n <= 0 {
        0u16
    } else {
        spec_xor_words(s, n - 1) ^ le16(s, 2 * (n - 1))
    }
}

/// Computes the MTF header checksum: the XOR of the first `nwords`
/// little-endian 16-bit words starting at `pos`. The cursor does not move.
pub fn xor_words(cur: &ByteCursor<'_>, pos: usize, nwords: usize) -> (r: Result<u16, MtfError>)
    ensures
        pos + 2 * nwords <= cur.data@.len() ==> r == Ok::<u16, MtfError>(
            spec_xor_words(cur.data@.subrange(pos as int, pos + 2 * nwords), nwords as int),
        ),
        pos + 2 * nwords > cur.data@.len() ==> r == Err::<u16, MtfError>(MtfError::Io),
{
    let n = cur.data.len();
    if pos <= n && (n - pos) / 2 >= nwords {
        let ghost region = cur.data@.subrange(pos as int, pos + 2 * nwords);
        let mut scan = ByteCursor { data: cur.data, pos };
        let mut acc: u16 = 0;
        let mut i: usize = 0;
        while i < nwords
            invariant
                i <= nwords,
                pos + 2 * nwords <= scan.data@.len(),
                scan.data@ == cur.data@,
                scan.pos == pos + 2 * i,
                region == cur.data@.subrange(pos as int, pos + 2 * nwords),
                acc == spec_xor_words(region, i as int),
            decreases nwords - i,
        {
            let w = match scan.read_u16() {
                Ok(w) => w,
                Err(_) => {
                    return Err(MtfError::Io);
                },
            };
            proof {
                assert(region[2 * i as int] == cur.data@[pos + 2 * i]);
                assert(region[2 * i as int + 1] == cur.data@[pos + 2 * i + 1]);
                assert(le16(cur.data@, pos + 2 * i) == le16(region, 2 * i as int));
            }
            acc = acc ^ w;
            i = i + 1;
        }
        Ok(acc)
    } else {
        Err(MtfError::Io)
    }
}

} // verus!
