use vstd::prelude::*;

verus! {

/// The MTF 40-bit packed date-time: year (14 bits), month (4), day (5),
/// hour (5), minute (6), second (6), packed MSB-first across 5 bytes.
/// Fields are widened to 16 bits; no range validation is performed, since
/// producers have been observed to emit zeroed fields.
#[derive(Debug, Clone, Copy, PartialEq, Eq, Structural)]
pub struct DateTime {
    pub year: u16,
    pub month: u16,
    pub day: u16,
    pub hour: u16,
    pub minute: u16,
    pub second: u16,
}

/// The exact bit layout of the packed form, one widened byte at a time.
pub open spec fn spec_datetime(d: Seq<u8>) -> DateTime {
    DateTime {
        year: ((d[0] as u16) << 6) | ((d[1] as u16) >> 2),
        month: (((d[1] as u16) & 0b11) << 2) | ((d[2] as u16) >> 6),
        day: ((d[2] as u16) >> 1) & 0b11111,
        hour: (((d[2] as u16) & 0b1) << 4) | ((d[3] as u16) >> 4),
        minute: (((d[3] as u16) & 0b1111) << 2) | ((d[4] as u16) >> 6),
        second: (d[4] as u16) & 0b111111,
    }
}

impl DateTime {
    /// Unpacks the five bytes with the exact bit layout of `spec_datetime`.
    pub fn parse(data: [u8; 5]) -> (r: DateTime)
        ensures
            r == spec_datetime(data@),
    {
        let d0 = data[0] as u16;
        let d1 = data[1] as u16;
        let d2 = data[2] as u16;
        let d3 = data[3] as u16;
        let d4 = data[4] as u16;

        DateTime {
            year: (d0 << 6) | (d1 >> 2),
            month: ((d1 & 0b11) << 2) | (d2 >> 6),
            day: (d2 >> 1) & 0b11111,
            hour: ((d2 & 0b1) << 4) | (d3 >> 4),
            minute: ((d3 & 0b1111) << 2) | (d4 >> 6),
            second: d4 & 0b111111,
        }
    }
}

/// Every field a packed date-time unpacks to sits inside its declared bit
/// width, and equals the arithmetic reading of the layout: the year is the
/// top 14 bits, then month, day, hour, minute and second follow MSB-first.
pub proof fn lemma_datetime_fields(d: Seq<u8>)
    requires
        d.len() == 5,
    ensures
        spec_datetime(d).year == d[0] * 64 + d[1] / 4 < 16384,
        spec_datetime(d).month == (d[1] % 4) * 4 + d[2] / 64 < 16,
        spec_datetime(d).day == (d[2] / 2) % 32 < 32,
        spec_datetime(d).hour == (d[2] % 2) * 16 + d[3] / 16 < 32,
        spec_datetime(d).minute == (d[3] % 16) * 4 + d[4] / 64 < 64,
        spec_datetime(d).second == d[4] % 64 < 64,
{
    let b0 = d[0];
    let b1 = d[1];
    let b2 = d[2];
    let b3 = d[3];
    let b4 = d[4];
    assert(((b0 as u16) << 6) | ((b1 as u16) >> 2) == b0 * 64 + b1 / 4) by (bit_vector);
    assert(b0 * 64 + b1 / 4 < 16384) by (bit_vector);
    assert((((b1 as u16) & 0b11) << 2) | ((b2 as u16) >> 6) == (b1 % 4) * 4 + b2 / 64)
        by (bit_vector);
    assert((b1 % 4) * 4 + b2 / 64 < 16) by (bit_vector);
    assert(((b2 as u16) >> 1) & 0b11111 == (b2 / 2) % 32) by (bit_vector);
    assert((((b2 as u16) & 0b1) << 4) | ((b3 as u16) >> 4) == (b2 % 2) * 16 + b3 / 16)
        by (bit_vector);
    assert((b2 % 2) * 16 + b3 / 16 < 32) by (bit_vector);
    assert((((b3 as u16) & 0b1111) << 2) | ((b4 as u16) >> 6) == (b3 % 16) * 4 + b4 / 64)
        by (bit_vector);
    assert((b3 % 16) * 4 + b4 / 64 < 64) by (bit_vector);
    assert((b4 as u16) & 0b111111 == b4 % 64) by (bit_vector);
}

} // verus!
