//! exFAT timestamps: a date and time packed into 32 bits.
use vstd::prelude::*;

verus! {

/// A decoded exFAT timestamp. Packed, bits 31-25 hold the year from 1980,
/// 24-21 the month, 20-16 the day, 15-11 the hour, 10-5 the minute and
/// 4-0 the second halved.
#[derive(Debug, PartialEq, Eq, Copy, Clone, Structural)]
pub struct ExfatTimestamp {
    pub year: u16,
    pub month: u8,
    pub day: u8,
    pub hour: u8,
    pub minute: u8,
    pub second: u8,
    pub increment_ms: u16,
    pub utc_offset: i16,
}

/// The packed form of a timestamp (the year is taken modulo 2^16 after
/// subtracting 1980, as 16-bit arithmetic wraps).
pub open spec fn spec_pack(t: ExfatTimestamp) -> u64 {
    let year = ((t.year - 1980) % 0x10000) as u16 as u64;
    (year << 25u64) | ((t.month as u64) << 21u64) | ((t.day as u64) << 16u64) | ((t.hour as u64) << 11u64)
        | ((t.minute as u64) << 5u64) | ((t.second / 2) as u64)
}

/// The timestamp that a packed value holds (no 10ms increment, unknown UTC
/// offset).
pub open spec fn spec_unpack(x: u64) -> ExfatTimestamp {
    ExfatTimestamp {
        year: (((x >> 25u64) & 0x7F) as u16 + 1980) as u16,
        month: ((x >> 21u64) & 0x0F) as u8,
        day: ((x >> 16u64) & 0x1F) as u8,
        hour: ((x >> 11u64) & 0x1F) as u8,
        minute: ((x >> 5u64) & 0x3F) as u8,
        second: (((x & 0x1F) as u8) * 2) as u8,
        increment_ms: 0,
        utc_offset: i16::MIN,
    }
}

impl ExfatTimestamp {
    /// The packed form of the timestamp.
    pub fn pack(&self) -> (r: u64)
        ensures
            r == spec_pack(*self),
    {
        let year = self.year.wrapping_sub(1980) as u64;
        let month = self.month as u64;
        let day = self.day as u64;
        let hour = self.hour as u64;
        let minute = self.minute as u64;
        let second = (self.second / 2) as u64;
        proof {
            assert(self.year.wrapping_sub(1980) == ((self.year - 1980) % 0x10000) as u16);
        }
        (year << 25) | (month << 21) | (day << 16) | (hour << 11) | (minute << 5) | second
    }

    /// The timestamp that a packed value holds.
    pub fn unpack(x: u64) -> (r: ExfatTimestamp)
        ensures
            r == spec_unpack(x),
    {
        proof {
            assert((x >> 25u64) & 0x7F <= 0x7F && x & 0x1F < 32) by (bit_vector);
        }
        let year = ((x >> 25) & 0x7F) as u16 + 1980;
        let month = ((x >> 21) & 0x0F) as u8;
        let day = ((x >> 16) & 0x1F) as u8;
        let hour = ((x >> 11) & 0x1F) as u8;
        let minute = ((x >> 5) & 0x3F) as u8;
        let second = ((x & 0x1F) as u8) * 2;
        ExfatTimestamp { year, month, day, hour, minute, second, increment_ms: 0, utc_offset: i16::MIN }
    }
}

impl From<ExfatTimestamp> for u64 {
    /// The packed form of `t` (see `ExfatTimestamp::pack`).
    fn from(t: ExfatTimestamp) -> (r: u64) {
        t.pack()
    }
}

impl vstd::std_specs::convert::FromSpecImpl<ExfatTimestamp> for u64 {
    open spec fn obeys_from_spec() -> bool {
        true
    }

    open spec fn from_spec(t: ExfatTimestamp) -> u64 {
        spec_pack(t)
    }
}

impl From<u64> for ExfatTimestamp {
    /// The timestamp that `x` holds (see `ExfatTimestamp::unpack`).
    fn from(x: u64) -> (r: ExfatTimestamp) {
        ExfatTimestamp::unpack(x)
    }
}

impl vstd::std_specs::convert::FromSpecImpl<u64> for ExfatTimestamp {
    open spec fn obeys_from_spec() -> bool {
        true
    }

    open spec fn from_spec(x: u64) -> ExfatTimestamp {
        spec_unpack(x)
    }
}

/// Unpacking a packed timestamp gives it back, where its fields are in the
/// ranges the packed form holds, its second is even, and it carries no
/// 10ms increment and an unknown UTC offset.
pub proof fn law_unpack_pack(t: ExfatTimestamp)
    requires
        1980 <= t.year < 1980 + 128,
        t.month < 16,
        t.day < 32,
        t.hour < 32,
        t.minute < 64,
        t.second < 64,
        t.second % 2 == 0,
        t.increment_ms == 0,
        t.utc_offset == i16::MIN,
    ensures
        spec_unpack(spec_pack(t)) == t,
{
    let y = (t.year - 1980) as u16;
    assert(((t.year - 1980) % 0x10000) as u16 == y);
    let (m, d, h, mi, s) = (t.month, t.day, t.hour, t.minute, t.second);
    let x = ((y as u64) << 25u64) | ((m as u64) << 21u64) | ((d as u64) << 16u64) | ((h as u64) << 11u64)
        | ((mi as u64) << 5u64) | ((s / 2) as u64);
    assert(x == spec_pack(t));
    assert(((x >> 25u64) & 0x7F) == y as u64) by (bit_vector)
        requires
            y < 128,
            m < 16,
            d < 32,
            h < 32,
            mi < 64,
            s < 64,
            x == ((y as u64) << 25u64) | ((m as u64) << 21u64) | ((d as u64) << 16u64) | ((h as u64) << 11u64)
                | ((mi as u64) << 5u64) | ((s / 2) as u64),
    ;
    assert(((x >> 21u64) & 0x0F) == m as u64 && ((x >> 16u64) & 0x1F) == d as u64 && ((x >> 11u64) & 0x1F) == h as u64
        && ((x >> 5u64) & 0x3F) == mi as u64 && (x & 0x1F) == (s / 2) as u64) by (bit_vector)
        requires
            y < 128,
            m < 16,
            d < 32,
            h < 32,
            mi < 64,
            s < 64,
            x == ((y as u64) << 25u64) | ((m as u64) << 21u64) | ((d as u64) << 16u64) | ((h as u64) << 11u64)
                | ((mi as u64) << 5u64) | ((s / 2) as u64),
    ;
}

/// Packing an unpacked value gives back its low 32 bits.
pub proof fn law_pack_unpack(x: u64)
    ensures
        spec_pack(spec_unpack(x)) == x & 0xFFFF_FFFF,
{
    let t = spec_unpack(x);
    assert((x >> 25u64) & 0x7F <= 0x7F && x & 0x1F < 32) by (bit_vector);
    assert(((t.year - 1980) % 0x10000) as u16 as u64 == (x >> 25u64) & 0x7F);
    assert((t.second / 2) as u64 == x & 0x1F);
    assert((((x >> 25u64) & 0x7F) << 25u64) | ((((x >> 21u64) & 0x0F) as u8 as u64) << 21u64)
        | ((((x >> 16u64) & 0x1F) as u8 as u64) << 16u64) | ((((x >> 11u64) & 0x1F) as u8 as u64) << 11u64)
        | ((((x >> 5u64) & 0x3F) as u8 as u64) << 5u64) | (x & 0x1F) == x & 0xFFFF_FFFF) by (bit_vector);
}

} // verus!
