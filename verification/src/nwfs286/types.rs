//! The packed dates and times of NetWare 286 records.

use vstd::prelude::*;
use vstd::string::StringExecFns;

use crate::bytes::{le16, Reader};
use crate::types::{decimal_text, push_decimal, NetWareError};

verus! {

/// Size of a disk sector in bytes.
pub const SECTOR_SIZE: u64 = 512;

/// Size of a block in bytes.
pub const BLOCK_SIZE: u64 = 4096;

/// A date packed into 16 bits. From the top: three bits that are the low
/// bits of the month, five bits of day, seven bits of years since 1980,
/// and one bit that is the high bit of the month. Zero stands for no
/// date.
#[derive(Default, Debug, Clone, Copy, PartialEq, Eq)]
pub struct NwDate(pub u16);

impl NwDate {
    /// Whether the value stands for a date at all.
    pub open spec fn spec_is_valid(&self) -> bool {
        self.0 > 0
    }

    /// The day of the month as stored.
    pub open spec fn spec_day(&self) -> int {
        ((self.0 >> 8) & 31) as int
    }

    /// The month as stored: its high bit from the bottom of the value,
    /// its low bits from the top.
    pub open spec fn spec_month(&self) -> int {
        (self.0 >> 13) + ((self.0 & 1) << 3)
    }

    /// The year.
    pub open spec fn spec_year(&self) -> int {
        ((self.0 & 0xff) >> 1) + 1980
    }

    /// The date as day, month and year, or a marker where there is none.
    pub open spec fn text(&self) -> Seq<char> {
        if self.spec_is_valid() {
            decimal_text(self.spec_day(), 2) + "-"@ + decimal_text(self.spec_month(), 2) + "-"@
                + decimal_text(self.spec_year(), 4)
        } else {
            "<invalid>"@
        }
    }

    /// Reads a date, stored as a 16-bit little-endian integer.
    pub fn read_from(input: &mut Reader) -> (r: Result<NwDate, NetWareError>)
        ensures
            match r {
                Ok(t) => final(input).took(*old(input), 2) && t.0 == le16(
                    old(input).bytes(),
                    old(input).position(),
                ),
                Err(e) => e == NetWareError::IoError && final(input).fell_short(*old(input), 2),
            },
    {
        let v = input.read_u16_le()?;
        Ok(NwDate(v))
    }

    /// Whether the value stands for a date at all.
    #[verifier::when_used_as_spec(spec_is_valid)]
    pub fn is_valid(&self) -> (r: bool)
        ensures
            r == self.spec_is_valid(),
    {
        self.0 > 0
    }

    /// The day of the month as stored, five bits wide.
    pub fn day(&self) -> (r: u16)
        ensures
            r == self.spec_day(),
            r <= 31,
    {
        let ts = self.0;
        assert((ts >> 8) & 31 <= 31) by (bit_vector);
        (ts >> 8) & 31
    }

    /// The month as stored, four bits wide.
    pub fn month(&self) -> (r: u16)
        ensures
            r == self.spec_month(),
            r <= 15,
    {
        let ts = self.0;
        assert(ts >> 13 <= 7 && (ts & 1) << 3 <= 8) by (bit_vector);
        (ts >> 13) + ((ts & 1) << 3)
    }

    /// The year, from 1980 to 2107.
    pub fn year(&self) -> (r: u16)
        ensures
            r == self.spec_year(),
            1980 <= r <= 2107,
    {
        let ts = self.0;
        assert((ts & 0xff) >> 1 <= 127) by (bit_vector);
        ((ts & 0xff) >> 1) + 1980
    }

    /// The fields make up the value: from the top the three low bits of
    /// the month, five bits of day, seven of years since 1980, and the
    /// high bit of the month.
    pub proof fn lemma_fields(self)
        ensures
            self.0 == (self.spec_month() % 8) * 0x2000 + self.spec_day() * 0x100 + (
            self.spec_year() - 1980) * 2 + self.spec_month() / 8,
            0 <= self.spec_month() < 16,
            0 <= self.spec_day() < 32,
            0 <= self.spec_year() - 1980 < 128,
    {
        let ts = self.0;
        assert(ts == (ts >> 13) * 0x2000 + ((ts >> 8) & 31) * 0x100 + ((ts & 0xff) >> 1) * 2 + (ts
            & 1)) by (bit_vector);
        assert(ts >> 13 < 8 && (ts >> 8) & 31 < 32 && (ts & 0xff) >> 1 < 128 && ts & 1 < 2 && (ts
            & 1) << 3 == (ts & 1) * 8) by (bit_vector);
    }

    /// The date as `DD-MM-YYYY`, or `<invalid>` where there is none.
    pub fn to_string(&self) -> (r: String)
        ensures
            r@ == self.text(),
    {
        if self.is_valid() {
            let mut s = String::new();
            push_decimal(&mut s, self.day() as u32, 2);
            s.append("-");
            push_decimal(&mut s, self.month() as u32, 2);
            s.append("-");
            push_decimal(&mut s, self.year() as u32, 4);
            s
        } else {
            String::from_str("<invalid>")
        }
    }
}

/// A time of day packed into 16 bits. From the top: three bits that are
/// the low bits of the minute, five bits of seconds halved, five bits of
/// hours, and three bits that are the high bits of the minute. Zero
/// stands for no time.
#[derive(Default, Debug, Clone, Copy, PartialEq, Eq)]
pub struct NwTime(pub u16);

impl NwTime {
    /// Whether the value stands for a time at all.
    pub open spec fn spec_is_valid(&self) -> bool {
        self.0 > 0
    }

    /// The hour as stored.
    pub open spec fn spec_hour(&self) -> int {
        ((self.0 >> 3) & 31) as int
    }

    /// The minute as stored: its high bits from the bottom of the value,
    /// its low bits from the top.
    pub open spec fn spec_minute(&self) -> int {
        (self.0 >> 13) + ((self.0 & 7) << 3)
    }

    /// The second: twice what is stored.
    pub open spec fn spec_second(&self) -> int {
        ((self.0 >> 8) & 31) * 2
    }

    /// The time as hour, minute and second, or a marker where there is
    /// none.
    pub open spec fn text(&self) -> Seq<char> {
        if self.spec_is_valid() {
            decimal_text(self.spec_hour(), 2) + ":"@ + decimal_text(self.spec_minute(), 2) + ":"@
                + decimal_text(self.spec_second(), 2)
        } else {
            "<invalid>"@
        }
    }

    /// Reads a time, stored as a 16-bit little-endian integer.
    pub fn read_from(input: &mut Reader) -> (r: Result<NwTime, NetWareError>)
        ensures
            match r {
                Ok(t) => final(input).took(*old(input), 2) && t.0 == le16(
                    old(input).bytes(),
                    old(input).position(),
                ),
                Err(e) => e == NetWareError::IoError && final(input).fell_short(*old(input), 2),
            },
    {
        let v = input.read_u16_le()?;
        Ok(NwTime(v))
    }

    /// Whether the value stands for a time at all.
    #[verifier::when_used_as_spec(spec_is_valid)]
    pub fn is_valid(&self) -> (r: bool)
        ensures
            r == self.spec_is_valid(),
    {
        self.0 > 0
    }

    /// The hour as stored, five bits wide.
    pub fn hour(&self) -> (r: u16)
        ensures
            r == self.spec_hour(),
            r <= 31,
    {
        let ts = self.0;
        assert((ts >> 3) & 31 <= 31) by (bit_vector);
        (ts >> 3) & 31
    }

    /// The minute as stored, six bits wide.
    pub fn minute(&self) -> (r: u16)
        ensures
            r == self.spec_minute(),
            r <= 63,
    {
        let ts = self.0;
        assert(ts >> 13 <= 7 && (ts & 7) << 3 <= 56) by (bit_vector);
        (ts >> 13) + ((ts & 7) << 3)
    }

    /// The second, always even.
    pub fn second(&self) -> (r: u16)
        ensures
            r == self.spec_second(),
            r <= 62,
    {
        let ts = self.0;
        assert((ts >> 8) & 31 <= 31) by (bit_vector);
        ((ts >> 8) & 31) * 2
    }

    /// The fields make up the value: from the top the three low bits of
    /// the minute, five bits of seconds halved, five of hours, and the
    /// three high bits of the minute.
    pub proof fn lemma_fields(self)
        ensures
            self.0 == (self.spec_minute() % 8) * 0x2000 + (self.spec_second() / 2) * 0x100
                + self.spec_hour() * 8 + self.spec_minute() / 8,
            0 <= self.spec_minute() < 64,
            0 <= self.spec_second() < 64 && self.spec_second() % 2 == 0,
            0 <= self.spec_hour() < 32,
    {
        let ts = self.0;
        assert(ts == (ts >> 13) * 0x2000 + ((ts >> 8) & 31) * 0x100 + ((ts >> 3) & 31) * 8 + (ts
            & 7)) by (bit_vector);
        assert(ts >> 13 < 8 && (ts >> 8) & 31 < 32 && (ts >> 3) & 31 < 32 && ts & 7 < 8 && (ts
            & 7) << 3 == (ts & 7) * 8) by (bit_vector);
    }

    /// The time as `HH:MM:SS`, or `<invalid>` where there is none.
    pub fn to_string(&self) -> (r: String)
        ensures
            r@ == self.text(),
    {
        if self.is_valid() {
            let mut s = String::new();
            push_decimal(&mut s, self.hour() as u32, 2);
            s.append(":");
            push_decimal(&mut s, self.minute() as u32, 2);
            s.append(":");
            push_decimal(&mut s, self.second() as u32, 2);
            s
        } else {
            String::from_str("<invalid>")
        }
    }
}

} // verus!
