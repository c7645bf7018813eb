//! Errors and constants shared by both file-system decoders.

use vstd::prelude::*;
use vstd::string::StringExecFns;

use crate::bytes::{le32, Reader};

verus! {

/// Size of a disk sector in bytes.
pub const SECTOR_SIZE: u64 = 512;

/// Everything that can go wrong while decoding an image.
#[derive(Debug, Clone, Copy, PartialEq, Eq)]
pub enum NetWareError {
    /// A read or a seek went past the end of the image.
    IoError,
    /// The partition table names no NetWare partition.
    NoPartition,
    /// A NetWare 286 partition that does not start at sector 1.
    UnsupportedLayout,
    /// The volume area does not carry the expected magic or block size.
    VolumeAreaCorrupt,
    /// No image holds a segment of the requested volume.
    VolumeNotFound,
    /// A block-allocation-table entry is missing or its chain does not end.
    FatCorrupt(u32),
    /// A block number lies in no segment of the volume.
    BlockOutOfRange(u32),
    /// A directory record did not span exactly 128 bytes.
    RecordLength,
    /// The name belongs to something that is not a file.
    NotAFile,
    /// No live entry carries the name.
    NotFound,
    /// More than one live entry carries the name.
    Ambiguous,
    /// The block chain ended before the file's length was reached.
    TruncatedChain,
    /// The block chain goes on after the file's length was reached.
    OversizedChain,
}

/// The character of a decimal digit.
pub open spec fn digit_text(d: int) -> Seq<char> {
    if d == 0 {
        "0"@
    } else if d == 1 {
        "1"@
    } else if d == 2 {
        "2"@
    } else if d == 3 {
        "3"@
    } else if d == 4 {
        "4"@
    } else if d == 5 {
        "5"@
    } else if d == 6 {
        "6"@
    } else if d == 7 {
        "7"@
    } else if d == 8 {
        "8"@
    } else {
        "9"@
    }
}

/// The last `width` decimal digits of `value`, with leading zeros.
pub open spec fn decimal_text(value: int, width: nat) -> Seq<char>
    decreases width,
{
    if width == 0 {
        Seq::empty()
    } else {
        decimal_text(value / 10, (width - 1) as nat) + digit_text(value % 10)
    }
}

/// The string of a decimal digit.
fn digit_str(d: u32) -> (r: &'static str)
    requires
        d < 10,
    ensures
        r@ == digit_text(d as int),
{
    if d == 0 {
        "0"
    } else if d == 1 {
        "1"
    } else if d == 2 {
        "2"
    } else if d == 3 {
        "3"
    } else if d == 4 {
        "4"
    } else if d == 5 {
        "5"
    } else if d == 6 {
        "6"
    } else if d == 7 {
        "7"
    } else if d == 8 {
        "8"
    } else {
        "9"
    }
}

/// Appends the last `width` decimal digits of `value` to `out`, with
/// leading zeros.
pub fn push_decimal(out: &mut String, value: u32, width: u32)
    ensures
        final(out)@ == old(out)@ + decimal_text(value as int, width as nat),
    decreases width,
{
    if width > 0 {
        push_decimal(out, value / 10, width - 1);
        out.append(digit_str(value % 10));
    }
}

/// A date and a time of day packed into 32 bits: the date in the upper
/// half, seven bits of years since 1980, four of month and five of day;
/// the time in the lower half, five bits of hours, six of minutes and
/// five of seconds halved. Zero stands for no timestamp.
#[derive(Default, Debug, Clone, Copy, PartialEq, Eq)]
pub struct Timestamp(pub u32);

impl Timestamp {
    /// Whether the value stands for a timestamp at all.
    pub open spec fn spec_is_valid(&self) -> bool {
        self.0 > 0
    }

    /// The year.
    pub open spec fn spec_year(&self) -> int {
        ((self.0 >> 25) + 1980) as int
    }

    /// The month as stored.
    pub open spec fn spec_month(&self) -> int {
        ((self.0 >> 21) & 0xf) as int
    }

    /// The day of the month as stored.
    pub open spec fn spec_day(&self) -> int {
        ((self.0 >> 16) & 0x1f) as int
    }

    /// The hour as stored.
    pub open spec fn spec_hour(&self) -> int {
        ((self.0 >> 11) & 0x1f) as int
    }

    /// The minute as stored.
    pub open spec fn spec_minute(&self) -> int {
        ((self.0 >> 5) & 0x3f) as int
    }

    /// The second: twice what is stored.
    pub open spec fn spec_second(&self) -> int {
        ((self.0 & 0x1f) * 2) as int
    }

    /// The timestamp as day, month, year and time of day, or a marker
    /// where there is none.
    pub open spec fn text(&self) -> Seq<char> {
        if self.spec_is_valid() {
            decimal_text(self.spec_day(), 2) + "-"@ + decimal_text(self.spec_month(), 2) + "-"@
                + decimal_text(self.spec_year(), 4) + " "@ + decimal_text(self.spec_hour(), 2)
                + ":"@ + decimal_text(self.spec_minute(), 2) + ":"@ + decimal_text(
                self.spec_second(),
                2,
            )
        } else {
            "<invalid>"@
        }
    }

    /// Reads a timestamp, stored as a 32-bit little-endian integer.
    pub fn read_from(input: &mut Reader) -> (r: Result<Timestamp, NetWareError>)
        ensures
            match r {
                Ok(t) => final(input).took(*old(input), 4) && t.0 == le32(
                    old(input).bytes(),
                    old(input).position(),
                ),
                Err(e) => e == NetWareError::IoError && final(input).fell_short(*old(input), 4),
            },
    {
        let v = input.read_u32_le()?;
        Ok(Timestamp(v))
    }

    /// Whether the value stands for a timestamp at all.
    #[verifier::when_used_as_spec(spec_is_valid)]
    pub fn is_valid(&self) -> (r: bool)
        ensures
            r == self.spec_is_valid(),
    {
        self.0 > 0
    }

    /// The year, from 1980 to 2107.
    pub fn year(&self) -> (r: u32)
        ensures
            r == self.spec_year(),
            1980 <= r <= 2107,
    {
        let ts = self.0;
        assert(ts >> 25 <= 127) by (bit_vector);
        (ts >> 25) + 1980
    }

    /// The month as stored, four bits wide.
    pub fn month(&self) -> (r: u32)
        ensures
            r == self.spec_month(),
            r <= 15,
    {
        let ts = self.0;
        assert((ts >> 21) & 0xf <= 15) by (bit_vector);
        (ts >> 21) & 0xf
    }

    /// The day of the month as stored, five bits wide.
    pub fn day(&self) -> (r: u32)
        ensures
            r == self.spec_day(),
            r <= 31,
    {
        let ts = self.0;
        assert((ts >> 16) & 0x1f <= 31) by (bit_vector);
        (ts >> 16) & 0x1f
    }

    /// The hour as stored, five bits wide.
    pub fn hour(&self) -> (r: u32)
        ensures
            r == self.spec_hour(),
            r <= 31,
    {
        let ts = self.0;
        assert((ts >> 11) & 0x1f <= 31) by (bit_vector);
        (ts >> 11) & 0x1f
    }

    /// The minute as stored, six bits wide.
    pub fn minute(&self) -> (r: u32)
        ensures
            r == self.spec_minute(),
            r <= 63,
    {
        let ts = self.0;
        assert((ts >> 5) & 0x3f <= 63) by (bit_vector);
        (ts >> 5) & 0x3f
    }

    /// The second, always even.
    pub fn second(&self) -> (r: u32)
        ensures
            r == self.spec_second(),
            r <= 62,
    {
        let ts = self.0;
        assert(ts & 0x1f <= 31) by (bit_vector);
        (ts & 0x1f) * 2
    }

    /// The fields make up the value: from the top seven bits of years
    /// since 1980, four of month, five of day, five of hours, six of
    /// minutes and five of seconds halved.
    pub proof fn lemma_fields(self)
        ensures
            self.0 == (self.spec_year() - 1980) * 0x2000000 + self.spec_month() * 0x200000
                + self.spec_day() * 0x10000 + self.spec_hour() * 0x800 + self.spec_minute() * 0x20
                + self.spec_second() / 2,
            0 <= self.spec_year() - 1980 < 128,
            0 <= self.spec_month() < 16,
            0 <= self.spec_day() < 32,
            0 <= self.spec_hour() < 32,
            0 <= self.spec_minute() < 64,
            0 <= self.spec_second() < 64 && self.spec_second() % 2 == 0,
    {
        let ts = self.0;
        assert(ts == (ts >> 25) * 0x2000000 + ((ts >> 21) & 0xf) * 0x200000 + ((ts >> 16) & 0x1f)
            * 0x10000 + ((ts >> 11) & 0x1f) * 0x800 + ((ts >> 5) & 0x3f) * 0x20 + (ts & 0x1f))
            by (bit_vector);
        assert(ts >> 25 < 128 && (ts >> 21) & 0xf < 16 && (ts >> 16) & 0x1f < 32 && (ts >> 11)
            & 0x1f < 32 && (ts >> 5) & 0x3f < 64 && ts & 0x1f < 32) by (bit_vector);
    }

    /// The timestamp as `DD-MM-YYYY HH:MM:SS`, or `<invalid>` where there
    /// is none.
    pub fn to_string(&self) -> (r: String)
        ensures
            r@ == self.text(),
    {
        if self.is_valid() {
            let mut s = String::new();
            push_decimal(&mut s, self.day(), 2);
            s.append("-");
            push_decimal(&mut s, self.month(), 2);
            s.append("-");
            push_decimal(&mut s, self.year(), 4);
            s.append(" ");
            push_decimal(&mut s, self.hour(), 2);
            s.append(":");
            push_decimal(&mut s, self.minute(), 2);
            s.append(":");
            push_decimal(&mut s, self.second(), 2);
            s
        } else {
            String::from_str("<invalid>")
        }
    }
}

/// The text of a timestamp given as its raw value: as
/// `Timestamp::to_string`, but with `<0>` where there is none.
pub fn format_timestamp(ts: u32) -> (r: String)
    ensures
        r@ == if ts == 0 {
            "<0>"@
        } else {
            Timestamp(ts).text()
        },
{
    if ts == 0 {
        String::from_str("<0>")
    } else {
        Timestamp(ts).to_string()
    }
}

} // verus!
