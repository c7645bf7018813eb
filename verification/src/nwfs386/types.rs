//! The bit fields of NetWare 386 records.

use vstd::prelude::*;
use vstd::string::StringExecFns;

use crate::bytes::{le16, le32, Reader};
use crate::types::NetWareError;

pub use crate::types::{Timestamp, SECTOR_SIZE};

verus! {

/// The file may not be copied.
pub const ATTR_COPY_INHIBIT: u32 = 0x80000;

/// The entry may not be deleted.
pub const ATTR_DELETE_INHIBIT: u32 = 0x40000;

/// The entry may not be renamed.
pub const ATTR_RENAME_INHIBIT: u32 = 0x20000;

/// The file is purged as soon as it is deleted.
pub const ATTR_PURGE: u32 = 0x10000;

/// The file is protected by transaction tracking.
pub const ATTR_TRANSACTIONAL: u32 = 0x1000;

/// The file may be open more than once.
pub const ATTR_SHAREABLE: u32 = 0x80;

/// The file has changed since it was last archived.
pub const ATTR_ARCHIVE: u32 = 0x20;

/// The entry is a directory.
pub const ATTR_DIRECTORY: u32 = 0x10;

/// The entry belongs to the system.
pub const ATTR_SYSTEM: u32 = 0x4;

/// The entry is hidden.
pub const ATTR_HIDDEN: u32 = 0x2;

/// The file may not be written.
pub const ATTR_READONLY: u32 = 0x1;

/// The right to read files.
pub const RIGHT_READ: u16 = 0x1;

/// The right to write files.
pub const RIGHT_WRITE: u16 = 0x2;

/// The right to create entries.
pub const RIGHT_CREATE: u16 = 0x8;

/// The right to erase entries.
pub const RIGHT_ERASE: u16 = 0x10;

/// The right to change trustees and the inherited rights mask.
pub const RIGHT_ACCESS_CONTROL: u16 = 0x20;

/// The right to see entries.
pub const RIGHT_FILESCAN: u16 = 0x40;

/// The right to rename entries and to change attributes.
pub const RIGHT_MODIFY: u16 = 0x80;

/// All rights.
pub const RIGHT_SUPERVISOR: u16 = 0x100;

/// One of two texts, by whether a flag is set.
pub open spec fn flag_text(set: bool, on: Seq<char>, off: Seq<char>) -> Seq<char> {
    if set {
        on
    } else {
        off
    }
}

/// Appends `on` to `out` where the flag is set and `off` where it is not.
fn push_flag(out: &mut String, set: bool, on: &str, off: &str)
    ensures
        final(out)@ == old(out)@ + flag_text(set, on@, off@),
{
    if set {
        out.append(on);
    } else {
        out.append(off);
    }
}

/// The attribute flags of a file or directory.
#[derive(Default, Debug, Clone, Copy, PartialEq, Eq)]
pub struct Attributes(pub u32);

impl Attributes {
    /// Whether the flag `mask` is set.
    pub open spec fn has(&self, mask: u32) -> bool {
        self.0 & mask != 0
    }

    /// Whether the record describes a directory rather than a file.
    pub open spec fn spec_is_directory(&self) -> bool {
        self.has(ATTR_DIRECTORY)
    }

    /// The flags in the notation of the NetWare tools, one fixed place for
    /// each flag.
    pub open spec fn text(&self) -> Seq<char> {
        flag_text(self.has(ATTR_READONLY), "Ro"@, "Rw"@) + flag_text(
            self.has(ATTR_SHAREABLE),
            "S"@,
            "-"@,
        ) + flag_text(self.has(ATTR_ARCHIVE), "A"@, "-"@) + "-"@ + flag_text(
            self.has(ATTR_HIDDEN),
            "H"@,
            "-"@,
        ) + flag_text(self.has(ATTR_SYSTEM), "Sy"@, "--"@) + flag_text(
            self.has(ATTR_TRANSACTIONAL),
            "T"@,
            "-"@,
        ) + "-"@ + flag_text(self.has(ATTR_PURGE), "P"@, "-"@) + "--"@ + "--"@ + flag_text(
            self.has(ATTR_COPY_INHIBIT),
            "Ci"@,
            "--"@,
        ) + flag_text(self.has(ATTR_COPY_INHIBIT), "Ci"@, "--"@) + flag_text(
            self.has(ATTR_DELETE_INHIBIT),
            "Di"@,
            "--"@,
        ) + flag_text(self.has(ATTR_RENAME_INHIBIT), "Ri"@, "--"@)
    }

    /// Reads the flags, stored as a 32-bit little-endian integer.
    pub fn read_from(input: &mut Reader) -> (r: Result<Attributes, NetWareError>)
        ensures
            match r {
                Ok(a) => final(input).took(*old(input), 4) && a.0 == le32(
                    old(input).bytes(),
                    old(input).position(),
                ),
                Err(e) => e == NetWareError::IoError && final(input).fell_short(*old(input), 4),
            },
    {
        let v = input.read_u32_le()?;
        Ok(Attributes(v))
    }

    /// Whether the record describes a directory rather than a file.
    #[verifier::when_used_as_spec(spec_is_directory)]
    pub fn is_directory(&self) -> (r: bool)
        ensures
            r == self.spec_is_directory(),
    {
        (self.0 & ATTR_DIRECTORY) != 0
    }

    /// The flags in the notation of the NetWare tools.
    pub fn to_string(&self) -> (r: String)
        ensures
            r@ == self.text(),
    {
        let mut s = String::new();
        let attr = self.0;
        push_flag(&mut s, (attr & ATTR_READONLY) != 0, "Ro", "Rw");
        push_flag(&mut s, (attr & ATTR_SHAREABLE) != 0, "S", "-");
        push_flag(&mut s, (attr & ATTR_ARCHIVE) != 0, "A", "-");
        s.append("-");
        push_flag(&mut s, (attr & ATTR_HIDDEN) != 0, "H", "-");
        push_flag(&mut s, (attr & ATTR_SYSTEM) != 0, "Sy", "--");
        push_flag(&mut s, (attr & ATTR_TRANSACTIONAL) != 0, "T", "-");
        s.append("-");
        push_flag(&mut s, (attr & ATTR_PURGE) != 0, "P", "-");
        // Read audit and write audit are not decoded.
        s.append("--");
        s.append("--");
        push_flag(&mut s, (attr & ATTR_COPY_INHIBIT) != 0, "Ci", "--");
        push_flag(&mut s, (attr & ATTR_COPY_INHIBIT) != 0, "Ci", "--");
        push_flag(&mut s, (attr & ATTR_DELETE_INHIBIT) != 0, "Di", "--");
        push_flag(&mut s, (attr & ATTR_RENAME_INHIBIT) != 0, "Ri", "--");
        s
    }
}

/// The rights that a trustee holds.
#[derive(Default, Debug, Clone, Copy, PartialEq, Eq)]
pub struct Rights(pub u16);

impl Rights {
    /// Whether the right `mask` is granted.
    pub open spec fn has(&self, mask: u16) -> bool {
        self.0 & mask != 0
    }

    /// One letter for each right that is granted, a blank for each that
    /// is not.
    pub open spec fn text(&self) -> Seq<char> {
        flag_text(self.has(RIGHT_SUPERVISOR), "S"@, " "@) + flag_text(
            self.has(RIGHT_READ),
            "R"@,
            " "@,
        ) + flag_text(self.has(RIGHT_WRITE), "W"@, " "@) + flag_text(
            self.has(RIGHT_CREATE),
            "C"@,
            " "@,
        ) + flag_text(self.has(RIGHT_ERASE), "E"@, " "@) + flag_text(
            self.has(RIGHT_MODIFY),
            "M"@,
            " "@,
        ) + flag_text(self.has(RIGHT_FILESCAN), "F"@, " "@) + flag_text(
            self.has(RIGHT_ACCESS_CONTROL),
            "A"@,
            " "@,
        )
    }

    /// Reads the rights, stored as a 16-bit little-endian integer.
    pub fn read_from(input: &mut Reader) -> (r: Result<Rights, NetWareError>)
        ensures
            match r {
                Ok(a) => final(input).took(*old(input), 2) && a.0 == le16(
                    old(input).bytes(),
                    old(input).position(),
                ),
                Err(e) => e == NetWareError::IoError && final(input).fell_short(*old(input), 2),
            },
    {
        let v = input.read_u16_le()?;
        Ok(Rights(v))
    }

    /// One letter for each right that is granted, a blank for each that
    /// is not.
    pub fn to_string(&self) -> (r: String)
        ensures
            r@ == self.text(),
    {
        let mut s = String::new();
        let rights = self.0;
        push_flag(&mut s, (rights & RIGHT_SUPERVISOR) != 0, "S", " ");
        push_flag(&mut s, (rights & RIGHT_READ) != 0, "R", " ");
        push_flag(&mut s, (rights & RIGHT_WRITE) != 0, "W", " ");
        push_flag(&mut s, (rights & RIGHT_CREATE) != 0, "C", " ");
        push_flag(&mut s, (rights & RIGHT_ERASE) != 0, "E", " ");
        push_flag(&mut s, (rights & RIGHT_MODIFY) != 0, "M", " ");
        push_flag(&mut s, (rights & RIGHT_FILESCAN) != 0, "F", " ");
        push_flag(&mut s, (rights & RIGHT_ACCESS_CONTROL) != 0, "A", " ");
        s
    }
}

} // verus!
