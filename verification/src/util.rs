//! Partition discovery and fixed-length text fields.

use vstd::prelude::*;
use vstd::slice::slice_subrange;

use crate::bytes::{le32, Reader};
use crate::types::NetWareError;

verus! {

/// System id of a NetWare 286 partition.
pub const PARTID_NETWARE_286: u8 = 0x64;

/// System id of a NetWare 386 partition.
pub const PARTID_NETWARE_386: u8 = 0x65;

/// Offset of the partition table in the first sector.
pub const PARTITION_TABLE_OFFSET: u64 = 446;

/// The file system that a NetWare partition holds.
#[derive(Debug, Clone, Copy, PartialEq, Eq)]
pub enum PartitionType {
    NetWare286,
    NetWare386,
}

/// The system id of the partition table's entry `i`.
pub open spec fn system_id(image: Seq<u8>, i: int) -> u8 {
    image[446 + 16 * i + 4]
}

/// The first sector of the partition that the table's entry `i` describes.
pub open spec fn start_lba(image: Seq<u8>, i: int) -> int {
    le32(image, 446 + 16 * i + 8)
}

/// Whether the table's entry `i` lies within the image as far as it is read.
pub open spec fn entry_readable(image: Seq<u8>, i: int) -> bool {
    446 + 16 * i + 12 <= image.len()
}

/// Whether the table's entry `i` describes a NetWare partition.
pub open spec fn is_netware_entry(image: Seq<u8>, i: int) -> bool {
    system_id(image, i) == PARTID_NETWARE_286 || system_id(image, i) == PARTID_NETWARE_386
}

/// The partition that the table's entry `i` describes, if it is a NetWare
/// partition.
pub open spec fn entry_partition(image: Seq<u8>, i: int) -> Option<(PartitionType, u64)> {
    if system_id(image, i) == PARTID_NETWARE_286 {
        Some((PartitionType::NetWare286, start_lba(image, i) as u64))
    } else if system_id(image, i) == PARTID_NETWARE_386 {
        Some((PartitionType::NetWare386, start_lba(image, i) as u64))
    } else {
        None
    }
}

/// What a scan of the partition table yields from entry `i` on: the first
/// NetWare partition, nothing when the four entries hold none, and an error
/// when the image ends before the scan does.
pub open spec fn scan_partitions(image: Seq<u8>, i: int) -> Result<
    Option<(PartitionType, u64)>,
    NetWareError,
>
    decreases 4 - i,
{
    if i >= 4 {
        Ok(None)
    } else if !entry_readable(image, i) {
        Err(NetWareError::IoError)
    } else if is_netware_entry(image, i) {
        Ok(entry_partition(image, i))
    } else {
        scan_partitions(image, i + 1)
    }
}

/// Finds the first NetWare partition in the partition table of `image` and
/// returns its kind and its first sector.
pub fn find_partition(image: &[u8]) -> (r: Result<Option<(PartitionType, u64)>, NetWareError>)
    ensures
        r == scan_partitions(image@, 0),
        r matches Ok(Some(found)) ==> found.1 <= u32::MAX,
{
    let mut f = Reader::at(image, PARTITION_TABLE_OFFSET)?;
    let mut i: usize = 0;
    while i < 4
        invariant
            0 <= i <= 4,
            f.bytes() == image@,
            i < 4 ==> f.position() == 446 + 16 * i,
            scan_partitions(image@, 0) == scan_partitions(image@, i as int),
        decreases 4 - i,
    {
        // Boot flag and first head, sector and cylinder.
        f.skip(4)?;
        let system_id = f.read_u8()?;
        // Last head, sector and cylinder.
        f.skip(3)?;
        let lba_start = f.read_u32_le()?;
        if system_id == PARTID_NETWARE_286 {
            return Ok(Some((PartitionType::NetWare286, lba_start as u64)));
        }
        if system_id == PARTID_NETWARE_386 {
            return Ok(Some((PartitionType::NetWare386, lba_start as u64)));
        }
        i = i + 1;
        if i < 4 {
            // Number of sectors.
            f.skip(4)?;
        }
    }
    Ok(None)
}

/// The text that `String::from_utf8_lossy` makes of `bytes`.
pub uninterp spec fn lossy_text(bytes: Seq<u8>) -> Seq<char>;

/// Whether every byte is a 7-bit ASCII code.
pub open spec fn is_ascii_bytes(bytes: Seq<u8>) -> bool {
    forall|i: int| 0 <= i < bytes.len() ==> bytes[i] < 128
}

/// The characters whose codes are the given bytes.
pub open spec fn ascii_text(bytes: Seq<u8>) -> Seq<char> {
    Seq::new(bytes.len(), |i: int| bytes[i] as char)
}

/// `String::from_utf8_lossy`, made into an owned string: the text of
/// `bytes` read as UTF-8, with the replacement character for what is not
/// valid. Bytes that are all ASCII are valid and give the characters
/// with the same codes.
#[verifier::external_body]
fn text_from_bytes(bytes: &[u8]) -> (r: String)
    ensures
        r@ == lossy_text(bytes@),
        is_ascii_bytes(bytes@) ==> r@ == ascii_text(bytes@),
{
    String::from_utf8_lossy(bytes).into_owned()
}

/// The index of the first NUL byte at or after `from`, or the length of
/// `bytes` when there is none.
pub open spec fn nul_position(bytes: Seq<u8>, from: int) -> int
    decreases bytes.len() - from,
{
    if from >= bytes.len() || bytes[from] == 0 {
        from
    } else {
        nul_position(bytes, from + 1)
    }
}

/// The bytes of a NUL-terminated field: all that precede the first NUL.
pub open spec fn nul_terminated(bytes: Seq<u8>) -> Seq<u8> {
    bytes.take(nul_position(bytes, 0))
}

/// The bytes of a length-prefixed field: the first `length` bytes, or all
/// of them when the field is shorter.
pub open spec fn length_prefixed(bytes: Seq<u8>, length: u8) -> Seq<u8> {
    if length as int <= bytes.len() {
        bytes.take(length as int)
    } else {
        bytes
    }
}

/// The text of a NUL-terminated field.
pub open spec fn asciiz_text(bytes: Seq<u8>) -> Seq<char> {
    lossy_text(nul_terminated(bytes))
}

/// The text of a length-prefixed field.
pub open spec fn ascii_with_length_text(bytes: Seq<u8>, length: u8) -> Seq<char> {
    lossy_text(length_prefixed(bytes, length))
}

/// The first NUL of `bytes` stands where `nul_position` says: no byte
/// before it is NUL, and it is either a NUL or the end of the field.
pub proof fn lemma_nul_position(bytes: Seq<u8>, from: int)
    requires
        0 <= from <= bytes.len(),
    ensures
        from <= nul_position(bytes, from) <= bytes.len(),
        forall|i: int| from <= i < nul_position(bytes, from) ==> bytes[i] != 0,
        nul_position(bytes, from) == bytes.len() || bytes[nul_position(bytes, from)] == 0,
    decreases bytes.len() - from,
{
    if from < bytes.len() && bytes[from] != 0 {
        lemma_nul_position(bytes, from + 1);
    }
}

/// The text of a NUL-terminated field: the bytes before the first NUL,
/// decoded.
pub fn asciiz_to_string(s: &[u8]) -> (r: String)
    ensures
        r@ == asciiz_text(s@),
        is_ascii_bytes(nul_terminated(s@)) ==> r@ == ascii_text(nul_terminated(s@)),
{
    let mut n: usize = 0;
    while n < s.len() && s[n] != 0
        invariant
            0 <= n <= s@.len(),
            nul_position(s@, 0) == nul_position(s@, n as int),
        decreases s@.len() - n,
    {
        n = n + 1;
    }
    text_from_bytes(slice_subrange(s, 0, n))
}

/// The text of a length-prefixed field: the first `length` bytes, decoded.
pub fn ascii_with_length_to_string(s: &[u8], length: u8) -> (r: String)
    ensures
        r@ == ascii_with_length_text(s@, length),
        is_ascii_bytes(length_prefixed(s@, length)) ==> r@ == ascii_text(
            length_prefixed(s@, length),
        ),
{
    let n: usize = length as usize;
    if n <= s.len() {
        text_from_bytes(slice_subrange(s, 0, n))
    } else {
        assert(s@.subrange(0, s@.len() as int) == s@);
        text_from_bytes(slice_subrange(s, 0, s.len()))
    }
}

/// The code by which a character is compared when ASCII upper and lower
/// case count as equal: that of the lower-case letter for `A` to `Z`, the
/// character's own code otherwise.
pub open spec fn fold_ascii_case(c: char) -> int {
    if 65 <= c as int && c as int <= 90 {
        c as int + 32
    } else {
        c as int
    }
}

/// Whether two names are equal when ASCII upper and lower case count as
/// equal.
pub open spec fn names_match(a: Seq<char>, b: Seq<char>) -> bool {
    &&& a.len() == b.len()
    &&& forall|i: int| 0 <= i < a.len() ==> fold_ascii_case(a[i]) == fold_ascii_case(b[i])
}

/// `str::eq_ignore_ascii_case` compares two strings as if each ASCII letter
/// of both were in lower case.
pub assume_specification[ str::eq_ignore_ascii_case ](a: &str, b: &str) -> (r: bool)
    ensures
        r == names_match(a@, b@),
;

/// Matching names is reflexive.
pub proof fn lemma_names_match_reflexive(a: Seq<char>)
    ensures
        names_match(a, a),
{
}

/// Matching names is symmetric.
pub proof fn lemma_names_match_symmetric(a: Seq<char>, b: Seq<char>)
    ensures
        names_match(a, b) == names_match(b, a),
{
}

/// Matching names is transitive.
pub proof fn lemma_names_match_transitive(a: Seq<char>, b: Seq<char>, c: Seq<char>)
    requires
        names_match(a, b),
        names_match(b, c),
    ensures
        names_match(a, c),
{
}

} // verus!
