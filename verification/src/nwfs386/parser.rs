//! The on-disk records of a NetWare 386 partition.

use vstd::prelude::*;

use crate::bytes::{be32, le16, le32, u16s_at, u32s_at, u8s_at, Reader};
use crate::nwfs386::types::{Attributes, Rights, Timestamp};
use crate::types::NetWareError;
use crate::util::{
    ascii_with_length_text, ascii_with_length_to_string, asciiz_text, asciiz_to_string,
};

verus! {

/// Parent id that marks a volume-information record.
pub const DIRID_VOLUME_INFO: u32 = 0xfffffffd;

/// Parent id that marks a grant-list record.
pub const DIRID_GRANT_LIST: u32 = 0xfffffffe;

/// Parent id that marks a free slot.
pub const DIRID_AVAILABLE: u32 = 0xffffffff;

/// Size of the hotfix header as far as it is decoded.
pub const HOTFIX_SIZE: usize = 60;

/// Size of the mirror header as far as it is decoded.
pub const MIRROR_SIZE: usize = 40;

/// Size of one record of the volume segment table.
pub const SEGMENT_SIZE: usize = 60;

/// Size of the header of the volume segment table.
pub const VOLUMES_HEADER_SIZE: usize = 32;

/// Size of one directory record.
pub const DIRECTORY_ENTRY_SIZE: usize = 128;

/// The header of the hotfix area.
#[derive(Default, Debug)]
pub struct Hotfix {
    pub id: String,
    pub v_id: u32,
    pub unk1: [u16; 4],
    pub data_area_sectors: u32,
    pub redir_area_sectors: u32,
    pub unk2: [u32; 8],
}

/// Whether `h` is the hotfix header stored at `at`.
pub open spec fn is_hotfix(h: Hotfix, s: Seq<u8>, at: int) -> bool {
    &&& h.id@ == asciiz_text(s.subrange(at, at + 8))
    &&& h.v_id == le32(s, at + 8)
    &&& u16s_at(h.unk1@, s, at + 12)
    &&& h.data_area_sectors == le32(s, at + 20)
    &&& h.redir_area_sectors == le32(s, at + 24)
    &&& u32s_at(h.unk2@, s, at + 28)
}

impl Hotfix {
    /// Decodes the hotfix header stored at `offset`.
    pub fn new(image: &[u8], offset: u64) -> (r: Result<Hotfix, NetWareError>)
        ensures
            match r {
                Ok(h) => offset + HOTFIX_SIZE <= image@.len() && is_hotfix(
                    h,
                    image@,
                    offset as int,
                ),
                Err(e) => e == NetWareError::IoError && offset + HOTFIX_SIZE > image@.len(),
            },
    {
        let mut f = Reader::at(image, offset)?;
        let id = asciiz_to_string(f.read_bytes(8)?);
        let v_id = f.read_u32_le()?;
        let unk1 = f.read_u16s::<4>()?;
        let data_area_sectors = f.read_u32_le()?;
        let redir_area_sectors = f.read_u32_le()?;
        let unk2 = f.read_u32s::<8>()?;
        Ok(Hotfix { id, v_id, unk1, data_area_sectors, redir_area_sectors, unk2 })
    }
}

/// The header of the mirror area.
#[derive(Default, Debug)]
pub struct Mirror {
    pub id: String,
    pub create_time: Timestamp,
    /// The first word holds flags: `0x90000` as a rule, `0xb0000` where
    /// the partition is mirrored.
    pub unk1: [u32; 5],
    pub hotfix_v_id1: u32,
    pub hotfix_v_id2: u32,
}

/// Whether `m` is the mirror header stored at `at`.
pub open spec fn is_mirror(m: Mirror, s: Seq<u8>, at: int) -> bool {
    &&& m.id@ == asciiz_text(s.subrange(at, at + 8))
    &&& m.create_time.0 == le32(s, at + 8)
    &&& u32s_at(m.unk1@, s, at + 12)
    &&& m.hotfix_v_id1 == le32(s, at + 32)
    &&& m.hotfix_v_id2 == le32(s, at + 36)
}

impl Mirror {
    /// Decodes the mirror header stored at `offset`.
    pub fn new(image: &[u8], offset: u64) -> (r: Result<Mirror, NetWareError>)
        ensures
            match r {
                Ok(m) => offset + MIRROR_SIZE <= image@.len() && is_mirror(
                    m,
                    image@,
                    offset as int,
                ),
                Err(e) => e == NetWareError::IoError && offset + MIRROR_SIZE > image@.len(),
            },
    {
        let mut f = Reader::at(image, offset)?;
        let id = asciiz_to_string(f.read_bytes(8)?);
        let create_time = Timestamp::read_from(&mut f)?;
        let unk1 = f.read_u32s::<5>()?;
        // More may follow here where more mirrors are defined.
        let hotfix_v_id1 = f.read_u32_le()?;
        let hotfix_v_id2 = f.read_u32_le()?;
        Ok(Mirror { id, create_time, unk1, hotfix_v_id1, hotfix_v_id2 })
    }
}

/// Whether `code` is one of the block size codes of the format.
pub open spec fn valid_block_size_code(code: int) -> bool {
    code == 1 || code == 2 || code == 4 || code == 8 || code == 16 || code == 32 || code == 64
}

/// The block size in bytes that a block size code stands for.
pub open spec fn block_size_of(code: int) -> int
    recommends
        code > 0,
{
    (256int / code) * 1024
}

/// Whether `size` is a block size that some block size code stands for.
pub open spec fn valid_block_size(size: int) -> bool {
    size == 4096 || size == 8192 || size == 16384 || size == 32768 || size == 65536 || size
        == 131072 || size == 262144
}

/// Every block size code of the format stands for a valid block size, and
/// every code from 4 on for one of 4, 8, 16, 32 or 64 KiB.
pub proof fn lemma_block_size(code: int)
    requires
        valid_block_size_code(code),
    ensures
        valid_block_size(block_size_of(code)),
        code >= 4 ==> (block_size_of(code) == 4096 || block_size_of(code) == 8192
            || block_size_of(code) == 16384 || block_size_of(code) == 32768 || block_size_of(code)
            == 65536),
{
}

/// The block size in bytes that `code` stands for, if it is one of the
/// block size codes of the format.
pub fn block_size_from_code(code: u32) -> (r: Option<u32>)
    ensures
        match r {
            Some(size) => valid_block_size_code(code as int) && size == block_size_of(code as int)
                && valid_block_size(size as int),
            None => !valid_block_size_code(code as int),
        },
{
    if code == 1 || code == 2 || code == 4 || code == 8 || code == 16 || code == 32 || code
        == 64 {
        Some((256 / code) * 1024)
    } else {
        None
    }
}

/// Whether `size` is a block size that some block size code stands for.
pub fn is_block_size(size: u32) -> (r: bool)
    ensures
        r == valid_block_size(size as int),
{
    size == 4096 || size == 8192 || size == 16384 || size == 32768 || size == 65536 || size
        == 131072 || size == 262144
}

/// One segment of a volume, as the volume segment table describes it.
#[derive(Default, Debug)]
pub struct VolumeInfo {
    pub name: String,
    /// Some kind of id.
    pub unk1: u16,
    pub segment_num: u16,
    /// 160 for the first segment of a partition, more for those after it.
    pub first_sector: u32,
    pub num_sectors: u32,
    pub total_blocks: u32,
    pub first_segment_block: u32,
    pub unk2: u32,
    pub block_size: u32,
    pub rootdir_block_nr: u32,
    pub rootdir_copy_block_nr: u32,
    pub unk3: u32,
}

/// Whether `v` is the segment described by the 60-byte record `rec`.
pub open spec fn is_volume_segment(v: VolumeInfo, rec: Seq<u8>) -> bool {
    &&& v.name@ == ascii_with_length_text(rec.subrange(1, 20), rec[0])
    &&& v.unk1 == le16(rec, 20)
    &&& v.segment_num == le16(rec, 22)
    &&& v.first_sector == le32(rec, 24)
    &&& v.num_sectors == le32(rec, 28)
    &&& v.total_blocks == le32(rec, 32)
    &&& v.first_segment_block == le32(rec, 36)
    &&& v.unk2 == le32(rec, 40)
    &&& valid_block_size_code(le32(rec, 44))
    &&& v.block_size == block_size_of(le32(rec, 44))
    &&& v.rootdir_block_nr == le32(rec, 48)
    &&& v.rootdir_copy_block_nr == le32(rec, 52)
    &&& v.unk3 == le32(rec, 56)
}

impl VolumeInfo {
    /// Whether the block size is one that the format provides for.
    pub open spec fn wf(&self) -> bool {
        valid_block_size(self.block_size as int)
    }

    /// Decodes the next record of the volume segment table. A record whose
    /// block size code the format does not provide for is refused.
    pub fn new(f: &mut Reader) -> (r: Result<VolumeInfo, NetWareError>)
        ensures
            match r {
                Ok(v) => final(f).took(*old(f), SEGMENT_SIZE as int) && v.wf()
                    && is_volume_segment(
                    v,
                    old(f).bytes().subrange(
                        old(f).position(),
                        old(f).position() + SEGMENT_SIZE as int,
                    ),
                ),
                Err(e) => if e == NetWareError::IoError {
                    final(f).fell_short(*old(f), SEGMENT_SIZE as int)
                } else {
                    e == NetWareError::VolumeAreaCorrupt && final(f).took(
                        *old(f),
                        SEGMENT_SIZE as int,
                    ) && !valid_block_size_code(le32(old(f).bytes(), old(f).position() + 44))
                },
            },
    {
        let record = f.read_bytes(SEGMENT_SIZE)?;
        let mut rec = Reader::new(record);
        let name_len = rec.read_u8()?;
        let name = ascii_with_length_to_string(rec.read_bytes(19)?, name_len);
        let unk1 = rec.read_u16_le()?;
        let segment_num = rec.read_u16_le()?;
        let first_sector = rec.read_u32_le()?;
        let num_sectors = rec.read_u32_le()?;
        let total_blocks = rec.read_u32_le()?;
        let first_segment_block = rec.read_u32_le()?;
        let unk2 = rec.read_u32_le()?;
        let block_value = rec.read_u32_le()?;
        let rootdir_block_nr = rec.read_u32_le()?;
        let rootdir_copy_block_nr = rec.read_u32_le()?;
        let unk3 = rec.read_u32_le()?;
        let block_size = match block_size_from_code(block_value) {
            Some(size) => size,
            None => { return Err(NetWareError::VolumeAreaCorrupt); },
        };
        Ok(
            VolumeInfo {
                name,
                unk1,
                segment_num,
                first_sector,
                num_sectors,
                total_blocks,
                first_segment_block,
                unk2,
                block_size,
                rootdir_block_nr,
                rootdir_copy_block_nr,
                unk3,
            },
        )
    }

    /// A copy of the segment's description.
    pub fn duplicate(&self) -> (r: VolumeInfo)
        ensures
            r == *self,
    {
        VolumeInfo {
            name: self.name.clone(),
            unk1: self.unk1,
            segment_num: self.segment_num,
            first_sector: self.first_sector,
            num_sectors: self.num_sectors,
            total_blocks: self.total_blocks,
            first_segment_block: self.first_segment_block,
            unk2: self.unk2,
            block_size: self.block_size,
            rootdir_block_nr: self.rootdir_block_nr,
            rootdir_copy_block_nr: self.rootdir_copy_block_nr,
            unk3: self.unk3,
        }
    }
}

/// The sixteen bytes that open the volume segment table: the text
/// `NetWare Volumes` and a NUL.
pub open spec fn volumes_magic() -> Seq<u8> {
    seq![78u8, 101, 116, 87, 97, 114, 101, 32, 86, 111, 108, 117, 109, 101, 115, 0]
}

/// The sixteen bytes that open the volume segment table.
fn volumes_magic_bytes() -> (r: [u8; 16])
    ensures
        r@ == volumes_magic(),
{
    let r = [78u8, 101, 116, 87, 97, 114, 101, 32, 86, 111, 108, 117, 109, 101, 115, 0];
    assert(r@ =~= volumes_magic());
    r
}

/// Whether `magic` holds the bytes that open the volume segment table.
fn is_volumes_magic(magic: &[u8]) -> (r: bool)
    requires
        magic@.len() == 16,
    ensures
        r == (magic@ == volumes_magic()),
{
    let expected = volumes_magic_bytes();
    let mut i: usize = 0;
    while i < 16
        invariant
            0 <= i <= 16,
            magic@.len() == 16,
            expected@ == volumes_magic(),
            forall|j: int| 0 <= j < i ==> magic@[j] == expected@[j],
        decreases 16 - i,
    {
        if magic[i] != expected[i] {
            assert(magic@[i as int] != volumes_magic()[i as int]);
            return false;
        }
        i = i + 1;
    }
    assert(magic@ =~= volumes_magic());
    true
}

/// The volume segment table of a partition.
#[derive(Default, Debug)]
pub struct Volumes {
    pub unk1: [u32; 3],
    pub info: Vec<VolumeInfo>,
}

/// The number of segment records that the table stored at `at` announces.
pub open spec fn num_volumes(s: Seq<u8>, at: int) -> int {
    le32(s, at + 16)
}

/// The 60-byte record of segment `i` of the table stored at `at`.
pub open spec fn segment_record(s: Seq<u8>, at: int, i: int) -> Seq<u8> {
    s.subrange(at + 32 + 60 * i, at + 32 + 60 * (i + 1))
}

/// What stops the decoding of the segment records from record `i` on, if
/// anything does: a record that the image does not hold in full, or one
/// with a block size code that the format does not provide for, whichever
/// comes first.
pub open spec fn segments_fault(s: Seq<u8>, at: int, i: int) -> Option<NetWareError>
    decreases num_volumes(s, at) - i,
{
    if i >= num_volumes(s, at) {
        None
    } else if at + 32 + 60 * (i + 1) > s.len() {
        Some(NetWareError::IoError)
    } else if !valid_block_size_code(le32(segment_record(s, at, i), 44)) {
        Some(NetWareError::VolumeAreaCorrupt)
    } else {
        segments_fault(s, at, i + 1)
    }
}

/// The block size code of a segment record stands 44 bytes into it.
proof fn lemma_segment_code(s: Seq<u8>, at: int, i: int)
    requires
        0 <= at,
        0 <= i,
        at + 32 + 60 * (i + 1) <= s.len(),
    ensures
        le32(segment_record(s, at, i), 44) == le32(s, at + 32 + 60 * i + 44),
{
}

/// What stops the decoding of the volume segment table stored at `at`, if
/// anything does.
pub open spec fn volumes_fault(s: Seq<u8>, at: int) -> Option<NetWareError> {
    if at + 16 > s.len() {
        Some(NetWareError::IoError)
    } else if s.subrange(at, at + 16) != volumes_magic() {
        Some(NetWareError::VolumeAreaCorrupt)
    } else if at + 32 > s.len() {
        Some(NetWareError::IoError)
    } else {
        segments_fault(s, at, 0)
    }
}

/// Whether `v` is the volume segment table stored at `at`.
pub open spec fn is_volumes(v: Volumes, s: Seq<u8>, at: int) -> bool {
    &&& u32s_at(v.unk1@, s, at + 20)
    &&& v.info@.len() == num_volumes(s, at)
    &&& forall|i: int|
        0 <= i < v.info@.len() ==> (#[trigger] v.info@[i]).wf() && is_volume_segment(
            v.info@[i],
            segment_record(s, at, i),
        )
}

impl Volumes {
    /// Decodes the volume segment table stored at `offset`: the magic, the
    /// number of segments and one record for each of them.
    pub fn new(image: &[u8], offset: u64) -> (r: Result<Volumes, NetWareError>)
        ensures
            match r {
                Ok(v) => volumes_fault(image@, offset as int) is None && is_volumes(
                    v,
                    image@,
                    offset as int,
                ) && offset + 32 + 60 * v.info@.len() <= image@.len(),
                Err(e) => volumes_fault(image@, offset as int) == Some(e),
            },
    {
        let mut f = Reader::at(image, offset)?;
        let magic = f.read_bytes(16)?;
        if !is_volumes_magic(magic) {
            return Err(NetWareError::VolumeAreaCorrupt);
        }
        let count = f.read_u32_le()?;
        let unk1 = f.read_u32s::<3>()?;
        let mut info: Vec<VolumeInfo> = Vec::new();
        let mut n: u32 = 0;
        while n < count
            invariant
                0 <= n <= count,
                count == num_volumes(image@, offset as int),
                f.bytes() == image@,
                f.position() == offset + 32 + 60 * n,
                f.position() <= image@.len(),
                info@.len() == n,
                volumes_fault(image@, offset as int) == segments_fault(image@, offset as int, 0),
                segments_fault(image@, offset as int, 0) == segments_fault(
                    image@,
                    offset as int,
                    n as int,
                ),
                forall|i: int|
                    0 <= i < n ==> (#[trigger] info@[i]).wf() && is_volume_segment(
                        info@[i],
                        segment_record(image@, offset as int, i),
                    ),
            decreases count - n,
        {
            let ghost at = f.position();
            let volume = match VolumeInfo::new(&mut f) {
                Ok(volume) => volume,
                Err(e) => {
                    proof {
                        if e != NetWareError::IoError {
                            lemma_segment_code(image@, offset as int, n as int);
                        }
                    }
                    return Err(e);
                },
            };
            proof {
                lemma_segment_code(image@, offset as int, n as int);
                assert(image@.subrange(at, at + 60) == segment_record(
                    image@,
                    offset as int,
                    n as int,
                ));
            }
            info.push(volume);
            n = n + 1;
        }
        Ok(Volumes { unk1, info })
    }
}

/// An entry of an access-control list: who, and with what rights.
#[derive(Default, Debug, Clone, Copy, PartialEq, Eq)]
pub struct Trustee {
    pub object_id: u32,
    pub rights: Rights,
}

/// Whether `t` is the trustee stored at `at`: the object id big-endian,
/// then the rights little-endian.
pub open spec fn is_trustee(t: Trustee, s: Seq<u8>, at: int) -> bool {
    t.object_id == be32(s, at) && t.rights.0 == le16(s, at + 4)
}

/// Whether `ts` are the trustees stored from `at` on, one after the other.
pub open spec fn trustees_at(ts: Seq<Trustee>, s: Seq<u8>, at: int) -> bool {
    forall|i: int| 0 <= i < ts.len() ==> is_trustee(#[trigger] ts[i], s, at + 6 * i)
}

/// Whether `ts` are the trustees stored from `at` on in the manner of a
/// grant list: all the object ids first, then all the rights.
pub open spec fn grant_trustees_at(ts: Seq<Trustee>, s: Seq<u8>, at: int) -> bool {
    forall|i: int|
        0 <= i < ts.len() ==> (#[trigger] ts[i]).object_id == be32(s, at + 4 * i)
            && ts[i].rights.0 == le16(s, at + 4 * ts.len() + 2 * i)
}

/// Reads `N` trustees stored one after the other.
fn parse_trustees<const N: usize>(f: &mut Reader) -> (r: Result<[Trustee; N], NetWareError>)
    ensures
        match r {
            Ok(ts) => final(f).took(*old(f), 6 * N) && trustees_at(
                ts@,
                old(f).bytes(),
                old(f).position(),
            ),
            Err(e) => e == NetWareError::IoError && final(f).fell_short(*old(f), 6 * N),
        },
{
    if f.left() / 6 < N {
        return Err(NetWareError::IoError);
    }
    let mut trustees = [Trustee { object_id: 0, rights: Rights(0) };N];
    let mut n: usize = 0;
    while n < N
        invariant
            0 <= n <= N,
            0 <= old(f).position(),
            old(f).remaining() >= 6 * N,
            f.bytes() == old(f).bytes(),
            f.position() == old(f).position() + 6 * n,
            forall|i: int|
                0 <= i < n ==> is_trustee(
                    #[trigger] trustees@[i],
                    old(f).bytes(),
                    old(f).position() + 6 * i,
                ),
        decreases N - n,
    {
        let object_id = f.read_u32_be()?;
        let rights = Rights::read_from(f)?;
        trustees[n] = Trustee { object_id, rights };
        n = n + 1;
    }
    Ok(trustees)
}

/// Reads the sixteen trustees of a grant list: the object ids, then the
/// rights.
fn parse_grant_trustees(f: &mut Reader) -> (r: Result<[Trustee; 16], NetWareError>)
    ensures
        match r {
            Ok(ts) => final(f).took(*old(f), 96) && grant_trustees_at(
                ts@,
                old(f).bytes(),
                old(f).position(),
            ),
            Err(e) => e == NetWareError::IoError && final(f).fell_short(*old(f), 96),
        },
{
    if f.left() < 96 {
        return Err(NetWareError::IoError);
    }
    let mut trustees = [Trustee { object_id: 0, rights: Rights(0) };16];
    let mut n: usize = 0;
    while n < 16
        invariant
            0 <= n <= 16,
            0 <= old(f).position(),
            old(f).remaining() >= 96,
            f.bytes() == old(f).bytes(),
            f.position() == old(f).position() + 4 * n,
            forall|i: int|
                0 <= i < n ==> (#[trigger] trustees@[i]).object_id == be32(
                    old(f).bytes(),
                    old(f).position() + 4 * i,
                ),
        decreases 16 - n,
    {
        let object_id = f.read_u32_be()?;
        trustees[n] = Trustee { object_id, rights: Rights(0) };
        n = n + 1;
    }
    let mut n: usize = 0;
    while n < 16
        invariant
            0 <= n <= 16,
            0 <= old(f).position(),
            old(f).remaining() >= 96,
            f.bytes() == old(f).bytes(),
            f.position() == old(f).position() + 64 + 2 * n,
            forall|i: int|
                0 <= i < 16 ==> (#[trigger] trustees@[i]).object_id == be32(
                    old(f).bytes(),
                    old(f).position() + 4 * i,
                ),
            forall|i: int|
                0 <= i < n ==> (#[trigger] trustees@[i]).rights.0 == le16(
                    old(f).bytes(),
                    old(f).position() + 64 + 2 * i,
                ),
        decreases 16 - n,
    {
        let rights = Rights::read_from(f)?;
        let object_id = trustees[n].object_id;
        trustees[n] = Trustee { object_id, rights };
        n = n + 1;
    }
    Ok(trustees)
}

/// A record that carries on the access-control list of a directory.
#[derive(Default, Debug)]
pub struct GrantList {
    pub parent_dir_id: u32,
    pub unk1: [u32; 5],
    pub trustees: [Trustee; 16],
    pub unk2: [u32; 2],
}

/// Whether `g` is the grant list stored in the record `rec`.
pub open spec fn is_grant_list(g: GrantList, rec: Seq<u8>) -> bool {
    &&& g.parent_dir_id == le32(rec, 0)
    &&& u32s_at(g.unk1@, rec, 4)
    &&& grant_trustees_at(g.trustees@, rec, 24)
    &&& u32s_at(g.unk2@, rec, 120)
}

/// The record that describes the volume itself.
#[derive(Default, Debug)]
pub struct VolumeInformation {
    pub parent_dir_id: u32,
    pub unk1: [u32; 5],
    pub create_time: Timestamp,
    pub owner_id: u32,
    pub unk2: [u32; 2],
    pub modify_time: Timestamp,
    pub unk3: [u32; 1],
    pub trustees: [Trustee; 8],
    pub unk4: [u32; 8],
}

/// Whether `v` is the volume information stored in the record `rec`.
pub open spec fn is_volume_information(v: VolumeInformation, rec: Seq<u8>) -> bool {
    &&& v.parent_dir_id == le32(rec, 0)
    &&& u32s_at(v.unk1@, rec, 4)
    &&& v.create_time.0 == le32(rec, 24)
    &&& v.owner_id == le32(rec, 28)
    &&& u32s_at(v.unk2@, rec, 32)
    &&& v.modify_time.0 == le32(rec, 40)
    &&& u32s_at(v.unk3@, rec, 44)
    &&& trustees_at(v.trustees@, rec, 48)
    &&& u32s_at(v.unk4@, rec, 96)
}

/// The record of a file.
#[derive(Default, Debug)]
pub struct FileItem {
    pub parent_dir_id: u32,
    pub attr: Attributes,
    pub unk1: [u8; 3],
    pub name: String,
    pub create_time: Timestamp,
    pub owner_id: u32,
    pub unk2: [u32; 2],
    pub modify_time: Timestamp,
    pub modifier_id: u32,
    pub length: u32,
    pub block_nr: u32,
    pub unk3: [u32; 1],
    pub trustees: [Trustee; 6],
    pub unk4: [u32; 2],
    pub delete_time: Timestamp,
    pub delete_id: u32,
    pub unk5: [u32; 2],
    pub file_entry: u32,
    pub unk6: [u32; 1],
}

/// Whether `f` is the file stored in the record `rec`. The ids of the
/// owner, of the last modifier and of the deleter are big-endian, all else
/// is little-endian.
pub open spec fn is_file_item(f: FileItem, rec: Seq<u8>) -> bool {
    &&& f.parent_dir_id == le32(rec, 0)
    &&& f.attr.0 == le32(rec, 4)
    &&& u8s_at(f.unk1@, rec, 8)
    &&& f.name@ == ascii_with_length_text(rec.subrange(12, 24), rec[11])
    &&& f.create_time.0 == le32(rec, 24)
    &&& f.owner_id == be32(rec, 28)
    &&& u32s_at(f.unk2@, rec, 32)
    &&& f.modify_time.0 == le32(rec, 40)
    &&& f.modifier_id == be32(rec, 44)
    &&& f.length == le32(rec, 48)
    &&& f.block_nr == le32(rec, 52)
    &&& u32s_at(f.unk3@, rec, 56)
    &&& trustees_at(f.trustees@, rec, 60)
    &&& u32s_at(f.unk4@, rec, 96)
    &&& f.delete_time.0 == le32(rec, 104)
    &&& f.delete_id == be32(rec, 108)
    &&& u32s_at(f.unk5@, rec, 112)
    &&& f.file_entry == le32(rec, 120)
    &&& u32s_at(f.unk6@, rec, 124)
}

/// The record of a directory.
#[derive(Default, Debug)]
pub struct DirectoryItem {
    pub parent_dir_id: u32,
    pub attr: Attributes,
    pub unk1: [u8; 3],
    pub name: String,
    pub create_time: Timestamp,
    pub owner_id: u32,
    pub unk2: [u32; 2],
    pub modify_time: Timestamp,
    pub unk3: [u32; 1],
    pub trustees: [Trustee; 8],
    pub unk4: [u16; 2],
    pub inherited_rights_mask: u16,
    pub subdir_index: u32,
    pub unk5: [u16; 7],
    pub directory_id: u32,
    pub unk6: [u16; 2],
}

/// Whether `d` is the directory stored in the record `rec`. The id of the
/// owner is big-endian, all else is little-endian.
pub open spec fn is_directory_item(d: DirectoryItem, rec: Seq<u8>) -> bool {
    &&& d.parent_dir_id == le32(rec, 0)
    &&& d.attr.0 == le32(rec, 4)
    &&& u8s_at(d.unk1@, rec, 8)
    &&& d.name@ == ascii_with_length_text(rec.subrange(12, 24), rec[11])
    &&& d.create_time.0 == le32(rec, 24)
    &&& d.owner_id == be32(rec, 28)
    &&& u32s_at(d.unk2@, rec, 32)
    &&& d.modify_time.0 == le32(rec, 40)
    &&& u32s_at(d.unk3@, rec, 44)
    &&& trustees_at(d.trustees@, rec, 48)
    &&& u16s_at(d.unk4@, rec, 96)
    &&& d.inherited_rights_mask == le16(rec, 100)
    &&& d.subdir_index == le32(rec, 102)
    &&& u16s_at(d.unk5@, rec, 106)
    &&& d.directory_id == le32(rec, 120)
    &&& u16s_at(d.unk6@, rec, 124)
}

/// A free slot of the directory table.
#[derive(Default, Debug)]
pub struct Available {
    pub parent_dir_id: u32,
}

/// A record of the directory table. The first four bytes tell the kinds
/// apart: three marks for the free slot, the grant list and the volume
/// information; any other value is the parent of a file or directory, and
/// the directory flag of the attributes then tells which.
#[derive(Debug)]
pub enum DirEntry {
    Available(Available),
    GrantList(GrantList),
    VolumeInformation(VolumeInformation),
    File(FileItem),
    Directory(DirectoryItem),
}

/// Whether `e` is what the 128-byte record `rec` holds.
pub open spec fn is_dir_entry(e: DirEntry, rec: Seq<u8>) -> bool {
    match e {
        DirEntry::Available(a) => le32(rec, 0) == DIRID_AVAILABLE && a.parent_dir_id
            == DIRID_AVAILABLE,
        DirEntry::GrantList(g) => le32(rec, 0) == DIRID_GRANT_LIST && is_grant_list(g, rec),
        DirEntry::VolumeInformation(v) => le32(rec, 0) == DIRID_VOLUME_INFO
            && is_volume_information(v, rec),
        DirEntry::File(f) => le32(rec, 0) < DIRID_VOLUME_INFO && !f.attr.spec_is_directory()
            && is_file_item(f, rec),
        DirEntry::Directory(d) => le32(rec, 0) < DIRID_VOLUME_INFO && d.attr.spec_is_directory()
            && is_directory_item(d, rec),
    }
}

/// Reads what follows the parent id in a grant list.
fn parse_grant_list(f: &mut Reader, parent_dir_id: u32) -> (r: Result<GrantList, NetWareError>)
    requires
        old(f).position() == 4,
        parent_dir_id == le32(old(f).bytes(), 0),
    ensures
        match r {
            Ok(g) => final(f).took(*old(f), 124) && is_grant_list(g, old(f).bytes()),
            Err(e) => e == NetWareError::IoError && old(f).remaining() < 124,
        },
{
    let unk1 = f.read_u32s::<5>()?;
    let trustees = parse_grant_trustees(f)?;
    let unk2 = f.read_u32s::<2>()?;
    Ok(GrantList { parent_dir_id, unk1, trustees, unk2 })
}

/// Reads what follows the parent id in a volume-information record.
fn parse_volume_information(f: &mut Reader, parent_dir_id: u32) -> (r: Result<
    VolumeInformation,
    NetWareError,
>)
    requires
        old(f).position() == 4,
        parent_dir_id == le32(old(f).bytes(), 0),
    ensures
        match r {
            Ok(v) => final(f).took(*old(f), 124) && is_volume_information(v, old(f).bytes()),
            Err(e) => e == NetWareError::IoError && old(f).remaining() < 124,
        },
{
    let unk1 = f.read_u32s::<5>()?;
    let create_time = Timestamp::read_from(f)?;
    let owner_id = f.read_u32_le()?;
    let unk2 = f.read_u32s::<2>()?;
    let modify_time = Timestamp::read_from(f)?;
    let unk3 = f.read_u32s::<1>()?;
    let trustees = parse_trustees::<8>(f)?;
    let unk4 = f.read_u32s::<8>()?;
    Ok(
        VolumeInformation {
            parent_dir_id,
            unk1,
            create_time,
            owner_id,
            unk2,
            modify_time,
            unk3,
            trustees,
            unk4,
        },
    )
}

/// Reads what follows the attributes in the record of a directory.
fn parse_directory_item(f: &mut Reader, parent_dir_id: u32, attr: Attributes) -> (r: Result<
    DirectoryItem,
    NetWareError,
>)
    requires
        old(f).position() == 8,
        parent_dir_id == le32(old(f).bytes(), 0),
        attr.0 == le32(old(f).bytes(), 4),
    ensures
        match r {
            Ok(d) => final(f).took(*old(f), 120) && is_directory_item(d, old(f).bytes())
                && d.attr == attr,
            Err(e) => e == NetWareError::IoError && old(f).remaining() < 120,
        },
{
    let unk1 = f.read_u8s::<3>()?;
    let name_len = f.read_u8()?;
    let name = ascii_with_length_to_string(f.read_bytes(12)?, name_len);
    let create_time = Timestamp::read_from(f)?;
    let owner_id = f.read_u32_be()?;
    let unk2 = f.read_u32s::<2>()?;
    let modify_time = Timestamp::read_from(f)?;
    let unk3 = f.read_u32s::<1>()?;
    let trustees = parse_trustees::<8>(f)?;
    let unk4 = f.read_u16s::<2>()?;
    let inherited_rights_mask = f.read_u16_le()?;
    let subdir_index = f.read_u32_le()?;
    let unk5 = f.read_u16s::<7>()?;
    let directory_id = f.read_u32_le()?;
    let unk6 = f.read_u16s::<2>()?;
    Ok(
        DirectoryItem {
            parent_dir_id,
            attr,
            unk1,
            name,
            create_time,
            owner_id,
            unk2,
            modify_time,
            unk3,
            trustees,
            unk4,
            inherited_rights_mask,
            subdir_index,
            unk5,
            directory_id,
            unk6,
        },
    )
}

/// Reads what follows the attributes in the record of a file.
fn parse_file_item(f: &mut Reader, parent_dir_id: u32, attr: Attributes) -> (r: Result<
    FileItem,
    NetWareError,
>)
    requires
        old(f).position() == 8,
        parent_dir_id == le32(old(f).bytes(), 0),
        attr.0 == le32(old(f).bytes(), 4),
    ensures
        match r {
            Ok(file) => final(f).took(*old(f), 120) && is_file_item(file, old(f).bytes())
                && file.attr == attr,
            Err(e) => e == NetWareError::IoError && old(f).remaining() < 120,
        },
{
    let unk1 = f.read_u8s::<3>()?;
    let name_len = f.read_u8()?;
    let name = ascii_with_length_to_string(f.read_bytes(12)?, name_len);
    let create_time = Timestamp::read_from(f)?;
    let owner_id = f.read_u32_be()?;
    let unk2 = f.read_u32s::<2>()?;
    let modify_time = Timestamp::read_from(f)?;
    let modifier_id = f.read_u32_be()?;
    let length = f.read_u32_le()?;
    let block_nr = f.read_u32_le()?;
    let unk3 = f.read_u32s::<1>()?;
    let trustees = parse_trustees::<6>(f)?;
    let unk4 = f.read_u32s::<2>()?;
    let delete_time = Timestamp::read_from(f)?;
    let delete_id = f.read_u32_be()?;
    let unk5 = f.read_u32s::<2>()?;
    let file_entry = f.read_u32_le()?;
    let unk6 = f.read_u32s::<1>()?;
    Ok(
        FileItem {
            parent_dir_id,
            attr,
            unk1,
            name,
            create_time,
            owner_id,
            unk2,
            modify_time,
            modifier_id,
            length,
            block_nr,
            unk3,
            trustees,
            unk4,
            delete_time,
            delete_id,
            unk5,
            file_entry,
            unk6,
        },
    )
}

/// Decodes one directory record. The record has to be used up exactly:
/// a shorter one fails as a short read, a longer one as a record of the
/// wrong length.
pub fn decode_directory_entry(record: &[u8]) -> (r: Result<DirEntry, NetWareError>)
    ensures
        match r {
            Ok(e) => record@.len() == DIRECTORY_ENTRY_SIZE && is_dir_entry(e, record@),
            Err(e) => if record@.len() < DIRECTORY_ENTRY_SIZE {
                e == NetWareError::IoError
            } else {
                e == NetWareError::RecordLength && record@.len() > DIRECTORY_ENTRY_SIZE
            },
        },
{
    let mut f = Reader::new(record);
    let parent_dir_id = f.read_u32_le()?;
    let entry = if parent_dir_id == DIRID_GRANT_LIST {
        DirEntry::GrantList(parse_grant_list(&mut f, parent_dir_id)?)
    } else if parent_dir_id == DIRID_VOLUME_INFO {
        DirEntry::VolumeInformation(parse_volume_information(&mut f, parent_dir_id)?)
    } else if parent_dir_id == DIRID_AVAILABLE {
        f.skip(124)?;
        DirEntry::Available(Available { parent_dir_id })
    } else {
        let attr = Attributes::read_from(&mut f)?;
        if attr.is_directory() {
            DirEntry::Directory(parse_directory_item(&mut f, parent_dir_id, attr)?)
        } else {
            DirEntry::File(parse_file_item(&mut f, parent_dir_id, attr)?)
        }
    };
    if f.offset() != record.len() as u64 {
        return Err(NetWareError::RecordLength);
    }
    Ok(entry)
}

/// Reads the next directory record: 128 bytes, whatever its kind.
pub fn parse_directory_entry(f: &mut Reader) -> (r: Result<DirEntry, NetWareError>)
    ensures
        match r {
            Ok(e) => final(f).took(*old(f), DIRECTORY_ENTRY_SIZE as int) && is_dir_entry(
                e,
                old(f).bytes().subrange(
                    old(f).position(),
                    old(f).position() + DIRECTORY_ENTRY_SIZE as int,
                ),
            ),
            Err(e) => e == NetWareError::IoError && final(f).fell_short(
                *old(f),
                DIRECTORY_ENTRY_SIZE as int,
            ),
        },
{
    let record = f.read_bytes(DIRECTORY_ENTRY_SIZE)?;
    decode_directory_entry(record)
}

/// Reads the next entry of the block-allocation table: the place of a
/// block within its chain, and the block that follows it.
pub fn parse_fat_entry(f: &mut Reader) -> (r: Result<(u32, u32), NetWareError>)
    ensures
        match r {
            Ok(entry) => final(f).took(*old(f), 8) && entry.0 == le32(
                old(f).bytes(),
                old(f).position(),
            ) && entry.1 == le32(old(f).bytes(), old(f).position() + 4),
            Err(e) => e == NetWareError::IoError && final(f).fell_short(*old(f), 8),
        },
{
    let record = f.read_bytes(8)?;
    let mut rec = Reader::new(record);
    let a = rec.read_u32_le()?;
    let b = rec.read_u32_le()?;
    Ok((a, b))
}

} // verus!
