//! The on-disk records of a NetWare 286 volume.

use vstd::prelude::*;

use crate::bytes::{be16, le16, u16s_at, Reader};
use crate::nwfs286::types::{NwDate, NwTime, BLOCK_SIZE, SECTOR_SIZE};
use crate::types::NetWareError;
use crate::util::{asciiz_text, asciiz_to_string};

verus! {

/// The sector that holds the volume information.
pub const SECTOR_VOLUME_INFO: u64 = 0x10;

/// Size of a directory record.
pub const DIRECTORY_ENTRY_SIZE: usize = 32;

/// Size of an entry of the block-allocation table.
pub const FAT_ENTRY_SIZE: usize = 4;

/// The bits of the attributes that are all set in the record of a
/// directory.
pub const ATTR_DIRECTORY: u16 = 0xff00;

/// The magic of the volume information in its newer layout.
pub const VOLUME_INFO_MAGIC: u16 = 0xfade;

/// The volume information: the volume's name and the blocks that hold
/// its directory table, the copy of that table and its block-allocation
/// table.
#[derive(Debug)]
pub struct VolumeInfo {
    pub name: String,
    /// This word seems to serve the remapping of bad blocks.
    pub remap: u16,
    pub entry_count: usize,
    pub directory_entries_1_blocks: Vec<u16>,
    pub directory_entries_2_blocks: Vec<u16>,
    pub fat_blocks: Vec<u16>,
}

/// Whether the sector holds the volume information in its newer layout,
/// which a zero word opens.
pub open spec fn is_new_layout(sector: Seq<u8>) -> bool {
    le16(sector, 0) == 0
}

/// The bytes of the volume's name: sixteen behind the magic and one more
/// word in the newer layout, fourteen behind the first word in the older.
pub open spec fn name_field(sector: Seq<u8>) -> Seq<u8> {
    if is_new_layout(sector) {
        sector.subrange(6, 22)
    } else {
        sector.subrange(2, 16)
    }
}

/// Where the common part of the volume information starts: the word for
/// the remapping of blocks, the number of blocks of each table and a
/// reserved byte, then the three lists of blocks.
pub open spec fn tables_offset(sector: Seq<u8>) -> int {
    if is_new_layout(sector) {
        22
    } else {
        20
    }
}

/// The number of blocks of each of the three tables.
pub open spec fn table_blocks(sector: Seq<u8>) -> int {
    sector[tables_offset(sector) + 2] as int
}

/// What stops the decoding of the volume information of an image, if
/// anything does.
pub open spec fn volume_info_fault(image: Seq<u8>) -> Option<NetWareError> {
    if image.len() < 0x2200 {
        Some(NetWareError::IoError)
    } else {
        let sector = image.subrange(0x2000, 0x2200);
        if is_new_layout(sector) && le16(sector, 2) != VOLUME_INFO_MAGIC {
            Some(NetWareError::VolumeAreaCorrupt)
        } else if tables_offset(sector) + 4 + 6 * table_blocks(sector) > 512 {
            Some(NetWareError::IoError)
        } else {
            None
        }
    }
}

/// Whether `v` is the volume information that the sector holds.
pub open spec fn is_volume_info(v: VolumeInfo, sector: Seq<u8>) -> bool {
    let n = table_blocks(sector);
    let lists = tables_offset(sector) + 4;
    &&& v.name@ == asciiz_text(name_field(sector))
    &&& v.remap == le16(sector, tables_offset(sector))
    &&& v.entry_count == n
    &&& v.directory_entries_1_blocks@.len() == n
    &&& u16s_at(v.directory_entries_1_blocks@, sector, lists)
    &&& v.directory_entries_2_blocks@.len() == n
    &&& u16s_at(v.directory_entries_2_blocks@, sector, lists + 2 * n)
    &&& v.fat_blocks@.len() == n
    &&& u16s_at(v.fat_blocks@, sector, lists + 4 * n)
}

impl VolumeInfo {
    /// Decodes the volume information, which sector 16 of the image
    /// holds in one of two layouts.
    pub fn new(image: &[u8]) -> (r: Result<VolumeInfo, NetWareError>)
        ensures
            match r {
                Ok(v) => volume_info_fault(image@) is None && is_volume_info(
                    v,
                    image@.subrange(0x2000, 0x2200),
                ),
                Err(e) => volume_info_fault(image@) == Some(e),
            },
    {
        let mut f = Reader::at(image, SECTOR_VOLUME_INFO * SECTOR_SIZE)?;
        let sector = f.read_bytes(SECTOR_SIZE as usize)?;
        let mut cursor = Reader::new(sector);
        let marker = cursor.read_u16_le()?;
        let name = if marker == 0 {
            // The layout of NetWare 2.15 and later.
            let magic = cursor.read_u16_le()?;
            if magic != VOLUME_INFO_MAGIC {
                return Err(NetWareError::VolumeAreaCorrupt);
            }
            cursor.skip(2)?;
            asciiz_to_string(cursor.read_bytes(16)?)
        } else {
            // The layout before NetWare 2.15.
            let name = asciiz_to_string(cursor.read_bytes(14)?);
            cursor.skip(4)?;
            name
        };
        let remap = cursor.read_u16_le()?;
        let entry_count = cursor.read_u8()? as usize;
        cursor.skip(1)?;
        let directory_entries_1_blocks = cursor.read_u16_list(entry_count)?;
        let directory_entries_2_blocks = cursor.read_u16_list(entry_count)?;
        let fat_blocks = cursor.read_u16_list(entry_count)?;
        Ok(
            VolumeInfo {
                name,
                remap,
                entry_count,
                directory_entries_1_blocks,
                directory_entries_2_blocks,
                fat_blocks,
            },
        )
    }
}

/// The offset in the image of the block `block`. This holds for a
/// partition that starts at sector 1 and for no other.
pub open spec fn spec_block_to_offset(block: u16) -> int {
    (block + 4) * BLOCK_SIZE
}

/// The offset in the image of the block `block`. This holds for a
/// partition that starts at sector 1 and for no other.
pub fn block_to_offset(block: u16) -> (r: u64)
    ensures
        r == spec_block_to_offset(block),
{
    ((block as u64) + 4) * BLOCK_SIZE
}

/// The record of a file.
#[derive(Debug)]
pub struct FileItem {
    pub entry_id: u16,
    pub parent_dir: u16,
    pub name: String,
    pub attr: u16,
    pub size: u32,
    pub creation_date: NwDate,
    pub last_accessed_date: NwDate,
    pub last_modified_date: NwDate,
    pub last_modified_time: NwTime,
    pub block_nr: u16,
}

/// The record of a directory.
#[derive(Debug)]
pub struct DirectoryItem {
    pub entry_id: u16,
    pub parent_dir: u16,
    pub name: String,
    pub attr: u16,
    pub last_modified_date: NwDate,
    pub last_modified_time: NwTime,
    pub unk22: u16,
    pub unk24: u16,
    pub unk26: u16,
    pub unk28: u16,
    pub unk30: u16,
}

/// A record of the directory table.
#[derive(Debug)]
pub enum DirEntry {
    File(FileItem),
    Directory(DirectoryItem),
}

/// An entry of the block-allocation table: the place of a block within
/// its chain, and the block that follows it.
#[derive(Debug, Clone, Copy, PartialEq, Eq)]
pub struct FatEntry {
    pub index: u16,
    pub block: u16,
}

/// Whether the attributes are those of a directory.
pub open spec fn is_directory_attr(attr: u16) -> bool {
    attr & ATTR_DIRECTORY == ATTR_DIRECTORY
}

/// Whether `f` is the file that the 32-byte record `rec` holds. The id of
/// the parent is big-endian; the size is stored as two little-endian
/// words, the upper one first.
pub open spec fn is_file_item(f: FileItem, rec: Seq<u8>) -> bool {
    &&& f.parent_dir == be16(rec, 0)
    &&& f.name@ == asciiz_text(rec.subrange(2, 16))
    &&& f.attr == le16(rec, 16)
    &&& f.size == 65536 * le16(rec, 18) + le16(rec, 20)
    &&& f.creation_date.0 == le16(rec, 22)
    &&& f.last_accessed_date.0 == le16(rec, 24)
    &&& f.last_modified_date.0 == le16(rec, 26)
    &&& f.last_modified_time.0 == le16(rec, 28)
    &&& f.block_nr == le16(rec, 30)
}

/// Whether `d` is the directory that the 32-byte record `rec` holds.
pub open spec fn is_directory_item(d: DirectoryItem, rec: Seq<u8>) -> bool {
    &&& d.parent_dir == be16(rec, 0)
    &&& d.name@ == asciiz_text(rec.subrange(2, 16))
    &&& d.attr == le16(rec, 16)
    &&& d.last_modified_date.0 == le16(rec, 18)
    &&& d.last_modified_time.0 == le16(rec, 20)
    &&& d.unk22 == le16(rec, 22)
    &&& d.unk24 == le16(rec, 24)
    &&& d.unk26 == le16(rec, 26)
    &&& d.unk28 == le16(rec, 28)
    &&& d.unk30 == le16(rec, 30)
}

/// Whether `e` is what the 32-byte record `rec` holds, the record being
/// the `entry_id`-th of its table.
pub open spec fn is_dir_entry(e: DirEntry, rec: Seq<u8>, entry_id: int) -> bool {
    match e {
        DirEntry::File(f) => !is_directory_attr(f.attr) && f.entry_id == entry_id && is_file_item(
            f,
            rec,
        ),
        DirEntry::Directory(d) => is_directory_attr(d.attr) && d.entry_id == entry_id
            && is_directory_item(d, rec),
    }
}

/// Decodes one directory record, the `entry_id`-th of its table.
pub fn parse_directory_entry(record: &[u8], entry_id: u16) -> (r: Result<DirEntry, NetWareError>)
    ensures
        match r {
            Ok(e) => record@.len() >= DIRECTORY_ENTRY_SIZE && is_dir_entry(
                e,
                record@,
                entry_id as int,
            ),
            Err(e) => e == NetWareError::IoError && record@.len() < DIRECTORY_ENTRY_SIZE,
        },
{
    let mut cursor = Reader::new(record);
    let parent_dir = cursor.read_u16_be()?;
    let name = asciiz_to_string(cursor.read_bytes(14)?);
    let attr = cursor.read_u16_le()?;
    if (attr & ATTR_DIRECTORY) == ATTR_DIRECTORY {
        let last_modified_date = NwDate::read_from(&mut cursor)?;
        let last_modified_time = NwTime::read_from(&mut cursor)?;
        let unk22 = cursor.read_u16_le()?;
        let unk24 = cursor.read_u16_le()?;
        let unk26 = cursor.read_u16_le()?;
        let unk28 = cursor.read_u16_le()?;
        let unk30 = cursor.read_u16_le()?;
        Ok(
            DirEntry::Directory(
                DirectoryItem {
                    entry_id,
                    parent_dir,
                    name,
                    attr,
                    last_modified_date,
                    last_modified_time,
                    unk22,
                    unk24,
                    unk26,
                    unk28,
                    unk30,
                },
            ),
        )
    } else {
        let c = cursor.read_u16_le()?;
        let d = cursor.read_u16_le()?;
        let size = (c as u32) * 65536 + d as u32;
        let creation_date = NwDate::read_from(&mut cursor)?;
        let last_accessed_date = NwDate::read_from(&mut cursor)?;
        let last_modified_date = NwDate::read_from(&mut cursor)?;
        let last_modified_time = NwTime::read_from(&mut cursor)?;
        let block_nr = cursor.read_u16_le()?;
        Ok(
            DirEntry::File(
                FileItem {
                    entry_id,
                    parent_dir,
                    name,
                    attr,
                    size,
                    creation_date,
                    last_accessed_date,
                    last_modified_date,
                    last_modified_time,
                    block_nr,
                },
            ),
        )
    }
}

/// Whether the image holds the block `block` in full.
pub open spec fn block_readable(image: Seq<u8>, block: u16) -> bool {
    spec_block_to_offset(block) + BLOCK_SIZE <= image.len()
}

/// Whether the image holds each of the blocks in full.
pub open spec fn blocks_readable(image: Seq<u8>, blocks: Seq<u16>) -> bool {
    forall|i: int| 0 <= i < blocks.len() ==> block_readable(image, #[trigger] blocks[i])
}

/// The offset in the image of record `k` of the directory table that the
/// blocks hold, 128 records to the block.
pub open spec fn directory_record_offset(blocks: Seq<u16>, k: int) -> int {
    spec_block_to_offset(blocks[k / 128]) + 32 * (k % 128)
}

/// The bytes of record `k` of the directory table that the blocks hold.
pub open spec fn directory_record(image: Seq<u8>, blocks: Seq<u16>, k: int) -> Seq<u8> {
    image.subrange(directory_record_offset(blocks, k), directory_record_offset(blocks, k) + 32)
}

/// Whether `table` is the directory table that the blocks hold: for
/// each record its entry, which carries the record's place in the table
/// as its id.
pub open spec fn is_directory_table(table: Seq<DirEntry>, image: Seq<u8>, blocks: Seq<u16>) -> bool {
    &&& table.len() == 128 * blocks.len()
    &&& forall|k: int|
        0 <= k < table.len() ==> is_dir_entry(
            #[trigger] table[k],
            directory_record(image, blocks, k),
            k,
        )
}

/// Reads the directory table that the given blocks hold, 128 records to
/// the block. The records are numbered from 0 on across the blocks, and
/// the number of a directory's record is the directory's id.
pub fn read_directory_entries(image: &[u8], blocks: &[u16]) -> (r: Result<
    Vec<DirEntry>,
    NetWareError,
>)
    requires
        blocks@.len() <= 512,
    ensures
        match r {
            Ok(table) => blocks_readable(image@, blocks@) && is_directory_table(
                table@,
                image@,
                blocks@,
            ),
            Err(e) => e == NetWareError::IoError && !blocks_readable(image@, blocks@),
        },
{
    let mut result: Vec<DirEntry> = Vec::new();
    let mut b: usize = 0;
    while b < blocks.len()
        invariant
            0 <= b <= blocks@.len(),
            blocks@.len() <= 512,
            result@.len() == 128 * b,
            forall|i: int| 0 <= i < b ==> block_readable(image@, #[trigger] blocks@[i]),
            forall|k: int|
                0 <= k < result@.len() ==> is_dir_entry(
                    #[trigger] result@[k],
                    directory_record(image@, blocks@, k),
                    k,
                ),
        decreases blocks@.len() - b,
    {
        let block = blocks[b];
        let mut f = match Reader::at(image, block_to_offset(block)) {
            Ok(f) => f,
            Err(e) => {
                assert(!block_readable(image@, blocks@[b as int]));
                return Err(e);
            },
        };
        let mut j: usize = 0;
        while j < 128
            invariant
                0 <= j <= 128,
                0 <= b < blocks@.len(),
                blocks@.len() <= 512,
                block == blocks@[b as int],
                f.bytes() == image@,
                f.position() == spec_block_to_offset(block) + 32 * j,
                f.position() <= image@.len(),
                result@.len() == 128 * b + j,
                forall|k: int|
                    0 <= k < result@.len() ==> is_dir_entry(
                        #[trigger] result@[k],
                        directory_record(image@, blocks@, k),
                        k,
                    ),
            decreases 128 - j,
        {
            let record = match f.read_bytes(DIRECTORY_ENTRY_SIZE) {
                Ok(record) => record,
                Err(e) => {
                    assert(!block_readable(image@, blocks@[b as int]));
                    return Err(e);
                },
            };
            let ghost k = 128 * b + j;
            assert(k / 128 == b && k % 128 == j);
            assert(record@ == directory_record(image@, blocks@, k));
            let entry_id = (128 * b + j) as u16;
            let entry = parse_directory_entry(record, entry_id)?;
            result.push(entry);
            j = j + 1;
        }
        b = b + 1;
    }
    Ok(result)
}

/// The offset in the image of entry `k` of the block-allocation table
/// that the blocks hold, 1024 entries to the block.
pub open spec fn fat_entry_offset(blocks: Seq<u16>, k: int) -> int {
    spec_block_to_offset(blocks[k / 1024]) + 4 * (k % 1024)
}

/// Whether `e` is the entry of the block-allocation table stored at
/// `at`.
pub open spec fn is_fat_entry(e: FatEntry, image: Seq<u8>, at: int) -> bool {
    e.index == le16(image, at) && e.block == le16(image, at + 2)
}

/// Whether `table` is the block-allocation table that the blocks hold.
pub open spec fn is_fat_table(table: Seq<FatEntry>, image: Seq<u8>, blocks: Seq<u16>) -> bool {
    &&& table.len() == 1024 * blocks.len()
    &&& forall|k: int|
        0 <= k < table.len() ==> is_fat_entry(
            #[trigger] table[k],
            image,
            fat_entry_offset(blocks, k),
        )
}

/// Reads the block-allocation table that the given blocks hold, 1024
/// entries to the block, in the order in which they are stored.
pub fn read_fat_table(image: &[u8], blocks: &[u16]) -> (r: Result<Vec<FatEntry>, NetWareError>)
    ensures
        match r {
            Ok(table) => blocks_readable(image@, blocks@) && is_fat_table(
                table@,
                image@,
                blocks@,
            ),
            Err(e) => e == NetWareError::IoError && !blocks_readable(image@, blocks@),
        },
{
    let mut result: Vec<FatEntry> = Vec::new();
    let mut b: usize = 0;
    while b < blocks.len()
        invariant
            0 <= b <= blocks@.len(),
            result@.len() == 1024 * b,
            forall|i: int| 0 <= i < b ==> block_readable(image@, #[trigger] blocks@[i]),
            forall|k: int|
                0 <= k < result@.len() ==> is_fat_entry(
                    #[trigger] result@[k],
                    image@,
                    fat_entry_offset(blocks@, k),
                ),
        decreases blocks@.len() - b,
    {
        let block = blocks[b];
        let mut f = match Reader::at(image, block_to_offset(block)) {
            Ok(f) => f,
            Err(e) => {
                assert(!block_readable(image@, blocks@[b as int]));
                return Err(e);
            },
        };
        let mut j: usize = 0;
        while j < 1024
            invariant
                0 <= j <= 1024,
                0 <= b < blocks@.len(),
                block == blocks@[b as int],
                f.bytes() == image@,
                f.position() == spec_block_to_offset(block) + 4 * j,
                f.position() <= image@.len(),
                result@.len() == 1024 * b + j,
                forall|k: int|
                    0 <= k < result@.len() ==> is_fat_entry(
                        #[trigger] result@[k],
                        image@,
                        fat_entry_offset(blocks@, k),
                    ),
            decreases 1024 - j,
        {
            let ghost k = 1024 * b + j;
            assert(k / 1024 == b && k % 1024 == j);
            let index = match f.read_u16_le() {
                Ok(index) => index,
                Err(e) => {
                    assert(!block_readable(image@, blocks@[b as int]));
                    return Err(e);
                },
            };
            let next = match f.read_u16_le() {
                Ok(next) => next,
                Err(e) => {
                    assert(!block_readable(image@, blocks@[b as int]));
                    return Err(e);
                },
            };
            result.push(FatEntry { index, block: next });
            j = j + 1;
        }
        b = b + 1;
    }
    Ok(result)
}

} // verus!
