//! A logical volume: the segments that make it up, its directory table and
//! the block chains of its files.

use vstd::prelude::*;
use vstd::slice::slice_subrange;
use vstd::string::StringExecFns;

use crate::bytes::{extend_data, le32, lemma_extend_data, lemma_extend_data_empty, Reader};
use crate::nwfs386::image::{Image, ImageList};
use crate::nwfs386::parser::{
    is_block_size, is_dir_entry, parse_directory_entry, parse_fat_entry, DirEntry, VolumeInfo,
};
use crate::nwfs386::partition::{is_partition, partition_fault, NWPartition};
use crate::types::{NetWareError, SECTOR_SIZE};

verus! {

/// The block number that ends a chain.
pub const CHAIN_END: u32 = 0xffffffff;

/// Size of an entry of the block-allocation table.
pub const FAT_ENTRY_SIZE: u64 = 8;

/// One segment of a volume, bound to the image that holds it.
#[derive(Debug)]
pub struct VolumeInImage<'a> {
    pub image: &'a Image,
    pub first_data_block_offset: u64,
    pub info: VolumeInfo,
}

impl<'a> VolumeInImage<'a> {
    /// The bytes of the image that holds the segment.
    pub open spec fn bytes(&self) -> Seq<u8> {
        self.image.data@
    }

    /// The number of the segment's first block.
    pub open spec fn first_block(&self) -> int {
        self.info.first_segment_block as int
    }

    /// The number of blocks that the segment's sectors make up.
    pub open spec fn block_count(&self) -> int {
        self.info.num_sectors as int / (self.info.block_size as int / 512)
    }

    /// Whether `block` is one of the segment's blocks.
    pub open spec fn holds(&self, block: u32) -> bool {
        self.first_block() <= block < self.first_block() + self.block_count()
    }

    /// The offset in the image of the data of `block`.
    pub open spec fn block_offset(&self, block: u32) -> int {
        self.first_data_block_offset + (block - self.first_block()) * self.info.block_size
    }

    /// The offset in the image of the block-allocation-table entry of
    /// `block`.
    pub open spec fn fat_offset(&self, block: u32) -> int {
        self.first_data_block_offset + (block - self.first_block()) * FAT_ENTRY_SIZE
    }

    /// The segment's first block and the block after its last.
    fn calculate_block_range(&self) -> (r: (u64, u64))
        requires
            self.info.wf(),
        ensures
            r.0 == self.first_block(),
            r.1 == self.first_block() + self.block_count(),
    {
        let v = &self.info;
        let first_block = v.first_segment_block as u64;
        let sectors_per_block = v.block_size as u64 / SECTOR_SIZE;
        let last_block = first_block + v.num_sectors as u64 / sectors_per_block;
        (first_block, last_block)
    }
}

/// Whether the segments can make up a volume: there is at least one, and
/// each has a block size that the format provides for.
pub open spec fn segments_wf(segs: Seq<VolumeInImage>) -> bool {
    &&& segs.len() > 0
    &&& forall|i: int| 0 <= i < segs.len() ==> (#[trigger] segs[i]).info.wf()
}

/// The index of the first segment from `from` on that holds `block`, or
/// the number of segments when none does.
pub open spec fn segment_of(segs: Seq<VolumeInImage>, block: u32, from: int) -> int
    decreases segs.len() - from,
{
    if from >= segs.len() {
        segs.len() as int
    } else if segs[from].holds(block) {
        from
    } else {
        segment_of(segs, block, from + 1)
    }
}

/// Where the data of `block` lies: the index of the segment that holds
/// the block, and the offset in that segment's image.
pub open spec fn locate_block(segs: Seq<VolumeInImage>, block: u32) -> Result<
    (int, int),
    NetWareError,
> {
    let seg = segment_of(segs, block, 0);
    if seg >= segs.len() {
        Err(NetWareError::BlockOutOfRange(block))
    } else if segs[seg].block_offset(block) > segs[seg].bytes().len() {
        Err(NetWareError::IoError)
    } else {
        Ok((seg, segs[seg].block_offset(block)))
    }
}

/// The block-allocation-table entry of `block`: the place of the block
/// within its chain, and the block that follows it.
pub open spec fn fat_entry(segs: Seq<VolumeInImage>, block: u32) -> Result<
    (u32, u32),
    NetWareError,
> {
    let seg = segment_of(segs, block, 0);
    if seg >= segs.len() {
        Err(NetWareError::FatCorrupt(block))
    } else if segs[seg].fat_offset(block) + FAT_ENTRY_SIZE > segs[seg].bytes().len() {
        Err(NetWareError::IoError)
    } else {
        Ok(
            (
                le32(segs[seg].bytes(), segs[seg].fat_offset(block)) as u32,
                le32(segs[seg].bytes(), segs[seg].fat_offset(block) + 4) as u32,
            ),
        )
    }
}

/// The segment that holds `block`, by its index.
fn find_segment(volumes: &Vec<VolumeInImage>, block: u32) -> (r: Option<usize>)
    requires
        segments_wf(volumes@),
    ensures
        match r {
            Some(seg) => seg == segment_of(volumes@, block, 0) && seg < volumes@.len()
                && volumes@[seg as int].holds(block),
            None => segment_of(volumes@, block, 0) == volumes@.len(),
        },
{
    let mut i: usize = 0;
    while i < volumes.len()
        invariant
            0 <= i <= volumes@.len(),
            segments_wf(volumes@),
            segment_of(volumes@, block, 0) == segment_of(volumes@, block, i as int),
        decreases volumes@.len() - i,
    {
        let (first_block, last_block) = volumes[i].calculate_block_range();
        if block as u64 >= first_block && (block as u64) < last_block {
            return Some(i);
        }
        i = i + 1;
    }
    None
}

/// Resolves `block` to the segment that holds it and to the offset of its
/// data in that segment's image.
fn seek_in(volumes: &Vec<VolumeInImage>, block: u32) -> (r: Result<(usize, u64), NetWareError>)
    requires
        segments_wf(volumes@),
    ensures
        match r {
            Ok(place) => locate_block(volumes@, block) == Ok::<(int, int), NetWareError>(
                (place.0 as int, place.1 as int),
            ) && place.0 < volumes@.len() && place.1 <= volumes@[place.0 as int].bytes().len(),
            Err(e) => locate_block(volumes@, block) == Err::<(int, int), NetWareError>(e),
        },
{
    let seg = match find_segment(volumes, block) {
        Some(seg) => seg,
        None => { return Err(NetWareError::BlockOutOfRange(block)); },
    };
    let vol = &volumes[seg];
    let size = vol.image.data.len() as u64;
    let index = (block - vol.info.first_segment_block) as u64;
    let block_size = vol.info.block_size as u64;
    assert(index * block_size <= 0xffffffff * 262144) by (nonlinear_arith)
        requires
            index <= 0xffffffff,
            block_size <= 262144,
    ;
    let offset = match vol.first_data_block_offset.checked_add(index * block_size) {
        Some(offset) => offset,
        None => { return Err(NetWareError::IoError); },
    };
    if offset > size {
        return Err(NetWareError::IoError);
    }
    Ok((seg, offset))
}

/// Reads the block-allocation-table entry of `block`.
fn fat_entry_in(volumes: &Vec<VolumeInImage>, block: u32) -> (r: Result<(u32, u32), NetWareError>)
    requires
        segments_wf(volumes@),
    ensures
        match r {
            Ok(entry) => fat_entry(volumes@, block) == Ok::<(u32, u32), NetWareError>(entry),
            Err(e) => fat_entry(volumes@, block) == Err::<(u32, u32), NetWareError>(e),
        },
{
    let seg = match find_segment(volumes, block) {
        Some(seg) => seg,
        None => { return Err(NetWareError::FatCorrupt(block)); },
    };
    let vol = &volumes[seg];
    let data = vol.image.data.as_slice();
    assert(data@.len() <= u64::MAX) by {
        let n = data.len();
    }
    let index = (block - vol.info.first_segment_block) as u64;
    let offset = match vol.first_data_block_offset.checked_add(index * FAT_ENTRY_SIZE) {
        Some(offset) => offset,
        None => { return Err(NetWareError::IoError); },
    };
    let mut f = Reader::at(data, offset)?;
    parse_fat_entry(&mut f)
}

/// The number of directory records in one block of the volume.
pub open spec fn entries_per_block(segs: Seq<VolumeInImage>) -> int {
    segs[0].info.block_size as int / 128
}

/// The block at which the chain of the directory table starts.
pub open spec fn root_block(segs: Seq<VolumeInImage>) -> u32 {
    segs[0].info.rootdir_block_nr
}

/// The number of blocks of the volume, which no chain can exceed.
pub open spec fn chain_limit(segs: Seq<VolumeInImage>) -> nat {
    segs[0].info.total_blocks as nat
}

/// What stops the reading of `block` as a block of the directory table,
/// if anything does: the block lies in no segment, the image does not
/// hold all its records, or its block-allocation-table entry cannot be
/// read.
pub open spec fn directory_block_fault(segs: Seq<VolumeInImage>, block: u32) -> Option<
    NetWareError,
> {
    match locate_block(segs, block) {
        Err(e) => Some(e),
        Ok(place) => if place.1 + 128 * entries_per_block(segs) > segs[place.0].bytes().len() {
            Some(NetWareError::IoError)
        } else {
            match fat_entry(segs, block) {
                Err(e) => Some(e),
                Ok(_) => None,
            }
        },
    }
}

/// The block that follows `block` in its chain.
pub open spec fn next_block(segs: Seq<VolumeInImage>, block: u32) -> u32 {
    match fat_entry(segs, block) {
        Ok(entry) => entry.1,
        Err(_) => CHAIN_END,
    }
}

/// The chain `rest` with the blocks `prefix` before it.
pub open spec fn extend_chain(prefix: Seq<u32>, rest: Result<Seq<u32>, NetWareError>) -> Result<
    Seq<u32>,
    NetWareError,
> {
    match rest {
        Ok(chain) => Ok(prefix + chain),
        Err(e) => Err(e),
    }
}

/// The blocks of the directory table from `start` on, in the order of
/// their chain, which the end mark closes. A chain of more than `limit`
/// blocks is taken to be corrupt.
pub open spec fn directory_chain(segs: Seq<VolumeInImage>, start: u32, limit: nat) -> Result<
    Seq<u32>,
    NetWareError,
>
    decreases limit,
{
    if start == CHAIN_END {
        Ok(Seq::empty())
    } else if limit == 0 {
        Err(NetWareError::FatCorrupt(start))
    } else {
        match directory_block_fault(segs, start) {
            Some(e) => Err(e),
            None => extend_chain(
                seq![start],
                directory_chain(segs, next_block(segs, start), (limit - 1) as nat),
            ),
        }
    }
}

/// The blocks of the volume's directory table.
pub open spec fn volume_chain(segs: Seq<VolumeInImage>) -> Result<Seq<u32>, NetWareError> {
    directory_chain(segs, root_block(segs), chain_limit(segs))
}

/// The bytes of record `j` of the directory block `block`.
pub open spec fn directory_record(segs: Seq<VolumeInImage>, block: u32, j: int) -> Seq<u8> {
    let seg = segment_of(segs, block, 0);
    let offset = segs[seg].block_offset(block);
    segs[seg].bytes().subrange(offset + 128 * j, offset + 128 * (j + 1))
}

/// Whether the directory `dir` holds, in the place of record `j` of the
/// `b`-th block of `chain`, what that record holds.
pub open spec fn entry_at(
    dir: Seq<DirEntry>,
    segs: Seq<VolumeInImage>,
    chain: Seq<u32>,
    b: int,
    j: int,
) -> bool {
    is_dir_entry(dir[b * entries_per_block(segs) + j], directory_record(segs, chain[b], j))
}

/// Whether `dir` is the directory table that the blocks of `chain` hold:
/// the records of the first block, then those of the second, and so on.
pub open spec fn is_directory(dir: Seq<DirEntry>, segs: Seq<VolumeInImage>, chain: Seq<u32>) -> bool {
    &&& dir.len() == chain.len() * entries_per_block(segs)
    &&& forall|b: int, j: int|
        0 <= b < chain.len() && 0 <= j < entries_per_block(segs) ==> #[trigger] entry_at(
            dir,
            segs,
            chain,
            b,
            j,
        )
}

/// Record `j` of block `b` stands within the records of the first `n`
/// blocks.
proof fn lemma_slot(b: int, j: int, n: int, per_block: int)
    by (nonlinear_arith)
    requires
        0 <= b < n,
        0 <= j < per_block,
    ensures
        0 <= b * per_block + j < n * per_block,
{
}

/// The records of one more block, put behind a directory table, make the
/// directory table of the chain with that block at its end.
proof fn lemma_directory_push(
    dir: Seq<DirEntry>,
    fresh: Seq<DirEntry>,
    segs: Seq<VolumeInImage>,
    chain: Seq<u32>,
    block: u32,
)
    requires
        is_directory(dir, segs, chain),
        fresh.len() == entries_per_block(segs),
        forall|j: int|
            0 <= j < fresh.len() ==> is_dir_entry(
                #[trigger] fresh[j],
                directory_record(segs, block, j),
            ),
    ensures
        is_directory(dir + fresh, segs, chain.push(block)),
{
    let per_block = entries_per_block(segs);
    let n = chain.len() as int;
    assert((n + 1) * per_block == n * per_block + per_block) by (nonlinear_arith);
    assert forall|b: int, j: int| 0 <= b < n + 1 && 0 <= j < per_block implies #[trigger] entry_at(
        dir + fresh,
        segs,
        chain.push(block),
        b,
        j,
    ) by {
        if b < n {
            lemma_slot(b, j, n, per_block);
            assert(entry_at(dir, segs, chain, b, j));
            assert((dir + fresh)[b * per_block + j] == dir[b * per_block + j]);
        } else {
            assert((dir + fresh)[n * per_block + j] == fresh[j]);
        }
    }
}

/// Nothing before the chain leaves it as it is.
proof fn lemma_extend_chain_empty(rest: Result<Seq<u32>, NetWareError>)
    ensures
        extend_chain(Seq::empty(), rest) == rest,
{
    match rest {
        Ok(chain) => {
            assert(Seq::<u32>::empty() + chain =~= chain);
        },
        Err(_) => {},
    }
}

/// The chain that goes on behind `visited.push(block)` is the chain that
/// goes on behind `visited` with `block` first.
proof fn lemma_extend_chain_push(
    visited: Seq<u32>,
    block: u32,
    rest: Result<Seq<u32>, NetWareError>,
)
    ensures
        extend_chain(visited, extend_chain(seq![block], rest)) == extend_chain(
            visited.push(block),
            rest,
        ),
{
    match rest {
        Ok(chain) => {
            assert(visited + (seq![block] + chain) =~= visited.push(block) + chain);
        },
        Err(_) => {},
    }
}

/// Reads the directory table: from the root block on, the records of each
/// block, then the block-allocation table tells the next block. A chain
/// that has not ended after as many blocks as the volume has is corrupt.
fn read_directory(volumes: &Vec<VolumeInImage>) -> (r: Result<Vec<DirEntry>, NetWareError>)
    requires
        segments_wf(volumes@),
    ensures
        match r {
            Ok(items) => volume_chain(volumes@) is Ok && is_directory(
                items@,
                volumes@,
                volume_chain(volumes@)->Ok_0,
            ),
            Err(e) => volume_chain(volumes@) == Err::<Seq<u32>, NetWareError>(e),
        },
{
    let volume = &volumes[0];
    let entries: u32 = volume.info.block_size / 128;
    let limit = volume.info.total_blocks;
    let mut items: Vec<DirEntry> = Vec::new();
    let mut current_entry = volume.info.rootdir_block_nr;
    let mut steps: u32 = 0;
    let ghost mut visited: Seq<u32> = Seq::empty();
    proof {
        lemma_extend_chain_empty(volume_chain(volumes@));
    }
    while current_entry != CHAIN_END
        invariant
            segments_wf(volumes@),
            entries == entries_per_block(volumes@),
            limit == chain_limit(volumes@),
            steps <= limit,
            visited.len() == steps,
            volume_chain(volumes@) == extend_chain(
                visited,
                directory_chain(volumes@, current_entry, (limit - steps) as nat),
            ),
            is_directory(items@, volumes@, visited),
        decreases limit - steps,
    {
        if steps == limit {
            return Err(NetWareError::FatCorrupt(current_entry));
        }
        let (seg, offset) = seek_in(volumes, current_entry)?;
        let data = volumes[seg].image.data.as_slice();
        let mut f = Reader::at(data, offset)?;
        let ghost before = items@;
        let ghost mut fresh: Seq<DirEntry> = Seq::empty();
        assert(items@ =~= before + fresh);
        let mut n: u32 = 0;
        while n < entries
            invariant
                0 <= n <= entries,
                entries == entries_per_block(volumes@),
                current_entry != CHAIN_END,
                steps < limit,
                limit == chain_limit(volumes@),
                volume_chain(volumes@) == extend_chain(
                    visited,
                    directory_chain(volumes@, current_entry, (limit - steps) as nat),
                ),
                locate_block(volumes@, current_entry) == Ok::<(int, int), NetWareError>(
                    (seg as int, offset as int),
                ),
                seg < volumes@.len(),
                data@ == volumes@[seg as int].bytes(),
                f.bytes() == data@,
                f.position() == offset + 128 * n,
                f.position() <= data@.len(),
                items@ == before + fresh,
                fresh.len() == n,
                forall|j: int|
                    0 <= j < fresh.len() ==> is_dir_entry(
                        #[trigger] fresh[j],
                        directory_record(volumes@, current_entry, j),
                    ),
            decreases entries - n,
        {
            let ghost at = f.position();
            let dir_entry = parse_directory_entry(&mut f)?;
            proof {
                assert(data@.subrange(at, at + 128) == directory_record(
                    volumes@,
                    current_entry,
                    n as int,
                ));
                fresh = fresh.push(dir_entry);
                assert(items@.push(dir_entry) =~= before + fresh);
            }
            items.push(dir_entry);
            n = n + 1;
        }
        let entry = fat_entry_in(volumes, current_entry)?;
        proof {
            lemma_directory_push(before, fresh, volumes@, visited, current_entry);
            lemma_extend_chain_push(
                visited,
                current_entry,
                directory_chain(volumes@, entry.1, (limit - steps - 1) as nat),
            );
            visited = visited.push(current_entry);
        }
        current_entry = entry.1;
        steps = steps + 1;
    }
    proof {
        assert(visited + Seq::<u32>::empty() =~= visited);
    }
    Ok(items)
}

/// The size of a volume's blocks in bytes.
pub open spec fn volume_block_size(segs: Seq<VolumeInImage>) -> int {
    segs[0].info.block_size as int
}

/// The number of bytes that the next block of a file contributes when
/// `remaining` bytes of the file are still to be read: a whole block, or
/// what is left of the file.
pub open spec fn chunk_size(block_size: int, remaining: nat) -> nat {
    if 0 < block_size < remaining {
        block_size as nat
    } else {
        remaining
    }
}

/// The first `n` bytes of the data of `block`.
pub open spec fn block_data(segs: Seq<VolumeInImage>, block: u32, n: nat) -> Result<
    Seq<u8>,
    NetWareError,
> {
    match locate_block(segs, block) {
        Err(e) => Err(e),
        Ok(place) => if place.1 + n > segs[place.0].bytes().len() {
            Err(NetWareError::IoError)
        } else {
            Ok(segs[place.0].bytes().subrange(place.1, place.1 + n))
        },
    }
}

/// The contents of a file of `length` bytes whose chain starts at
/// `start`: each block of the chain contributes a whole block, the last
/// one what is left. The chain has to end where the length is reached,
/// not before and not after.
pub open spec fn file_data(segs: Seq<VolumeInImage>, start: u32, length: nat) -> Result<
    Seq<u8>,
    NetWareError,
>
    decreases length,
{
    if start == CHAIN_END {
        if length == 0 {
            Ok(Seq::empty())
        } else {
            Err(NetWareError::TruncatedChain)
        }
    } else if length == 0 {
        Err(NetWareError::OversizedChain)
    } else {
        let chunk = chunk_size(volume_block_size(segs), length);
        match block_data(segs, start, chunk) {
            Err(e) => Err(e),
            Ok(data) => match fat_entry(segs, start) {
                Err(e) => Err(e),
                Ok(entry) => extend_data(data, file_data(segs, entry.1, (length - chunk) as nat)),
            },
        }
    }
}

/// The blocks that the reading of a file of `length` bytes visits from
/// `start` on, as far as it gets.
pub open spec fn file_blocks(segs: Seq<VolumeInImage>, start: u32, length: nat) -> Seq<u32>
    decreases length,
{
    if start == CHAIN_END || length == 0 {
        Seq::empty()
    } else {
        let chunk = chunk_size(volume_block_size(segs), length);
        seq![start] + file_blocks(segs, next_block(segs, start), (length - chunk) as nat)
    }
}

/// Reads a file of `length` bytes whose chain starts at `start_block`.
fn read_file_in(volumes: &Vec<VolumeInImage>, start_block: u32, length: u32) -> (r: Result<
    Vec<u8>,
    NetWareError,
>)
    requires
        segments_wf(volumes@),
    ensures
        match r {
            Ok(data) => file_data(volumes@, start_block, length as nat) == Ok::<
                Seq<u8>,
                NetWareError,
            >(data@),
            Err(e) => file_data(volumes@, start_block, length as nat) == Err::<
                Seq<u8>,
                NetWareError,
            >(e),
        },
{
    let block_size = volumes[0].info.block_size;
    let mut current_entry = start_block;
    let mut bytes_left = length;
    let mut data: Vec<u8> = Vec::new();
    proof {
        lemma_extend_data_empty(file_data(volumes@, start_block, length as nat));
    }
    while current_entry != CHAIN_END && bytes_left > 0
        invariant
            segments_wf(volumes@),
            block_size == volume_block_size(volumes@),
            file_data(volumes@, start_block, length as nat) == extend_data(
                data@,
                file_data(volumes@, current_entry, bytes_left as nat),
            ),
        decreases bytes_left,
    {
        let chunk_size = if bytes_left > block_size {
            block_size
        } else {
            bytes_left
        };
        let (seg, offset) = seek_in(volumes, current_entry)?;
        let image = volumes[seg].image.data.as_slice();
        if image.len() as u64 - offset < chunk_size as u64 {
            return Err(NetWareError::IoError);
        }
        let chunk = slice_subrange(image, offset as usize, offset as usize + chunk_size as usize);
        let ghost before = data@;
        data.extend_from_slice(chunk);
        assert(data@ =~= before + chunk@);
        let entry = fat_entry_in(volumes, current_entry)?;
        proof {
            lemma_extend_data(
                before,
                chunk@,
                file_data(volumes@, entry.1, (bytes_left - chunk_size) as nat),
            );
        }
        current_entry = entry.1;
        bytes_left = bytes_left - chunk_size;
    }
    if bytes_left > 0 {
        return Err(NetWareError::TruncatedChain);
    }
    if current_entry != CHAIN_END {
        return Err(NetWareError::OversizedChain);
    }
    proof {
        assert(data@ + Seq::<u8>::empty() =~= data@);
    }
    Ok(data)
}

/// What stops the opening of a volume made up of the segments `segs`, if
/// anything does: there is no segment, a segment has a block size that
/// the format does not provide for, or the directory table cannot be read.
pub open spec fn volume_fault(segs: Seq<VolumeInImage>) -> Option<NetWareError> {
    if segs.len() == 0 {
        Some(NetWareError::VolumeNotFound)
    } else if !segments_wf(segs) {
        Some(NetWareError::VolumeAreaCorrupt)
    } else {
        match volume_chain(segs) {
            Err(e) => Some(e),
            Ok(_) => None,
        }
    }
}

/// A volume: its segments in the order of their numbers, each bound to
/// the image that holds it, and its directory table.
#[derive(Debug)]
pub struct LogicalVolume<'a> {
    volumes: Vec<VolumeInImage<'a>>,
    directory: Vec<DirEntry>,
}

impl<'a> LogicalVolume<'a> {
    #[verifier::type_invariant]
    spec fn inv(&self) -> bool {
        segments_wf(self.volumes@)
    }

    /// The segments of the volume.
    pub closed spec fn segments(&self) -> Seq<VolumeInImage<'a>> {
        self.volumes@
    }

    /// The records of the directory table.
    pub closed spec fn entries(&self) -> Seq<DirEntry> {
        self.directory@
    }

    /// Whether the volume is what the opening of the segments `segs`
    /// yields.
    pub open spec fn is_volume(&self, segs: Seq<VolumeInImage<'a>>) -> bool {
        &&& self.segments() == segs
        &&& segments_wf(segs)
        &&& volume_chain(segs) is Ok
        &&& is_directory(self.entries(), segs, volume_chain(segs)->Ok_0)
    }

    /// Opens the volume that the given segments make up, and reads its
    /// directory table.
    pub fn from_segments(volumes: Vec<VolumeInImage<'a>>) -> (r: Result<
        LogicalVolume<'a>,
        NetWareError,
    >)
        ensures
            match r {
                Ok(vol) => volume_fault(volumes@) is None && vol.is_volume(volumes@),
                Err(e) => volume_fault(volumes@) == Some(e),
            },
    {
        if volumes.len() == 0 {
            return Err(NetWareError::VolumeNotFound);
        }
        let mut i: usize = 0;
        while i < volumes.len()
            invariant
                0 <= i <= volumes@.len(),
                forall|k: int| 0 <= k < i ==> (#[trigger] volumes@[k]).info.wf(),
            decreases volumes@.len() - i,
        {
            if !is_block_size(volumes[i].info.block_size) {
                return Err(NetWareError::VolumeAreaCorrupt);
            }
            i = i + 1;
        }
        let directory = read_directory(&volumes)?;
        Ok(LogicalVolume { volumes, directory })
    }

    /// The segments of the volume.
    pub fn volumes(&self) -> (r: &Vec<VolumeInImage<'a>>)
        ensures
            r@ == self.segments(),
            segments_wf(r@),
    {
        proof {
            use_type_invariant(self);
        }
        &self.volumes
    }

    /// The records of the directory table.
    pub fn directory(&self) -> (r: &Vec<DirEntry>)
        ensures
            r@ == self.entries(),
    {
        &self.directory
    }

    /// Resolves `block` to the segment that holds it, by its index, and
    /// to the offset of the block's data in that segment's image.
    pub fn seek_block(&self, block: u32) -> (r: Result<(usize, u64), NetWareError>)
        ensures
            match r {
                Ok(place) => locate_block(self.segments(), block) == Ok::<
                    (int, int),
                    NetWareError,
                >((place.0 as int, place.1 as int)),
                Err(e) => locate_block(self.segments(), block) == Err::<(int, int), NetWareError>(
                    e,
                ),
            },
    {
        proof {
            use_type_invariant(self);
        }
        seek_in(&self.volumes, block)
    }

    /// Reads the block-allocation-table entry of `entry`: the place of
    /// the block within its chain, and the block that follows it.
    pub fn read_fat_entry(&self, entry: u32) -> (r: Result<(u32, u32), NetWareError>)
        ensures
            match r {
                Ok(found) => fat_entry(self.segments(), entry) == Ok::<(u32, u32), NetWareError>(
                    found,
                ),
                Err(e) => fat_entry(self.segments(), entry) == Err::<(u32, u32), NetWareError>(e),
            },
    {
        proof {
            use_type_invariant(self);
        }
        fat_entry_in(&self.volumes, entry)
    }

    /// Reads a file of `length` bytes whose chain starts at
    /// `start_block`.
    pub fn read_file(&self, start_block: u32, length: u32) -> (r: Result<Vec<u8>, NetWareError>)
        ensures
            match r {
                Ok(data) => file_data(self.segments(), start_block, length as nat) == Ok::<
                    Seq<u8>,
                    NetWareError,
                >(data@) && data@.len() == length,
                Err(e) => file_data(self.segments(), start_block, length as nat) == Err::<
                    Seq<u8>,
                    NetWareError,
                >(e),
            },
    {
        proof {
            use_type_invariant(self);
            lemma_file_length(self.volumes@, start_block, length as nat);
        }
        read_file_in(&self.volumes, start_block, length)
    }
}

/// The segment that `segment_of` finds holds the block, and no segment
/// before it does.
pub proof fn lemma_segment_of(segs: Seq<VolumeInImage>, block: u32, from: int)
    requires
        0 <= from <= segs.len(),
    ensures
        from <= segment_of(segs, block, from) <= segs.len(),
        segment_of(segs, block, from) < segs.len() ==> segs[segment_of(segs, block, from)].holds(
            block,
        ),
        forall|i: int| from <= i < segment_of(segs, block, from) ==> !segs[i].holds(block),
    decreases segs.len() - from,
{
    if from < segs.len() && !segs[from].holds(block) {
        lemma_segment_of(segs, block, from + 1);
    }
}

/// A block that can be located lies at an offset within its segment's
/// image.
pub proof fn lemma_locate_block(segs: Seq<VolumeInImage>, block: u32)
    ensures
        locate_block(segs, block) matches Ok(place) ==> 0 <= place.0 < segs.len()
            && segs[place.0].holds(block) && 0 <= place.1 <= segs[place.0].bytes().len(),
{
    lemma_segment_of(segs, block, 0);
    let seg = segment_of(segs, block, 0);
    if seg < segs.len() {
        let index = block - segs[seg].first_block();
        let size = segs[seg].info.block_size as int;
        assert(index * size >= 0) by (nonlinear_arith)
            requires
                index >= 0,
                size >= 0,
        ;
    }
}

/// A file that can be read has the length that its record states.
pub proof fn lemma_file_length(segs: Seq<VolumeInImage>, start: u32, length: nat)
    ensures
        file_data(segs, start, length) matches Ok(data) ==> data.len() == length,
    decreases length,
{
    if start != CHAIN_END && length != 0 {
        let chunk = chunk_size(volume_block_size(segs), length);
        lemma_locate_block(segs, start);
        if let Ok(data) = block_data(segs, start, chunk) {
            if let Ok(entry) = fat_entry(segs, start) {
                lemma_file_length(segs, entry.1, (length - chunk) as nat);
            }
        }
    }
}

/// The segments named `name` among the first `upto` records of the
/// volume segment table of one image, in the order of the table.
pub open spec fn image_segments<'a>(
    image: &'a Image,
    part: NWPartition,
    name: Seq<char>,
    upto: int,
) -> Seq<VolumeInImage<'a>>
    decreases upto,
{
    if upto <= 0 {
        Seq::empty()
    } else {
        let rest = image_segments(image, part, name, upto - 1);
        let info = part.volumes.info@[upto - 1];
        if info.name@ == name {
            rest.push(
                VolumeInImage {
                    image,
                    first_data_block_offset: part.first_data_block_offset,
                    info,
                },
            )
        } else {
            rest
        }
    }
}

/// The segments named `name` of the first `upto` images, image by image.
pub open spec fn named_segments<'a>(
    list: &'a ImageList,
    parts: Seq<NWPartition>,
    name: Seq<char>,
    upto: int,
) -> Seq<VolumeInImage<'a>>
    decreases upto,
{
    if upto <= 0 {
        Seq::empty()
    } else {
        named_segments(list, parts, name, upto - 1) + image_segments(
            &list.images@[upto - 1],
            parts[upto - 1],
            name,
            parts[upto - 1].volumes.info@.len() as int,
        )
    }
}

/// The place at which a segment with the number `num` goes into segments
/// ordered by their numbers: behind all those from `from` on whose number
/// is not greater.
pub open spec fn insert_position(sorted: Seq<VolumeInImage>, num: u16, from: int) -> int
    decreases sorted.len() - from,
{
    if from >= sorted.len() {
        sorted.len() as int
    } else if sorted[from].info.segment_num > num {
        from
    } else {
        insert_position(sorted, num, from + 1)
    }
}

/// The segments `sorted` with `v` put in by its number.
pub open spec fn insert_segment<'a>(sorted: Seq<VolumeInImage<'a>>, v: VolumeInImage<'a>) -> Seq<
    VolumeInImage<'a>,
> {
    sorted.insert(insert_position(sorted, v.info.segment_num, 0), v)
}

/// The segments of `list` in the order of their numbers; segments with
/// the same number keep the order in which they stand in `list`.
pub open spec fn sort_segments<'a>(list: Seq<VolumeInImage<'a>>) -> Seq<VolumeInImage<'a>>
    decreases list.len(),
{
    if list.len() == 0 {
        Seq::empty()
    } else {
        insert_segment(sort_segments(list.drop_last()), list.last())
    }
}

/// Whether the segments stand in the order of their numbers.
pub open spec fn ordered_by_number(segs: Seq<VolumeInImage>) -> bool {
    forall|i: int, j: int|
        0 <= i <= j < segs.len() ==> (#[trigger] segs[i]).info.segment_num <= (
        #[trigger] segs[j]).info.segment_num
}

/// Where a segment goes in: behind segments with a number that is not
/// greater, before segments with a greater number.
pub proof fn lemma_insert_position(sorted: Seq<VolumeInImage>, num: u16, from: int)
    requires
        0 <= from <= sorted.len(),
        ordered_by_number(sorted),
    ensures
        from <= insert_position(sorted, num, from) <= sorted.len(),
        forall|i: int|
            from <= i < insert_position(sorted, num, from) ==> (
            #[trigger] sorted[i]).info.segment_num <= num,
        forall|i: int|
            insert_position(sorted, num, from) <= i < sorted.len() ==> (
            #[trigger] sorted[i]).info.segment_num > num,
    decreases sorted.len() - from,
{
    if from < sorted.len() && sorted[from].info.segment_num <= num {
        lemma_insert_position(sorted, num, from + 1);
    }
}

/// Sorting puts the segments in the order of their numbers and neither
/// adds nor drops one.
pub proof fn lemma_sort_segments(list: Seq<VolumeInImage>)
    ensures
        ordered_by_number(sort_segments(list)),
        sort_segments(list).to_multiset() == list.to_multiset(),
        sort_segments(list).len() == list.len(),
    decreases list.len(),
{
    broadcast use vstd::seq_lib::group_to_multiset_ensures;

    if list.len() == 0 {
    } else {
        let rest = sort_segments(list.drop_last());
        let v = list.last();
        lemma_sort_segments(list.drop_last());
        lemma_insert_position(rest, v.info.segment_num, 0);
        let p = insert_position(rest, v.info.segment_num, 0);
        let out = rest.insert(p, v);
        assert forall|i: int, j: int| 0 <= i <= j < out.len() implies (
        #[trigger] out[i]).info.segment_num <= (#[trigger] out[j]).info.segment_num by {
            if i < p {
                assert(out[i] == rest[i]);
            } else if i > p {
                assert(out[i] == rest[i - 1]);
            }
            if j < p {
                assert(out[j] == rest[j]);
            } else if j > p {
                assert(out[j] == rest[j - 1]);
            }
        }
        vstd::seq_lib::to_multiset_insert(rest, p, v);
        assert(list =~= list.drop_last().push(v));
        assert(list.to_multiset() == list.drop_last().to_multiset().insert(v));
    }
}

/// The segments of `list` with the number `num`, in the order in which
/// they stand in `list`.
pub open spec fn numbered<'a>(list: Seq<VolumeInImage<'a>>, num: u16) -> Seq<VolumeInImage<'a>>
    decreases list.len(),
{
    if list.len() == 0 {
        Seq::empty()
    } else if list.last().info.segment_num == num {
        numbered(list.drop_last(), num).push(list.last())
    } else {
        numbered(list.drop_last(), num)
    }
}

/// The segments with a number in two lists, one behind the other, are
/// those of the first list and then those of the second.
proof fn lemma_numbered_add(a: Seq<VolumeInImage>, b: Seq<VolumeInImage>, num: u16)
    ensures
        numbered(a + b, num) == numbered(a, num) + numbered(b, num),
    decreases b.len(),
{
    if b.len() == 0 {
        assert(a + b =~= a);
        assert(numbered(a, num) + numbered(b, num) =~= numbered(a, num));
    } else {
        lemma_numbered_add(a, b.drop_last(), num);
        assert((a + b).drop_last() =~= a + b.drop_last());
        assert((a + b).last() == b.last());
        if b.last().info.segment_num == num {
            assert(numbered(a, num) + numbered(b.drop_last(), num).push(b.last()) =~= (numbered(
                a,
                num,
            ) + numbered(b.drop_last(), num)).push(b.last()));
        }
    }
}

/// A list that holds no segment with a number yields none.
proof fn lemma_numbered_none(list: Seq<VolumeInImage>, num: u16)
    requires
        forall|i: int| 0 <= i < list.len() ==> (#[trigger] list[i]).info.segment_num != num,
    ensures
        numbered(list, num) == Seq::<VolumeInImage>::empty(),
    decreases list.len(),
{
    if list.len() > 0 {
        assert(list.last() == list[list.len() - 1]);
        assert forall|i: int| 0 <= i < list.drop_last().len() implies (
        #[trigger] list.drop_last()[i]).info.segment_num != num by {
            assert(list.drop_last()[i] == list[i]);
        }
        lemma_numbered_none(list.drop_last(), num);
    }
}

/// Sorting keeps segments with the same number in the order in which
/// they stood.
pub proof fn lemma_sort_segments_stable(list: Seq<VolumeInImage>, num: u16)
    ensures
        numbered(sort_segments(list), num) == numbered(list, num),
    decreases list.len(),
{
    if list.len() > 0 {
        let sorted = sort_segments(list.drop_last());
        let v = list.last();
        lemma_sort_segments_stable(list.drop_last(), num);
        lemma_sort_segments(list.drop_last());
        lemma_insert_position(sorted, v.info.segment_num, 0);
        let p = insert_position(sorted, v.info.segment_num, 0);
        let before = sorted.take(p);
        let after = sorted.skip(p);
        let none = Seq::<VolumeInImage>::empty();
        assert(sorted =~= before + after);
        assert(sort_segments(list) =~= (before + seq![v]) + after);
        lemma_numbered_add(before, after, num);
        lemma_numbered_add(before + seq![v], after, num);
        lemma_numbered_add(before, seq![v], num);
        assert(seq![v].drop_last() =~= none);
        assert(seq![v].last() == v);
        assert(numbered(none, num) == none);
        if v.info.segment_num == num {
            lemma_numbered_none(after, num);
            assert(numbered(seq![v], num) =~= seq![v]);
            assert(numbered(sorted, num) =~= numbered(before, num));
            assert(numbered(sort_segments(list), num) =~= numbered(before, num).push(v));
        } else {
            assert(numbered(seq![v], num) =~= none);
            assert(numbered(sort_segments(list), num) =~= numbered(before, num) + numbered(
                after,
                num,
            ));
        }
    }
}

/// Puts `v` into segments ordered by their numbers.
fn insert_sorted<'a>(sorted: &mut Vec<VolumeInImage<'a>>, v: VolumeInImage<'a>)
    ensures
        final(sorted)@ == insert_segment(old(sorted)@, v),
{
    let num = v.info.segment_num;
    let mut p: usize = 0;
    while p < sorted.len() && sorted[p].info.segment_num <= num
        invariant
            0 <= p <= sorted@.len(),
            sorted@ == old(sorted)@,
            insert_position(sorted@, num, 0) == insert_position(sorted@, num, p as int),
        decreases sorted@.len() - p,
    {
        p = p + 1;
    }
    sorted.insert(p, v);
}

/// What stops the decoding of the partition headers of the images from
/// image `from` on, if anything does.
pub open spec fn images_fault(images: Seq<Image>, from: int) -> Option<NetWareError>
    decreases images.len() - from,
{
    if from >= images.len() {
        None
    } else if partition_fault(images[from].data@, images[from].start_offset as int) is Some {
        partition_fault(images[from].data@, images[from].start_offset as int)
    } else {
        images_fault(images, from + 1)
    }
}

/// Whether `parts` are the partition headers of the images, one for each.
pub open spec fn are_partitions(parts: Seq<NWPartition>, images: Seq<Image>) -> bool {
    &&& parts.len() == images.len()
    &&& forall|i: int|
        0 <= i < parts.len() ==> is_partition(
            #[trigger] parts[i],
            images[i].data@,
            images[i].start_offset as int,
        )
}

/// Decodes the partition headers of every image of the list.
pub fn open_partitions(image_list: &ImageList) -> (r: Result<Vec<NWPartition>, NetWareError>)
    ensures
        match r {
            Ok(parts) => images_fault(image_list.images@, 0) is None && are_partitions(
                parts@,
                image_list.images@,
            ),
            Err(e) => images_fault(image_list.images@, 0) == Some(e),
        },
{
    let mut parts: Vec<NWPartition> = Vec::new();
    let mut i: usize = 0;
    while i < image_list.images.len()
        invariant
            0 <= i <= image_list.images@.len(),
            parts@.len() == i,
            images_fault(image_list.images@, 0) == images_fault(image_list.images@, i as int),
            forall|k: int|
                0 <= k < i ==> is_partition(
                    #[trigger] parts@[k],
                    image_list.images@[k].data@,
                    image_list.images@[k].start_offset as int,
                ),
        decreases image_list.images@.len() - i,
    {
        let image = &image_list.images[i];
        let nwp = NWPartition::new(image.data.as_slice(), image.start_offset)?;
        parts.push(nwp);
        i = i + 1;
    }
    Ok(parts)
}

/// Collects the segments named `name` from the volume segment tables of
/// all images, each bound to its image, in the order of their numbers.
fn select_segments<'a>(image_list: &'a ImageList, parts: &Vec<NWPartition>, name: &str) -> (r:
    Vec<VolumeInImage<'a>>)
    requires
        parts@.len() == image_list.images@.len(),
    ensures
        r@ == sort_segments(
            named_segments(image_list, parts@, name@, image_list.images@.len() as int),
        ),
{
    let wanted = String::from_str(name);
    let mut volumes: Vec<VolumeInImage<'a>> = Vec::new();
    let mut i: usize = 0;
    while i < image_list.images.len()
        invariant
            0 <= i <= image_list.images@.len(),
            parts@.len() == image_list.images@.len(),
            wanted@ == name@,
            volumes@ == sort_segments(named_segments(image_list, parts@, name@, i as int)),
        decreases image_list.images@.len() - i,
    {
        let image = &image_list.images[i];
        let nwp = &parts[i];
        let ghost done = named_segments(image_list, parts@, name@, i as int);
        assert(done + image_segments(image, *nwp, name@, 0) =~= done);
        let mut j: usize = 0;
        while j < nwp.volumes.info.len()
            invariant
                0 <= j <= nwp.volumes.info@.len(),
                wanted@ == name@,
                volumes@ == sort_segments(done + image_segments(image, *nwp, name@, j as int)),
            decreases nwp.volumes.info@.len() - j,
        {
            let info = &nwp.volumes.info[j];
            if info.name == wanted {
                let v = VolumeInImage {
                    image,
                    first_data_block_offset: nwp.first_data_block_offset,
                    info: info.duplicate(),
                };
                proof {
                    let found = image_segments(image, *nwp, name@, j as int);
                    assert((done + found).push(v) =~= done + found.push(v));
                    assert((done + found).push(v).drop_last() =~= done + found);
                }
                insert_sorted(&mut volumes, v);
            }
            j = j + 1;
        }
        i = i + 1;
    }
    volumes
}

/// Decodes the partition headers of every image of the list and collects
/// the segments named `name` from all of them, each bound to its image,
/// in the order of their numbers.
pub fn collect_segments<'a>(image_list: &'a ImageList, name: &str) -> (r: Result<
    Vec<VolumeInImage<'a>>,
    NetWareError,
>)
    ensures
        match r {
            Ok(volumes) => images_fault(image_list.images@, 0) is None && exists|
                parts: Seq<NWPartition>,
            | #[trigger]
                are_partitions(parts, image_list.images@) && volumes@ == sort_segments(
                    named_segments(image_list, parts, name@, image_list.images@.len() as int),
                ),
            Err(e) => images_fault(image_list.images@, 0) == Some(e),
        },
{
    let parts = open_partitions(image_list)?;
    Ok(select_segments(image_list, &parts, name))
}

/// Whether `r` is what the opening of the segments `segs` yields: the
/// volume, or what stopped its opening.
pub open spec fn opened<'a>(
    r: Result<LogicalVolume<'a>, NetWareError>,
    segs: Seq<VolumeInImage<'a>>,
) -> bool {
    match r {
        Ok(vol) => volume_fault(segs) is None && vol.is_volume(segs),
        Err(e) => volume_fault(segs) == Some(e),
    }
}

impl<'a> LogicalVolume<'a> {
    /// Opens the volume named `name`: decodes the partition headers of
    /// every image, collects the volume's segments from all of them in the
    /// order of their numbers, and reads the directory table.
    pub fn new(image_list: &'a ImageList, name: &str) -> (r: Result<
        LogicalVolume<'a>,
        NetWareError,
    >)
        ensures
            match images_fault(image_list.images@, 0) {
                Some(e) => r matches Err(err) && err == e,
                None => exists|parts: Seq<NWPartition>| #[trigger]
                    are_partitions(parts, image_list.images@) && opened(
                        r,
                        sort_segments(
                            named_segments(
                                image_list,
                                parts,
                                name@,
                                image_list.images@.len() as int,
                            ),
                        ),
                    ),
            },
    {
        let volumes = collect_segments(image_list, name)?;
        LogicalVolume::from_segments(volumes)
    }
}

/// The end of the chain `chain` from its `k`-th block on: that block,
/// or the end mark behind the last.
pub open spec fn chain_at(chain: Seq<u32>, k: int) -> u32 {
    if 0 <= k < chain.len() {
        chain[k]
    } else {
        CHAIN_END
    }
}

/// A directory chain that can be read has no more blocks than the limit
/// allows and starts at its first block. None of its blocks is the end
/// mark, each of them can be located and has a block-allocation-table
/// entry, and that entry leads to the next block of the chain, the last
/// one's to the end mark.
pub proof fn lemma_directory_chain(segs: Seq<VolumeInImage>, start: u32, limit: nat)
    ensures
        directory_chain(segs, start, limit) matches Ok(chain) ==> {
            &&& chain.len() <= limit
            &&& chain_at(chain, 0) == start
            &&& forall|i: int|
                0 <= i < chain.len() ==> {
                    &&& #[trigger] chain[i] != CHAIN_END
                    &&& locate_block(segs, chain[i]) is Ok
                    &&& fat_entry(segs, chain[i]) is Ok
                    &&& next_block(segs, chain[i]) == chain_at(chain, i + 1)
                }
        },
    decreases limit,
{
    if start != CHAIN_END && limit != 0 && directory_block_fault(segs, start) is None {
        let next = next_block(segs, start);
        lemma_directory_chain(segs, next, (limit - 1) as nat);
        if let Ok(rest) = directory_chain(segs, next, (limit - 1) as nat) {
            let chain = seq![start] + rest;
            assert forall|i: int| 0 <= i < chain.len() implies {
                &&& #[trigger] chain[i] != CHAIN_END
                &&& locate_block(segs, chain[i]) is Ok
                &&& fat_entry(segs, chain[i]) is Ok
                &&& next_block(segs, chain[i]) == chain_at(chain, i + 1)
            } by {
                if i > 0 {
                    assert(chain[i] == rest[i - 1]);
                    assert(chain_at(chain, i + 1) == chain_at(rest, i));
                } else {
                    assert(chain_at(chain, 1) == chain_at(rest, 0));
                }
            }
        }
    }
}

/// The blocks of the chain from `start` to the end mark, provided that
/// the chain gets there within `limit` blocks and that the
/// block-allocation-table entry of each block on the way can be read.
pub open spec fn fat_chain(segs: Seq<VolumeInImage>, start: u32, limit: nat) -> Option<Seq<u32>>
    decreases limit,
{
    if start == CHAIN_END {
        Some(Seq::empty())
    } else if limit == 0 {
        None
    } else {
        match fat_entry(segs, start) {
            Err(_) => None,
            Ok(entry) => match fat_chain(segs, entry.1, (limit - 1) as nat) {
                None => None,
                Some(rest) => Some(seq![start] + rest),
            },
        }
    }
}

/// A chain that reaches the end mark has no more blocks than the limit
/// allows and starts at its first block. None of its blocks is the end
/// mark, and the block-allocation-table entry of each leads to the next
/// block of the chain, the last one's to the end mark.
pub proof fn lemma_fat_chain(segs: Seq<VolumeInImage>, start: u32, limit: nat)
    ensures
        fat_chain(segs, start, limit) matches Some(chain) ==> {
            &&& chain.len() <= limit
            &&& chain_at(chain, 0) == start
            &&& forall|i: int|
                0 <= i < chain.len() ==> {
                    &&& #[trigger] chain[i] != CHAIN_END
                    &&& fat_entry(segs, chain[i]) is Ok
                    &&& next_block(segs, chain[i]) == chain_at(chain, i + 1)
                }
        },
    decreases limit,
{
    if start != CHAIN_END && limit != 0 && fat_entry(segs, start) is Ok {
        let next = next_block(segs, start);
        lemma_fat_chain(segs, next, (limit - 1) as nat);
        if let Some(rest) = fat_chain(segs, next, (limit - 1) as nat) {
            let chain = seq![start] + rest;
            assert forall|i: int| 0 <= i < chain.len() implies {
                &&& #[trigger] chain[i] != CHAIN_END
                &&& fat_entry(segs, chain[i]) is Ok
                &&& next_block(segs, chain[i]) == chain_at(chain, i + 1)
            } by {
                if i > 0 {
                    assert(chain[i] == rest[i - 1]);
                    assert(chain_at(chain, i + 1) == chain_at(rest, i));
                } else {
                    assert(chain_at(chain, 1) == chain_at(rest, 0));
                }
            }
        }
    }
}

/// From any block of a chain that reaches the end mark, the chain that
/// starts there is the rest of that chain, and reaches the end mark too.
pub proof fn lemma_fat_chain_rest(segs: Seq<VolumeInImage>, start: u32, limit: nat, k: int)
    requires
        fat_chain(segs, start, limit) is Some,
        0 <= k <= fat_chain(segs, start, limit)->Some_0.len(),
    ensures
        k <= limit,
        fat_chain(segs, chain_at(fat_chain(segs, start, limit)->Some_0, k), (limit - k) as nat)
            == Some(fat_chain(segs, start, limit)->Some_0.skip(k)),
    decreases k,
{
    let chain = fat_chain(segs, start, limit)->Some_0;
    lemma_fat_chain(segs, start, limit);
    if k == 0 {
        assert(chain.skip(0) =~= chain);
    } else {
        let next = next_block(segs, start);
        let rest = fat_chain(segs, next, (limit - 1) as nat)->Some_0;
        assert(chain == seq![start] + rest);
        lemma_fat_chain_rest(segs, next, (limit - 1) as nat, k - 1);
        assert(chain_at(chain, k) == chain_at(rest, k - 1));
        assert(chain.skip(k) =~= rest.skip(k - 1));
    }
}

/// Where the chain from a block reaches the end mark under two limits,
/// the limits make no difference to it.
pub proof fn lemma_fat_chain_limit(segs: Seq<VolumeInImage>, start: u32, limit: nat, other: nat)
    requires
        fat_chain(segs, start, limit) is Some,
        fat_chain(segs, start, other) is Some,
    ensures
        fat_chain(segs, start, limit) == fat_chain(segs, start, other),
    decreases limit,
{
    if start != CHAIN_END {
        let next = next_block(segs, start);
        lemma_fat_chain_limit(segs, next, (limit - 1) as nat, (other - 1) as nat);
    }
}

/// A chain that reaches the end mark passes through no block twice: a
/// chain with a cycle never gets there.
pub proof fn lemma_fat_chain_distinct(segs: Seq<VolumeInImage>, start: u32, limit: nat)
    ensures
        fat_chain(segs, start, limit) matches Some(chain) ==> forall|i: int, j: int|
            0 <= i < j < chain.len() ==> chain[i] != chain[j],
{
    if let Some(chain) = fat_chain(segs, start, limit) {
        assert forall|i: int, j: int| 0 <= i < j < chain.len() implies chain[i] != chain[j] by {
            if chain[i] == chain[j] {
                lemma_fat_chain_rest(segs, start, limit, i);
                lemma_fat_chain_rest(segs, start, limit, j);
                lemma_fat_chain_limit(segs, chain[i], (limit - i) as nat, (limit - j) as nat);
                assert(chain.skip(i).len() == chain.skip(j).len());
            }
        }
    }
}

/// The blocks of a directory table that can be read are a chain that
/// reaches the end mark within the limit.
pub proof fn lemma_directory_chain_ends(segs: Seq<VolumeInImage>, start: u32, limit: nat)
    ensures
        directory_chain(segs, start, limit) matches Ok(chain) ==> fat_chain(segs, start, limit)
            == Some(chain),
    decreases limit,
{
    if start != CHAIN_END && limit != 0 && directory_block_fault(segs, start) is None {
        lemma_directory_chain_ends(segs, next_block(segs, start), (limit - 1) as nat);
    }
}

/// The blocks that the reading of a file visits are a chain that reaches
/// the end mark, provided that the file can be read.
pub proof fn lemma_file_chain_ends(segs: Seq<VolumeInImage>, start: u32, length: nat)
    requires
        file_data(segs, start, length) is Ok,
    ensures
        fat_chain(segs, start, file_blocks(segs, start, length).len()) == Some(
            file_blocks(segs, start, length),
        ),
    decreases length,
{
    if start != CHAIN_END && length != 0 {
        let chunk = chunk_size(volume_block_size(segs), length);
        lemma_file_chain_ends(segs, next_block(segs, start), (length - chunk) as nat);
    }
}

/// Every block that the reading of a file visits can be located, and
/// none of them is the end mark, provided that the file can be read.
pub proof fn lemma_file_blocks(segs: Seq<VolumeInImage>, start: u32, length: nat)
    requires
        file_data(segs, start, length) is Ok,
    ensures
        forall|i: int|
            0 <= i < file_blocks(segs, start, length).len() ==> {
                &&& #[trigger] file_blocks(segs, start, length)[i] != CHAIN_END
                &&& locate_block(segs, file_blocks(segs, start, length)[i]) is Ok
            },
    decreases length,
{
    if start != CHAIN_END && length != 0 {
        let chunk = chunk_size(volume_block_size(segs), length);
        let next = next_block(segs, start);
        lemma_file_blocks(segs, next, (length - chunk) as nat);
        let rest = file_blocks(segs, next, (length - chunk) as nat);
        let blocks = file_blocks(segs, start, length);
        assert forall|i: int| 0 <= i < blocks.len() implies {
            &&& #[trigger] blocks[i] != CHAIN_END
            &&& locate_block(segs, blocks[i]) is Ok
        } by {
            if i > 0 {
                assert(blocks[i] == rest[i - 1]);
            }
        }
    }
}

} // verus!
