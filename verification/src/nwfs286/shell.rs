//! Queries over the directory table of a NetWare 286 volume.

use vstd::prelude::*;
use vstd::slice::slice_subrange;

use crate::bytes::{extend_data, le16, lemma_extend_data, lemma_extend_data_empty};
use crate::nwfs286::parser::{
    block_to_offset, blocks_readable, is_directory_table, is_fat_table, is_volume_info,
    read_directory_entries, read_fat_table, spec_block_to_offset, table_blocks, tables_offset,
    volume_info_fault, DirEntry, FatEntry, VolumeInfo,
};
use crate::nwfs286::types::BLOCK_SIZE;
use crate::shell_cli::{piece_names, same_places, ShellImpl};
use crate::types::NetWareError;
use crate::util::{
    find_partition, lemma_names_match_symmetric, lemma_names_match_transitive, names_match,
    scan_partitions, PartitionType,
};

verus! {

/// The id of the root directory.
pub const NWFS286_ROOT_ID: u32 = 1;

/// The id of the directory that holds the entry.
pub open spec fn entry_parent(de: DirEntry) -> u32 {
    match de {
        DirEntry::File(v) => v.parent_dir as u32,
        DirEntry::Directory(d) => d.parent_dir as u32,
    }
}

/// The name of the entry.
pub open spec fn entry_name(de: DirEntry) -> Seq<char> {
    match de {
        DirEntry::File(f) => f.name@,
        DirEntry::Directory(d) => d.name@,
    }
}

/// Whether the entry lies in the directory `parent` and has the given
/// name, upper and lower case of ASCII letters counting as equal.
pub open spec fn is_named_child(de: DirEntry, parent: u32, name: Seq<char>) -> bool {
    entry_parent(de) == parent && names_match(entry_name(de), name)
}

/// Whether the entry lies in the directory `parent_dir_id`.
pub fn match_parent_dir_id(de: &DirEntry, parent_dir_id: u32) -> (r: bool)
    ensures
        r == (entry_parent(*de) == parent_dir_id),
{
    parent_dir_id == match de {
        DirEntry::File(v) => v.parent_dir as u32,
        DirEntry::Directory(d) => d.parent_dir as u32,
    }
}

/// Whether the entry has the given name.
pub fn match_dir_entry_name(de: &DirEntry, name: &str) -> (r: bool)
    ensures
        r == names_match(entry_name(*de), name@),
{
    match de {
        DirEntry::File(f) => f.name.as_str().eq_ignore_ascii_case(name),
        DirEntry::Directory(d) => d.name.as_str().eq_ignore_ascii_case(name),
    }
}

/// The places in the table, among the first `upto`, of the entries of the
/// directory `parent`, in ascending order.
pub open spec fn children(dir: Seq<DirEntry>, parent: u32, upto: int) -> Seq<int>
    decreases upto,
{
    if upto <= 0 {
        Seq::empty()
    } else if entry_parent(dir[upto - 1]) == parent {
        children(dir, parent, upto - 1).push(upto - 1)
    } else {
        children(dir, parent, upto - 1)
    }
}

/// The places in the table, among the first `upto`, of the entries of the
/// directory `parent` with the given name, in ascending order.
pub open spec fn named_children(dir: Seq<DirEntry>, parent: u32, name: Seq<char>, upto: int) -> Seq<
    int,
>
    decreases upto,
{
    if upto <= 0 {
        Seq::empty()
    } else if is_named_child(dir[upto - 1], parent, name) {
        named_children(dir, parent, name, upto - 1).push(upto - 1)
    } else {
        named_children(dir, parent, name, upto - 1)
    }
}

/// The places in the table of the entries of the directory `parent`.
pub fn list_children(entries: &[DirEntry], parent: u32) -> (r: Vec<usize>)
    ensures
        same_places(r@, children(entries@, parent, entries@.len() as int)),
{
    let mut found: Vec<usize> = Vec::new();
    let mut i: usize = 0;
    while i < entries.len()
        invariant
            0 <= i <= entries@.len(),
            same_places(found@, children(entries@, parent, i as int)),
        decreases entries@.len() - i,
    {
        if match_parent_dir_id(&entries[i], parent) {
            found.push(i);
        }
        i = i + 1;
    }
    found
}

/// The place in the table of the one entry of the directory `parent`
/// with the given name.
pub open spec fn child_entry(dir: Seq<DirEntry>, parent: u32, name: Seq<char>) -> Result<
    int,
    NetWareError,
> {
    let found = named_children(dir, parent, name, dir.len() as int);
    if found.len() == 0 {
        Err(NetWareError::NotFound)
    } else if found.len() > 1 {
        Err(NetWareError::Ambiguous)
    } else {
        Ok(found[0])
    }
}

/// Finds the one entry of the directory `current_directory_id` with the
/// name `fname`.
pub fn find_directory_entry<'a>(
    entries: &'a [DirEntry],
    current_directory_id: u32,
    fname: &str,
) -> (r: Result<&'a DirEntry, NetWareError>)
    ensures
        match r {
            Ok(de) => child_entry(entries@, current_directory_id, fname@) matches Ok(place) && 0
                <= place < entries@.len() && *de == entries@[place],
            Err(e) => child_entry(entries@, current_directory_id, fname@) == Err::<
                int,
                NetWareError,
            >(e),
        },
{
    let mut items: Vec<usize> = Vec::new();
    let mut i: usize = 0;
    while i < entries.len()
        invariant
            0 <= i <= entries@.len(),
            same_places(items@, named_children(entries@, current_directory_id, fname@, i as int)),
            forall|k: int| 0 <= k < items@.len() ==> items@[k] < entries@.len(),
        decreases entries@.len() - i,
    {
        let de = &entries[i];
        if match_parent_dir_id(de, current_directory_id) && match_dir_entry_name(de, fname) {
            items.push(i);
        }
        i = i + 1;
    }
    if items.len() == 0 {
        return Err(NetWareError::NotFound);
    }
    if items.len() != 1 {
        return Err(NetWareError::Ambiguous);
    }
    Ok(&entries[items[0]])
}

/// The id of the directory named `name` in the directory `parent`.
pub open spec fn child_directory(dir: Seq<DirEntry>, parent: u32, name: Seq<char>) -> Result<
    u32,
    NetWareError,
> {
    match child_entry(dir, parent, name) {
        Err(e) => Err(e),
        Ok(place) => match dir[place] {
            DirEntry::Directory(d) => Ok(d.entry_id as u32),
            DirEntry::File(_) => Err(NetWareError::NotFound),
        },
    }
}

/// The ids of the directories along the first `upto` pieces of a path,
/// the root's first. The first piece stands for the root, whatever it
/// holds; empty pieces are passed over.
pub open spec fn resolve_path(dir: Seq<DirEntry>, pieces: Seq<Seq<char>>, upto: int) -> Result<
    Seq<u32>,
    NetWareError,
>
    decreases upto,
{
    if upto <= 1 {
        Ok(seq![NWFS286_ROOT_ID])
    } else {
        match resolve_path(dir, pieces, upto - 1) {
            Err(e) => Err(e),
            Ok(ids) => if pieces[upto - 1].len() == 0 {
                Ok(ids)
            } else {
                match child_directory(dir, ids.last(), pieces[upto - 1]) {
                    Ok(id) => Ok(ids.push(id)),
                    Err(e) => Err(e),
                }
            },
        }
    }
}

/// A path that cannot be resolved as far as `upto` cannot be resolved any
/// further, and fails in the same way.
pub proof fn lemma_resolve_path_fails(
    dir: Seq<DirEntry>,
    pieces: Seq<Seq<char>>,
    upto: int,
    further: int,
)
    requires
        upto <= further,
        resolve_path(dir, pieces, upto) is Err,
    ensures
        resolve_path(dir, pieces, further) == resolve_path(dir, pieces, upto),
    decreases further - upto,
{
    if upto < further {
        lemma_resolve_path_fails(dir, pieces, upto, further - 1);
    }
}

/// The number of bytes that the next block of a file contributes when
/// `remaining` bytes of the file are still to be read.
pub open spec fn chunk_size(remaining: nat) -> nat {
    if remaining > BLOCK_SIZE {
        BLOCK_SIZE as nat
    } else {
        remaining
    }
}

/// The contents of a file of which `remaining` bytes are still to be
/// read, the next of them from the block `block`: each block contributes
/// a whole block, the last one what is left, and the block-allocation
/// table tells the block that follows. The reading ends when the length
/// is reached, wherever the chain may go on to.
pub open spec fn file_data(image: Seq<u8>, fat: Seq<FatEntry>, block: u16, remaining: nat) -> Result<
    Seq<u8>,
    NetWareError,
>
    decreases remaining,
{
    if remaining == 0 {
        Ok(Seq::empty())
    } else {
        let chunk = chunk_size(remaining);
        let offset = spec_block_to_offset(block);
        if offset + chunk > image.len() {
            Err(NetWareError::IoError)
        } else if block >= fat.len() {
            Err(NetWareError::FatCorrupt(block as u32))
        } else {
            extend_data(
                image.subrange(offset, offset + chunk),
                file_data(image, fat, fat[block as int].block, (remaining - chunk) as nat),
            )
        }
    }
}

/// A file that can be read has the length that its record states.
pub proof fn lemma_file_length(image: Seq<u8>, fat: Seq<FatEntry>, block: u16, remaining: nat)
    ensures
        file_data(image, fat, block, remaining) matches Ok(data) ==> data.len() == remaining,
    decreases remaining,
{
    if remaining != 0 {
        let chunk = chunk_size(remaining);
        let offset = spec_block_to_offset(block);
        if offset + chunk <= image.len() && block < fat.len() {
            lemma_file_length(image, fat, fat[block as int].block, (remaining - chunk) as nat);
        }
    }
}

/// The contents of the file named `name` in the directory `parent`.
pub open spec fn file_contents(
    image: Seq<u8>,
    dir: Seq<DirEntry>,
    fat: Seq<FatEntry>,
    parent: u32,
    name: Seq<char>,
) -> Result<Seq<u8>, NetWareError> {
    match child_entry(dir, parent, name) {
        Err(e) => Err(e),
        Ok(place) => match dir[place] {
            DirEntry::File(f) => file_data(image, fat, f.block_nr, f.size as nat),
            DirEntry::Directory(_) => Err(NetWareError::NotAFile),
        },
    }
}

/// The `which`-th of the three lists of blocks of the volume
/// information: the blocks of the directory table, of its copy, and of
/// the block-allocation table.
pub open spec fn table_list(sector: Seq<u8>, which: int) -> Seq<u16> {
    Seq::new(
        table_blocks(sector) as nat,
        |i: int|
            le16(sector, tables_offset(sector) + 4 + 2 * table_blocks(sector) * which + 2 * i) as u16,
    )
}

/// What stops the opening of the NetWare 286 volume of an image, if
/// anything does: the partition table cannot be read or names no
/// NetWare 286 partition first, the partition does not start at sector
/// 1, or the volume information or one of the tables cannot be read.
pub open spec fn open_fault(image: Seq<u8>) -> Option<NetWareError> {
    match scan_partitions(image, 0) {
        Err(e) => Some(e),
        Ok(Some((PartitionType::NetWare286, start_lba))) => {
            let sector = image.subrange(0x2000, 0x2200);
            if start_lba != 1 {
                Some(NetWareError::UnsupportedLayout)
            } else if volume_info_fault(image) is Some {
                volume_info_fault(image)
            } else if !blocks_readable(image, table_list(sector, 0)) || !blocks_readable(
                image,
                table_list(sector, 2),
            ) {
                Some(NetWareError::IoError)
            } else {
                None
            }
        },
        Ok(_) => Some(NetWareError::NoPartition),
    }
}

/// A browser over a NetWare 286 volume.
pub struct Nwfs286Shell<'a> {
    vol: VolumeInfo,
    entries: Vec<DirEntry>,
    fat: Vec<FatEntry>,
    image: &'a [u8],
}

impl<'a> Nwfs286Shell<'a> {
    /// The volume information.
    pub closed spec fn info(&self) -> VolumeInfo {
        self.vol
    }

    /// The directory table.
    pub closed spec fn table(&self) -> Seq<DirEntry> {
        self.entries@
    }

    /// The block-allocation table.
    pub closed spec fn chains(&self) -> Seq<FatEntry> {
        self.fat@
    }

    /// The bytes of the image.
    pub closed spec fn bytes(&self) -> Seq<u8> {
        self.image@
    }

    /// A browser over the volume with the given volume information,
    /// directory table and block-allocation table, which `image` holds.
    pub fn new(vol: VolumeInfo, entries: Vec<DirEntry>, fat: Vec<FatEntry>, image: &'a [u8]) -> (r:
        Self)
        ensures
            r.info() == vol,
            r.table() == entries@,
            r.chains() == fat@,
            r.bytes() == image@,
    {
        Nwfs286Shell { vol, entries, fat, image }
    }

    /// Opens the NetWare 286 volume of `image`: finds the partition,
    /// which has to start at sector 1, decodes the volume information and
    /// reads the directory table and the block-allocation table.
    pub fn open(image: &'a [u8]) -> (r: Result<Self, NetWareError>)
        ensures
            match r {
                Ok(shell) => open_fault(image@) is None && shell.bytes() == image@
                    && is_volume_info(shell.info(), image@.subrange(0x2000, 0x2200))
                    && is_directory_table(
                    shell.table(),
                    image@,
                    shell.info().directory_entries_1_blocks@,
                ) && is_fat_table(shell.chains(), image@, shell.info().fat_blocks@),
                Err(e) => open_fault(image@) == Some(e),
            },
    {
        match find_partition(image)? {
            Some((PartitionType::NetWare286, start_lba)) => {
                if start_lba != 1 {
                    return Err(NetWareError::UnsupportedLayout);
                }
                let vi = VolumeInfo::new(image)?;
                proof {
                    let sector = image@.subrange(0x2000, 0x2200);
                    assert(vi.directory_entries_1_blocks@ =~= table_list(sector, 0));
                    assert(vi.fat_blocks@ =~= table_list(sector, 2));
                }
                let entries = read_directory_entries(
                    image,
                    vi.directory_entries_1_blocks.as_slice(),
                )?;
                let fat = read_fat_table(image, vi.fat_blocks.as_slice())?;
                Ok(Nwfs286Shell::new(vi, entries, fat, image))
            },
            _ => Err(NetWareError::NoPartition),
        }
    }

    /// The volume information.
    pub fn volume_info(&self) -> (r: &VolumeInfo)
        ensures
            *r == self.info(),
    {
        &self.vol
    }

    /// The directory table.
    pub fn directory(&self) -> (r: &Vec<DirEntry>)
        ensures
            r@ == self.table(),
    {
        &self.entries
    }

    /// The block-allocation table.
    pub fn fat_table(&self) -> (r: &Vec<FatEntry>)
        ensures
            r@ == self.chains(),
    {
        &self.fat
    }

    /// Reads a file of `size` bytes whose first block is `block_nr`.
    pub fn read_file(&self, block_nr: u16, size: u32) -> (r: Result<Vec<u8>, NetWareError>)
        ensures
            match r {
                Ok(data) => file_data(self.bytes(), self.chains(), block_nr, size as nat) == Ok::<
                    Seq<u8>,
                    NetWareError,
                >(data@) && data@.len() == size,
                Err(e) => file_data(self.bytes(), self.chains(), block_nr, size as nat) == Err::<
                    Seq<u8>,
                    NetWareError,
                >(e),
            },
    {
        proof {
            lemma_file_length(self.image@, self.fat@, block_nr, size as nat);
        }
        let mut bytes_left: u32 = size;
        let mut data: Vec<u8> = Vec::new();
        let mut blk = block_nr;
        proof {
            lemma_extend_data_empty(file_data(self.image@, self.fat@, block_nr, size as nat));
        }
        while bytes_left > 0
            invariant
                file_data(self.image@, self.fat@, block_nr, size as nat) == extend_data(
                    data@,
                    file_data(self.image@, self.fat@, blk, bytes_left as nat),
                ),
            decreases bytes_left,
        {
            let chunk_size: u32 = if bytes_left > BLOCK_SIZE as u32 {
                BLOCK_SIZE as u32
            } else {
                bytes_left
            };
            let offset = block_to_offset(blk);
            if offset > self.image.len() as u64 || self.image.len() as u64 - offset
                < chunk_size as u64 {
                return Err(NetWareError::IoError);
            }
            let chunk = slice_subrange(
                self.image,
                offset as usize,
                offset as usize + chunk_size as usize,
            );
            let ghost before = data@;
            data.extend_from_slice(chunk);
            assert(data@ =~= before + chunk@);
            if blk as usize >= self.fat.len() {
                return Err(NetWareError::FatCorrupt(blk as u32));
            }
            let next = self.fat[blk as usize].block;
            proof {
                lemma_extend_data(
                    before,
                    chunk@,
                    file_data(self.image@, self.fat@, next, (bytes_left - chunk_size) as nat),
                );
            }
            blk = next;
            bytes_left = bytes_left - chunk_size;
        }
        proof {
            assert(data@ + Seq::<u8>::empty() =~= data@);
        }
        Ok(data)
    }
}

impl<'a> ShellImpl for Nwfs286Shell<'a> {
    open spec fn volume_name(&self) -> Seq<char> {
        self.info().name@
    }

    open spec fn root_directory_id(&self) -> u32 {
        NWFS286_ROOT_ID
    }

    open spec fn listing(&self, dir_id: u32) -> Seq<int> {
        children(self.table(), dir_id, self.table().len() as int)
    }

    open spec fn path_ids(&self, pieces: Seq<Seq<char>>) -> Result<Seq<u32>, NetWareError> {
        resolve_path(self.table(), pieces, pieces.len() as int)
    }

    open spec fn file_content(&self, dir_id: u32, name: Seq<char>) -> Result<
        Seq<u8>,
        NetWareError,
    > {
        file_contents(self.bytes(), self.table(), self.chains(), dir_id, name)
    }

    fn get_volume_name(&self) -> (r: String) {
        self.vol.name.clone()
    }

    fn get_root_directory_id(&self) -> (r: u32) {
        NWFS286_ROOT_ID
    }

    fn dir(&self, current_dir_id: u32) -> (r: Vec<usize>) {
        list_children(self.entries.as_slice(), current_dir_id)
    }

    fn lookup_directory(&self, pieces: &[String]) -> (r: Result<Vec<u32>, NetWareError>) {
        let ghost names = piece_names(pieces@);
        let mut directory_ids: Vec<u32> = Vec::new();
        directory_ids.push(NWFS286_ROOT_ID);
        let mut current = NWFS286_ROOT_ID;
        assert(directory_ids@ =~= seq![NWFS286_ROOT_ID]);
        let mut i: usize = 1;
        while i < pieces.len()
            invariant
                1 <= i,
                i <= pieces@.len() || i == 1,
                directory_ids@.len() > 0,
                directory_ids@.len() <= i,
                current == directory_ids@.last(),
                names == piece_names(pieces@),
                resolve_path(self.entries@, names, i as int) == Ok::<Seq<u32>, NetWareError>(
                    directory_ids@,
                ),
            decreases pieces@.len() - i,
        {
            let piece = pieces[i].as_str();
            if !piece.is_empty() {
                proof {
                    if child_directory(self.entries@, current, piece@) is Err {
                        lemma_resolve_path_fails(
                            self.entries@,
                            names,
                            i + 1,
                            pieces@.len() as int,
                        );
                    }
                }
                match find_directory_entry(self.entries.as_slice(), current, piece)? {
                    DirEntry::Directory(d) => {
                        directory_ids.push(d.entry_id as u32);
                        current = d.entry_id as u32;
                    },
                    _ => {
                        return Err(NetWareError::NotFound);
                    },
                }
            }
            i = i + 1;
        }
        assert(resolve_path(self.entries@, names, pieces@.len() as int) == resolve_path(
            self.entries@,
            names,
            i as int,
        ));
        Ok(directory_ids)
    }

    fn retrieve_file_content(&mut self, current_dir_id: u32, fname: &str) -> (r: Result<
        Vec<u8>,
        NetWareError,
    >)
        ensures
            *final(self) == *old(self),
            r matches Ok(data) ==> child_entry(old(self).table(), current_dir_id, fname@)
                matches Ok(place) && old(self).table()[place] matches DirEntry::File(f)
                && data@.len() == f.size,
    {
        match find_directory_entry(self.entries.as_slice(), current_dir_id, fname)? {
            DirEntry::File(f) => self.read_file(f.block_nr, f.size),
            _ => Err(NetWareError::NotAFile),
        }
    }

    fn handle_command(&mut self, _current_dir_id: u32, _fields: &Vec<&str>) -> (r: bool)
        ensures
            !r,
            *final(self) == *old(self),
    {
        false
    }
}

/// The children found by name are exactly the entries of the directory
/// with that name, each once and in ascending order.
pub proof fn lemma_named_children(dir: Seq<DirEntry>, parent: u32, name: Seq<char>, upto: int)
    requires
        0 <= upto <= dir.len(),
    ensures
        forall|i: int|
            named_children(dir, parent, name, upto).contains(i) <==> 0 <= i < upto
                && is_named_child(dir[i], parent, name),
        forall|a: int, b: int|
            0 <= a < b < named_children(dir, parent, name, upto).len() ==> named_children(
                dir,
                parent,
                name,
                upto,
            )[a] < named_children(dir, parent, name, upto)[b],
    decreases upto,
{
    if upto > 0 {
        lemma_named_children(dir, parent, name, upto - 1);
        let rest = named_children(dir, parent, name, upto - 1);
        let all = named_children(dir, parent, name, upto);
        if is_named_child(dir[upto - 1], parent, name) {
            assert(all == rest.push(upto - 1));
            assert(all[all.len() - 1] == upto - 1);
            assert forall|i: int| all.contains(i) <==> 0 <= i < upto && is_named_child(
                dir[i],
                parent,
                name,
            ) by {
                if all.contains(i) {
                    let k = choose|k: int| 0 <= k < all.len() && all[k] == i;
                    if k < rest.len() {
                        assert(rest[k] == i);
                        assert(rest.contains(i));
                    }
                }
                if 0 <= i < upto - 1 && is_named_child(dir[i], parent, name) {
                    assert(rest.contains(i));
                    let k = choose|k: int| 0 <= k < rest.len() && rest[k] == i;
                    assert(all[k] == i);
                }
            }
            assert forall|a: int, b: int| 0 <= a < b < all.len() implies all[a] < all[b] by {
                if b == all.len() - 1 {
                    assert(rest[a] == all[a]);
                    assert(rest.contains(all[a]));
                }
            }
        }
    }
}

/// Names that differ only in the case of ASCII letters find the same
/// children.
pub proof fn lemma_named_children_ignore_case(
    dir: Seq<DirEntry>,
    parent: u32,
    name: Seq<char>,
    other: Seq<char>,
    upto: int,
)
    requires
        names_match(name, other),
    ensures
        named_children(dir, parent, name, upto) == named_children(dir, parent, other, upto),
    decreases upto,
{
    if upto > 0 {
        lemma_named_children_ignore_case(dir, parent, name, other, upto - 1);
        let entry = entry_name(dir[upto - 1]);
        lemma_names_match_symmetric(name, other);
        if names_match(entry, name) {
            lemma_names_match_transitive(entry, name, other);
        }
        if names_match(entry, other) {
            lemma_names_match_transitive(entry, other, name);
        }
    }
}

/// The lookup of a path pays no heed to the case of ASCII letters: two
/// paths whose pieces, the first apart, differ in nothing else resolve
/// alike.
pub proof fn lemma_resolve_path_ignores_case(
    dir: Seq<DirEntry>,
    pieces: Seq<Seq<char>>,
    others: Seq<Seq<char>>,
    upto: int,
)
    requires
        upto <= pieces.len(),
        upto <= others.len(),
        forall|i: int| 1 <= i < upto ==> names_match(#[trigger] pieces[i], others[i]),
    ensures
        resolve_path(dir, pieces, upto) == resolve_path(dir, others, upto),
    decreases upto,
{
    if upto > 1 {
        lemma_resolve_path_ignores_case(dir, pieces, others, upto - 1);
        assert(names_match(pieces[upto - 1], others[upto - 1]));
        if let Ok(ids) = resolve_path(dir, pieces, upto - 1) {
            lemma_named_children_ignore_case(
                dir,
                ids.last(),
                pieces[upto - 1],
                others[upto - 1],
                dir.len() as int,
            );
        }
    }
}

/// A name that two entries of a directory share finds nothing: the
/// lookup is ambiguous.
pub proof fn lemma_shared_name_is_ambiguous(
    dir: Seq<DirEntry>,
    parent: u32,
    name: Seq<char>,
    i: int,
    j: int,
)
    requires
        0 <= i < dir.len(),
        0 <= j < dir.len(),
        i != j,
        is_named_child(dir[i], parent, name),
        is_named_child(dir[j], parent, name),
    ensures
        child_entry(dir, parent, name) == Err::<int, NetWareError>(NetWareError::Ambiguous),
{
    lemma_named_children(dir, parent, name, dir.len() as int);
    let found = named_children(dir, parent, name, dir.len() as int);
    assert(found.contains(i));
    assert(found.contains(j));
    let a = choose|a: int| 0 <= a < found.len() && found[a] == i;
    let b = choose|b: int| 0 <= b < found.len() && found[b] == j;
    assert(a != b);
}

} // verus!
