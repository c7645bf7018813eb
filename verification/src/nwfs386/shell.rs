//! Queries over the directory table of a NetWare 386 volume.

use vstd::prelude::*;

use crate::nwfs386::parser::DirEntry;
use crate::nwfs386::volume::{file_data, lemma_file_length, LogicalVolume};
use crate::shell_cli::{piece_names, same_places, ShellImpl};
use crate::types::NetWareError;
use crate::util::{lemma_names_match_symmetric, lemma_names_match_transitive, names_match};

verus! {

/// The id of the root directory.
pub const NWFS386_ROOT_ID: u32 = 0;

/// The id of the directory that holds the entry; for a record that is
/// neither file nor directory, the mark that tells its kind.
pub open spec fn entry_parent(de: DirEntry) -> u32 {
    match de {
        DirEntry::Available(v) => v.parent_dir_id,
        DirEntry::GrantList(v) => v.parent_dir_id,
        DirEntry::VolumeInformation(v) => v.parent_dir_id,
        DirEntry::File(v) => v.parent_dir_id,
        DirEntry::Directory(v) => v.parent_dir_id,
    }
}

/// Whether the entry is a file or directory with the given name, upper
/// and lower case of ASCII letters counting as equal.
pub open spec fn entry_named(de: DirEntry, name: Seq<char>) -> bool {
    match de {
        DirEntry::File(v) => names_match(v.name@, name),
        DirEntry::Directory(v) => names_match(v.name@, name),
        _ => false,
    }
}

/// Whether the entry is a file that has been deleted.
pub open spec fn entry_deleted(de: DirEntry) -> bool {
    match de {
        DirEntry::File(v) => v.delete_time.spec_is_valid(),
        _ => false,
    }
}

/// Whether the entry is a live file or directory of the directory
/// `parent`.
pub open spec fn is_child(de: DirEntry, parent: u32) -> bool {
    &&& entry_parent(de) == parent
    &&& de is File || de is Directory
    &&& !entry_deleted(de)
}

/// Whether the entry is a live file or directory of the directory
/// `parent` with the given name.
pub open spec fn is_named_child(de: DirEntry, parent: u32, name: Seq<char>) -> bool {
    &&& entry_parent(de) == parent
    &&& entry_named(de, name)
    &&& !entry_deleted(de)
}

/// Whether the entry lies in the directory `parent_dir_id`.
pub fn match_parent_dir_id(de: &DirEntry, parent_dir_id: u32) -> (r: bool)
    ensures
        r == (entry_parent(*de) == parent_dir_id),
{
    parent_dir_id == match de {
        DirEntry::Available(v) => v.parent_dir_id,
        DirEntry::GrantList(v) => v.parent_dir_id,
        DirEntry::VolumeInformation(v) => v.parent_dir_id,
        DirEntry::File(v) => v.parent_dir_id,
        DirEntry::Directory(v) => v.parent_dir_id,
    }
}

/// Whether the entry is a file or directory with the given name.
pub fn match_dir_entry_name(de: &DirEntry, name: &str) -> (r: bool)
    ensures
        r == entry_named(*de, name@),
{
    match de {
        DirEntry::File(v) => v.name.as_str().eq_ignore_ascii_case(name),
        DirEntry::Directory(v) => v.name.as_str().eq_ignore_ascii_case(name),
        _ => false,
    }
}

/// Whether the entry is a file that has been deleted.
pub fn is_deleted_dir_entry(de: &DirEntry) -> (r: bool)
    ensures
        r == entry_deleted(*de),
{
    match de {
        DirEntry::File(v) => v.delete_time.is_valid(),
        _ => false,
    }
}

/// The places in the table, among the first `upto`, of the live files and
/// directories of the directory `parent`, in ascending order.
pub open spec fn children(dir: Seq<DirEntry>, parent: u32, upto: int) -> Seq<int>
    decreases upto,
{
    if upto <= 0 {
        Seq::empty()
    } else if is_child(dir[upto - 1], parent) {
        children(dir, parent, upto - 1).push(upto - 1)
    } else {
        children(dir, parent, upto - 1)
    }
}

/// The places in the table, among the first `upto`, of the live files and
/// directories of the directory `parent` with the given name, in
/// ascending order.
pub open spec fn named_children(dir: Seq<DirEntry>, parent: u32, name: Seq<char>, upto: int) -> Seq<
    int,
>
    decreases upto,
{
    if upto <= 0 {
        Seq::empty()
    } else if is_named_child(dir[upto - 1], parent, name) {
        named_children(dir, parent, name, upto - 1).push(upto - 1)
    } else {
        named_children(dir, parent, name, upto - 1)
    }
}

/// The places in the table of the live files and directories of the
/// directory `parent`.
pub fn list_children(directory: &[DirEntry], parent: u32) -> (r: Vec<usize>)
    ensures
        same_places(r@, children(directory@, parent, directory@.len() as int)),
{
    let mut found: Vec<usize> = Vec::new();
    let mut i: usize = 0;
    while i < directory.len()
        invariant
            0 <= i <= directory@.len(),
            same_places(found@, children(directory@, parent, i as int)),
        decreases directory@.len() - i,
    {
        let de = &directory[i];
        let listed = match de {
            DirEntry::File(_) => true,
            DirEntry::Directory(_) => true,
            _ => false,
        };
        if match_parent_dir_id(de, parent) && listed && !is_deleted_dir_entry(de) {
            found.push(i);
        }
        i = i + 1;
    }
    found
}

/// The places in the table of the live files and directories of the
/// directory `parent` with the given name.
pub fn find_children(directory: &[DirEntry], parent: u32, name: &str) -> (r: Vec<usize>)
    ensures
        same_places(r@, named_children(directory@, parent, name@, directory@.len() as int)),
        forall|k: int| 0 <= k < r@.len() ==> r@[k] < directory@.len(),
{
    let mut found: Vec<usize> = Vec::new();
    let mut i: usize = 0;
    while i < directory.len()
        invariant
            0 <= i <= directory@.len(),
            same_places(found@, named_children(directory@, parent, name@, i as int)),
            forall|k: int| 0 <= k < found@.len() ==> found@[k] < directory@.len(),
        decreases directory@.len() - i,
    {
        let de = &directory[i];
        if match_parent_dir_id(de, parent) && match_dir_entry_name(de, name)
            && !is_deleted_dir_entry(de) {
            found.push(i);
        }
        i = i + 1;
    }
    found
}

/// The id of the directory named `name` in the directory `parent`. The
/// name has to belong to exactly one live entry, and that entry has to be
/// a directory.
pub open spec fn child_directory(dir: Seq<DirEntry>, parent: u32, name: Seq<char>) -> Result<
    u32,
    NetWareError,
> {
    let found = named_children(dir, parent, name, dir.len() as int);
    if found.len() == 0 {
        Err(NetWareError::NotFound)
    } else if found.len() > 1 {
        Err(NetWareError::Ambiguous)
    } else {
        match dir[found[0]] {
            DirEntry::Directory(d) => Ok(d.directory_id),
            _ => Err(NetWareError::NotFound),
        }
    }
}

/// The first block and the length of the file named `name` in the
/// directory `parent`. The name has to belong to exactly one live entry,
/// and that entry has to be a file.
pub open spec fn child_file(dir: Seq<DirEntry>, parent: u32, name: Seq<char>) -> Result<
    (u32, u32),
    NetWareError,
> {
    let found = named_children(dir, parent, name, dir.len() as int);
    if found.len() == 0 {
        Err(NetWareError::NotFound)
    } else if found.len() > 1 {
        Err(NetWareError::Ambiguous)
    } else {
        match dir[found[0]] {
            DirEntry::File(f) => Ok((f.block_nr, f.length)),
            _ => Err(NetWareError::NotAFile),
        }
    }
}

/// The ids of the directories along the first `upto` pieces of a path,
/// the root's first. The first piece stands for the root, whatever it
/// holds; empty pieces are passed over.
pub open spec fn resolve_path(dir: Seq<DirEntry>, root: u32, pieces: Seq<Seq<char>>, upto: int) -> Result<
    Seq<u32>,
    NetWareError,
>
    decreases upto,
{
    if upto <= 1 {
        Ok(seq![root])
    } else {
        match resolve_path(dir, root, pieces, upto - 1) {
            Err(e) => Err(e),
            Ok(ids) => if pieces[upto - 1].len() == 0 {
                Ok(ids)
            } else {
                match child_directory(dir, ids.last(), pieces[upto - 1]) {
                    Ok(id) => Ok(ids.push(id)),
                    Err(e) => Err(e),
                }
            },
        }
    }
}

/// A path that cannot be resolved as far as `upto` cannot be resolved any
/// further, and fails in the same way.
pub proof fn lemma_resolve_path_fails(
    dir: Seq<DirEntry>,
    root: u32,
    pieces: Seq<Seq<char>>,
    upto: int,
    further: int,
)
    requires
        upto <= further,
        resolve_path(dir, root, pieces, upto) is Err,
    ensures
        resolve_path(dir, root, pieces, further) == resolve_path(dir, root, pieces, upto),
    decreases further - upto,
{
    if upto < further {
        lemma_resolve_path_fails(dir, root, pieces, upto, further - 1);
    }
}

/// Resolves a path to the ids of the directories along it, the root's
/// first. The first piece stands for the root; empty pieces are passed
/// over. Each other piece has to name exactly one live entry of the
/// directory reached so far, and that entry has to be a directory.
pub fn lookup_directory(directory: &[DirEntry], pieces: &[String]) -> (r: Result<
    Vec<u32>,
    NetWareError,
>)
    ensures
        match r {
            Ok(ids) => resolve_path(
                directory@,
                NWFS386_ROOT_ID,
                piece_names(pieces@),
                pieces@.len() as int,
            ) == Ok::<Seq<u32>, NetWareError>(ids@) && 1 <= ids@.len() && (ids@.len()
                <= pieces@.len() || ids@.len() == 1),
            Err(e) => resolve_path(
                directory@,
                NWFS386_ROOT_ID,
                piece_names(pieces@),
                pieces@.len() as int,
            ) == Err::<Seq<u32>, NetWareError>(e),
        },
{
    let ghost names = piece_names(pieces@);
    let mut directory_ids: Vec<u32> = Vec::new();
    directory_ids.push(NWFS386_ROOT_ID);
    let mut current = NWFS386_ROOT_ID;
    assert(directory_ids@ =~= seq![NWFS386_ROOT_ID]);
    let mut i: usize = 1;
    while i < pieces.len()
        invariant
            1 <= i,
            i <= pieces@.len() || i == 1,
            directory_ids@.len() > 0,
            directory_ids@.len() <= i,
            current == directory_ids@.last(),
            names == piece_names(pieces@),
            resolve_path(directory@, NWFS386_ROOT_ID, names, i as int) == Ok::<
                Seq<u32>,
                NetWareError,
            >(directory_ids@),
        decreases pieces@.len() - i,
    {
        let piece = pieces[i].as_str();
        if !piece.is_empty() {
            let matches = find_children(directory, current, piece);
            proof {
                if child_directory(directory@, current, piece@) is Err {
                    lemma_resolve_path_fails(
                        directory@,
                        NWFS386_ROOT_ID,
                        names,
                        i + 1,
                        pieces@.len() as int,
                    );
                }
            }
            if matches.len() == 0 {
                return Err(NetWareError::NotFound);
            }
            if matches.len() != 1 {
                return Err(NetWareError::Ambiguous);
            }
            match &directory[matches[0]] {
                DirEntry::Directory(v) => {
                    directory_ids.push(v.directory_id);
                    current = v.directory_id;
                },
                _ => {
                    return Err(NetWareError::NotFound);
                },
            }
        }
        i = i + 1;
    }
    assert(resolve_path(directory@, NWFS386_ROOT_ID, names, pieces@.len() as int) == resolve_path(
        directory@,
        NWFS386_ROOT_ID,
        names,
        i as int,
    ));
    Ok(directory_ids)
}

/// Finds the file named `fname` in the directory
/// `current_directory_id` and returns its first block and its length.
pub fn find_file_entry(vol: &LogicalVolume, current_directory_id: u32, fname: &str) -> (r: Result<
    (u32, u32),
    NetWareError,
>)
    ensures
        r == child_file(vol.entries(), current_directory_id, fname@),
{
    let directory = vol.directory();
    let items = find_children(directory.as_slice(), current_directory_id, fname);
    if items.len() == 0 {
        return Err(NetWareError::NotFound);
    }
    if items.len() != 1 {
        return Err(NetWareError::Ambiguous);
    }
    if let DirEntry::File(fe) = &directory[items[0]] {
        return Ok((fe.block_nr, fe.length));
    }
    Err(NetWareError::NotAFile)
}

/// The contents of the file named `name` in the directory `parent`.
pub open spec fn file_contents(vol: LogicalVolume, parent: u32, name: Seq<char>) -> Result<
    Seq<u8>,
    NetWareError,
> {
    match child_file(vol.entries(), parent, name) {
        Err(e) => Err(e),
        Ok(file) => file_data(vol.segments(), file.0, file.1 as nat),
    }
}

/// A browser over a NetWare 386 volume.
pub struct Nwfs386Shell<'a, 'b> {
    vol: &'a LogicalVolume<'b>,
}

impl<'a, 'b> Nwfs386Shell<'a, 'b> {
    /// The volume that is browsed.
    pub closed spec fn volume(&self) -> LogicalVolume<'b> {
        *self.vol
    }

    /// A browser over `vol`.
    pub fn new(vol: &'a LogicalVolume<'b>) -> (r: Self)
        ensures
            r.volume() == *vol,
    {
        Nwfs386Shell { vol }
    }
}

impl<'a, 'b> ShellImpl for Nwfs386Shell<'a, 'b> {
    open spec fn volume_name(&self) -> Seq<char> {
        self.volume().segments()[0].info.name@
    }

    open spec fn root_directory_id(&self) -> u32 {
        NWFS386_ROOT_ID
    }

    open spec fn listing(&self, dir_id: u32) -> Seq<int> {
        children(self.volume().entries(), dir_id, self.volume().entries().len() as int)
    }

    open spec fn path_ids(&self, pieces: Seq<Seq<char>>) -> Result<Seq<u32>, NetWareError> {
        resolve_path(self.volume().entries(), NWFS386_ROOT_ID, pieces, pieces.len() as int)
    }

    open spec fn file_content(&self, dir_id: u32, name: Seq<char>) -> Result<
        Seq<u8>,
        NetWareError,
    > {
        file_contents(self.volume(), dir_id, name)
    }

    fn get_volume_name(&self) -> (r: String) {
        self.vol.volumes()[0].info.name.clone()
    }

    fn get_root_directory_id(&self) -> (r: u32) {
        NWFS386_ROOT_ID
    }

    fn dir(&self, current_dir_id: u32) -> (r: Vec<usize>) {
        list_children(self.vol.directory().as_slice(), current_dir_id)
    }

    fn lookup_directory(&self, pieces: &[String]) -> (r: Result<Vec<u32>, NetWareError>) {
        lookup_directory(self.vol.directory().as_slice(), pieces)
    }

    fn retrieve_file_content(&mut self, current_dir_id: u32, fname: &str) -> (r: Result<
        Vec<u8>,
        NetWareError,
    >)
        ensures
            final(self).volume() == old(self).volume(),
            r matches Ok(data) ==> data@.len() == child_file(
                old(self).volume().entries(),
                current_dir_id,
                fname@,
            )->Ok_0.1,
    {
        let (block_nr, length) = find_file_entry(self.vol, current_dir_id, fname)?;
        self.vol.read_file(block_nr, length)
    }

    fn handle_command(&mut self, _current_dir_id: u32, _fields: &Vec<&str>) -> (r: bool)
        ensures
            !r,
            final(self).volume() == old(self).volume(),
    {
        false
    }
}

/// The children found by name are exactly the live entries of the
/// directory with that name, each once and in ascending order.
pub proof fn lemma_named_children(dir: Seq<DirEntry>, parent: u32, name: Seq<char>, upto: int)
    requires
        0 <= upto <= dir.len(),
    ensures
        forall|i: int|
            named_children(dir, parent, name, upto).contains(i) <==> 0 <= i < upto
                && is_named_child(dir[i], parent, name),
        forall|a: int, b: int|
            0 <= a < b < named_children(dir, parent, name, upto).len() ==> named_children(
                dir,
                parent,
                name,
                upto,
            )[a] < named_children(dir, parent, name, upto)[b],
    decreases upto,
{
    if upto > 0 {
        lemma_named_children(dir, parent, name, upto - 1);
        let rest = named_children(dir, parent, name, upto - 1);
        let all = named_children(dir, parent, name, upto);
        if is_named_child(dir[upto - 1], parent, name) {
            assert(all == rest.push(upto - 1));
            assert(all[all.len() - 1] == upto - 1);
            assert forall|i: int| all.contains(i) <==> 0 <= i < upto && is_named_child(
                dir[i],
                parent,
                name,
            ) by {
                if all.contains(i) {
                    let k = choose|k: int| 0 <= k < all.len() && all[k] == i;
                    if k < rest.len() {
                        assert(rest[k] == i);
                        assert(rest.contains(i));
                    }
                }
                if 0 <= i < upto - 1 && is_named_child(dir[i], parent, name) {
                    assert(rest.contains(i));
                    let k = choose|k: int| 0 <= k < rest.len() && rest[k] == i;
                    assert(all[k] == i);
                }
            }
            assert forall|a: int, b: int| 0 <= a < b < all.len() implies all[a] < all[b] by {
                if b == all.len() - 1 {
                    assert(rest[a] == all[a]);
                    assert(rest.contains(all[a]));
                }
            }
        }
    }
}

/// The listed children are exactly the live files and directories of the
/// directory.
pub proof fn lemma_children(dir: Seq<DirEntry>, parent: u32, upto: int)
    requires
        0 <= upto <= dir.len(),
    ensures
        forall|i: int|
            children(dir, parent, upto).contains(i) <==> 0 <= i < upto && is_child(dir[i], parent),
    decreases upto,
{
    if upto > 0 {
        lemma_children(dir, parent, upto - 1);
        let rest = children(dir, parent, upto - 1);
        let all = children(dir, parent, upto);
        if is_child(dir[upto - 1], parent) {
            assert(all == rest.push(upto - 1));
            assert(all[all.len() - 1] == upto - 1);
            assert forall|i: int| all.contains(i) <==> 0 <= i < upto && is_child(
                dir[i],
                parent,
            ) by {
                if all.contains(i) {
                    let k = choose|k: int| 0 <= k < all.len() && all[k] == i;
                    if k < rest.len() {
                        assert(rest[k] == i);
                        assert(rest.contains(i));
                    }
                }
                if 0 <= i < upto - 1 && is_child(dir[i], parent) {
                    assert(rest.contains(i));
                    let k = choose|k: int| 0 <= k < rest.len() && rest[k] == i;
                    assert(all[k] == i);
                }
            }
        }
    }
}

/// Names that differ only in the case of ASCII letters find the same
/// children.
pub proof fn lemma_named_children_ignore_case(
    dir: Seq<DirEntry>,
    parent: u32,
    name: Seq<char>,
    other: Seq<char>,
    upto: int,
)
    requires
        names_match(name, other),
    ensures
        named_children(dir, parent, name, upto) == named_children(dir, parent, other, upto),
    decreases upto,
{
    if upto > 0 {
        lemma_named_children_ignore_case(dir, parent, name, other, upto - 1);
        let de = dir[upto - 1];
        lemma_names_match_symmetric(name, other);
        match de {
            DirEntry::File(v) => {
                if names_match(v.name@, name) {
                    lemma_names_match_transitive(v.name@, name, other);
                }
                if names_match(v.name@, other) {
                    lemma_names_match_transitive(v.name@, other, name);
                }
            },
            DirEntry::Directory(v) => {
                if names_match(v.name@, name) {
                    lemma_names_match_transitive(v.name@, name, other);
                }
                if names_match(v.name@, other) {
                    lemma_names_match_transitive(v.name@, other, name);
                }
            },
            _ => {},
        }
    }
}

/// The lookup of a path pays no heed to the case of ASCII letters: two
/// paths whose pieces, the first apart, differ in nothing else resolve
/// alike.
pub proof fn lemma_resolve_path_ignores_case(
    dir: Seq<DirEntry>,
    root: u32,
    pieces: Seq<Seq<char>>,
    others: Seq<Seq<char>>,
    upto: int,
)
    requires
        upto <= pieces.len(),
        upto <= others.len(),
        forall|i: int| 1 <= i < upto ==> names_match(#[trigger] pieces[i], others[i]),
    ensures
        resolve_path(dir, root, pieces, upto) == resolve_path(dir, root, others, upto),
    decreases upto,
{
    if upto > 1 {
        lemma_resolve_path_ignores_case(dir, root, pieces, others, upto - 1);
        assert(names_match(pieces[upto - 1], others[upto - 1]));
        if let Ok(ids) = resolve_path(dir, root, pieces, upto - 1) {
            lemma_named_children_ignore_case(
                dir,
                ids.last(),
                pieces[upto - 1],
                others[upto - 1],
                dir.len() as int,
            );
        }
    }
}

/// A name that two live entries of a directory share finds neither a
/// directory nor a file: the lookup is ambiguous.
pub proof fn lemma_shared_name_is_ambiguous(
    dir: Seq<DirEntry>,
    parent: u32,
    name: Seq<char>,
    i: int,
    j: int,
)
    requires
        0 <= i < dir.len(),
        0 <= j < dir.len(),
        i != j,
        is_named_child(dir[i], parent, name),
        is_named_child(dir[j], parent, name),
    ensures
        child_directory(dir, parent, name) == Err::<u32, NetWareError>(NetWareError::Ambiguous),
        child_file(dir, parent, name) == Err::<(u32, u32), NetWareError>(NetWareError::Ambiguous),
{
    lemma_named_children(dir, parent, name, dir.len() as int);
    let found = named_children(dir, parent, name, dir.len() as int);
    assert(found.contains(i));
    assert(found.contains(j));
    let a = choose|a: int| 0 <= a < found.len() && found[a] == i;
    let b = choose|b: int| 0 <= b < found.len() && found[b] == j;
    assert(a != b);
}

/// A path fails as ambiguous where, in the directory reached so far, two
/// live entries share the name of its next piece.
pub proof fn lemma_resolve_path_ambiguous(
    dir: Seq<DirEntry>,
    root: u32,
    pieces: Seq<Seq<char>>,
    upto: int,
    i: int,
    j: int,
)
    requires
        1 <= upto < pieces.len(),
        resolve_path(dir, root, pieces, upto) is Ok,
        pieces[upto].len() > 0,
        0 <= i < dir.len(),
        0 <= j < dir.len(),
        i != j,
        is_named_child(dir[i], resolve_path(dir, root, pieces, upto)->Ok_0.last(), pieces[upto]),
        is_named_child(dir[j], resolve_path(dir, root, pieces, upto)->Ok_0.last(), pieces[upto]),
    ensures
        resolve_path(dir, root, pieces, pieces.len() as int) == Err::<Seq<u32>, NetWareError>(
            NetWareError::Ambiguous,
        ),
{
    let parent = resolve_path(dir, root, pieces, upto)->Ok_0.last();
    lemma_shared_name_is_ambiguous(dir, parent, pieces[upto], i, j);
    lemma_resolve_path_fails(dir, root, pieces, upto + 1, pieces.len() as int);
}

/// A deleted file is not listed, whatever directory is listed, and not
/// found, whatever name is looked for.
pub proof fn lemma_deleted_file_excluded(
    dir: Seq<DirEntry>,
    parent: u32,
    name: Seq<char>,
    i: int,
)
    requires
        0 <= i < dir.len(),
        entry_deleted(dir[i]),
    ensures
        !children(dir, parent, dir.len() as int).contains(i),
        !named_children(dir, parent, name, dir.len() as int).contains(i),
{
    lemma_children(dir, parent, dir.len() as int);
    lemma_named_children(dir, parent, name, dir.len() as int);
}

/// A file is not found where every entry of the directory with its name
/// has been deleted.
pub proof fn lemma_deleted_file_not_found(dir: Seq<DirEntry>, parent: u32, name: Seq<char>)
    requires
        forall|i: int|
            0 <= i < dir.len() && entry_parent(#[trigger] dir[i]) == parent && entry_named(
                dir[i],
                name,
            ) ==> entry_deleted(dir[i]),
    ensures
        child_file(dir, parent, name) == Err::<(u32, u32), NetWareError>(NetWareError::NotFound),
{
    lemma_named_children(dir, parent, name, dir.len() as int);
    let found = named_children(dir, parent, name, dir.len() as int);
    if found.len() > 0 {
        assert(found.contains(found[0]));
    }
}

/// A file that can be retrieved has the length that its record states.
pub proof fn lemma_file_contents_length(vol: LogicalVolume, parent: u32, name: Seq<char>)
    ensures
        file_contents(vol, parent, name) matches Ok(data) ==> child_file(
            vol.entries(),
            parent,
            name,
        ) matches Ok(file) && data.len() == file.1,
{
    if let Ok(file) = child_file(vol.entries(), parent, name) {
        lemma_file_length(vol.segments(), file.0, file.1 as nat);
    }
}

} // verus!
