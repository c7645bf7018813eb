//! What a file-system browser offers to the shell that drives it.

use vstd::prelude::*;
use vstd::string::{StrSliceExecFns, StringExecFns};

use crate::types::NetWareError;

verus! {

/// The names that the pieces of a path hold.
pub open spec fn piece_names(pieces: Seq<String>) -> Seq<Seq<char>> {
    Seq::new(pieces.len(), |i: int| pieces[i]@)
}

/// Whether the list `found` holds the places `places`.
pub open spec fn same_places(found: Seq<usize>, places: Seq<int>) -> bool {
    &&& found.len() == places.len()
    &&& forall|k: int| 0 <= k < found.len() ==> found[k] == places[k]
}

/// A browser over one volume. The shell keeps the current directory and
/// hands its id to each query.
pub trait ShellImpl: Sized {
    /// The name of the volume.
    spec fn volume_name(&self) -> Seq<char>;

    /// The id of the root directory.
    spec fn root_directory_id(&self) -> u32;

    /// The places in the directory table of the entries of the directory
    /// `dir_id`, in the order of the table.
    spec fn listing(&self, dir_id: u32) -> Seq<int>;

    /// The ids of the directories along a path, the root's first. The
    /// first piece stands for the root; empty pieces are passed over.
    spec fn path_ids(&self, pieces: Seq<Seq<char>>) -> Result<Seq<u32>, NetWareError>;

    /// The contents of the file `name` of the directory `dir_id`.
    spec fn file_content(&self, dir_id: u32, name: Seq<char>) -> Result<Seq<u8>, NetWareError>;

    /// The name of the volume.
    fn get_volume_name(&self) -> (r: String)
        ensures
            r@ == self.volume_name(),
    ;

    /// The id of the root directory.
    fn get_root_directory_id(&self) -> (r: u32)
        ensures
            r == self.root_directory_id(),
    ;

    /// The entries of the directory `current_dir_id`, each by its place
    /// in the directory table, in the order of the table.
    fn dir(&self, current_dir_id: u32) -> (r: Vec<usize>)
        ensures
            same_places(r@, self.listing(current_dir_id)),
    ;

    /// The ids of the directories along a path, the root's first: one
    /// for the root and one for each piece behind the first that is not
    /// empty.
    fn lookup_directory(&self, pieces: &[String]) -> (r: Result<Vec<u32>, NetWareError>)
        ensures
            match r {
                Ok(ids) => self.path_ids(piece_names(pieces@)) == Ok::<Seq<u32>, NetWareError>(
                    ids@,
                ) && 1 <= ids@.len() && (ids@.len() <= pieces@.len() || ids@.len() == 1),
                Err(e) => self.path_ids(piece_names(pieces@)) == Err::<Seq<u32>, NetWareError>(e),
            },
    ;

    /// The contents of the file `fname` of the directory
    /// `current_dir_id`.
    fn retrieve_file_content(&mut self, current_dir_id: u32, fname: &str) -> (r: Result<
        Vec<u8>,
        NetWareError,
    >)
        ensures
            match r {
                Ok(data) => old(self).file_content(current_dir_id, fname@) == Ok::<
                    Seq<u8>,
                    NetWareError,
                >(data@),
                Err(e) => old(self).file_content(current_dir_id, fname@) == Err::<
                    Seq<u8>,
                    NetWareError,
                >(e),
            },
    ;

    /// Handles a command that only this browser knows, and says whether
    /// it did. A command that it does not handle leaves it as it was.
    fn handle_command(&mut self, current_dir_id: u32, fields: &Vec<&str>) -> (r: bool)
        ensures
            !r ==> *final(self) == *old(self),
    ;
}

/// The pieces of a path: what stands before, between and behind its
/// slashes.
pub open spec fn split_at_slash(path: Seq<char>) -> Seq<Seq<char>>
    decreases path.len(),
{
    if path.len() == 0 {
        seq![Seq::empty()]
    } else if path.last() == '/' {
        split_at_slash(path.drop_last()).push(Seq::empty())
    } else {
        let pieces = split_at_slash(path.drop_last());
        pieces.drop_last().push(pieces.last().push(path.last()))
    }
}

/// The path that the pieces make up, with a slash between each two.
pub open spec fn join_with_slash(pieces: Seq<Seq<char>>) -> Seq<char>
    decreases pieces.len(),
{
    if pieces.len() == 0 {
        Seq::empty()
    } else if pieces.len() == 1 {
        pieces[0]
    } else {
        join_with_slash(pieces.drop_last()) + seq!['/'] + pieces.last()
    }
}

/// A path has at least one piece, no piece holds a slash, and the pieces
/// joined by slashes are the path again.
pub proof fn lemma_split_at_slash(path: Seq<char>)
    ensures
        split_at_slash(path).len() >= 1,
        forall|i: int, j: int|
            0 <= i < split_at_slash(path).len() && 0 <= j < split_at_slash(path)[i].len()
                ==> split_at_slash(path)[i][j] != '/',
        join_with_slash(split_at_slash(path)) == path,
    decreases path.len(),
{
    if path.len() == 0 {
        assert(join_with_slash(seq![Seq::<char>::empty()]) =~= path);
    } else {
        let shorter = path.drop_last();
        lemma_split_at_slash(shorter);
        let pieces = split_at_slash(shorter);
        if path.last() == '/' {
            let all = pieces.push(Seq::empty());
            assert(all.drop_last() =~= pieces);
            assert(join_with_slash(all) =~= shorter + seq!['/']);
            assert(shorter + seq!['/'] =~= path);
        } else {
            let grown = pieces.last().push(path.last());
            let all = pieces.drop_last().push(grown);
            if pieces.len() == 1 {
                assert(join_with_slash(pieces) == pieces[0]);
                assert(join_with_slash(all) =~= shorter.push(path.last()));
            } else {
                assert(all.drop_last() =~= pieces.drop_last());
                assert(join_with_slash(all) =~= join_with_slash(pieces.drop_last()) + seq!['/']
                    + pieces.last() + seq![path.last()]);
            }
            assert(shorter.push(path.last()) =~= path);
            assert forall|i: int, j: int|
                0 <= i < all.len() && 0 <= j < all[i].len() implies all[i][j] != '/' by {
                if i < all.len() - 1 {
                    assert(all[i] == pieces[i]);
                } else if j < pieces.last().len() {
                    assert(all[i][j] == pieces.last()[j]);
                }
            }
        }
    }
}

/// Splits a path at its slashes.
pub fn split_path(path: &str) -> (r: Vec<String>)
    ensures
        piece_names(r@) == split_at_slash(path@),
        r@.len() >= 1,
{
    let n = path.unicode_len();
    let mut pieces: Vec<String> = Vec::new();
    let mut start: usize = 0;
    let mut i: usize = 0;
    assert(path@.take(0) =~= Seq::<char>::empty());
    assert(piece_names(pieces@).push(path@.subrange(0, 0)) =~= seq![Seq::<char>::empty()]);
    while i < n
        invariant
            0 <= start <= i <= n,
            n == path@.len(),
            piece_names(pieces@).push(path@.subrange(start as int, i as int)) == split_at_slash(
                path@.take(i as int),
            ),
        decreases n - i,
    {
        let ghost before = piece_names(pieces@);
        let ghost piece = path@.subrange(start as int, i as int);
        proof {
            assert(path@.take(i + 1).drop_last() =~= path@.take(i as int));
            assert(path@.take(i + 1).last() == path@[i as int]);
            assert(before.push(piece).drop_last() =~= before);
        }
        if path.get_char(i) == '/' {
            pieces.push(String::from_str(path.substring_char(start, i)));
            start = i + 1;
            proof {
                assert(piece_names(pieces@) =~= before.push(piece));
                assert(path@.subrange(start as int, i + 1) =~= Seq::<char>::empty());
            }
        } else {
            proof {
                assert(path@.subrange(start as int, i + 1) =~= piece.push(path@[i as int]));
            }
        }
        i = i + 1;
    }
    proof {
        assert(path@.take(n as int) =~= path@);
    }
    let ghost before = piece_names(pieces@);
    pieces.push(String::from_str(path.substring_char(start, n)));
    proof {
        assert(piece_names(pieces@) =~= before.push(path@.subrange(start as int, n as int)));
    }
    pieces
}

/// A copy of the pieces of a path.
fn copy_pieces(pieces: &Vec<String>) -> (r: Vec<String>)
    ensures
        piece_names(r@) == piece_names(pieces@),
        r@.len() == pieces@.len(),
{
    let mut copy: Vec<String> = Vec::new();
    let mut i: usize = 0;
    while i < pieces.len()
        invariant
            0 <= i <= pieces@.len(),
            copy@.len() == i,
            forall|k: int| 0 <= k < i ==> copy@[k]@ == pieces@[k]@,
        decreases pieces@.len() - i,
    {
        copy.push(pieces[i].clone());
        i = i + 1;
    }
    assert(piece_names(copy@) =~= piece_names(pieces@));
    copy
}

/// A copy of the ids along a path.
fn copy_ids(ids: &Vec<u32>) -> (r: Vec<u32>)
    ensures
        r@ == ids@,
{
    let mut copy: Vec<u32> = Vec::new();
    let mut i: usize = 0;
    while i < ids.len()
        invariant
            0 <= i <= ids@.len(),
            copy@ == ids@.take(i as int),
        decreases ids@.len() - i,
    {
        copy.push(ids[i]);
        assert(copy@ =~= ids@.take(i + 1));
        i = i + 1;
    }
    assert(ids@.take(ids@.len() as int) =~= ids@);
    copy
}

/// Whether two texts are the same.
fn same_text(a: &str, b: &str) -> (r: bool)
    ensures
        r == (a@ == b@),
{
    let a = String::from_str(a);
    let b = String::from_str(b);
    a == b
}

/// The commands of the shell.
#[derive(Debug, Clone, Copy, PartialEq, Eq)]
pub enum Command {
    /// `exit` or `quit`: leave the shell.
    Exit,
    /// `cd` or `chdir`: go to another directory.
    ChangeDirectory,
    /// `dir` or `ls`: list the current directory.
    List,
    /// `get`: copy a file out of the volume.
    Get,
    /// `cat` or `type`: show a file.
    Cat,
    /// Any other word.
    Unknown,
}

/// The command that a word stands for.
pub open spec fn command_of(word: Seq<char>) -> Command {
    if word == "exit"@ || word == "quit"@ {
        Command::Exit
    } else if word == "cd"@ || word == "chdir"@ {
        Command::ChangeDirectory
    } else if word == "dir"@ || word == "ls"@ {
        Command::List
    } else if word == "get"@ {
        Command::Get
    } else if word == "cat"@ || word == "type"@ {
        Command::Cat
    } else {
        Command::Unknown
    }
}

/// The command that a word stands for.
pub fn parse_command(word: &str) -> (r: Command)
    ensures
        r == command_of(word@),
{
    if same_text(word, "exit") || same_text(word, "quit") {
        Command::Exit
    } else if same_text(word, "cd") || same_text(word, "chdir") {
        Command::ChangeDirectory
    } else if same_text(word, "dir") || same_text(word, "ls") {
        Command::List
    } else if same_text(word, "get") {
        Command::Get
    } else if same_text(word, "cat") || same_text(word, "type") {
        Command::Cat
    } else {
        Command::Unknown
    }
}

/// What the shell is to do after a command.
#[derive(Debug)]
pub enum Outcome {
    /// There was no command.
    Nothing,
    /// The browser handled the command itself.
    Handled,
    /// Leave the shell.
    Exit,
    /// Tell how the command is used: it takes exactly one argument.
    Usage(Command),
    /// The current directory is what the command asked for.
    Moved,
    /// Tell that the directory was not found, and why.
    DirectoryNotFound(NetWareError),
    /// Show these entries of the directory table.
    List(Vec<usize>),
    /// Write these contents to a file of the name given.
    Get(Vec<u8>),
    /// Show these contents.
    Cat(Vec<u8>),
    /// Give up: the file could not be retrieved.
    Failed(NetWareError),
    /// Tell that the command is not known.
    Unrecognized,
}

/// Where the shell stands: the pieces of the path of the current
/// directory, and the ids of the directories along it.
pub struct ShellState {
    current_directory: Vec<String>,
    current_directory_id: Vec<u32>,
}

/// The path that a `cd` leads to: the pieces of an absolute path, or the
/// current path with the argument as one more piece.
pub open spec fn target_path(path: Seq<Seq<char>>, dest: Seq<char>) -> Seq<Seq<char>> {
    if dest.len() > 0 && dest[0] == '/' {
        split_at_slash(dest)
    } else {
        path.push(dest)
    }
}

impl ShellState {
    #[verifier::type_invariant]
    spec fn inv(&self) -> bool {
        1 <= self.current_directory_id@.len() <= self.current_directory@.len()
    }

    /// The pieces of the path of the current directory.
    pub closed spec fn path(&self) -> Seq<Seq<char>> {
        piece_names(self.current_directory@)
    }

    /// The ids of the directories along the path, the root's first and
    /// the current directory's last.
    pub closed spec fn ids(&self) -> Seq<u32> {
        self.current_directory_id@
    }

    /// The state of a shell that stands in the root directory.
    pub fn new<S: ShellImpl>(shell: &S) -> (r: Self)
        ensures
            r.path() == seq![Seq::<char>::empty()],
            r.ids() == seq![shell.root_directory_id()],
    {
        let mut current_directory: Vec<String> = Vec::new();
        current_directory.push(String::new());
        let mut current_directory_id: Vec<u32> = Vec::new();
        current_directory_id.push(shell.get_root_directory_id());
        assert(piece_names(current_directory@) =~= seq![Seq::<char>::empty()]);
        assert(current_directory_id@ =~= seq![shell.root_directory_id()]);
        ShellState { current_directory, current_directory_id }
    }

    /// The pieces of the path of the current directory.
    pub fn current_directory(&self) -> (r: &Vec<String>)
        ensures
            piece_names(r@) == self.path(),
            r@.len() >= 1,
    {
        proof {
            use_type_invariant(self);
        }
        &self.current_directory
    }

    /// The id of the current directory.
    pub fn directory_id(&self) -> (r: u32)
        ensures
            self.ids().len() >= 1,
            r == self.ids().last(),
    {
        proof {
            use_type_invariant(self);
        }
        self.current_directory_id[self.current_directory_id.len() - 1]
    }

    /// Whether `after` is what a `cd` to `dest` makes of `self`, and
    /// `outcome` what it tells the shell. Two dots lead to the parent
    /// directory, and at the root nowhere; any other argument is resolved
    /// by the browser, and where it names no directory nothing changes.
    pub open spec fn changed_directory<S: ShellImpl>(
        self,
        shell: S,
        dest: Seq<char>,
        after: Self,
        outcome: Outcome,
    ) -> bool {
        if dest == ".."@ {
            &&& outcome is Moved
            &&& if self.ids().len() > 1 {
                after.path() == self.path().drop_last() && after.ids() == self.ids().drop_last()
            } else {
                after.path() == self.path() && after.ids() == self.ids()
            }
        } else {
            match shell.path_ids(target_path(self.path(), dest)) {
                Ok(ids) => outcome is Moved && after.path() == target_path(self.path(), dest)
                    && after.ids() == ids,
                Err(e) => outcome == Outcome::DirectoryNotFound(e) && after.path() == self.path()
                    && after.ids() == self.ids(),
            }
        }
    }

    /// Goes to the directory `dest`.
    fn change_directory<S: ShellImpl>(&mut self, shell: &S, dest: &str) -> (r: Outcome)
        ensures
            old(self).changed_directory(*shell, dest@, *final(self), r),
    {
        proof {
            use_type_invariant(&*self);
        }
        if same_text(dest, "..") {
            if self.current_directory_id.len() > 1 {
                let mut path = copy_pieces(&self.current_directory);
                let mut ids = copy_ids(&self.current_directory_id);
                path.pop();
                ids.pop();
                assert(piece_names(path@) =~= piece_names(self.current_directory@).drop_last());
                assert(ids@ =~= self.current_directory_id@.drop_last());
                *self = ShellState { current_directory: path, current_directory_id: ids };
            }
            return Outcome::Moved;
        }
        let new_directory = if dest.unicode_len() > 0 && dest.get_char(0) == '/' {
            split_path(dest)
        } else {
            let mut pieces = copy_pieces(&self.current_directory);
            let ghost before = piece_names(pieces@);
            pieces.push(String::from_str(dest));
            assert(piece_names(pieces@) =~= before.push(dest@));
            pieces
        };
        match shell.lookup_directory(new_directory.as_slice()) {
            Ok(directory_ids) => {
                *self = ShellState {
                    current_directory: new_directory,
                    current_directory_id: directory_ids,
                };
                Outcome::Moved
            },
            Err(e) => Outcome::DirectoryNotFound(e),
        }
    }

    /// Whether `outcome` is what the command `fields` asks of the shell,
    /// `after` what the command makes of `self`, and `shell_after` what it
    /// makes of the browser `shell`. The browser has the first say; a
    /// command that it does not handle is told by its first word.
    pub open spec fn executed<S: ShellImpl>(
        self,
        shell: S,
        fields: Seq<&str>,
        after: Self,
        shell_after: S,
        outcome: Outcome,
    ) -> bool {
        let unmoved = after.path() == self.path() && after.ids() == self.ids();
        if fields.len() == 0 {
            outcome is Nothing && unmoved && shell_after == shell
        } else if outcome is Handled {
            unmoved
        } else {
            match command_of(fields[0]@) {
                Command::Exit => outcome is Exit && unmoved && shell_after == shell,
                Command::ChangeDirectory => shell_after == shell && if fields.len() != 2 {
                    outcome == Outcome::Usage(Command::ChangeDirectory) && unmoved
                } else {
                    self.changed_directory(shell, fields[1]@, after, outcome)
                },
                Command::List => {
                    &&& unmoved
                    &&& shell_after == shell
                    &&& outcome matches Outcome::List(places)
                    &&& same_places(places@, shell.listing(self.ids().last()))
                },
                Command::Get => unmoved && if fields.len() != 2 {
                    outcome == Outcome::Usage(Command::Get) && shell_after == shell
                } else {
                    match shell.file_content(self.ids().last(), fields[1]@) {
                        Ok(data) => (outcome matches Outcome::Get(found) && found@ == data),
                        Err(e) => outcome == Outcome::Failed(e),
                    }
                },
                Command::Cat => unmoved && if fields.len() != 2 {
                    outcome == Outcome::Usage(Command::Cat) && shell_after == shell
                } else {
                    match shell.file_content(self.ids().last(), fields[1]@) {
                        Ok(data) => (outcome matches Outcome::Cat(found) && found@ == data),
                        Err(e) => outcome == Outcome::Failed(e),
                    }
                },
                Command::Unknown => outcome is Unrecognized && unmoved && shell_after == shell,
            }
        }
    }

    /// Carries out one command, given as its words, and tells the shell
    /// what is left to do: what to print, what to write, whether to end.
    pub fn execute<S: ShellImpl>(&mut self, shell: &mut S, fields: &Vec<&str>) -> (r: Outcome)
        ensures
            old(self).executed(*old(shell), fields@, *final(self), *final(shell), r),
    {
        if fields.len() == 0 {
            return Outcome::Nothing;
        }
        let directory_id = self.directory_id();
        if shell.handle_command(directory_id, fields) {
            return Outcome::Handled;
        }
        match parse_command(fields[0]) {
            Command::Exit => Outcome::Exit,
            Command::ChangeDirectory => {
                if fields.len() != 2 {
                    Outcome::Usage(Command::ChangeDirectory)
                } else {
                    self.change_directory(&*shell, fields[1])
                }
            },
            Command::List => Outcome::List(shell.dir(directory_id)),
            Command::Get => {
                if fields.len() != 2 {
                    Outcome::Usage(Command::Get)
                } else {
                    match shell.retrieve_file_content(directory_id, fields[1]) {
                        Ok(data) => Outcome::Get(data),
                        Err(e) => Outcome::Failed(e),
                    }
                }
            },
            Command::Cat => {
                if fields.len() != 2 {
                    Outcome::Usage(Command::Cat)
                } else {
                    match shell.retrieve_file_content(directory_id, fields[1]) {
                        Ok(data) => Outcome::Cat(data),
                        Err(e) => Outcome::Failed(e),
                    }
                }
            },
            Command::Unknown => Outcome::Unrecognized,
        }
    }
}

} // verus!
