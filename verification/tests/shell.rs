use nwfs::nwfs286::parser::{DirEntry, DirectoryItem, FatEntry, FileItem, VolumeInfo};
use nwfs::nwfs286::shell::Nwfs286Shell;
use nwfs::nwfs286::types::{NwDate, NwTime};
use nwfs::shell_cli::{parse_command, split_path, Command, Outcome, ShellImpl, ShellState};
use nwfs::types::NetWareError;

fn directory(entry_id: u16, parent_dir: u16, name: &str) -> DirEntry {
    DirEntry::Directory(DirectoryItem {
        entry_id,
        parent_dir,
        name: name.to_string(),
        attr: 0xff00,
        last_modified_date: NwDate(0),
        last_modified_time: NwTime(0),
        unk22: 0,
        unk24: 0,
        unk26: 0,
        unk28: 0,
        unk30: 0,
    })
}

fn file(entry_id: u16, parent_dir: u16, name: &str, size: u32, block_nr: u16) -> DirEntry {
    DirEntry::File(FileItem {
        entry_id,
        parent_dir,
        name: name.to_string(),
        attr: 0,
        size,
        creation_date: NwDate(0),
        last_accessed_date: NwDate(0),
        last_modified_date: NwDate(0),
        last_modified_time: NwTime(0),
        block_nr,
    })
}

fn image() -> Vec<u8> {
    let mut image = vec![0u8; 7 * 4096];
    for (i, byte) in image.iter_mut().enumerate() {
        *byte = (i % 199) as u8;
    }
    image
}

fn browser(image: &[u8]) -> Nwfs286Shell<'_> {
    let info = VolumeInfo {
        name: "SYS".to_string(),
        remap: 0,
        entry_count: 0,
        directory_entries_1_blocks: Vec::new(),
        directory_entries_2_blocks: Vec::new(),
        fat_blocks: Vec::new(),
    };
    let entries = vec![
        file(0, 0, "UNUSED", 0, 0),
        directory(1, 0, "ROOT"),
        directory(2, 1, "A"),
        directory(3, 2, "B"),
        file(4, 2, "F.TXT", 5000, 1),
        file(5, 1, "TWIN", 1, 0),
        file(6, 1, "twin", 1, 0),
        file(7, 3, "GONE", 10, 1000),
    ];
    let fat = vec![
        FatEntry { index: 0, block: 0 },
        FatEntry { index: 0, block: 2 },
        FatEntry { index: 1, block: 0 },
    ];
    Nwfs286Shell::new(info, entries, fat, image)
}

fn names(pieces: &[String]) -> Vec<&str> {
    pieces.iter().map(|s| s.as_str()).collect()
}

#[test]
fn path_is_split_at_its_slashes() {
    assert_eq!(names(&split_path("")), vec![""]);
    assert_eq!(names(&split_path("/")), vec!["", ""]);
    assert_eq!(names(&split_path("/a")), vec!["", "a"]);
    assert_eq!(names(&split_path("/login/sub")), vec!["", "login", "sub"]);
    assert_eq!(names(&split_path("a//b/")), vec!["a", "", "b", ""]);
    assert_eq!(names(&split_path("name")), vec!["name"]);
    for path in ["", "/", "/a/b", "a//b/", "///", "näme/ü"] {
        let expected: Vec<&str> = path.split('/').collect();
        assert_eq!(names(&split_path(path)), expected);
        assert_eq!(split_path(path).join("/"), path);
    }
}

#[test]
fn commands_are_told_by_their_first_word() {
    assert_eq!(parse_command("exit"), Command::Exit);
    assert_eq!(parse_command("quit"), Command::Exit);
    assert_eq!(parse_command("cd"), Command::ChangeDirectory);
    assert_eq!(parse_command("chdir"), Command::ChangeDirectory);
    assert_eq!(parse_command("dir"), Command::List);
    assert_eq!(parse_command("ls"), Command::List);
    assert_eq!(parse_command("get"), Command::Get);
    assert_eq!(parse_command("cat"), Command::Cat);
    assert_eq!(parse_command("type"), Command::Cat);
    assert_eq!(parse_command("EXIT"), Command::Unknown);
    assert_eq!(parse_command(""), Command::Unknown);
    assert_eq!(parse_command("cdx"), Command::Unknown);
}

#[test]
fn shell_starts_in_the_root() {
    let image = image();
    let shell = browser(&image);
    let state = ShellState::new(&shell);
    assert_eq!(names(state.current_directory()), vec![""]);
    assert_eq!(state.directory_id(), 1);
    assert_eq!(state.directory_id(), shell.get_root_directory_id());
}

#[test]
fn shell_changes_directory() {
    let image = image();
    let mut shell = browser(&image);
    let mut state = ShellState::new(&shell);
    assert!(matches!(state.execute(&mut shell, &vec!["cd", "a"]), Outcome::Moved));
    assert_eq!(names(state.current_directory()), vec!["", "a"]);
    assert_eq!(state.directory_id(), 2);
    assert!(matches!(state.execute(&mut shell, &vec!["chdir", "B"]), Outcome::Moved));
    assert_eq!(names(state.current_directory()), vec!["", "a", "B"]);
    assert_eq!(state.directory_id(), 3);
    assert!(matches!(state.execute(&mut shell, &vec!["cd", ".."]), Outcome::Moved));
    assert_eq!(names(state.current_directory()), vec!["", "a"]);
    assert_eq!(state.directory_id(), 2);
    assert!(matches!(state.execute(&mut shell, &vec!["cd", "/A/b"]), Outcome::Moved));
    assert_eq!(names(state.current_directory()), vec!["", "A", "b"]);
    assert_eq!(state.directory_id(), 3);
    assert!(matches!(state.execute(&mut shell, &vec!["cd", "/"]), Outcome::Moved));
    assert_eq!(names(state.current_directory()), vec!["", ""]);
    assert_eq!(state.directory_id(), 1);
    assert!(matches!(state.execute(&mut shell, &vec!["cd", ".."]), Outcome::Moved));
    assert_eq!(names(state.current_directory()), vec!["", ""]);
    assert_eq!(state.directory_id(), 1);
}

#[test]
fn shell_stays_where_a_directory_is_not_found() {
    let image = image();
    let mut shell = browser(&image);
    let mut state = ShellState::new(&shell);
    assert!(matches!(state.execute(&mut shell, &vec!["cd", "a"]), Outcome::Moved));
    assert!(matches!(
        state.execute(&mut shell, &vec!["cd", "nosuch"]),
        Outcome::DirectoryNotFound(NetWareError::NotFound)
    ));
    assert!(matches!(
        state.execute(&mut shell, &vec!["cd", "f.txt"]),
        Outcome::DirectoryNotFound(NetWareError::NotFound)
    ));
    assert!(matches!(
        state.execute(&mut shell, &vec!["cd", "/twin"]),
        Outcome::DirectoryNotFound(NetWareError::Ambiguous)
    ));
    // A relative path is one piece, slashes and all.
    assert!(matches!(
        state.execute(&mut shell, &vec!["cd", "b/x"]),
        Outcome::DirectoryNotFound(NetWareError::NotFound)
    ));
    assert_eq!(names(state.current_directory()), vec!["", "a"]);
    assert_eq!(state.directory_id(), 2);
}

#[test]
fn shell_lists_and_retrieves() {
    let image = image();
    let mut shell = browser(&image);
    let mut state = ShellState::new(&shell);
    match state.execute(&mut shell, &vec!["dir"]) {
        Outcome::List(places) => assert_eq!(places, vec![2, 5, 6]),
        other => panic!("unexpected {:?}", other),
    }
    assert!(matches!(state.execute(&mut shell, &vec!["cd", "A"]), Outcome::Moved));
    match state.execute(&mut shell, &vec!["ls", "whatever"]) {
        Outcome::List(places) => assert_eq!(places, vec![3, 4]),
        other => panic!("unexpected {:?}", other),
    }
    let mut expected = image[5 * 4096..6 * 4096].to_vec();
    expected.extend_from_slice(&image[6 * 4096..6 * 4096 + 904]);
    match state.execute(&mut shell, &vec!["get", "f.txt"]) {
        Outcome::Get(data) => assert_eq!(data, expected),
        other => panic!("unexpected {:?}", other),
    }
    match state.execute(&mut shell, &vec!["type", "F.TXT"]) {
        Outcome::Cat(data) => assert_eq!(data, expected),
        other => panic!("unexpected {:?}", other),
    }
    assert!(matches!(
        state.execute(&mut shell, &vec!["cat", "nosuch"]),
        Outcome::Failed(NetWareError::NotFound)
    ));
    assert!(matches!(
        state.execute(&mut shell, &vec!["get", "b"]),
        Outcome::Failed(NetWareError::NotAFile)
    ));
    assert!(matches!(state.execute(&mut shell, &vec!["cd", "b"]), Outcome::Moved));
    assert!(matches!(
        state.execute(&mut shell, &vec!["get", "gone"]),
        Outcome::Failed(NetWareError::IoError)
    ));
}

#[test]
fn shell_tells_usage_and_unknown_commands() {
    let image = image();
    let mut shell = browser(&image);
    let mut state = ShellState::new(&shell);
    assert!(matches!(state.execute(&mut shell, &vec![]), Outcome::Nothing));
    assert!(matches!(state.execute(&mut shell, &vec!["exit"]), Outcome::Exit));
    assert!(matches!(state.execute(&mut shell, &vec!["quit", "now"]), Outcome::Exit));
    assert!(matches!(
        state.execute(&mut shell, &vec!["cd"]),
        Outcome::Usage(Command::ChangeDirectory)
    ));
    assert!(matches!(
        state.execute(&mut shell, &vec!["cd", "a", "b"]),
        Outcome::Usage(Command::ChangeDirectory)
    ));
    assert!(matches!(state.execute(&mut shell, &vec!["get"]), Outcome::Usage(Command::Get)));
    assert!(matches!(state.execute(&mut shell, &vec!["cat"]), Outcome::Usage(Command::Cat)));
    assert!(matches!(state.execute(&mut shell, &vec!["help"]), Outcome::Unrecognized));
    assert_eq!(names(state.current_directory()), vec![""]);
}
