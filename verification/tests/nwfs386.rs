use nwfs::bytes::Reader;
use nwfs::nwfs386::image::ImageList;
use nwfs::nwfs386::parser::{
    block_size_from_code, decode_directory_entry, parse_directory_entry, parse_fat_entry,
    DirEntry, Hotfix, Mirror, VolumeInfo, Volumes,
};
use nwfs::nwfs386::partition::NWPartition;
use nwfs::nwfs386::shell::{
    find_children, find_file_entry, is_deleted_dir_entry, list_children, lookup_directory,
    match_dir_entry_name, match_parent_dir_id, Nwfs386Shell,
};
use nwfs::nwfs386::volume::{collect_segments, open_partitions, LogicalVolume};
use nwfs::shell_cli::ShellImpl;
use nwfs::types::NetWareError;

const START: usize = 512;
const HOTFIX: usize = START + 0x4000;
const MIRROR: usize = HOTFIX + 512;
const REDIR_SECTORS: u32 = 2;
const TABLE: usize = HOTFIX + 1024;
const DATA: usize = TABLE + 0x10000;
const END: u32 = 0xffffffff;

struct Segment {
    name: &'static str,
    segment_num: u16,
    blocks: u32,
    total_blocks: u32,
    first_segment_block: u32,
    code: u32,
    rootdir: u32,
}

fn put16(image: &mut [u8], at: usize, v: u16) {
    image[at..at + 2].copy_from_slice(&v.to_le_bytes());
}

fn put32(image: &mut [u8], at: usize, v: u32) {
    image[at..at + 4].copy_from_slice(&v.to_le_bytes());
}

fn put32_be(image: &mut [u8], at: usize, v: u32) {
    image[at..at + 4].copy_from_slice(&v.to_be_bytes());
}

fn block_size(code: u32) -> usize {
    ((256 / code) * 1024) as usize
}

fn segment_record(s: &Segment) -> [u8; 60] {
    let mut rec = [0u8; 60];
    rec[0] = s.name.len() as u8;
    rec[1..1 + s.name.len()].copy_from_slice(s.name.as_bytes());
    put16(&mut rec, 20, 0x1234);
    put16(&mut rec, 22, s.segment_num);
    put32(&mut rec, 24, 160);
    put32(&mut rec, 28, s.blocks * (block_size(s.code) as u32 / 512));
    put32(&mut rec, 32, s.total_blocks);
    put32(&mut rec, 36, s.first_segment_block);
    put32(&mut rec, 40, 0xaabbccdd);
    put32(&mut rec, 44, s.code);
    put32(&mut rec, 48, s.rootdir);
    put32(&mut rec, 52, s.rootdir + 100);
    put32(&mut rec, 56, 0x11223344);
    rec
}

fn new_image(segments: &[Segment], size: usize) -> Vec<u8> {
    let mut image = vec![0u8; size];
    image[446 + 4] = 0x65;
    put32(&mut image, 446 + 8, 1);
    image[HOTFIX..HOTFIX + 6].copy_from_slice(b"HOTFIX");
    put32(&mut image, HOTFIX + 8, 0xcafe0001);
    for n in 0..4 {
        put16(&mut image, HOTFIX + 12 + 2 * n, 0x100 + n as u16);
    }
    put32(&mut image, HOTFIX + 20, 5000);
    put32(&mut image, HOTFIX + 24, REDIR_SECTORS);
    for n in 0..8 {
        put32(&mut image, HOTFIX + 28 + 4 * n, 0x200 + n as u32);
    }
    image[MIRROR..MIRROR + 6].copy_from_slice(b"MIRROR");
    put32(&mut image, MIRROR + 8, 0x215C6B40);
    put32(&mut image, MIRROR + 12, 0x90000);
    put32(&mut image, MIRROR + 32, 0xcafe0001);
    put32(&mut image, MIRROR + 36, 0xcafe0002);
    image[TABLE..TABLE + 16].copy_from_slice(b"NetWare Volumes\0");
    put32(&mut image, TABLE + 16, segments.len() as u32);
    put32(&mut image, TABLE + 20, 7);
    put32(&mut image, TABLE + 24, 8);
    put32(&mut image, TABLE + 28, 9);
    for (n, s) in segments.iter().enumerate() {
        let at = TABLE + 32 + 60 * n;
        image[at..at + 60].copy_from_slice(&segment_record(s));
    }
    image
}

fn set_fat(image: &mut [u8], index_in_segment: u32, place: u32, next: u32) {
    let at = DATA + 8 * index_in_segment as usize;
    put32(image, at, place);
    put32(image, at + 4, next);
}

fn pattern(block: u32, i: usize) -> u8 {
    ((block as usize * 7 + i * 3 + 1) % 251) as u8
}

fn fill_block(image: &mut [u8], index_in_segment: u32, block: u32, size: usize) {
    let at = DATA + index_in_segment as usize * size;
    for i in 0..size {
        image[at + i] = pattern(block, i);
    }
}

fn available() -> [u8; 128] {
    let mut rec = [0u8; 128];
    put32(&mut rec, 0, 0xffffffff);
    rec
}

fn put_name(rec: &mut [u8], name: &str) {
    rec[11] = name.len() as u8;
    for n in 0..12 {
        rec[12 + n] = b' ';
    }
    rec[12..12 + name.len()].copy_from_slice(name.as_bytes());
}

fn file_record(parent: u32, name: &str, length: u32, block: u32, delete_time: u32) -> [u8; 128] {
    let mut rec = [0u8; 128];
    put32(&mut rec, 0, parent);
    put32(&mut rec, 4, 0x20);
    rec[8] = 1;
    rec[9] = 2;
    rec[10] = 3;
    put_name(&mut rec, name);
    put32(&mut rec, 24, 0x215C6B40);
    put32_be(&mut rec, 28, 0x01000002);
    put32(&mut rec, 32, 11);
    put32(&mut rec, 36, 12);
    put32(&mut rec, 40, 0x215C6B41);
    put32_be(&mut rec, 44, 0x03000004);
    put32(&mut rec, 48, length);
    put32(&mut rec, 52, block);
    put32(&mut rec, 56, 13);
    for n in 0..6 {
        put32_be(&mut rec, 60 + 6 * n, 0x0a000000 + n as u32);
        put16(&mut rec, 64 + 6 * n, 0x100 + n as u16);
    }
    put32(&mut rec, 96, 14);
    put32(&mut rec, 100, 15);
    put32(&mut rec, 104, delete_time);
    put32_be(&mut rec, 108, 0x05000006);
    put32(&mut rec, 112, 16);
    put32(&mut rec, 116, 17);
    put32(&mut rec, 120, 0x4711);
    put32(&mut rec, 124, 18);
    rec
}

fn dir_record(parent: u32, name: &str, directory_id: u32) -> [u8; 128] {
    let mut rec = [0u8; 128];
    put32(&mut rec, 0, parent);
    put32(&mut rec, 4, 0x10);
    rec[8] = 4;
    rec[9] = 5;
    rec[10] = 6;
    put_name(&mut rec, name);
    put32(&mut rec, 24, 0x215C6B42);
    put32_be(&mut rec, 28, 0x07000008);
    put32(&mut rec, 32, 21);
    put32(&mut rec, 36, 22);
    put32(&mut rec, 40, 0x215C6B43);
    put32(&mut rec, 44, 23);
    for n in 0..8 {
        put32_be(&mut rec, 48 + 6 * n, 0x0b000000 + n as u32);
        put16(&mut rec, 52 + 6 * n, 0x80 + n as u16);
    }
    put16(&mut rec, 96, 24);
    put16(&mut rec, 98, 25);
    put16(&mut rec, 100, 0x1ff);
    put32(&mut rec, 102, 0x00c0ffee);
    for n in 0..7 {
        put16(&mut rec, 106 + 2 * n, 30 + n as u16);
    }
    put32(&mut rec, 120, directory_id);
    put16(&mut rec, 124, 26);
    put16(&mut rec, 126, 27);
    rec
}

fn volume_information_record() -> [u8; 128] {
    let mut rec = [0u8; 128];
    put32(&mut rec, 0, 0xfffffffd);
    for n in 0..5 {
        put32(&mut rec, 4 + 4 * n, 40 + n as u32);
    }
    put32(&mut rec, 24, 0x215C6B44);
    put32(&mut rec, 28, 0x01020304);
    put32(&mut rec, 32, 45);
    put32(&mut rec, 36, 46);
    put32(&mut rec, 40, 0x215C6B45);
    put32(&mut rec, 44, 47);
    for n in 0..8 {
        put32_be(&mut rec, 48 + 6 * n, 0x0c000000 + n as u32);
        put16(&mut rec, 52 + 6 * n, 0x40 + n as u16);
    }
    for n in 0..8 {
        put32(&mut rec, 96 + 4 * n, 50 + n as u32);
    }
    rec
}

fn grant_list_record() -> [u8; 128] {
    let mut rec = [0u8; 128];
    put32(&mut rec, 0, 0xfffffffe);
    for n in 0..5 {
        put32(&mut rec, 4 + 4 * n, 60 + n as u32);
    }
    for n in 0..16 {
        put32_be(&mut rec, 24 + 4 * n, 0x0d000000 + n as u32);
        put16(&mut rec, 88 + 2 * n, 0x20 + n as u16);
    }
    put32(&mut rec, 120, 70);
    put32(&mut rec, 124, 71);
    rec
}

fn put_record(image: &mut [u8], index_in_segment: u32, j: usize, rec: &[u8; 128], size: usize) {
    let at = DATA + index_in_segment as usize * size + 128 * j;
    image[at..at + 128].copy_from_slice(rec);
}

/// A volume `SYS` of 48 blocks of 4 KiB in one image.
fn sys_image() -> Vec<u8> {
    let size = 4096;
    let mut image = new_image(
        &[
            Segment {
                name: "VOL1",
                segment_num: 0,
                blocks: 4,
                total_blocks: 4,
                first_segment_block: 0,
                code: 32,
                rootdir: 1,
            },
            Segment {
                name: "SYS",
                segment_num: 0,
                blocks: 48,
                total_blocks: 48,
                first_segment_block: 0,
                code: 64,
                rootdir: 2,
            },
        ],
        DATA + 48 * size,
    );
    for block in 4..48 {
        fill_block(&mut image, block, block, size);
    }
    for block in 2..4 {
        for j in 0..32 {
            put_record(&mut image, block, j, &available(), size);
        }
    }
    set_fat(&mut image, 2, 0, 3);
    set_fat(&mut image, 3, 1, END);
    put_record(&mut image, 2, 0, &volume_information_record(), size);
    put_record(&mut image, 2, 1, &dir_record(0, "LOGIN", 5), size);
    put_record(&mut image, 2, 2, &dir_record(0, "PUBLIC", 6), size);
    put_record(&mut image, 2, 3, &file_record(0, "README.TXT", 5000, 10, 0), size);
    put_record(&mut image, 2, 4, &file_record(5, "BIG.DAT", 99160, 16, 0), size);
    put_record(&mut image, 2, 5, &file_record(0, "OLD.TXT", 100, 12, 0x215C6B40), size);
    put_record(&mut image, 2, 6, &file_record(6, "Dup", 10, 12, 0), size);
    put_record(&mut image, 2, 7, &dir_record(6, "DUP", 9), size);
    put_record(&mut image, 2, 8, &grant_list_record(), size);
    put_record(&mut image, 2, 9, &dir_record(5, "SUB", 7), size);
    put_record(&mut image, 2, 10, &file_record(0, "EMPTY", 0, END, 0), size);
    put_record(&mut image, 2, 11, &file_record(0, "SHORT", 10000, 13, 0), size);
    put_record(&mut image, 2, 12, &file_record(0, "LONG", 100, 14, 0), size);
    put_record(&mut image, 2, 13, &file_record(0, "FAR", 10, 9999, 0), size);
    put_record(&mut image, 2, 14, &file_record(0, "README.TXT", 7, 12, 1), size);
    put_record(&mut image, 3, 0, &dir_record(7, "DEEP", 8), size);
    put_record(&mut image, 3, 1, &file_record(8, "X", 1, 12, 0), size);
    set_fat(&mut image, 10, 0, 11);
    set_fat(&mut image, 11, 1, END);
    set_fat(&mut image, 12, 0, END);
    set_fat(&mut image, 13, 0, END);
    set_fat(&mut image, 14, 0, 15);
    set_fat(&mut image, 15, 1, END);
    for block in 16..40 {
        set_fat(&mut image, block, block - 16, block + 1);
    }
    set_fat(&mut image, 40, 24, END);
    image
}

fn sys_list() -> ImageList {
    let mut list = ImageList::new();
    list.add_image(sys_image()).unwrap();
    list
}

fn pieces(path: &[&str]) -> Vec<String> {
    path.iter().map(|s| s.to_string()).collect()
}

fn expected_data(chain: &[u32], length: usize, size: usize) -> Vec<u8> {
    let mut data = Vec::new();
    for &block in chain {
        for i in 0..size {
            if data.len() < length {
                data.push(pattern(block, i));
            }
        }
    }
    data
}

#[test]
fn block_size_codes() {
    assert_eq!(block_size_from_code(64), Some(4096));
    assert_eq!(block_size_from_code(32), Some(8192));
    assert_eq!(block_size_from_code(16), Some(16384));
    assert_eq!(block_size_from_code(8), Some(32768));
    assert_eq!(block_size_from_code(4), Some(65536));
    assert_eq!(block_size_from_code(2), Some(131072));
    assert_eq!(block_size_from_code(1), Some(262144));
    for code in [0u32, 3, 5, 63, 65, 128, 256, 0xffffffff] {
        assert_eq!(block_size_from_code(code), None);
    }
}

#[test]
fn hotfix_header() {
    let image = sys_image();
    let hotfix = Hotfix::new(&image, HOTFIX as u64).unwrap();
    assert_eq!(hotfix.id, "HOTFIX");
    assert_eq!(hotfix.v_id, 0xcafe0001);
    assert_eq!(hotfix.unk1, [0x100, 0x101, 0x102, 0x103]);
    assert_eq!(hotfix.data_area_sectors, 5000);
    assert_eq!(hotfix.redir_area_sectors, REDIR_SECTORS);
    assert_eq!(hotfix.unk2, [0x200, 0x201, 0x202, 0x203, 0x204, 0x205, 0x206, 0x207]);
}

#[test]
fn hotfix_header_needs_sixty_bytes() {
    let image = sys_image();
    assert!(Hotfix::new(&image[..HOTFIX + 60], HOTFIX as u64).is_ok());
    assert!(matches!(
        Hotfix::new(&image[..HOTFIX + 59], HOTFIX as u64),
        Err(NetWareError::IoError)
    ));
    assert!(matches!(Hotfix::new(&image, u64::MAX), Err(NetWareError::IoError)));
}

#[test]
fn mirror_header() {
    let image = sys_image();
    let mirror = Mirror::new(&image, MIRROR as u64).unwrap();
    assert_eq!(mirror.id, "MIRROR");
    assert_eq!(mirror.create_time.0, 0x215C6B40);
    assert_eq!(mirror.unk1, [0x90000, 0, 0, 0, 0]);
    assert_eq!(mirror.hotfix_v_id1, 0xcafe0001);
    assert_eq!(mirror.hotfix_v_id2, 0xcafe0002);
    assert!(matches!(
        Mirror::new(&image[..MIRROR + 39], MIRROR as u64),
        Err(NetWareError::IoError)
    ));
}

#[test]
fn volume_segment_record() {
    let rec = segment_record(&Segment {
        name: "SYS",
        segment_num: 3,
        blocks: 10,
        total_blocks: 99,
        first_segment_block: 40,
        code: 16,
        rootdir: 2,
    });
    let mut f = Reader::new(&rec);
    let v = VolumeInfo::new(&mut f).unwrap();
    assert_eq!(f.offset(), 60);
    assert_eq!(v.name, "SYS");
    assert_eq!(v.unk1, 0x1234);
    assert_eq!(v.segment_num, 3);
    assert_eq!(v.first_sector, 160);
    assert_eq!(v.num_sectors, 10 * 32);
    assert_eq!(v.total_blocks, 99);
    assert_eq!(v.first_segment_block, 40);
    assert_eq!(v.unk2, 0xaabbccdd);
    assert_eq!(v.block_size, 16384);
    assert_eq!(v.rootdir_block_nr, 2);
    assert_eq!(v.rootdir_copy_block_nr, 102);
    assert_eq!(v.unk3, 0x11223344);
    let copy = v.duplicate();
    assert_eq!(copy.name, "SYS");
    assert_eq!(copy.block_size, 16384);
}

#[test]
fn volume_segment_record_faults() {
    let mut rec = segment_record(&Segment {
        name: "SYS",
        segment_num: 0,
        blocks: 1,
        total_blocks: 1,
        first_segment_block: 0,
        code: 64,
        rootdir: 0,
    });
    let mut f = Reader::new(&rec[..59]);
    assert!(matches!(VolumeInfo::new(&mut f), Err(NetWareError::IoError)));
    assert_eq!(f.offset(), 0);
    for code in [0u32, 3, 128] {
        put32(&mut rec, 44, code);
        let mut f = Reader::new(&rec);
        assert!(matches!(VolumeInfo::new(&mut f), Err(NetWareError::VolumeAreaCorrupt)));
    }
}

#[test]
fn volume_table() {
    let image = sys_image();
    let volumes = Volumes::new(&image, TABLE as u64).unwrap();
    assert_eq!(volumes.unk1, [7, 8, 9]);
    assert_eq!(volumes.info.len(), 2);
    assert_eq!(volumes.info[0].name, "VOL1");
    assert_eq!(volumes.info[0].block_size, 8192);
    assert_eq!(volumes.info[1].name, "SYS");
    assert_eq!(volumes.info[1].block_size, 4096);
    assert_eq!(volumes.info[1].num_sectors, 48 * 8);
}

#[test]
fn volume_table_faults() {
    let mut image = sys_image();
    assert!(matches!(
        Volumes::new(&image[..TABLE + 15], TABLE as u64),
        Err(NetWareError::IoError)
    ));
    assert!(matches!(
        Volumes::new(&image[..TABLE + 31], TABLE as u64),
        Err(NetWareError::IoError)
    ));
    assert!(matches!(
        Volumes::new(&image[..TABLE + 32 + 119], TABLE as u64),
        Err(NetWareError::IoError)
    ));
    assert!(Volumes::new(&image[..TABLE + 32 + 120], TABLE as u64).is_ok());
    put32(&mut image, TABLE + 32 + 60 + 44, 0);
    assert!(matches!(Volumes::new(&image, TABLE as u64), Err(NetWareError::VolumeAreaCorrupt)));
    put32(&mut image, TABLE + 32 + 60 + 44, 64);
    image[TABLE + 15] = b'!';
    assert!(matches!(Volumes::new(&image, TABLE as u64), Err(NetWareError::VolumeAreaCorrupt)));
    image[TABLE + 15] = 0;
    image[TABLE] = b'n';
    assert!(matches!(Volumes::new(&image, TABLE as u64), Err(NetWareError::VolumeAreaCorrupt)));
}

#[test]
fn partition_headers() {
    let image = sys_image();
    let partition = NWPartition::new(&image, START as u64).unwrap();
    assert_eq!(partition.hotfix.id, "HOTFIX");
    assert_eq!(partition.mirror.id, "MIRROR");
    assert_eq!(partition.volumes.info.len(), 2);
    assert_eq!(partition.first_data_block_offset, DATA as u64);
    assert!(matches!(NWPartition::new(&image, u64::MAX), Err(NetWareError::IoError)));
    assert!(matches!(NWPartition::new(&image, 0), Err(NetWareError::VolumeAreaCorrupt)));
    assert!(matches!(
        NWPartition::new(&image[..MIRROR + 10], START as u64),
        Err(NetWareError::IoError)
    ));
}

#[test]
fn file_record_fields() {
    let rec = file_record(0x55, "LOGIN.EXE", 99160, 16, 0);
    let entry = decode_directory_entry(&rec).unwrap();
    let f = match entry {
        DirEntry::File(f) => f,
        other => panic!("not a file: {:?}", other),
    };
    assert_eq!(f.parent_dir_id, 0x55);
    assert_eq!(f.attr.0, 0x20);
    assert_eq!(f.unk1, [1, 2, 3]);
    assert_eq!(f.name, "LOGIN.EXE");
    assert_eq!(f.create_time.0, 0x215C6B40);
    assert_eq!(f.owner_id, 0x01000002);
    assert_eq!(f.unk2, [11, 12]);
    assert_eq!(f.modify_time.0, 0x215C6B41);
    assert_eq!(f.modifier_id, 0x03000004);
    assert_eq!(f.length, 99160);
    assert_eq!(f.block_nr, 16);
    assert_eq!(f.unk3, [13]);
    for n in 0..6 {
        assert_eq!(f.trustees[n].object_id, 0x0a000000 + n as u32);
        assert_eq!(f.trustees[n].rights.0, 0x100 + n as u16);
    }
    assert_eq!(f.unk4, [14, 15]);
    assert_eq!(f.delete_time.0, 0);
    assert_eq!(f.delete_id, 0x05000006);
    assert_eq!(f.unk5, [16, 17]);
    assert_eq!(f.file_entry, 0x4711);
    assert_eq!(f.unk6, [18]);
}

#[test]
fn directory_record_fields() {
    let rec = dir_record(0, "PUBLIC", 6);
    let entry = decode_directory_entry(&rec).unwrap();
    let d = match entry {
        DirEntry::Directory(d) => d,
        other => panic!("not a directory: {:?}", other),
    };
    assert_eq!(d.parent_dir_id, 0);
    assert!(d.attr.is_directory());
    assert_eq!(d.unk1, [4, 5, 6]);
    assert_eq!(d.name, "PUBLIC");
    assert_eq!(d.create_time.0, 0x215C6B42);
    assert_eq!(d.owner_id, 0x07000008);
    assert_eq!(d.unk2, [21, 22]);
    assert_eq!(d.modify_time.0, 0x215C6B43);
    assert_eq!(d.unk3, [23]);
    for n in 0..8 {
        assert_eq!(d.trustees[n].object_id, 0x0b000000 + n as u32);
        assert_eq!(d.trustees[n].rights.0, 0x80 + n as u16);
    }
    assert_eq!(d.unk4, [24, 25]);
    assert_eq!(d.inherited_rights_mask, 0x1ff);
    assert_eq!(d.subdir_index, 0x00c0ffee);
    assert_eq!(d.unk5, [30, 31, 32, 33, 34, 35, 36]);
    assert_eq!(d.directory_id, 6);
    assert_eq!(d.unk6, [26, 27]);
}

#[test]
fn volume_information_record_fields() {
    let entry = decode_directory_entry(&volume_information_record()).unwrap();
    let v = match entry {
        DirEntry::VolumeInformation(v) => v,
        other => panic!("not volume information: {:?}", other),
    };
    assert_eq!(v.parent_dir_id, 0xfffffffd);
    assert_eq!(v.unk1, [40, 41, 42, 43, 44]);
    assert_eq!(v.create_time.0, 0x215C6B44);
    assert_eq!(v.owner_id, 0x01020304);
    assert_eq!(v.unk2, [45, 46]);
    assert_eq!(v.modify_time.0, 0x215C6B45);
    assert_eq!(v.unk3, [47]);
    for n in 0..8 {
        assert_eq!(v.trustees[n].object_id, 0x0c000000 + n as u32);
        assert_eq!(v.trustees[n].rights.0, 0x40 + n as u16);
    }
    assert_eq!(v.unk4, [50, 51, 52, 53, 54, 55, 56, 57]);
}

#[test]
fn grant_list_record_fields() {
    let entry = decode_directory_entry(&grant_list_record()).unwrap();
    let g = match entry {
        DirEntry::GrantList(g) => g,
        other => panic!("not a grant list: {:?}", other),
    };
    assert_eq!(g.parent_dir_id, 0xfffffffe);
    assert_eq!(g.unk1, [60, 61, 62, 63, 64]);
    for n in 0..16 {
        assert_eq!(g.trustees[n].object_id, 0x0d000000 + n as u32);
        assert_eq!(g.trustees[n].rights.0, 0x20 + n as u16);
    }
    assert_eq!(g.unk2, [70, 71]);
}

#[test]
fn available_record() {
    let entry = decode_directory_entry(&available()).unwrap();
    match entry {
        DirEntry::Available(a) => assert_eq!(a.parent_dir_id, 0xffffffff),
        other => panic!("not a free slot: {:?}", other),
    }
}

#[test]
fn every_record_takes_128_bytes() {
    let records = [
        available(),
        grant_list_record(),
        volume_information_record(),
        file_record(1, "A", 1, 1, 0),
        dir_record(1, "B", 2),
    ];
    let mut stream = Vec::new();
    for rec in records.iter() {
        stream.extend_from_slice(rec);
    }
    stream.extend_from_slice(&[0u8; 100]);
    let mut f = Reader::new(&stream);
    for n in 0..5 {
        assert_eq!(f.offset(), 128 * n);
        assert!(parse_directory_entry(&mut f).is_ok());
    }
    assert_eq!(f.offset(), 640);
    assert!(matches!(parse_directory_entry(&mut f), Err(NetWareError::IoError)));
    assert_eq!(f.offset(), 640);
}

#[test]
fn record_of_the_wrong_length() {
    for rec in [available(), grant_list_record(), file_record(1, "A", 1, 1, 0)] {
        assert!(matches!(decode_directory_entry(&rec[..127]), Err(NetWareError::IoError)));
        assert!(matches!(decode_directory_entry(&rec[..3]), Err(NetWareError::IoError)));
        let mut long = rec.to_vec();
        long.push(0);
        assert!(matches!(decode_directory_entry(&long), Err(NetWareError::RecordLength)));
    }
    assert!(matches!(decode_directory_entry(&[]), Err(NetWareError::IoError)));
}

#[test]
fn name_is_cut_to_its_length() {
    let mut rec = file_record(0, "ABCDEFGHIJKL", 0, END, 0);
    assert_eq!(rec[11], 12);
    rec[11] = 200;
    match decode_directory_entry(&rec).unwrap() {
        DirEntry::File(f) => assert_eq!(f.name, "ABCDEFGHIJKL"),
        _ => panic!(),
    }
    rec[11] = 3;
    match decode_directory_entry(&rec).unwrap() {
        DirEntry::File(f) => assert_eq!(f.name, "ABC"),
        _ => panic!(),
    }
}

#[test]
fn fat_entry_is_two_words() {
    let data = [1u8, 0, 0, 0, 0xff, 0xff, 0xff, 0xff, 9];
    let mut f = Reader::new(&data);
    assert_eq!(parse_fat_entry(&mut f), Ok((1, 0xffffffff)));
    assert_eq!(f.offset(), 8);
    assert_eq!(parse_fat_entry(&mut f), Err(NetWareError::IoError));
    assert_eq!(f.offset(), 8);
}

#[test]
fn opens_volume_and_reads_directory() {
    let list = sys_list();
    let vol = LogicalVolume::new(&list, "SYS").unwrap();
    assert_eq!(vol.volumes().len(), 1);
    assert_eq!(vol.volumes()[0].info.name, "SYS");
    assert_eq!(vol.volumes()[0].first_data_block_offset, DATA as u64);
    assert_eq!(vol.directory().len(), 64);
    assert!(matches!(vol.directory()[0], DirEntry::VolumeInformation(_)));
    assert!(matches!(vol.directory()[8], DirEntry::GrantList(_)));
    assert!(matches!(vol.directory()[63], DirEntry::Available(_)));
    match &vol.directory()[32] {
        DirEntry::Directory(d) => assert_eq!(d.name, "DEEP"),
        other => panic!("unexpected {:?}", other),
    }
    let other = LogicalVolume::new(&list, "VOL1");
    assert!(other.is_err());
}

#[test]
fn volume_name_is_case_sensitive_and_must_exist() {
    let list = sys_list();
    assert!(matches!(LogicalVolume::new(&list, "sys"), Err(NetWareError::VolumeNotFound)));
    assert!(matches!(LogicalVolume::new(&list, "DATA"), Err(NetWareError::VolumeNotFound)));
    let empty = ImageList::new();
    assert!(matches!(LogicalVolume::new(&empty, "SYS"), Err(NetWareError::VolumeNotFound)));
}

#[test]
fn from_segments_checks_its_segments() {
    assert!(matches!(
        LogicalVolume::from_segments(Vec::new()),
        Err(NetWareError::VolumeNotFound)
    ));
    let list = sys_list();
    let parts = open_partitions(&list).unwrap();
    assert_eq!(parts.len(), 1);
    assert_eq!(parts[0].volumes.info.len(), 2);
    let mut segments = collect_segments(&list, "SYS").unwrap();
    assert_eq!(segments.len(), 1);
    assert_eq!(collect_segments(&list, "NOSUCH").unwrap().len(), 0);
    segments[0].info.block_size = 1000;
    assert!(matches!(
        LogicalVolume::from_segments(segments),
        Err(NetWareError::VolumeAreaCorrupt)
    ));
}

#[test]
fn directory_chain_faults() {
    // A cycle in the chain of the directory table.
    let mut image = sys_image();
    set_fat(&mut image, 3, 1, 2);
    let mut list = ImageList::new();
    list.add_image(image).unwrap();
    assert!(matches!(LogicalVolume::new(&list, "SYS"), Err(NetWareError::FatCorrupt(2))));

    // A chain that leaves the volume.
    let mut image = sys_image();
    set_fat(&mut image, 3, 1, 48);
    let mut list = ImageList::new();
    list.add_image(image).unwrap();
    assert!(matches!(
        LogicalVolume::new(&list, "SYS"),
        Err(NetWareError::BlockOutOfRange(48))
    ));

    // An image that ends within the directory table.
    let mut image = sys_image();
    image.truncate(DATA + 4 * 4096 - 1);
    let mut list = ImageList::new();
    list.add_image(image).unwrap();
    assert!(matches!(LogicalVolume::new(&list, "SYS"), Err(NetWareError::IoError)));

    // A volume that claims fewer blocks than its directory table has.
    let mut image = sys_image();
    put32(&mut image, TABLE + 32 + 60 + 32, 1);
    let mut list = ImageList::new();
    list.add_image(image).unwrap();
    assert!(matches!(LogicalVolume::new(&list, "SYS"), Err(NetWareError::FatCorrupt(3))));

    // A partition whose headers the image does not hold.
    let mut image = sys_image();
    image.truncate(TABLE + 10);
    let mut list = ImageList::new();
    list.add_image(image).unwrap();
    assert!(matches!(LogicalVolume::new(&list, "SYS"), Err(NetWareError::IoError)));
}

#[test]
fn empty_directory_chain() {
    let mut image = sys_image();
    put32(&mut image, TABLE + 32 + 60 + 48, END);
    let mut list = ImageList::new();
    list.add_image(image).unwrap();
    let vol = LogicalVolume::new(&list, "SYS").unwrap();
    assert_eq!(vol.directory().len(), 0);
}

#[test]
fn seek_block_resolves_within_the_segment() {
    let list = sys_list();
    let vol = LogicalVolume::new(&list, "SYS").unwrap();
    assert_eq!(vol.seek_block(0), Ok((0, DATA as u64)));
    assert_eq!(vol.seek_block(16), Ok((0, (DATA + 16 * 4096) as u64)));
    assert_eq!(vol.seek_block(47), Ok((0, (DATA + 47 * 4096) as u64)));
    assert_eq!(vol.seek_block(48), Err(NetWareError::BlockOutOfRange(48)));
    assert_eq!(vol.seek_block(END), Err(NetWareError::BlockOutOfRange(END)));
}

#[test]
fn read_fat_entry_resolves_within_the_segment() {
    let list = sys_list();
    let vol = LogicalVolume::new(&list, "SYS").unwrap();
    assert_eq!(vol.read_fat_entry(2), Ok((0, 3)));
    assert_eq!(vol.read_fat_entry(3), Ok((1, END)));
    assert_eq!(vol.read_fat_entry(20), Ok((4, 21)));
    assert_eq!(vol.read_fat_entry(40), Ok((24, END)));
    assert_eq!(vol.read_fat_entry(48), Err(NetWareError::FatCorrupt(48)));
}

fn two_images() -> ImageList {
    let size = 4096;
    let mut first = new_image(
        &[Segment {
            name: "SYS",
            segment_num: 0,
            blocks: 48,
            total_blocks: 64,
            first_segment_block: 0,
            code: 64,
            rootdir: 2,
        }],
        DATA + 48 * size,
    );
    for block in 4..48 {
        fill_block(&mut first, block, block, size);
    }
    for j in 0..32 {
        put_record(&mut first, 2, j, &available(), size);
    }
    set_fat(&mut first, 2, 0, END);
    put_record(&mut first, 2, 0, &file_record(0, "SPAN.BIN", 3 * 4096 + 5, 47, 0), size);
    set_fat(&mut first, 47, 0, 50);
    set_fat(&mut first, 10, 3, END);

    let mut second = new_image(
        &[
            Segment {
                name: "OTHER",
                segment_num: 0,
                blocks: 8,
                total_blocks: 8,
                first_segment_block: 0,
                code: 64,
                rootdir: 0,
            },
            Segment {
                name: "SYS",
                segment_num: 1,
                blocks: 16,
                total_blocks: 64,
                first_segment_block: 48,
                code: 64,
                rootdir: 2,
            },
        ],
        DATA + 16 * size,
    );
    for block in 1..16 {
        fill_block(&mut second, block, 48 + block, size);
    }
    set_fat(&mut second, 2, 1, 49);
    set_fat(&mut second, 1, 2, 10);

    // The image with the second segment comes first in the list.
    let mut list = ImageList::new();
    list.add_image(second).unwrap();
    list.add_image(first).unwrap();
    list
}

#[test]
fn segments_are_ordered_by_their_numbers() {
    let list = two_images();
    let vol = LogicalVolume::new(&list, "SYS").unwrap();
    let segments = vol.volumes();
    assert_eq!(segments.len(), 2);
    assert_eq!(segments[0].info.segment_num, 0);
    assert_eq!(segments[1].info.segment_num, 1);
    assert!(std::ptr::eq(segments[0].image, &list.images[1]));
    assert!(std::ptr::eq(segments[1].image, &list.images[0]));
    assert_eq!(vol.directory().len(), 32);
}

#[test]
fn block_of_the_second_segment_resolves_to_its_image() {
    let list = two_images();
    let vol = LogicalVolume::new(&list, "SYS").unwrap();
    let segments = vol.volumes();
    let first_segment_block = segments[1].info.first_segment_block;
    let first_data_block_offset = segments[1].first_data_block_offset;
    let block_size = segments[1].info.block_size as u64;
    let (segment, offset) = vol.seek_block(first_segment_block + 3).unwrap();
    assert_eq!(segment, 1);
    assert!(std::ptr::eq(segments[segment].image, &list.images[0]));
    assert_eq!(offset, first_data_block_offset + 3 * block_size);
    assert_eq!(vol.seek_block(47), Ok((0, (DATA + 47 * 4096) as u64)));
    assert_eq!(vol.seek_block(48), Ok((1, DATA as u64)));
    assert_eq!(vol.seek_block(63), Ok((1, (DATA + 15 * 4096) as u64)));
    assert_eq!(vol.seek_block(64), Err(NetWareError::BlockOutOfRange(64)));
    assert_eq!(vol.read_fat_entry(50), Ok((1, 49)));
    assert_eq!(vol.read_fat_entry(49), Ok((2, 10)));
}

#[test]
fn file_spans_both_segments() {
    let list = two_images();
    let vol = LogicalVolume::new(&list, "SYS").unwrap();
    let mut shell = Nwfs386Shell::new(&vol);
    let data = shell.retrieve_file_content(0, "span.bin").unwrap();
    assert_eq!(data, expected_data(&[47, 50, 49, 10], 3 * 4096 + 5, 4096));
}

#[test]
fn seek_block_past_the_image_is_an_io_error() {
    let mut list = two_images();
    list.images[0].data.truncate(DATA + 3 * 4096 - 1);
    let vol = LogicalVolume::new(&list, "SYS").unwrap();
    assert_eq!(vol.seek_block(50), Ok((1, (DATA + 2 * 4096) as u64)));
    assert_eq!(vol.seek_block(51), Err(NetWareError::IoError));
    let mut shell = Nwfs386Shell::new(&vol);
    assert_eq!(shell.retrieve_file_content(0, "SPAN.BIN"), Err(NetWareError::IoError));
}

#[test]
fn file_chain_of_25_blocks() {
    let list = sys_list();
    let vol = LogicalVolume::new(&list, "SYS").unwrap();
    assert_eq!(find_file_entry(&vol, 5, "BIG.DAT"), Ok((16, 99160)));
    let data = vol.read_file(16, 99160).unwrap();
    assert_eq!(data.len(), 99160);
    let chain: Vec<u32> = (16..=40).collect();
    assert_eq!(data, expected_data(&chain, 99160, 4096));
    // The last block contributes what is left over after 24 whole blocks.
    let last = 99160 - 24 * 4096;
    assert_eq!(&data[24 * 4096..], &expected_data(&[40], last, 4096)[..]);
}

#[test]
fn retrieved_file_has_the_length_of_its_record() {
    let list = sys_list();
    let vol = LogicalVolume::new(&list, "SYS").unwrap();
    let mut shell = Nwfs386Shell::new(&vol);
    let data = shell.retrieve_file_content(0, "readme.txt").unwrap();
    assert_eq!(data.len(), 5000);
    assert_eq!(data, expected_data(&[10, 11], 5000, 4096));
    let data = shell.retrieve_file_content(5, "BIG.DAT").unwrap();
    assert_eq!(data.len(), 99160);
    let data = shell.retrieve_file_content(0, "EMPTY").unwrap();
    assert_eq!(data.len(), 0);
}

#[test]
fn file_chain_faults() {
    let list = sys_list();
    let vol = LogicalVolume::new(&list, "SYS").unwrap();
    let mut shell = Nwfs386Shell::new(&vol);
    assert_eq!(shell.retrieve_file_content(0, "SHORT"), Err(NetWareError::TruncatedChain));
    assert_eq!(shell.retrieve_file_content(0, "LONG"), Err(NetWareError::OversizedChain));
    assert_eq!(shell.retrieve_file_content(0, "FAR"), Err(NetWareError::BlockOutOfRange(9999)));
    assert_eq!(shell.retrieve_file_content(0, "LOGIN"), Err(NetWareError::NotAFile));
    assert_eq!(shell.retrieve_file_content(0, "NOSUCH"), Err(NetWareError::NotFound));
    assert_eq!(shell.retrieve_file_content(6, "dup"), Err(NetWareError::Ambiguous));
    assert_eq!(vol.read_file(END, 0), Ok(Vec::new()));
    assert_eq!(vol.read_file(END, 1), Err(NetWareError::TruncatedChain));
    assert_eq!(vol.read_file(12, 0), Err(NetWareError::OversizedChain));
    assert_eq!(vol.read_file(12, 4096), Ok(expected_data(&[12], 4096, 4096)));
    assert_eq!(vol.read_file(12, 4097), Err(NetWareError::TruncatedChain));
}

#[test]
fn lookup_is_case_insensitive() {
    let list = sys_list();
    let vol = LogicalVolume::new(&list, "SYS").unwrap();
    let upper = lookup_directory(vol.directory(), &pieces(&["/", "LOGIN"]));
    let lower = lookup_directory(vol.directory(), &pieces(&["/", "login"]));
    let mixed = lookup_directory(vol.directory(), &pieces(&["", "LoGiN"]));
    assert_eq!(upper, Ok(vec![0, 5]));
    assert_eq!(upper, lower);
    assert_eq!(upper, mixed);
    assert!(match_dir_entry_name(&vol.directory()[1], "login"));
    assert!(!match_dir_entry_name(&vol.directory()[1], "logi"));
    assert!(!match_dir_entry_name(&vol.directory()[0], ""));
}

#[test]
fn lookup_follows_the_path() {
    let list = sys_list();
    let vol = LogicalVolume::new(&list, "SYS").unwrap();
    let dir = vol.directory();
    assert_eq!(lookup_directory(dir, &pieces(&[""])), Ok(vec![0]));
    assert_eq!(lookup_directory(dir, &pieces(&[])), Ok(vec![0]));
    assert_eq!(lookup_directory(dir, &pieces(&["anything"])), Ok(vec![0]));
    assert_eq!(
        lookup_directory(dir, &pieces(&["", "login", "", "sub", "deep"])),
        Ok(vec![0, 5, 7, 8])
    );
    assert_eq!(
        lookup_directory(dir, &pieces(&["", "login", "deep"])),
        Err(NetWareError::NotFound)
    );
    assert_eq!(
        lookup_directory(dir, &pieces(&["", "readme.txt"])),
        Err(NetWareError::NotFound)
    );
    assert_eq!(
        lookup_directory(dir, &pieces(&["", "nosuch", "dup"])),
        Err(NetWareError::NotFound)
    );
    let shell = Nwfs386Shell::new(&vol);
    assert_eq!(shell.lookup_directory(&pieces(&["", "PUBLIC"])), Ok(vec![0, 6]));
    assert_eq!(shell.get_root_directory_id(), 0);
    assert_eq!(shell.get_volume_name(), "SYS");
}

#[test]
fn shared_name_is_ambiguous() {
    let list = sys_list();
    let vol = LogicalVolume::new(&list, "SYS").unwrap();
    let dir = vol.directory();
    assert_eq!(
        lookup_directory(dir, &pieces(&["/", "public", "dup"])),
        Err(NetWareError::Ambiguous)
    );
    assert_eq!(
        lookup_directory(dir, &pieces(&["/", "public", "DUP", "more"])),
        Err(NetWareError::Ambiguous)
    );
    assert_eq!(find_file_entry(&vol, 6, "Dup"), Err(NetWareError::Ambiguous));
    assert_eq!(find_children(dir, 6, "dUP"), vec![6, 7]);
}

#[test]
fn deleted_file_is_neither_listed_nor_found() {
    let list = sys_list();
    let vol = LogicalVolume::new(&list, "SYS").unwrap();
    let dir = vol.directory();
    assert!(is_deleted_dir_entry(&dir[5]));
    assert!(is_deleted_dir_entry(&dir[14]));
    assert!(!is_deleted_dir_entry(&dir[3]));
    assert!(!is_deleted_dir_entry(&dir[1]));
    assert!(match_parent_dir_id(&dir[5], 0));
    let listed = list_children(dir, 0);
    assert_eq!(listed, vec![1, 2, 3, 10, 11, 12, 13]);
    assert!(!listed.contains(&5));
    assert_eq!(find_file_entry(&vol, 0, "OLD.TXT"), Err(NetWareError::NotFound));
    // The deleted namesake does not make the live file ambiguous.
    assert_eq!(find_file_entry(&vol, 0, "README.TXT"), Ok((10, 5000)));
    let mut shell = Nwfs386Shell::new(&vol);
    assert_eq!(shell.retrieve_file_content(0, "old.txt"), Err(NetWareError::NotFound));
    assert_eq!(shell.dir(0), vec![1, 2, 3, 10, 11, 12, 13]);
    assert_eq!(shell.dir(5), vec![4, 9]);
    assert_eq!(shell.dir(0xffffffff), Vec::<usize>::new());
    assert_eq!(shell.dir(0xfffffffd), Vec::<usize>::new());
    assert!(!shell.handle_command(0, &vec!["dir"]));
}

#[test]
fn larger_blocks_hold_more_records() {
    let size = 8192;
    let mut image = new_image(
        &[Segment {
            name: "BIG",
            segment_num: 0,
            blocks: 6,
            total_blocks: 6,
            first_segment_block: 0,
            code: 32,
            rootdir: 1,
        }],
        DATA + 6 * size,
    );
    for block in 2..6 {
        fill_block(&mut image, block, block, size);
    }
    for j in 0..64 {
        put_record(&mut image, 1, j, &available(), size);
    }
    put_record(&mut image, 1, 63, &file_record(0, "F", 8192 + 1, 4, 0), size);
    set_fat(&mut image, 1, 0, END);
    set_fat(&mut image, 4, 0, 2);
    set_fat(&mut image, 2, 1, END);
    let mut list = ImageList::new();
    list.add_image(image).unwrap();
    let vol = LogicalVolume::new(&list, "BIG").unwrap();
    assert_eq!(vol.directory().len(), 64);
    assert_eq!(vol.seek_block(5), Ok((0, (DATA + 5 * size) as u64)));
    assert_eq!(vol.seek_block(6), Err(NetWareError::BlockOutOfRange(6)));
    let mut shell = Nwfs386Shell::new(&vol);
    let data = shell.retrieve_file_content(0, "f").unwrap();
    assert_eq!(data, expected_data(&[4, 2], 8193, size));
}
