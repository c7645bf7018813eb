use nwfs::bytes::Reader;
use nwfs::nwfs286::types::{NwDate, NwTime};
use nwfs::nwfs386::types::{Attributes, Rights};
use nwfs::types::{format_timestamp, NetWareError, Timestamp};
use nwfs::util::{ascii_with_length_to_string, asciiz_to_string};

#[test]
fn reader_decodes_little_and_big_endian() {
    let data = [0x12u8, 0x34, 0x56, 0x78, 0x9a, 0xbc];
    let mut r = Reader::new(&data);
    assert_eq!(r.read_u16_le(), Ok(0x3412));
    assert_eq!(r.read_u32_le(), Ok(0xbc9a7856));
    assert_eq!(r.offset(), 6);

    let mut r = Reader::new(&data);
    assert_eq!(r.read_u16_be(), Ok(0x1234));
    assert_eq!(r.read_u32_be(), Ok(0x56789abc));
    assert_eq!(r.left(), 0);
}

#[test]
fn reader_reads_at_an_offset() {
    let data = [0u8, 1, 2, 3, 4, 5, 6, 7];
    let mut r = Reader::at(&data, 3).unwrap();
    assert_eq!(r.read_u8(), Ok(3));
    assert_eq!(r.read_bytes(2), Ok(&data[4..6]));
    assert_eq!(r.skip(2), Ok(()));
    assert_eq!(r.offset(), 8);
    assert_eq!(r.read_u8(), Err(NetWareError::IoError));
}

#[test]
fn reader_fails_short_reads_without_moving() {
    let data = [1u8, 2, 3];
    let mut r = Reader::new(&data);
    assert_eq!(r.read_u32_le(), Err(NetWareError::IoError));
    assert_eq!(r.read_u32_be(), Err(NetWareError::IoError));
    assert_eq!(r.read_bytes(4), Err(NetWareError::IoError));
    assert_eq!(r.skip(4), Err(NetWareError::IoError));
    assert_eq!(r.read_u32s::<1>(), Err(NetWareError::IoError));
    assert_eq!(r.read_u16s::<2>(), Err(NetWareError::IoError));
    assert_eq!(r.read_u8s::<4>(), Err(NetWareError::IoError));
    assert_eq!(r.read_u16_list(2), Err(NetWareError::IoError));
    assert_eq!(r.offset(), 0);
    assert_eq!(r.read_u16_le(), Ok(0x0201));
    assert_eq!(r.read_u16_be(), Err(NetWareError::IoError));
    assert_eq!(r.offset(), 2);
}

#[test]
fn reader_seek_to_the_end_is_allowed_but_not_beyond() {
    let data = [1u8, 2, 3];
    assert!(Reader::at(&data, 3).is_ok());
    assert!(matches!(Reader::at(&data, 4), Err(NetWareError::IoError)));
}

#[test]
fn reader_reads_arrays() {
    let data = [1u8, 0, 2, 0, 3, 0, 0, 0, 4, 0, 0, 0, 9, 8];
    let mut r = Reader::new(&data);
    assert_eq!(r.read_u16s::<2>(), Ok([1, 2]));
    assert_eq!(r.read_u32s::<2>(), Ok([3, 4]));
    assert_eq!(r.read_u8s::<2>(), Ok([9, 8]));
    let mut r = Reader::new(&data);
    assert_eq!(r.read_u16_list(3), Ok(vec![1, 2, 3]));
}

#[test]
fn timestamp_decodes_date_and_time() {
    let ts = Timestamp(0x215C6B40);
    assert!(ts.is_valid());
    assert_eq!(ts.year(), 1996);
    assert_eq!(ts.month(), 10);
    assert_eq!(ts.day(), 28);
    assert_eq!(ts.hour(), 13);
    assert_eq!(ts.minute(), 26);
    assert_eq!(ts.second(), 0);
    assert_eq!(ts.to_string(), "28-10-1996 13:26:00");
}

#[test]
fn timestamp_zero_is_invalid() {
    let ts = Timestamp(0);
    assert!(!ts.is_valid());
    assert_eq!(ts.to_string(), "<invalid>");
    assert_eq!(format_timestamp(0), "<0>");
}

#[test]
fn timestamp_extremes() {
    let ts = Timestamp(0xffffffff);
    assert_eq!(ts.year(), 2107);
    assert_eq!(ts.month(), 15);
    assert_eq!(ts.day(), 31);
    assert_eq!(ts.hour(), 31);
    assert_eq!(ts.minute(), 63);
    assert_eq!(ts.second(), 62);
    assert_eq!(ts.to_string(), "31-15-2107 31:63:62");
    assert_eq!(Timestamp(1).to_string(), "00-00-1980 00:00:02");
}

#[test]
fn format_timestamp_matches_the_method() {
    assert_eq!(format_timestamp(0x215C6B40), "28-10-1996 13:26:00");
}

#[test]
fn nw_date_decodes_straddling_month() {
    // 1001100000100001: month 12 has its high bit in bit 0.
    let d = NwDate(0x9821);
    assert!(d.is_valid());
    assert_eq!(d.day(), 24);
    assert_eq!(d.month(), 12);
    assert_eq!(d.year(), 1996);
    assert_eq!(d.to_string(), "24-12-1996");
    assert_eq!(NwDate(0).to_string(), "<invalid>");
    assert!(!NwDate(0).is_valid());
}

#[test]
fn nw_time_decodes_straddling_minute() {
    let samples: [(u16, u16, u16); 9] = [
        (0x4179, 15, 10),
        (0xe574, 14, 39),
        (0x4f39, 7, 10),
        (0x7251, 10, 11),
        (0x6b3a, 7, 19),
        (0xfd56, 10, 55),
        (0x0e50, 10, 0),
        (0x2a50, 10, 1),
        (0x4250, 10, 2),
    ];
    for (raw, hour, minute) in samples {
        let t = NwTime(raw);
        assert_eq!(t.hour(), hour);
        assert_eq!(t.minute(), minute);
    }
    assert_eq!(NwTime(0x4179).second(), 2);
    assert_eq!(NwTime(0x4179).to_string(), "15:10:02");
    assert_eq!(NwTime(0).to_string(), "<invalid>");
    assert!(!NwTime(0).is_valid());
    assert!(NwTime(1).is_valid());
}

#[test]
fn attributes_text() {
    assert_eq!(Attributes(0).to_string(), "Rw---------------------");
    assert_eq!(Attributes(0x1).to_string(), "Ro---------------------");
    assert_eq!(
        Attributes(0x80000 | 0x40000 | 0x20000 | 0x10000 | 0x1000 | 0x80 | 0x20 | 0x4 | 0x2 | 0x1)
            .to_string(),
        "RoSA-HSyT-P----CiCiDiRi"
    );
    assert!(Attributes(0x10).is_directory());
    assert!(!Attributes(0x20).is_directory());
}

#[test]
fn rights_text() {
    assert_eq!(Rights(0).to_string(), "        ");
    assert_eq!(Rights(0x1fb).to_string(), "SRWCEMFA");
    assert_eq!(Rights(0x1 | 0x40).to_string(), " R    F ");
}

#[test]
fn asciiz_stops_at_the_first_nul() {
    assert_eq!(asciiz_to_string(b"SYS\0\0\0\0\0"), "SYS");
    assert_eq!(asciiz_to_string(b"HOTFIX\0\0"), "HOTFIX");
    assert_eq!(asciiz_to_string(b"AB\0CD\0"), "AB");
    assert_eq!(asciiz_to_string(b"NONUL"), "NONUL");
    assert_eq!(asciiz_to_string(b""), "");
    assert_eq!(asciiz_to_string(b"\0ABC"), "");
}

#[test]
fn ascii_with_length_takes_the_first_bytes() {
    assert_eq!(ascii_with_length_to_string(b"LOGIN.EXE   ", 9), "LOGIN.EXE");
    assert_eq!(ascii_with_length_to_string(b"SYS", 0), "");
    assert_eq!(ascii_with_length_to_string(b"SYS", 3), "SYS");
    assert_eq!(ascii_with_length_to_string(b"SYS", 200), "SYS");
}

#[test]
fn text_of_bytes_that_are_not_ascii_is_replaced() {
    assert_eq!(asciiz_to_string(&[0x41, 0xff, 0x42, 0]), "A\u{fffd}B");
    assert_eq!(ascii_with_length_to_string(&[0xff, 0x41, 0x42], 2), "\u{fffd}A");
}
