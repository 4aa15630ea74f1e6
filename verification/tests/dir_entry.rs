use fat32_parser::dir_entry::decode_ascii_trim;
use fat32_parser::{Attributes, DirEntry};

fn record(name: &[u8; 11], attr: u8, high: u16, low: u16, size: u32) -> [u8; 32] {
    let mut r = [0u8; 32];
    r[..11].copy_from_slice(name);
    r[11] = attr;
    r[20..22].copy_from_slice(&high.to_le_bytes());
    r[26..28].copy_from_slice(&low.to_le_bytes());
    r[28..32].copy_from_slice(&size.to_le_bytes());
    r
}

#[test]
fn attributes_from_byte_takes_each_bit() {
    let none = Attributes::from_byte(0);
    assert!(!none.read_only && !none.hidden && !none.system);
    assert!(!none.volume_id && !none.directory && !none.archive);

    assert!(Attributes::from_byte(0x01).read_only);
    assert!(Attributes::from_byte(0x02).hidden);
    assert!(Attributes::from_byte(0x04).system);
    assert!(Attributes::from_byte(0x08).volume_id);
    assert!(Attributes::from_byte(0x10).directory);
    assert!(Attributes::from_byte(0x20).archive);

    let all = Attributes::from_byte(0x3F);
    assert!(all.read_only && all.hidden && all.system);
    assert!(all.volume_id && all.directory && all.archive);

    // the two top bits carry no flag
    let top = Attributes::from_byte(0xC0);
    assert!(!top.read_only && !top.hidden && !top.system);
    assert!(!top.volume_id && !top.directory && !top.archive);
}

#[test]
fn attributes_from_byte_on_every_byte() {
    for b in 0..=255u8 {
        let a = Attributes::from_byte(b);
        assert_eq!(a.read_only, b & 0x01 != 0);
        assert_eq!(a.hidden, b & 0x02 != 0);
        assert_eq!(a.system, b & 0x04 != 0);
        assert_eq!(a.volume_id, b & 0x08 != 0);
        assert_eq!(a.directory, b & 0x10 != 0);
        assert_eq!(a.archive, b & 0x20 != 0);
    }
}

#[test]
fn parse_hello_txt() {
    let r = record(b"HELLO   TXT", 0x20, 0, 3, 5);
    let e = DirEntry::parse(&r).expect("a record");
    assert_eq!(e.name, "HELLO.TXT");
    assert!(e.is_file());
    assert!(!e.is_dir());
    assert_eq!(e.first_cluster, 3);
    assert_eq!(e.size, 5);
    assert!(e.attrs.archive);
}

#[test]
fn parse_unused_and_deleted_records_yield_nothing() {
    let mut r = record(b"HELLO   TXT", 0x20, 0, 3, 5);
    r[0] = 0x00;
    assert!(DirEntry::parse(&r).is_none());
    r[0] = 0xE5;
    assert!(DirEntry::parse(&r).is_none());
    r[0] = 0xE4;
    assert!(DirEntry::parse(&r).is_some());
    assert!(DirEntry::parse(&[0u8; 32]).is_none());
    assert!(DirEntry::parse(&[0xE5u8; 32]).is_none());
}

#[test]
fn parse_volume_labels_yield_nothing() {
    for attr in [0x08u8, 0x0F, 0x28, 0x18, 0xFF] {
        let r = record(b"LABEL      ", attr, 0, 0, 0);
        assert!(DirEntry::parse(&r).is_none());
    }
    for attr in [0x00u8, 0x07, 0x10, 0x20, 0x37, 0xF7] {
        let r = record(b"LABEL      ", attr, 0, 0, 0);
        assert!(DirEntry::parse(&r).is_some());
    }
}

#[test]
fn parse_short_slices_yield_nothing() {
    let r = record(b"HELLO   TXT", 0x20, 0, 3, 5);
    for len in 0..32 {
        assert!(DirEntry::parse(&r[..len]).is_none());
    }
    assert!(DirEntry::parse(&r[..32]).is_some());
}

#[test]
fn parse_reads_the_first_32_bytes_of_a_longer_slice() {
    let mut long = [0xEEu8; 40];
    long[..32].copy_from_slice(&record(b"A       B  ", 0x10, 1, 2, 3));
    let e = DirEntry::parse(&long).expect("a record");
    assert_eq!(e.name, "A.B");
    assert!(e.is_dir());
    assert_eq!(e.first_cluster, 0x0001_0002);
    assert_eq!(e.size, 3);
}

#[test]
fn parse_joins_the_two_halves_of_the_first_cluster() {
    let e = DirEntry::parse(&record(b"X          ", 0, 0x1234, 0x5678, 0)).expect("a record");
    assert_eq!(e.first_cluster, 0x1234_5678);
    let e = DirEntry::parse(&record(b"X          ", 0, 0xFFFF, 0xFFFF, 0)).expect("a record");
    assert_eq!(e.first_cluster, 0xFFFF_FFFF);
    let e = DirEntry::parse(&record(b"X          ", 0, 0x8000, 0, 0)).expect("a record");
    assert_eq!(e.first_cluster, 0x8000_0000);
    let e = DirEntry::parse(&record(b"X          ", 0, 0, 0x0100, 0)).expect("a record");
    assert_eq!(e.first_cluster, 256);
}

#[test]
fn parse_reads_the_size_little_endian() {
    let e = DirEntry::parse(&record(b"X          ", 0, 0, 0, 0x0102_0304)).expect("a record");
    assert_eq!(e.size, 0x0102_0304);
    let mut r = record(b"X          ", 0, 0, 0, 0);
    r[28] = 0x04;
    r[29] = 0x03;
    r[30] = 0x02;
    r[31] = 0x01;
    assert_eq!(DirEntry::parse(&r).expect("a record").size, 0x0102_0304);
    let e = DirEntry::parse(&record(b"X          ", 0, 0, 0, u32::MAX)).expect("a record");
    assert_eq!(e.size, u32::MAX);
}

#[test]
fn parse_ignores_the_bytes_it_does_not_name() {
    let mut r = record(b"HELLO   TXT", 0x20, 0, 3, 5);
    for i in (12..20).chain(22..26) {
        r[i] = 0xAB;
    }
    let e = DirEntry::parse(&r).expect("a record");
    assert_eq!(e.name, "HELLO.TXT");
    assert_eq!(e.first_cluster, 3);
    assert_eq!(e.size, 5);
}

#[test]
fn parse_names() {
    let name = |raw: &[u8; 11]| DirEntry::parse(&record(raw, 0x20, 0, 0, 0)).expect("a record").name;
    assert_eq!(name(b"README     "), "README");
    assert_eq!(name(b"LONGNAMEEXT"), "LONGNAME.EXT");
    assert_eq!(name(b"A       B  "), "A.B");
    assert_eq!(name(b"        TXT"), ".TXT");
    assert_eq!(name(b"           "), "");
    assert_eq!(name(b"A B     C D"), "A B.C D");
    assert_eq!(name(b" LEAD     X"), " LEAD.  X");
    assert_eq!(name(b"lower   txt"), "lower.txt");
    assert_eq!(name(b".          "), ".");
    assert_eq!(name(b"..         "), "..");
}

#[test]
fn parse_takes_bytes_above_127_as_code_points() {
    let e = DirEntry::parse(&record(b"CAF\xC9    \xFF\x80 ", 0x20, 0, 0, 0)).expect("a record");
    assert_eq!(e.name, "CAF\u{c9}.\u{ff}\u{80}");
}

#[test]
fn decode_ascii_trim_drops_trailing_spaces_only() {
    assert_eq!(decode_ascii_trim(b"HELLO   "), "HELLO");
    assert_eq!(decode_ascii_trim(b"  A  B  "), "  A  B");
    assert_eq!(decode_ascii_trim(b"        "), "");
    assert_eq!(decode_ascii_trim(b""), "");
    assert_eq!(decode_ascii_trim(b"TXT"), "TXT");
    assert_eq!(decode_ascii_trim(b"A\t \n "), "A\t \n");
    assert_eq!(decode_ascii_trim(b"\x00\x20"), "\u{0}");
    assert_eq!(decode_ascii_trim(&[0xE9, 0x20, 0xA0, 0x20]), "\u{e9} \u{a0}");
}

#[test]
fn dir_entry_clone_keeps_every_field() {
    let e = DirEntry::parse(&record(b"HELLO   TXT", 0x21, 7, 3, 5)).expect("a record");
    let c = e.clone();
    assert_eq!(c.name, e.name);
    assert_eq!(c.first_cluster, e.first_cluster);
    assert_eq!(c.size, e.size);
    assert_eq!(c.attrs.read_only, e.attrs.read_only);
    assert_eq!(c.attrs.archive, e.attrs.archive);
    assert_eq!(c.attrs.directory, e.attrs.directory);
}

#[test]
fn is_dir_and_is_file_are_opposites() {
    for b in 0..=255u8 {
        if b & 0x08 != 0 {
            continue;
        }
        let e = DirEntry::parse(&record(b"X          ", b, 0, 0, 0)).expect("a record");
        assert_eq!(e.is_dir(), b & 0x10 != 0);
        assert_eq!(e.is_file(), !e.is_dir());
    }
}
