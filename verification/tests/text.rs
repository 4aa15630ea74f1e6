use fat32_parser::layout::{le_u16, le_u32};
use fat32_parser::text::{
    ascii_upper, is_whitespace, same_text, split_fields, starts_with_char, upper, Separator,
};

#[test]
fn le_u16_reads_low_byte_first() {
    assert_eq!(le_u16(&[0x00, 0x02], 0), 512);
    assert_eq!(le_u16(&[0x34, 0x12], 0), 0x1234);
    assert_eq!(le_u16(&[0xFF, 0xFF], 0), 0xFFFF);
    assert_eq!(le_u16(&[9, 9, 0x01, 0x00, 9], 2), 1);
    assert_eq!(le_u16(&[9, 9, 0x01, 0x80], 2), 0x8001);
}

#[test]
fn le_u32_reads_low_byte_first() {
    assert_eq!(le_u32(&[0x78, 0x56, 0x34, 0x12], 0), 0x1234_5678);
    assert_eq!(le_u32(&[0xFF, 0xFF, 0xFF, 0xFF], 0), u32::MAX);
    assert_eq!(le_u32(&[0, 0, 0, 0x80], 0), 0x8000_0000);
    assert_eq!(le_u32(&[7, 1, 0, 0, 0, 7], 1), 1);
    for v in [0u32, 1, 255, 256, 65535, 65536, 0x0FFF_FFF8, 0xDEAD_BEEF] {
        assert_eq!(le_u32(&v.to_le_bytes(), 0), v);
    }
}

#[test]
fn ascii_upper_agrees_with_std_on_every_char() {
    for u in 0..=0x10FFFFu32 {
        if let Some(c) = char::from_u32(u) {
            assert_eq!(ascii_upper(c), c.to_ascii_uppercase());
        }
    }
}

#[test]
fn is_whitespace_agrees_with_std_on_every_char() {
    for u in 0..=0x10FFFFu32 {
        if let Some(c) = char::from_u32(u) {
            assert_eq!(is_whitespace(c), c.is_whitespace(), "U+{:04X}", u);
        }
    }
}

#[test]
fn upper_changes_ascii_letters_only() {
    assert_eq!(upper("abcxyz"), "ABCXYZ");
    assert_eq!(upper("`az{"), "`AZ{");
    assert_eq!(upper("Hello, World 42!"), "HELLO, WORLD 42!");
    assert_eq!(upper("stra\u{df}e \u{e0}"), "STRA\u{df}E \u{e0}");
    assert_eq!(upper(""), "");
}

#[test]
fn same_text_compares_character_by_character() {
    assert!(same_text("", ""));
    assert!(same_text("abc", "abc"));
    assert!(!same_text("abc", "abd"));
    assert!(!same_text("abc", "ab"));
    assert!(!same_text("ab", "abc"));
    assert!(!same_text("", "a"));
    assert!(!same_text("a", ""));
    assert!(!same_text("abc", "ABC"));
    assert!(same_text("\u{e9}\u{1F600}", "\u{e9}\u{1F600}"));
    assert!(!same_text("\u{e9}", "e"));
}

#[test]
fn starts_with_char_looks_at_the_first_character() {
    assert!(starts_with_char("/", '/'));
    assert!(starts_with_char("/a", '/'));
    assert!(!starts_with_char("a/", '/'));
    assert!(!starts_with_char("", '/'));
    assert!(starts_with_char("\u{e9}x", '\u{e9}'));
}

#[test]
fn split_fields_by_slash() {
    let split = |s: &str| split_fields(s, Separator::Slash);
    assert_eq!(split("/a/b"), vec!["a", "b"]);
    assert_eq!(split("//a//b/"), vec!["a", "b"]);
    assert_eq!(split("a"), vec!["a"]);
    assert_eq!(split("/"), Vec::<String>::new());
    assert_eq!(split(""), Vec::<String>::new());
    assert_eq!(split("////"), Vec::<String>::new());
    assert_eq!(split("/a b/ c /"), vec!["a b", " c "]);
    assert_eq!(split("/./../x"), vec![".", "..", "x"]);
}

#[test]
fn split_fields_by_whitespace_agrees_with_std() {
    for line in [
        "",
        " ",
        "ls",
        "  ls  ",
        "ls /a/b",
        "\tcat\u{a0}x\u{3000}y\r\n",
        "cd\u{2003}..",
        "a\u{200b}b c",
        "one two  three   four",
    ] {
        let expect: Vec<String> = line.split_whitespace().map(|w| w.to_string()).collect();
        assert_eq!(split_fields(line, Separator::Whitespace), expect);
    }
}

#[test]
fn separators_separate() {
    assert!(Separator::Slash.separates('/'));
    assert!(!Separator::Slash.separates('\\'));
    assert!(!Separator::Slash.separates(' '));
    assert!(Separator::Whitespace.separates(' '));
    assert!(Separator::Whitespace.separates('\n'));
    assert!(!Separator::Whitespace.separates('/'));
}
