use m3u8_progress::decimal::{append_digits, append_int, read_i32};
use m3u8_progress::split::{remove_all, split_text};
use m3u8_progress::text::{chars_of, is_space_char, trim_text};

#[test]
fn characters_come_in_order() {
    assert_eq!(chars_of(""), Vec::<char>::new());
    assert_eq!(chars_of("a\u{e9}\u{1f600}z"), vec!['a', '\u{e9}', '\u{1f600}', 'z']);
}

#[test]
fn white_space_is_what_std_says() {
    for code in 0..=0x11_0000u32 {
        if let Some(c) = char::from_u32(code) {
            assert_eq!(is_space_char(c), c.is_whitespace(), "{:x}", code);
        }
    }
}

#[test]
fn trimming_is_what_std_does() {
    for text in [
        "", " ", "a", " a", "a ", "  a b  ", "\t\r\n x \u{a0}\u{3000}", "\u{200b} a", " - ",
        "\u{2003}\u{2003}", "a  ",
    ] {
        assert_eq!(trim_text(text), text.trim(), "{:?}", text);
    }
}

#[test]
fn splitting_is_what_std_does() {
    for (text, sep) in [
        ("", "|"),
        ("|", "|"),
        ("a|b||c|", "|"),
        ("a | b | c", " | "),
        ("a |  | b", " | "),
        ("aaaa", "aa"),
        ("aaa", "aa"),
        ("abcabc", "abcabcabc"),
        ("x\ny\n", "\n"),
        ("INFO : VidINFO : Vid", "INFO : Vid"),
        ("\u{e9}|\u{1f600}", "|"),
    ] {
        let want: Vec<String> = text.split(sep).map(|s| s.to_string()).collect();
        assert_eq!(split_text(text, sep), want, "{:?} {:?}", text, sep);
        assert_eq!(remove_all(text, sep), text.replace(sep, ""), "{:?} {:?}", text, sep);
    }
}

#[test]
fn numerals_are_written_as_std_writes_them() {
    for n in [0u64, 1, 9, 10, 11, 99, 100, 101, 4294967296, u64::MAX] {
        let mut out = String::from("x");
        append_digits(&mut out, n);
        assert_eq!(out, format!("x{}", n));
    }
    for i in [0i64, -1, 1, -10, 2147483648, -2147483649, i64::MAX, i64::MIN] {
        let mut out = String::new();
        append_int(&mut out, i);
        assert_eq!(out, i.to_string());
    }
}

#[test]
fn numbers_are_read_as_std_reads_them() {
    for text in [
        "", "-", "+", "0", "-0", "+0", "00012", "2147483647", "2147483648", "-2147483648",
        "-2147483649", "+2147483647", "99999999999999999999", "-99999999999999999999", "1 ", " 1",
        "1a", "--1", "+-1", "1.0", "\u{661}", "12345",
    ] {
        assert_eq!(read_i32(text), text.parse::<i32>().ok(), "{:?}", text);
    }
}

#[test]
fn empty_separator_occurs_nowhere() {
    assert_eq!(split_text("abc", ""), vec!["abc".to_string()]);
    assert_eq!(split_text("", ""), vec![String::new()]);
    assert_eq!(remove_all("abc", ""), "abc");
}
