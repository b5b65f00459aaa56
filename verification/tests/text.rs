use saba_core::decimal::parse_u32;
use saba_core::line_breaks::{drop_cr_after_lf, find_blank_line};
use saba_core::split::{find_char, split};
use saba_core::text::{from_chars, push_chars, to_chars};
use saba_core::whitespace::{char_is_whitespace, trim, trim_end, trim_start};

fn chars(s: &str) -> Vec<char> {
    s.chars().collect()
}

fn text(s: &[char]) -> String {
    s.iter().collect()
}

#[test]
fn to_chars_gives_each_character_in_order() {
    assert_eq!(to_chars(""), Vec::<char>::new());
    assert_eq!(to_chars("a\nb"), vec!['a', '\n', 'b']);
    assert_eq!(to_chars("é✓\u{1F600}"), vec!['é', '✓', '\u{1F600}']);
}

#[test]
fn from_chars_builds_the_text_of_the_characters() {
    assert_eq!(from_chars(&[]), "");
    assert_eq!(from_chars(&['a', ' ', 'é', '\u{1F600}']), "a é\u{1F600}");
}

#[test]
fn push_chars_appends_to_what_is_there() {
    let mut s = "ab".to_string();
    push_chars(&mut s, &['c', 'd']);
    assert_eq!(s, "abcd");
    push_chars(&mut s, &[]);
    assert_eq!(s, "abcd");
}

#[test]
fn whitespace_is_what_the_standard_library_calls_whitespace() {
    let mut code: u32 = 0;
    while code <= 0x10ffff {
        if let Some(c) = char::from_u32(code) {
            assert_eq!(char_is_whitespace(c), c.is_whitespace(), "U+{:04X}", code);
        }
        code += 1;
    }
}

#[test]
fn whitespace_examples() {
    for c in [' ', '\t', '\n', '\r', '\u{b}', '\u{c}', '\u{85}', '\u{a0}', '\u{2028}', '\u{3000}'] {
        assert!(char_is_whitespace(c));
    }
    for c in ['a', '0', ':', '\u{8}', '\u{e}', '\u{200b}', '\u{180e}', '\u{feff}'] {
        assert!(!char_is_whitespace(c));
    }
}

#[test]
fn trimming_agrees_with_the_standard_library() {
    for s in ["", " ", "a", "  a b  ", "\t\r\n x \u{a0}", "\u{3000}日本\u{2003}", "x  ", "  x"] {
        let cs = chars(s);
        assert_eq!(text(trim_start(&cs)), s.trim_start());
        assert_eq!(text(trim_end(&cs)), s.trim_end());
        assert_eq!(text(trim(&cs)), s.trim());
    }
}

#[test]
fn trimming_examples() {
    assert_eq!(text(trim_start(&chars("  a b  "))), "a b  ");
    assert_eq!(text(trim_end(&chars("  a b  "))), "  a b");
    assert_eq!(text(trim(&chars("  a b  "))), "a b");
    assert_eq!(text(trim(&chars(" \n\t "))), "");
}

#[test]
fn dropping_carriage_returns_agrees_with_replacing_the_pair() {
    for s in ["", "\r", "\n", "\n\r", "\r\n", "a\n\rb", "\n\r\r", "\n\r\n\r", "\n\n\r", "a\r\n\r\nb", "\r\n\r"] {
        assert_eq!(text(&drop_cr_after_lf(&chars(s))), s.replace("\n\r", "\n"));
    }
}

#[test]
fn dropping_carriage_returns_examples() {
    assert_eq!(text(&drop_cr_after_lf(&chars("a\n\rb"))), "a\nb");
    assert_eq!(text(&drop_cr_after_lf(&chars("\n\r\r"))), "\n\r");
    assert_eq!(text(&drop_cr_after_lf(&chars("\r\n"))), "\r\n");
}

#[test]
fn find_char_gives_the_first_position() {
    assert_eq!(find_char(&chars(""), ':'), None);
    assert_eq!(find_char(&chars("abc"), ':'), None);
    assert_eq!(find_char(&chars(":"), ':'), Some(0));
    assert_eq!(find_char(&chars("a:b:c"), ':'), Some(1));
    assert_eq!(find_char(&chars("é✓:"), ':'), Some(2));
}

#[test]
fn find_blank_line_gives_the_first_pair_of_line_feeds() {
    assert_eq!(find_blank_line(&chars("")), None);
    assert_eq!(find_blank_line(&chars("\n")), None);
    assert_eq!(find_blank_line(&chars("a\nb\n")), None);
    assert_eq!(find_blank_line(&chars("\n\r\n")), None);
    assert_eq!(find_blank_line(&chars("\n\n")), Some(0));
    assert_eq!(find_blank_line(&chars("a\n\n\nb\n\n")), Some(1));
    assert_eq!(find_blank_line(&chars("ab\nc\n\n")), Some(4));
}

#[test]
fn split_agrees_with_the_standard_library() {
    for s in ["", " ", "a", "a b", " a", "a ", "a  b", "  ", "a b c d", "é ✓"] {
        let cs = chars(s);
        let pieces: Vec<String> = split(&cs, ' ').iter().map(|p| text(p)).collect();
        let expected: Vec<String> = s.split(' ').map(|p| p.to_string()).collect();
        assert_eq!(pieces, expected);
    }
}

#[test]
fn split_examples() {
    let cs = chars("a,,b,");
    let pieces: Vec<String> = split(&cs, ',').iter().map(|p| text(p)).collect();
    assert_eq!(pieces, vec!["a", "", "b", ""]);
    let cs = chars("");
    let pieces: Vec<String> = split(&cs, ',').iter().map(|p| text(p)).collect();
    assert_eq!(pieces, vec![""]);
}

#[test]
fn parse_u32_agrees_with_the_standard_library() {
    for s in [
        "", "+", "-", "0", "00", "1", "+1", "-1", "++1", "+-1", "1+", "12a", "a12", " 1", "1 ",
        "200", "4294967295", "4294967296", "42949672950", "99999999999999999999999", "+4294967295",
        "0000000000000000000000001", "١٢٣", "1_000", "0x10",
    ] {
        assert_eq!(parse_u32(&chars(s)), s.parse::<u32>().ok(), "{:?}", s);
    }
}

#[test]
fn parse_u32_examples() {
    assert_eq!(parse_u32(&chars("0")), Some(0));
    assert_eq!(parse_u32(&chars("200")), Some(200));
    assert_eq!(parse_u32(&chars("+404")), Some(404));
    assert_eq!(parse_u32(&chars("4294967295")), Some(4294967295));
    assert_eq!(parse_u32(&chars("4294967296")), None);
    assert_eq!(parse_u32(&chars("")), None);
    assert_eq!(parse_u32(&chars("+")), None);
    assert_eq!(parse_u32(&chars("2 0")), None);
}
