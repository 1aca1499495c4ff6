use tailwind_fragments::whitespace::{
    chars_of, is_ascii_whitespace, is_in_class, is_whitespace, leading_run_len, strip,
    trailing_run_len, trim, CharClass,
};

fn class_of(ws: bool) -> CharClass {
    if ws {
        CharClass::AsciiWhitespace
    } else {
        CharClass::NotAsciiWhitespace
    }
}

fn count_leading(s: &str, ws: bool) -> usize {
    leading_run_len(&s.chars().collect(), class_of(ws))
}

fn count_trailing(s: &str, ws: bool) -> usize {
    trailing_run_len(&s.chars().collect(), class_of(ws))
}

#[test]
fn characters_come_out_in_order() {
    assert_eq!(chars_of(""), Vec::<char>::new());
    assert_eq!(chars_of("a b"), vec!['a', ' ', 'b']);
    assert_eq!(chars_of("\u{e9}\u{4e2d}x"), vec!['\u{e9}', '\u{4e2d}', 'x']);
}

#[test]
fn the_five_ascii_whitespace_characters() {
    for c in [' ', '\t', '\n', '\x0C', '\r'] {
        assert!(is_ascii_whitespace(c));
    }
    for c in ['a', '0', '-', '\x0B', '\0', '\u{a0}', '\u{2003}', '\u{3000}'] {
        assert!(!is_ascii_whitespace(c));
    }
}

#[test]
fn whitespace_predicate_agrees_with_the_standard_one() {
    for code in 0u32..0x3100 {
        if let Some(c) = char::from_u32(code) {
            assert_eq!(is_ascii_whitespace(c), c.is_ascii_whitespace());
        }
    }
}

#[test]
fn leading_runs() {
    assert_eq!(count_leading("", true), 0);
    assert_eq!(count_leading("", false), 0);
    assert_eq!(count_leading("  a b  ", true), 2);
    assert_eq!(count_leading("  a b  ", false), 0);
    assert_eq!(count_leading("ab c", false), 2);
    assert_eq!(count_leading("abc", false), 3);
    assert_eq!(count_leading(" \t\n", true), 3);
    assert_eq!(count_leading("\u{e9}\u{e9} x", false), 2);
}

#[test]
fn trailing_runs() {
    assert_eq!(count_trailing("", true), 0);
    assert_eq!(count_trailing("  a b   ", true), 3);
    assert_eq!(count_trailing("  a b  ", false), 0);
    assert_eq!(count_trailing("a bcd", false), 3);
    assert_eq!(count_trailing("abc", false), 3);
    assert_eq!(count_trailing(" \t\n", true), 3);
    assert_eq!(count_trailing("x \u{e9}\u{e9}", false), 2);
}

#[test]
fn white_space_predicate_agrees_with_the_standard_one() {
    for code in 0u32..=0x10FFFF {
        if let Some(c) = char::from_u32(code) {
            assert_eq!(is_whitespace(c), c.is_whitespace(), "U+{:04X}", code);
        }
    }
}

#[test]
fn white_space_beyond_ascii() {
    for c in ['\x0B', '\u{85}', '\u{a0}', '\u{1680}', '\u{2000}', '\u{200a}', '\u{2028}',
        '\u{2029}', '\u{202f}', '\u{205f}', '\u{3000}']
    {
        assert!(is_whitespace(c));
        assert!(!is_ascii_whitespace(c));
    }
    for c in ['a', '\0', '\x08', '\x0E', '\x1F', '\u{200b}', '\u{180e}', '\u{feff}', '\u{2060}'] {
        assert!(!is_whitespace(c));
    }
}

#[test]
fn classes_of_characters() {
    assert!(is_in_class(' ', CharClass::AsciiWhitespace));
    assert!(!is_in_class(' ', CharClass::NotAsciiWhitespace));
    assert!(is_in_class(' ', CharClass::WhiteSpace));
    assert!(!is_in_class('\u{a0}', CharClass::AsciiWhitespace));
    assert!(is_in_class('\u{a0}', CharClass::NotAsciiWhitespace));
    assert!(is_in_class('\u{a0}', CharClass::WhiteSpace));
    assert!(!is_in_class('x', CharClass::AsciiWhitespace));
    assert!(is_in_class('x', CharClass::NotAsciiWhitespace));
    assert!(!is_in_class('x', CharClass::WhiteSpace));
}

#[test]
fn runs_of_white_space() {
    let chars: Vec<char> = " \u{a0}\x0Ba \u{3000}".chars().collect();
    assert_eq!(leading_run_len(&chars, CharClass::WhiteSpace), 3);
    assert_eq!(leading_run_len(&chars, CharClass::AsciiWhitespace), 1);
    assert_eq!(trailing_run_len(&chars, CharClass::WhiteSpace), 2);
    assert_eq!(trailing_run_len(&chars, CharClass::AsciiWhitespace), 0);
}

#[test]
fn trimming_removes_whitespace_at_both_ends() {
    assert_eq!(trim(""), "");
    assert_eq!(trim("abc"), "abc");
    assert_eq!(trim("  a b  "), "a b");
    assert_eq!(trim("\t\r\n a  b \x0C"), "a  b");
    assert_eq!(trim(" \t \n"), "");
    assert_eq!(trim(" x"), "x");
    assert_eq!(trim("x "), "x");
    assert_eq!(trim(" \u{e9} \u{fc} "), "\u{e9} \u{fc}");
}

#[test]
fn trimming_removes_whitespace_that_is_not_ascii() {
    assert_eq!(trim(" \u{a0}a\u{a0} "), "a");
    assert_eq!(trim("\x0Ba\x0B"), "a");
    assert_eq!(trim("\u{3000}a\u{a0}b\u{2003}"), "a\u{a0}b");
    assert_eq!(trim("\u{a0}\u{2028}"), "");
    assert_eq!(trim("\u{200b}a\u{200b}"), "\u{200b}a\u{200b}");
}

#[test]
fn trimming_agrees_with_the_standard_one() {
    let samples = [
        "", " ", "a", " a", "a ", "  a  b  ", "\t\na\r\n", "\u{a0}a", "a\u{a0}", "\x0B\x0C",
        "\u{85}x\u{85}", "\u{1680}\u{2000}x y\u{200a}\u{205f}", "\u{e9}", " \u{4e2d} ",
        "\u{200b} a \u{feff}",
    ];
    for s in samples {
        assert_eq!(trim(s), s.trim());
    }
}

#[test]
fn stripping_by_class() {
    assert_eq!(strip("  a b  ", CharClass::AsciiWhitespace), "a b");
    assert_eq!(strip(" \u{a0}a\u{a0} ", CharClass::AsciiWhitespace), "\u{a0}a\u{a0}");
    assert_eq!(strip(" \u{a0}a\u{a0} ", CharClass::WhiteSpace), "a");
    assert_eq!(strip(" \t\n", CharClass::AsciiWhitespace), "");
    assert_eq!(strip("", CharClass::AsciiWhitespace), "");
    assert_eq!(strip("ab cd ef", CharClass::NotAsciiWhitespace), " cd ");
    assert_eq!(strip("abc", CharClass::NotAsciiWhitespace), "");
    assert_eq!(strip("abc", CharClass::AsciiWhitespace), "abc");
}
