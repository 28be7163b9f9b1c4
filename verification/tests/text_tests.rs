use syscall_monitor::text::{char_is_whitespace, chars_of, has_infix, string_of, trim_bounds};

fn chars(s: &str) -> Vec<char> {
    s.chars().collect()
}

#[test]
fn chars_of_gives_every_character() {
    assert_eq!(chars_of("a\u{e9}z"), vec!['a', '\u{e9}', 'z']);
    assert_eq!(chars_of(""), Vec::<char>::new());
}

#[test]
fn string_of_gives_the_stretch() {
    let v = chars("openat(AT");
    assert_eq!(string_of(&v, 0, 6), "openat");
    assert_eq!(string_of(&v, 6, 9), "(AT");
    assert_eq!(string_of(&v, 3, 3), "");
}

#[test]
fn trim_bounds_of_padded_text() {
    assert_eq!(trim_bounds(&chars("  ab c \n")), (2, 6));
}

#[test]
fn trim_bounds_of_bare_text() {
    assert_eq!(trim_bounds(&chars("abc")), (0, 3));
}

#[test]
fn trim_bounds_of_blank_text_are_empty() {
    assert_eq!(trim_bounds(&chars(" \t ")), (3, 3));
    let (a, b) = trim_bounds(&chars(""));
    assert_eq!((a, b), (0, 0));
}

#[test]
fn has_infix_finds_a_stretch() {
    assert!(has_infix(&chars("/usr/bin/bash"), &chars("bin")));
    assert!(has_infix(&chars("/usr/bin/bash"), &chars("/usr")));
    assert!(has_infix(&chars("/usr/bin/bash"), &chars("bash")));
}

#[test]
fn has_infix_wants_consecutive_characters() {
    assert!(!has_infix(&chars("/usr/bin/bash"), &chars("ubb")));
    assert!(!has_infix(&chars("aab"), &chars("abb")));
}

#[test]
fn has_infix_with_overlap() {
    assert!(has_infix(&chars("aaab"), &chars("aab")));
}

#[test]
fn has_infix_of_empty_needle() {
    assert!(has_infix(&chars("abc"), &chars("")));
    assert!(has_infix(&chars(""), &chars("")));
}

#[test]
fn has_infix_of_longer_needle() {
    assert!(!has_infix(&chars("ab"), &chars("abc")));
}

#[test]
fn whitespace_is_what_the_standard_library_calls_whitespace() {
    for n in 0..=0x10ffffu32 {
        if let Some(c) = char::from_u32(n) {
            assert_eq!(char_is_whitespace(c), c.is_whitespace(), "U+{:04X}", n);
        }
    }
}

#[test]
fn whitespace_characters() {
    for c in [' ', '\t', '\n', '\r', '\u{b}', '\u{c}', '\u{85}', '\u{a0}', '\u{1680}', '\u{2000}', '\u{200a}', '\u{2028}', '\u{2029}', '\u{202f}', '\u{205f}', '\u{3000}'] {
        assert!(char_is_whitespace(c));
    }
    for c in ['a', '(', '_', '0', '\u{8}', '\u{e}', '\u{200b}', '\u{180e}', '\u{feff}', '\u{0}'] {
        assert!(!char_is_whitespace(c));
    }
}

#[test]
fn trimming_agrees_with_the_standard_library() {
    for s in ["", " ", "a", " a ", "\u{3000}a b\u{85}", "\u{200b}a\u{200b}", "\t\n x \r\n", "  \u{a0}"] {
        let v: Vec<char> = s.chars().collect();
        let (a, b) = trim_bounds(&v);
        assert_eq!(string_of(&v, a, b), s.trim());
    }
}
