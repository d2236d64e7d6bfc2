use sidecar_supervisor::text::{
    find_last, from_chars, has, matches_at, read_u16, to_chars, trimmed, whitespace, without,
};

fn chars(s: &str) -> Vec<char> {
    s.chars().collect()
}

fn text(v: &[char]) -> String {
    v.iter().collect()
}

const SAMPLES: [&str; 24] = [
    "",
    " ",
    "a",
    "  a  ",
    "\t\r\n x \u{a0}\u{3000}",
    "\u{85}\u{1680}\u{2000}\u{200a}\u{2028}\u{2029}\u{202f}\u{205f}",
    "\u{200b}zero width is no space\u{200b}",
    "\u{1c}separators\u{1f}",
    "ACTUAL_PORT: 54321",
    "ACTUAL_PORT: ACTUAL_PORT: ",
    "aaaa",
    "aaaaa",
    "abababab",
    "[ERROR][ERROR]",
    "[[ERROR]ERROR]",
    "0",
    "65535",
    "65536",
    "+1",
    "+",
    "-0",
    "0000000000000000000000001",
    "12a",
    "１２",
];

const PATTERNS: [&str; 10] = ["", "a", "aa", "ab", "ba", "[ERROR]", "ACTUAL_PORT: ", " ", "\u{3000}", "zzz"];

#[test]
fn whitespace_is_the_white_space_property() {
    let mut code: u32 = 0;
    while code <= 0x10FFFF {
        if let Some(c) = char::from_u32(code) {
            assert_eq!(whitespace(c), c.is_whitespace(), "U+{:04X}", code);
        }
        code += 1;
    }
}

#[test]
fn to_chars_and_back() {
    for s in SAMPLES {
        assert_eq!(to_chars(s), chars(s));
        assert_eq!(from_chars(&chars(s)), s);
    }
}

#[test]
fn trimmed_is_trim() {
    for s in SAMPLES {
        assert_eq!(text(trimmed(&chars(s))), s.trim(), "{:?}", s);
    }
}

#[test]
fn trimmed_cuts_both_ends_only() {
    assert_eq!(text(trimmed(&chars("  a b  "))), "a b");
    assert_eq!(text(trimmed(&chars("\n\n"))), "");
    assert_eq!(text(trimmed(&chars("x"))), "x");
}

#[test]
fn read_u16_is_parse() {
    for s in SAMPLES {
        assert_eq!(read_u16(&chars(s)), s.parse::<u16>().ok(), "{:?}", s);
    }
}

#[test]
fn read_u16_on_every_value() {
    let mut n: u32 = 0;
    while n <= 70000 {
        let written = format!("{}", n);
        let expected = if n <= 65535 { Some(n as u16) } else { None };
        assert_eq!(read_u16(&chars(&written)), expected);
        n += 1;
    }
}

#[test]
fn read_u16_exact_values() {
    assert_eq!(read_u16(&chars("9000")), Some(9000));
    assert_eq!(read_u16(&chars("+9000")), Some(9000));
    assert_eq!(read_u16(&chars("009000")), Some(9000));
    assert_eq!(read_u16(&chars("65535")), Some(65535));
    assert_eq!(read_u16(&chars("65536")), None);
    assert_eq!(read_u16(&chars("655350")), None);
    assert_eq!(read_u16(&chars("4294967296")), None);
    assert_eq!(read_u16(&chars("42949672960")), None);
    assert_eq!(read_u16(&chars("")), None);
    assert_eq!(read_u16(&chars("++1")), None);
    assert_eq!(read_u16(&chars("1+")), None);
    assert_eq!(read_u16(&chars(" 1")), None);
    assert_eq!(read_u16(&chars("0x10")), None);
}

#[test]
fn has_is_contains() {
    for s in SAMPLES {
        for p in PATTERNS {
            assert_eq!(has(&chars(s), &chars(p)), s.contains(p), "{:?} {:?}", s, p);
        }
    }
}

#[test]
fn find_last_is_the_rightmost_occurrence() {
    assert_eq!(find_last(&chars("abcabc"), &chars("bc")), Some(4));
    assert_eq!(find_last(&chars("aaa"), &chars("aa")), Some(1));
    assert_eq!(find_last(&chars("abc"), &chars("abc")), Some(0));
    assert_eq!(find_last(&chars("abc"), &chars("abcd")), None);
    assert_eq!(find_last(&chars("abc"), &chars("x")), None);
    assert_eq!(find_last(&chars("abc"), &chars("")), Some(3));
    assert_eq!(find_last(&chars(""), &chars("")), Some(0));
    assert_eq!(find_last(&chars("żółw ół"), &chars("ół")), Some(5));
}

#[test]
fn find_last_agrees_with_a_search_by_characters() {
    for s in SAMPLES {
        for p in PATTERNS {
            let hay = chars(s);
            let needle = chars(p);
            let mut expected = None;
            let mut at = 0;
            while at + needle.len() <= hay.len() {
                if hay[at..at + needle.len()] == needle[..] {
                    expected = Some(at);
                }
                at += 1;
            }
            assert_eq!(find_last(&hay, &needle), expected, "{:?} {:?}", s, p);
        }
    }
}

#[test]
fn matches_at_checks_one_position() {
    let hay = chars("hello");
    assert!(matches_at(&hay, &chars("ell"), 1));
    assert!(!matches_at(&hay, &chars("ell"), 0));
    assert!(matches_at(&hay, &chars("lo"), 3));
    assert!(!matches_at(&hay, &chars("lo"), 4));
    assert!(!matches_at(&hay, &chars("lo"), 5));
    assert!(!matches_at(&hay, &chars("lo"), usize::MAX));
    assert!(matches_at(&hay, &chars(""), 5));
    assert!(!matches_at(&hay, &chars(""), 6));
}

#[test]
fn without_is_replace_by_nothing() {
    for s in SAMPLES {
        for p in PATTERNS {
            assert_eq!(
                text(&without(&chars(s), &chars(p))),
                s.replace(p, ""),
                "{:?} {:?}",
                s,
                p
            );
        }
    }
}

#[test]
fn without_scans_from_the_left() {
    assert_eq!(text(&without(&chars("aaaaa"), &chars("aa"))), "a");
    assert_eq!(text(&without(&chars("ababa"), &chars("aba"))), "ba");
    assert_eq!(text(&without(&chars("[[INFO]INFO]"), &chars("[INFO]"))), "[INFO]");
    assert_eq!(text(&without(&chars("abc"), &chars(""))), "abc");
}
