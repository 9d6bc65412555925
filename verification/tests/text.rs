use uttt::board::{toggle_shift, Board};
use uttt::encoding::expand_digits;
use uttt::notation::{eval_string, find_zone, same_text};
use uttt::text::{
    append_numeral, append_signed, chars_of, is_whitespace, parse_u64, split_fields, split_words,
};

fn chars(s: &str) -> Vec<char> {
    s.chars().collect()
}

fn strings(parts: Vec<Vec<char>>) -> Vec<String> {
    parts.into_iter().map(|p| p.into_iter().collect()).collect()
}

const SAMPLES: [&str; 16] = [
    "",
    " ",
    "a",
    " a",
    "a ",
    "a b",
    "  a  b  ",
    "a\tb\nc\r\nd",
    "9/9/9 any",
    "/",
    "//",
    "a/",
    "/a",
    "a/b/c",
    "x\u{a0}y\u{2003}z\u{3000}",
    "\u{85}é/ü \u{1680}",
];

#[test]
fn is_whitespace_agrees_with_the_standard_library_on_every_character() {
    let mut count = 0;
    for code in 0..=0x10ffffu32 {
        if let Some(c) = char::from_u32(code) {
            assert_eq!(is_whitespace(c), c.is_whitespace(), "U+{:04X}", code);
            if is_whitespace(c) {
                count += 1;
            }
        }
    }
    assert_eq!(count, 25);
}

#[test]
fn chars_of_gives_the_characters_in_order() {
    for s in SAMPLES {
        assert_eq!(chars_of(s), chars(s));
    }
}

#[test]
fn split_words_agrees_with_the_standard_library() {
    for s in SAMPLES {
        let expected: Vec<String> = s.split_whitespace().map(|w| w.to_string()).collect();
        assert_eq!(strings(split_words(&chars(s))), expected);
    }
}

#[test]
fn split_fields_agrees_with_the_standard_library() {
    for s in SAMPLES {
        let expected: Vec<String> = s.split('/').map(|w| w.to_string()).collect();
        assert_eq!(strings(split_fields(&chars(s), '/')), expected);
    }
}

#[test]
fn parse_u64_agrees_with_the_standard_library() {
    let samples = [
        "",
        "+",
        "-",
        "0",
        "+0",
        "-0",
        "7",
        "007",
        "+42",
        "++42",
        "4 2",
        " 42",
        "42 ",
        "4a",
        "a4",
        "1_000",
        "0x10",
        "18446744073709551615",
        "18446744073709551616",
        "+18446744073709551615",
        "000000000000000000000018446744073709551615",
        "99999999999999999999",
        "184467440737095516150",
        "٣",
    ];
    for s in samples {
        assert_eq!(parse_u64(&chars(s)), s.parse::<u64>().ok(), "{:?}", s);
    }
}

#[test]
fn numbers_are_written_as_the_standard_library_writes_them() {
    for n in [0u64, 1, 9, 10, 11, 99, 100, 12345, 1_000_000, u64::MAX] {
        let mut out = String::from("n=");
        append_numeral(&mut out, n);
        assert_eq!(out, format!("n={}", n));
    }
    for n in [0i64, 1, -1, 9, -10, 32, -999_999, i64::MAX, i64::MIN + 1] {
        let mut out = String::new();
        append_signed(&mut out, n, true);
        assert_eq!(out, format!("{:+}", n));
        let mut out = String::new();
        append_signed(&mut out, n, false);
        assert_eq!(out, format!("{}", n));
    }
}

#[test]
fn eval_string_writes_plain_scores_with_their_sign() {
    for eval in [1, -1, 7, 13, -305, 5445, -7722, 999_967, -999_967] {
        assert_eq!(eval_string(eval, 32), format!("{:+0}", eval));
    }
}

#[test]
fn expand_digits_replaces_each_count_by_dots() {
    let expanded: String = expand_digits(&chars("1x2o3/9 a0b")).into_iter().collect();
    assert_eq!(expanded, ".x..o.../......... a0b");
    assert_eq!(expand_digits(&chars("")), chars(""));
}

#[test]
fn find_zone_knows_the_nine_names() {
    let names = ["nw", "n", "ne", "w", "c", "e", "sw", "s", "se"];
    for (z, name) in names.iter().enumerate() {
        assert_eq!(find_zone(&chars(name)), Some(z as u64));
    }
    for other in ["", "any", "x", "nn", "NW", "nw ", "north"] {
        assert_eq!(find_zone(&chars(other)), None);
    }
    assert!(same_text(&chars("any"), "any"));
    assert!(!same_text(&chars("an"), "any"));
    assert!(!same_text(&chars("anx"), "any"));
}

#[test]
fn board_accessors_read_the_packed_fields() {
    assert_eq!(toggle_shift(false, 18), 0);
    assert_eq!(toggle_shift(true, 18), 18);
    let b = Board::empty()
        .with_mark(false, 0, 0)
        .with_mark(true, 6, 8)
        .with_mark(false, 7, 1)
        .with_mark(true, 8, 2)
        .with_owner(false, 3)
        .with_owner(true, 8)
        .with_active_zone(5);
    assert_eq!(b.us, 1);
    assert_eq!(b.them, 1 << 62);
    assert_eq!(b.share, (1 << 1) | (1 << 29) | (1 << 39) | (1 << 53) | (5 << 54));
    assert_eq!(b.occupancy(false, 0), 1);
    assert_eq!(b.occupancy(true, 6), 1 << 8);
    assert_eq!(b.occupancy(false, 7), 1 << 1);
    assert_eq!(b.occupancy(true, 8), 1 << 2);
    assert_eq!(b.occupancy(true, 7), 0);
    assert_eq!(b.ownership(false), 1 << 3);
    assert_eq!(b.ownership(true), 1 << 8);
    assert_eq!(b.active_zone(), 5);
    assert!(b.is_closed(3));
    assert!(b.is_closed(8));
    assert!(!b.is_closed(0));
    assert_eq!(b.with_active_zone(9).active_zone(), 9);
}
