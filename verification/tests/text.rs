//! Text operations, held against the standard library's own.

use outpost::number::{read_number, write_number, write_signed, NumberError};
use outpost::order::precedes;
use outpost::text::{
    any_is, blank, chars_of, contains, find, join, join_strings, lines, same, space, split_once,
    squeeze, starts_with, trim, trim_start,
};

const SAMPLES: [&str; 12] = [
    "",
    " ",
    "a",
    "  a b\t\n",
    "\u{a0}x\u{3000}",
    "one\ntwo\r\nthree",
    "one\n\n",
    "\r",
    "end\r",
    "a\r\r\n\nb",
    "\u{e9}\u{20ac}\u{1f600}",
    "<a>b</a>",
];

#[test]
fn white_space_is_what_unicode_says() {
    for n in 0..=0x10ffffu32 {
        if let Some(c) = char::from_u32(n) {
            assert_eq!(space(c), c.is_whitespace(), "{n:x}");
        }
    }
}

#[test]
fn trimming_is_the_standard_one() {
    for s in SAMPLES {
        assert_eq!(trim(s), s.trim());
        assert_eq!(trim_start(s), s.trim_start());
        assert_eq!(blank(s), s.trim().is_empty());
    }
}

#[test]
fn squeezing_leaves_no_white_space() {
    let squeezed: String = squeeze(" a\n b\u{a0}c ").into_iter().collect();
    assert_eq!(squeezed, "abc");
    assert_eq!(chars_of("a\u{20ac}"), ['a', '\u{20ac}']);
}

#[test]
fn searching_is_the_standard_one() {
    for hay in SAMPLES {
        for needle in SAMPLES {
            assert_eq!(contains(hay, needle), hay.contains(needle));
            assert_eq!(starts_with(hay, needle), hay.starts_with(needle));
            assert_eq!(split_once(hay, needle), hay.split_once(needle));
            assert_eq!(same(hay, needle), hay == needle);
        }
    }
    assert_eq!(split_once("a=b=c", "="), Some(("a", "b=c")));
    assert_eq!(find(&chars_of("abcabc"), &chars_of("ca")), Some(2));
    assert_eq!(find(&chars_of("ab"), &chars_of("abc")), None);
}

#[test]
fn lines_are_the_standard_ones() {
    for s in SAMPLES {
        let standard: Vec<&str> = s.lines().collect();
        assert_eq!(lines(s), standard, "{s:?}");
    }
}

#[test]
fn joining_puts_the_separator_between() {
    assert_eq!(join(&vec![], ", "), "");
    assert_eq!(join(&vec!["a"], ", "), "a");
    assert_eq!(join(&vec!["a", "", "b"], ", "), "a, , b");
    assert_eq!(join_strings(&vec!["x".to_string(), "y".to_string()], "-"), "x-y");
    assert!(any_is(&["a", "b"], "b"));
    assert!(!any_is(&["a", "b"], "c"));
}

#[test]
fn texts_are_ordered_as_strings_are() {
    for a in SAMPLES {
        for b in SAMPLES {
            assert_eq!(precedes(a, b), a < b, "{a:?} {b:?}");
        }
    }
    assert!(precedes("\u{ffff}", "\u{10000}"));
}

#[test]
fn numbers_are_read_as_the_standard_library_reads_them() {
    let samples = [
        "", "0", "7", "+7", "-7", "+", "-", "++1", " 1", "1 ", "1x", "007", "18446744073709551615",
        "18446744073709551616", "99999999999999999999x", "x99999999999999999999", "\u{664}",
        "12\u{e9}",
    ];
    for s in samples {
        match (read_number(s, u64::MAX), s.parse::<u64>()) {
            (Ok(n), Ok(m)) => assert_eq!(n, m),
            (Err(error), Err(standard)) => assert_eq!(error.message(), standard.to_string(), "{s:?}"),
            _ => panic!("{s:?}"),
        }
    }
}

#[test]
fn a_number_over_the_limit_is_too_large() {
    assert_eq!(read_number("12", 12), Ok(12));
    assert_eq!(read_number("13", 12), Err(NumberError::TooLarge));
    assert_eq!(read_number("1", 0), Err(NumberError::TooLarge));
    assert_eq!(read_number("", 0), Err(NumberError::Empty));
    assert_eq!(read_number("x", 0), Err(NumberError::InvalidDigit));
}

#[test]
fn a_written_number_reads_back() {
    for n in [0, 9, 10, 90, 12345, u64::MAX] {
        assert_eq!(write_number(n), n.to_string());
        assert_eq!(read_number(&write_number(n), u64::MAX), Ok(n));
    }
    for n in [0, 7, -1, i32::MIN, i32::MAX] {
        assert_eq!(write_signed(n), n.to_string());
    }
}
