use fabric_servers::number::{i32_to_decimal, parse_i32, u64_to_decimal};
use fabric_servers::path::{extension_of, file_name_of, join, visible_part};
use fabric_servers::text::{
    chars_of, contains, first_line, is_whitespace, split_on, split_whitespace, starts_with, str_eq,
    text_from, trim,
};
use std::path::Path;

const SAMPLES: [&str; 24] = [
    "",
    " ",
    "GET / HTTP/1.1\r\nHost: x\r\n",
    "GET /a?b HTTP/1.1\nHost",
    "\r\n",
    "\n",
    "a\r",
    "a\rb\r\nc",
    "  one\ttwo \u{a0}three\u{3000}",
    "\u{2028}x\u{85}",
    "\u{200b}zero width is no space\u{200b}",
    "é è",
    "-",
    "+",
    "+-5",
    "007",
    "-2147483648",
    "2147483647",
    "2147483648",
    "-2147483649",
    "99999999999999999999999999",
    "12 ",
    "1234x",
    "-0",
];

const PATHS: [&str; 30] = [
    "",
    ".",
    "..",
    "/",
    "//",
    "/.",
    "/..",
    "./",
    "./.",
    "a",
    "a/",
    "a/.",
    "a/./",
    "a/..",
    "a.b",
    "a.b/",
    "a.longer/",
    ".hidden",
    "..x",
    "x.",
    "x..y",
    "dir/file.tar.gz",
    "/abs/file.html",
    "/abs//double///file.css//",
    "a/b.c/.",
    "a/b/..",
    "...",
    "....x",
    "a/.hidden/",
    "/maps/é/tiles/ü.png",
];

#[test]
fn white_space_is_that_of_std() {
    let mut c = 0u32;
    while c <= 0x10ffff {
        if let Some(ch) = char::from_u32(c) {
            assert_eq!(is_whitespace(ch), ch.is_whitespace(), "{:x}", c);
        }
        c += 1;
    }
}

#[test]
fn text_functions_agree_with_std() {
    for s in SAMPLES {
        assert_eq!(chars_of(s), s.chars().collect::<Vec<char>>());
        assert_eq!(first_line(s), s.lines().next().unwrap_or(""), "{:?}", s);
        assert_eq!(trim(s), s.trim(), "{:?}", s);
        assert_eq!(split_whitespace(s), s.split_whitespace().collect::<Vec<&str>>(), "{:?}", s);
        assert_eq!(split_on(s, 'e'), s.split('e').collect::<Vec<&str>>(), "{:?}", s);
        assert_eq!(parse_i32(s), s.parse::<i32>().ok(), "{:?}", s);
        for t in SAMPLES {
            assert_eq!(starts_with(s, t), s.starts_with(t), "{:?} {:?}", s, t);
            assert_eq!(contains(s, t), s.contains(t), "{:?} {:?}", s, t);
            assert_eq!(str_eq(s, t), s == t, "{:?} {:?}", s, t);
        }
    }
    assert!(contains("xVelocity", "Velocity"));
    assert!(!contains("xVelocit", "Velocity"));
    assert!(contains("aab", "ab"));
}

#[test]
fn bytes_become_text() {
    assert_eq!(text_from(b"plain"), "plain");
    assert_eq!(text_from("\u{e9}\u{20ac}".as_bytes()), "\u{e9}\u{20ac}");
    assert_eq!(text_from(&[0x61, 0xff, 0x62]), "a\u{fffd}b");
    assert_eq!(text_from(&[]), "");
}

#[test]
fn decimal_numbers() {
    assert_eq!(u64_to_decimal(0), "0");
    assert_eq!(u64_to_decimal(10), "10");
    assert_eq!(u64_to_decimal(u64::MAX), u64::MAX.to_string());
    assert_eq!(i32_to_decimal(-1), "-1");
    for n in [0, 7, 10, -10, 4242, i32::MIN, i32::MAX] {
        assert_eq!(i32_to_decimal(n), n.to_string());
        assert_eq!(parse_i32(&i32_to_decimal(n)), Some(n));
    }
}

#[test]
fn paths_agree_with_std() {
    for p in PATHS {
        let path = Path::new(p);
        assert_eq!(
            file_name_of(p),
            path.file_name().map(|n| n.to_str().unwrap().to_string()),
            "{:?}",
            p
        );
        assert_eq!(
            extension_of(p),
            path.extension().map(|n| n.to_str().unwrap().to_string()),
            "{:?}",
            p
        );
        for q in PATHS {
            assert_eq!(join(p, q), path.join(q).to_str().unwrap(), "{:?} {:?}", p, q);
        }
    }
    assert_eq!(visible_part("a/././/"), "a");
    assert_eq!(visible_part("./"), ".");
}
