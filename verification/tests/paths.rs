use sfz::extensions::path_components;
use sfz::paths::{glue_parts, join, path_parts, starts_with_path, strip_prefix};
use sfz::text::{
    append_decimal, bytes_eq, find_byte, parse_number, split_bytes, trim_bytes, trim_end_bytes,
    trim_start_bytes,
};

#[test]
fn components_of_a_path() {
    let expected: Vec<&[u8]> = vec![b"a", b"..", b"b", b"c.txt"];
    assert_eq!(path_components(b"//a/./../b//c.txt/"), expected);
    assert_eq!(path_components(b""), Vec::<&[u8]>::new());
    assert_eq!(path_components(b"/"), Vec::<&[u8]>::new());
    assert_eq!(path_components(b"./."), Vec::<&[u8]>::new());
}

#[test]
fn parts_of_a_path() {
    let expected: Vec<&[u8]> = vec![b"/", b"a", b"b"];
    assert_eq!(path_parts(b"/a/b"), expected);
    let expected: Vec<&[u8]> = vec![b".", b"a"];
    assert_eq!(path_parts(b"./a"), expected);
    let expected: Vec<&[u8]> = vec![b"a"];
    assert_eq!(path_parts(b"a/."), expected);
    let expected: Vec<&[u8]> = vec![b"."];
    assert_eq!(path_parts(b"."), expected);
    let expected: Vec<&[u8]> = vec![b"..", b"a"];
    assert_eq!(path_parts(b"../a"), expected);
    assert_eq!(path_parts(b""), Vec::<&[u8]>::new());
    assert_eq!(glue_parts(&path_parts(b"a//b/./c/"), 1), b"b/c");
    assert_eq!(glue_parts(&path_parts(b"a"), 1), b"");
}

#[test]
fn paths_under_paths() {
    assert!(starts_with_path(b"/a/b/c", b"/a/b"));
    assert!(starts_with_path(b"/a/b", b"/a/b"));
    assert!(starts_with_path(b"/a//b/", b"/a/b"));
    assert!(starts_with_path(b"/a/b", b"/"));
    assert!(starts_with_path(b"/a/b", b""));
    assert!(starts_with_path(b"a/b", b""));
    assert!(starts_with_path(b"./a", b"."));
    assert!(!starts_with_path(b"/a/bc", b"/a/b"));
    assert!(!starts_with_path(b"/a", b"/a/b"));
    assert!(!starts_with_path(b"a/b", b"/a"));
    assert!(!starts_with_path(b"/a/b", b"a"));
    assert!(!starts_with_path(b"a", b"."));
    assert!(!starts_with_path(b"/a/../b", b"/b"));
}

#[test]
fn paths_without_their_prefix() {
    assert_eq!(strip_prefix(b"/a/b/c", b"/a"), Some(b"b/c".to_vec()));
    assert_eq!(strip_prefix(b"/a/b//c/", b"/a/b"), Some(b"c".to_vec()));
    assert_eq!(strip_prefix(b"/a", b"/a"), Some(b"".to_vec()));
    assert_eq!(strip_prefix(b"/a", b"/b"), None);
    assert_eq!(strip_prefix(b"a/b", b""), Some(b"a/b".to_vec()));
    assert_eq!(strip_prefix(b"/a/b", b"/"), Some(b"a/b".to_vec()));
}

#[test]
fn joining_paths() {
    assert_eq!(join(b"/a", b"b"), b"/a/b");
    assert_eq!(join(b"/a/", b"b"), b"/a/b");
    assert_eq!(join(b"/a", b"/b"), b"/b");
    assert_eq!(join(b"/a", b""), b"/a/");
    assert_eq!(join(b"", b"b"), b"b");
    assert_eq!(join(b"", b""), b"");
    assert_eq!(join(b"a", b"../b"), b"a/../b");
}

#[test]
fn searching_and_trimming() {
    assert_eq!(find_byte(b"a,b,c", b',', 0), 1);
    assert_eq!(find_byte(b"a,b,c", b',', 2), 3);
    assert_eq!(find_byte(b"a,b,c", b',', 4), 5);
    assert_eq!(find_byte(b"", b',', 0), 0);
    assert_eq!(trim_bytes(b" \t a b \r\n"), b"a b");
    assert_eq!(trim_bytes(b"\x0b\x0c"), b"");
    assert_eq!(trim_start_bytes(b"  a "), b"a ");
    assert_eq!(trim_end_bytes(b"  a "), b"  a");
    assert_eq!(trim_bytes(b"\xa0a"), b"\xa0a");
    let pieces: Vec<&[u8]> = vec![b"a", b"", b"b", b""];
    assert_eq!(split_bytes(b"a,,b,", b','), pieces);
    let pieces: Vec<&[u8]> = vec![b""];
    assert_eq!(split_bytes(b"", b','), pieces);
    assert!(bytes_eq(b"", b""));
    assert!(!bytes_eq(b"a", b"b"));
}

#[test]
fn numbers_in_decimal() {
    let text = |n: u64| {
        let mut out = b"n=".to_vec();
        append_decimal(&mut out, n);
        out
    };
    assert_eq!(text(0), b"n=0");
    assert_eq!(text(9), b"n=9");
    assert_eq!(text(10), b"n=10");
    assert_eq!(text(1_600_000_000), b"n=1600000000");
    assert_eq!(text(u64::MAX), b"n=18446744073709551615");
    assert_eq!(parse_number(b"18446744073709551615", u64::MAX), Some(u64::MAX));
    assert_eq!(parse_number(b"18446744073709551616", u64::MAX), None);
    assert_eq!(parse_number(b"255", 255), Some(255));
    assert_eq!(parse_number(b"256", 255), None);
    assert_eq!(parse_number(b"007", 7), Some(7));
    assert_eq!(parse_number(b"+7", 7), None);
    assert_eq!(parse_number(b"", 7), None);
    assert_eq!(parse_number(b"5", 0), None);
    assert_eq!(parse_number(b"0", 0), Some(0));
}
