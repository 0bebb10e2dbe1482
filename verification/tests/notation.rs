use passgenr::charsets::{split_words, words, WORD_TEXT};
use passgenr::decimal::{decimal, parse_u32};
use passgenr::slice_contains_duplicates;

#[test]
fn numbers_are_read_as_the_standard_library_reads_them() {
    let cases = [
        "", "0", "5", "007", "+5", "+", "-5", "++5", "+-5", " 5", "5 ", "1_000", "12a", "a12",
        "4294967295", "4294967296", "+4294967295", "42949672950", "99999999999999999999999999",
        "0000000000000000000000000000000000000001", "٣", "5٣", "0x10", "1e3", "1.0",
    ];
    for case in cases.iter() {
        assert_eq!(parse_u32(case), case.parse::<u32>().ok(), "{:?}", case);
    }
}

#[test]
fn numbers_are_read_exactly() {
    assert_eq!(parse_u32("5"), Some(5));
    assert_eq!(parse_u32("+17"), Some(17));
    assert_eq!(parse_u32("0010"), Some(10));
    assert_eq!(parse_u32("4294967295"), Some(u32::MAX));
    assert_eq!(parse_u32("4294967296"), None);
    assert_eq!(parse_u32("foo"), None);
    assert_eq!(parse_u32(""), None);
    assert_eq!(parse_u32("+"), None);
    assert_eq!(parse_u32("-1"), None);
}

#[test]
fn numbers_are_written_without_leading_zeros() {
    assert_eq!(decimal(0), "0");
    assert_eq!(decimal(7), "7");
    assert_eq!(decimal(10), "10");
    assert_eq!(decimal(64), "64");
    assert_eq!(decimal(1_234_567_890), "1234567890");
    assert_eq!(decimal(usize::MAX), usize::MAX.to_string());
}

#[test]
fn written_numbers_read_back() {
    for n in [0u32, 1, 9, 10, 99, 100, 65_535, 4_294_967_295] {
        assert_eq!(parse_u32(&decimal(n as usize)), Some(n));
    }
}

#[test]
fn text_splits_at_spaces() {
    assert_eq!(split_words(""), Vec::<&str>::new());
    assert_eq!(split_words("   "), Vec::<&str>::new());
    assert_eq!(split_words("ab"), vec!["ab"]);
    assert_eq!(split_words("  ab  cd e "), vec!["ab", "cd", "e"]);
    assert_eq!(split_words("é ✓✓\tx"), vec!["é", "✓✓\tx"]);
}

#[test]
fn word_list_is_fit_for_passwords() {
    let list = words();
    assert_eq!(list.len(), 291);
    assert_eq!(list.len(), WORD_TEXT.split_whitespace().count());
    assert_eq!(list[0], "apple");
    assert_eq!(list[290], "zesty");
    assert!(!slice_contains_duplicates(&list));
    for word in list.iter() {
        assert!(word.len() >= 3);
        assert!(word.chars().all(|c| c.is_ascii_lowercase()));
    }
}
