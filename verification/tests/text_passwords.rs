use passgenr::text::{
    random_password_characters, CHARSET_ALPHANUMERIC, CHARSET_ASCII, CHARSET_DECIMAL_DIGIT,
    CHARSET_LOWERCASE_ALPHABETIC, CHARSET_LOWERCASE_HEX, CHARSET_UPPERCASE_HEX,
};

fn all_included_charsets() -> [&'static str; 6] {
    [
        CHARSET_UPPERCASE_HEX,
        CHARSET_LOWERCASE_HEX,
        CHARSET_ALPHANUMERIC,
        CHARSET_ASCII,
        CHARSET_DECIMAL_DIGIT,
        CHARSET_LOWERCASE_ALPHABETIC,
    ]
}

#[test]
fn passgen_expected_charset_sizes() {
    assert_eq!(CHARSET_UPPERCASE_HEX.len(), 16);
    assert_eq!(CHARSET_LOWERCASE_HEX.len(), 16);
    assert_eq!(CHARSET_ALPHANUMERIC.len(), 26 * 2 + 10);
    assert_eq!(CHARSET_ASCII.len(), 94);
    assert_eq!(CHARSET_DECIMAL_DIGIT.len(), 10);
    assert_eq!(CHARSET_LOWERCASE_ALPHABETIC.len(), 26);
}

#[test]
fn passgen_no_duplicates_in_charsets() {
    for charset in &all_included_charsets() {
        let unique_chars: Vec<char> = {
            let mut chars: Vec<char> = charset.chars().collect();
            chars.sort();
            chars.dedup();
            chars
        };
        assert_eq!(charset.len(), unique_chars.len());
    }
}

#[test]
fn passgen_passwords_are_correct_length() {
    for charset in &all_included_charsets() {
        for len in 0..50 {
            assert_eq!(random_password_characters(charset, len).unwrap().len(), len);
        }
    }
}

#[test]
fn passgen_no_chars_outside_requested_charset() {
    for charset in &all_included_charsets() {
        let charset_vec: Vec<char> = charset.chars().collect();
        let password = random_password_characters(charset, 1000).unwrap();
        for ch in password.chars() {
            assert!(charset_vec.contains(&ch));
        }
    }
}

#[test]
fn passgen_all_characters_seen_in_output_eventually() {
    for charset in &all_included_charsets() {
        let password = random_password_characters(charset, charset.len() * 100).unwrap();
        let password_chars: Vec<char> = password.chars().collect();
        for ch in charset.chars() {
            assert!(password_chars.contains(&ch));
        }
    }
}
