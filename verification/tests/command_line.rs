use passgenr::cli::{
    decide, parse_args, password_for, prepare_opts, usage, CommandLineCharset, OptParseResult,
    Selection, PASSWORD_LENGTH, PASSWORD_WORD_COUNT,
};

#[test]
fn test_help() {
    let opts = prepare_opts();
    assert_eq!(OptParseResult::Help, parse_args(&opts, &["-h".to_owned()]));
}

#[test]
fn test_charset_flags() {
    let translation_table = [
        ("x", CommandLineCharset::Hex),
        ("a", CommandLineCharset::Ascii),
        ("n", CommandLineCharset::Alpha),
        ("d", CommandLineCharset::Digit),
        ("l", CommandLineCharset::Lower),
        ("w", CommandLineCharset::Words),
    ];
    for option in translation_table.iter() {
        let opts = prepare_opts();
        assert_eq!(
            OptParseResult::Generate(option.1, 1),
            parse_args(&opts, &[format!("-{}", option.0)])
        );
    }
}

#[test]
fn test_long_charset_flags() {
    let translation_table = [
        ("hex", CommandLineCharset::Hex),
        ("ascii", CommandLineCharset::Ascii),
        ("alpha", CommandLineCharset::Alpha),
        ("digit", CommandLineCharset::Digit),
        ("lower", CommandLineCharset::Lower),
        ("words", CommandLineCharset::Words),
    ];
    for option in translation_table.iter() {
        let opts = prepare_opts();
        assert_eq!(
            OptParseResult::Generate(option.1, 1),
            parse_args(&opts, &[format!("--{}", option.0)])
        );
    }
}

#[test]
fn test_password_count() {
    let opts = prepare_opts();
    assert_eq!(
        OptParseResult::Generate(CommandLineCharset::Hex, 5),
        parse_args(&opts, &["-x".to_owned(), "-p".to_owned(), "5".to_owned()])
    );
}

#[test]
fn test_extra_arguments() {
    let opts = prepare_opts();
    if let OptParseResult::Error(e) = parse_args(&opts, &["-h".to_owned(), "foo".to_owned()]) {
        assert!(e.contains("unnecessary command-line arguments"));
    } else {
        panic!("Argument parsing doesn't detect duplicate arguments.");
    }
}

#[test]
fn test_unknown_argument() {
    let opts = prepare_opts();
    if let OptParseResult::Error(e) = parse_args(&opts, &["-z".to_owned()]) {
        assert!(e.contains("Unrecognized option"));
    } else {
        panic!("Argument parsing doesn't detect unknown options.");
    }
}

#[test]
fn test_multiple_charset_flags() {
    let opts = prepare_opts();
    if let OptParseResult::Error(e) = parse_args(&opts, &["-x".to_owned(), "-a".to_owned()]) {
        assert!(e.contains("Only one kind"));
    } else {
        panic!("Argument parsing doesn't fail on multiple charset flags.");
    }
}

#[test]
fn test_duplicate_charset_flags() {
    let opts = prepare_opts();
    if let OptParseResult::Error(e) = parse_args(&opts, &["-x".to_owned(), "-x".to_owned()]) {
        assert!(e.contains("given more than once"));
    } else {
        panic!("Argument parsing doesn't fail on duplicate charset flags.");
    }
}

#[test]
fn test_invalid_password_count() {
    let opts = prepare_opts();
    if let OptParseResult::Error(e) =
        parse_args(&opts, &["-x".to_owned(), "-p".to_owned(), "foo".to_owned()])
    {
        assert!(e.contains("not a valid number"));
    } else {
        panic!("Argument parsing doesn't fail on duplicate charset flags.");
    }
}

#[test]
fn test_no_arguments() {
    let opts = prepare_opts();
    if let OptParseResult::Error(e) = parse_args(&opts, &[]) {
        assert!(e.contains("specify which character set"));
    } else {
        panic!("Argument parsing doesn't fail on an empty argument list.");
    }
}

fn selection() -> Selection {
    Selection {
        free: 0,
        help: false,
        count: None,
        hex: false,
        ascii: false,
        alpha: false,
        digit: false,
        lower: false,
        words: false,
    }
}

#[test]
fn decision_follows_the_order_of_the_rules() {
    let stray = Selection { free: 1, help: true, count: Some("foo".to_owned()), ..selection() };
    assert_eq!(
        decide(&stray),
        OptParseResult::Error("There are unnecessary command-line arguments.".to_owned())
    );
    let help = Selection { help: true, count: Some("foo".to_owned()), hex: true, ascii: true, ..selection() };
    assert_eq!(decide(&help), OptParseResult::Help);
    let bad_count = Selection { count: Some("foo".to_owned()), hex: true, ascii: true, ..selection() };
    assert_eq!(
        decide(&bad_count),
        OptParseResult::Error("The password count is not a valid number.".to_owned())
    );
    let two = Selection { count: Some("3".to_owned()), digit: true, words: true, ..selection() };
    assert_eq!(
        decide(&two),
        OptParseResult::Error("Only one kind of password can be generated at a time.".to_owned())
    );
    let none = Selection { count: Some("3".to_owned()), ..selection() };
    assert_eq!(
        decide(&none),
        OptParseResult::Error(
            "Please specify which character set to generate the password from.".to_owned()
        )
    );
}

#[test]
fn decision_names_the_chosen_set_and_count() {
    assert_eq!(
        decide(&Selection { hex: true, ..selection() }),
        OptParseResult::Generate(CommandLineCharset::Hex, 1)
    );
    assert_eq!(
        decide(&Selection { ascii: true, count: Some("0".to_owned()), ..selection() }),
        OptParseResult::Generate(CommandLineCharset::Ascii, 0)
    );
    assert_eq!(
        decide(&Selection { alpha: true, count: Some("+12".to_owned()), ..selection() }),
        OptParseResult::Generate(CommandLineCharset::Alpha, 12)
    );
    assert_eq!(
        decide(&Selection { digit: true, count: Some("4294967295".to_owned()), ..selection() }),
        OptParseResult::Generate(CommandLineCharset::Digit, u32::MAX)
    );
    assert_eq!(
        decide(&Selection { lower: true, ..selection() }),
        OptParseResult::Generate(CommandLineCharset::Lower, 1)
    );
    assert_eq!(
        decide(&Selection { words: true, ..selection() }),
        OptParseResult::Generate(CommandLineCharset::Words, 1)
    );
    assert_eq!(
        decide(&Selection { words: true, count: Some("4294967296".to_owned()), ..selection() }),
        OptParseResult::Error("The password count is not a valid number.".to_owned())
    );
}

#[test]
fn arguments_are_parsed_in_every_form() {
    let opts = prepare_opts();
    let args = |list: &[&str]| list.iter().map(|s| s.to_string()).collect::<Vec<String>>();
    assert_eq!(
        parse_args(&opts, &args(&["--password-count", "7", "--words"])),
        OptParseResult::Generate(CommandLineCharset::Words, 7)
    );
    assert_eq!(
        parse_args(&opts, &args(&["-p3", "-d"])),
        OptParseResult::Generate(CommandLineCharset::Digit, 3)
    );
    assert_eq!(
        parse_args(&opts, &args(&["--password-count=12", "-l"])),
        OptParseResult::Generate(CommandLineCharset::Lower, 12)
    );
    assert_eq!(parse_args(&opts, &args(&["--help", "-x", "-a"])), OptParseResult::Help);
    assert_eq!(
        parse_args(&opts, &args(&["-x", "-p"])),
        OptParseResult::Error("Argument to option 'p' missing".to_owned())
    );
    assert_eq!(
        parse_args(&opts, &args(&["-x", "--", "-a"])),
        OptParseResult::Error("There are unnecessary command-line arguments.".to_owned())
    );
    assert_eq!(
        parse_args(&opts, &args(&["-z"])),
        OptParseResult::Error("Unrecognized option: 'z'".to_owned())
    );
    assert_eq!(
        parse_args(&opts, &args(&["-x", "-p", "-1"])),
        OptParseResult::Error("The password count is not a valid number.".to_owned())
    );
}

#[test]
fn usage_lists_the_options_below_the_error() {
    let opts = prepare_opts();
    let plain = usage("passgenr", &opts, None);
    assert!(plain.starts_with("Usage: passgenr [options]\n\nOptions:\n"));
    assert!(plain.contains("-x, --hex"));
    assert!(plain.contains("64 hexadecimal characters"));
    assert!(plain.contains("64 non-whitespace printable ASCII characters"));
    assert!(plain.contains("64 alphanumeric characters"));
    assert!(plain.contains("64 decimal digits"));
    assert!(plain.contains("64 lowercase alphabetic characters"));
    assert!(plain.contains("10 random words from a list of 291"));
    assert!(plain.contains("-h, --help"));
    assert!(plain.contains("show this help menu"));
    assert!(plain.contains("-p, --password-count N"));
    assert!(plain.contains("number of passwords to generate"));

    let failed = usage("passgenr", &opts, Some("bad input"));
    assert_eq!(failed, format!("Error: bad input\n{}", plain));
}

#[test]
fn passwords_of_each_kind_have_their_shape() {
    assert_eq!(PASSWORD_LENGTH, 64);
    assert_eq!(PASSWORD_WORD_COUNT, 10);
    let hex = password_for(CommandLineCharset::Hex).unwrap();
    assert_eq!(hex.len(), 64);
    assert!(hex.chars().all(|c| "0123456789ABCDEF".contains(c)));
    let ascii = password_for(CommandLineCharset::Ascii).unwrap();
    assert_eq!(ascii.len(), 64);
    assert!(ascii.chars().all(|c| c.is_ascii_graphic()));
    let alpha = password_for(CommandLineCharset::Alpha).unwrap();
    assert_eq!(alpha.len(), 64);
    assert!(alpha.chars().all(|c| c.is_ascii_alphanumeric()));
    let digit = password_for(CommandLineCharset::Digit).unwrap();
    assert_eq!(digit.len(), 64);
    assert!(digit.chars().all(|c| c.is_ascii_digit()));
    let lower = password_for(CommandLineCharset::Lower).unwrap();
    assert_eq!(lower.len(), 64);
    assert!(lower.chars().all(|c| c.is_ascii_lowercase()));
    let words = password_for(CommandLineCharset::Words).unwrap();
    let list = passgenr::charsets::words();
    let parts: Vec<&str> = words.split('.').collect();
    assert_eq!(parts.len(), 10);
    for part in parts {
        assert!(list.contains(&part));
    }
}

#[test]
fn failures_of_the_parser_come_in_their_own_words() {
    let opts = prepare_opts();
    let args = |list: &[&str]| list.iter().map(|s| s.to_string()).collect::<Vec<String>>();
    assert_eq!(
        parse_args(&opts, &args(&["-x", "-x"])),
        OptParseResult::Error("Option 'hex' given more than once".to_owned())
    );
    assert_eq!(
        parse_args(&opts, &args(&["-x", "--hex"])),
        OptParseResult::Error("Option 'hex' given more than once".to_owned())
    );
    assert_eq!(
        parse_args(&opts, &args(&["-p", "1", "--password-count", "2", "-d"])),
        OptParseResult::Error("Option 'password-count' given more than once".to_owned())
    );
    assert_eq!(
        parse_args(&opts, &args(&["--hex=1"])),
        OptParseResult::Error("Option 'hex' does not take an argument".to_owned())
    );
    assert_eq!(
        parse_args(&opts, &args(&["--password-count"])),
        OptParseResult::Error("Argument to option 'password-count' missing".to_owned())
    );
    assert_eq!(
        parse_args(&opts, &args(&["--colour"])),
        OptParseResult::Error("Unrecognized option: 'colour'".to_owned())
    );
}
