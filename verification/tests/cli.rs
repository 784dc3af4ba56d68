use lolcat::cli::{describe_error, initial_offset, parse_u64_value, random_seed_offset, OpenFailure};

#[test]
fn parse_u64_value_reads_decimal_numbers() {
    assert_eq!(parse_u64_value("seed", "0".to_string()), Ok(0));
    assert_eq!(parse_u64_value("seed", "7".to_string()), Ok(7));
    assert_eq!(parse_u64_value("seed", "+42".to_string()), Ok(42));
    assert_eq!(parse_u64_value("seed", "007".to_string()), Ok(7));
    assert_eq!(
        parse_u64_value("seed", "18446744073709551615".to_string()),
        Ok(u64::MAX)
    );
}

#[test]
fn parse_u64_value_refuses_what_is_no_number() {
    for value in [
        "",
        "+",
        "-1",
        "-0",
        "1.5",
        " 1",
        "1 ",
        "++1",
        "1e3",
        "0x10",
        "\u{661}",
        "18446744073709551616",
        "99999999999999999999999",
    ] {
        assert_eq!(
            parse_u64_value("seed", value.to_string()),
            Err(format!("invalid value for --seed: '{}'", value)),
            "{:?}",
            value
        );
        assert_eq!(value.parse::<u64>().is_err(), true, "{:?}", value);
    }
}

#[test]
fn parse_u64_value_agrees_with_the_standard_parser() {
    for value in ["12", "+0", "000", "4294967296", "18446744073709551615", "18446744073709551620"] {
        assert_eq!(
            parse_u64_value("n", value.to_string()).ok(),
            value.parse::<u64>().ok(),
            "{:?}",
            value
        );
    }
}

#[test]
fn seed_picks_the_first_row() {
    assert_eq!(initial_offset(7, Some(123_456)), 7);
    assert_eq!(initial_offset(256, None), 0);
    assert_eq!(initial_offset(1000, None), 232);
    assert_eq!(initial_offset(0, Some(1_000_000_007)), 7);
    assert_eq!(initial_offset(0, Some(255)), 255);
    assert_eq!(initial_offset(0, None), 0);
    assert_eq!(random_seed_offset(8192, Some(8193)), 1);
    assert_eq!(random_seed_offset(8192, Some(u128::MAX)), 8191);
    assert_eq!(random_seed_offset(1, Some(99)), 0);
    assert_eq!(random_seed_offset(8192, None), 0);
}

#[test]
fn describe_error_words_the_failure() {
    assert_eq!(
        describe_error("a.txt", OpenFailure::NotFound, "x"),
        "lolcat: a.txt: No such file or directory"
    );
    assert_eq!(
        describe_error("/root/b", OpenFailure::PermissionDenied, "x"),
        "lolcat: /root/b: Permission denied"
    );
    assert_eq!(
        describe_error("dir", OpenFailure::Other(Some(21)), "x"),
        "lolcat: dir: Is a directory"
    );
    assert_eq!(
        describe_error("tty", OpenFailure::Other(Some(25)), "x"),
        "lolcat: tty: Inappropriate ioctl for device"
    );
    assert_eq!(
        describe_error("dev", OpenFailure::Other(Some(6)), "x"),
        "lolcat: dev: Is not a regular file"
    );
    assert_eq!(
        describe_error("f", OpenFailure::Other(Some(5)), "Input/output error (os error 5)"),
        "lolcat: f: Input/output error (os error 5)"
    );
    assert_eq!(
        describe_error("", OpenFailure::Other(None), "odd"),
        "lolcat: : odd"
    );
}
