use riftbound_events::text::{chars_of, decimal_text, parse_number, split_lines, NumberError};

#[test]
fn numbers_in_decimal() {
    assert_eq!(decimal_text(0), "0");
    assert_eq!(decimal_text(10), "10");
    assert_eq!(decimal_text(u64::MAX), "18446744073709551615");
}

#[test]
fn numbers_read_back() {
    for n in [0u32, 9, 10, 99, 100, 65_536, u32::MAX] {
        assert_eq!(parse_number(&decimal_text(n as u64)), Ok(n));
        assert_eq!(Some(n), n.to_string().parse().ok());
    }
}

#[test]
fn numbers_are_read_as_the_standard_library_reads_them() {
    for text in [
        "", "+", "-", "+7", "++7", "-0", "-1", "007", "4294967295", "4294967296",
        "00004294967295", "99999999999999999999", " 1", "1 ", "1_000", "0x10", "٣", "1a",
        "4294967295x", "4294967296x", "42949672950x", "+4294967296", "+x", "00000000000000",
        "x4294967296", "429496729\u{e9}",
    ] {
        match (parse_number(text), text.parse::<u32>()) {
            (Ok(read), Ok(expected)) => assert_eq!(read, expected, "{text:?}"),
            (Err(read), Err(expected)) => {
                assert_eq!(format!("{read:?}"), format!("{:?}", expected.kind()), "{text:?}");
                assert_eq!(read.message(), expected.to_string(), "{text:?}");
            }
            (read, expected) => panic!("{text:?}: {read:?}, {expected:?}"),
        }
    }
}

#[test]
fn what_is_wrong_with_a_number_first_is_told() {
    assert_eq!(parse_number(""), Err(NumberError::Empty));
    assert_eq!(parse_number("+"), Err(NumberError::InvalidDigit));
    assert_eq!(parse_number("4294967295x"), Err(NumberError::InvalidDigit));
    assert_eq!(parse_number("4294967296x"), Err(NumberError::PosOverflow));
}

#[test]
fn lines_are_split_as_the_standard_library_splits_them() {
    for text in [
        "", "\n", "a", "a\n", "a\nb", "a\r\nb\r\n", "a\r", "a\r\n\r\n", "\r\n", "a\rb\n", "\n\n",
        "é\n─\n", "a\r\r\n",
    ] {
        let expected: Vec<String> = text.lines().map(|line| line.to_string()).collect();
        assert_eq!(split_lines(text), expected, "{text:?}");
    }
}

#[test]
fn characters_are_listed_in_order() {
    assert_eq!(chars_of("aé─"), vec!['a', 'é', '─']);
}
