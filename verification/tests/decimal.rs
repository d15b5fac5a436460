use cs110l::balancebeam::decimal::{format_decimal, parse_decimal};

#[test]
fn parse_decimal_reads_plain_numbers() {
    assert_eq!(parse_decimal(b"0"), Some(0));
    assert_eq!(parse_decimal(b"7"), Some(7));
    assert_eq!(parse_decimal(b"10"), Some(10));
    assert_eq!(parse_decimal(b"0010"), Some(10));
    assert_eq!(parse_decimal(b"10000000"), Some(10000000));
}

#[test]
fn parse_decimal_takes_one_leading_plus() {
    assert_eq!(parse_decimal(b"+5"), Some(5));
    assert_eq!(parse_decimal(b"++5"), None);
    assert_eq!(parse_decimal(b"+"), None);
}

#[test]
fn parse_decimal_refuses_what_is_no_number() {
    assert_eq!(parse_decimal(b""), None);
    assert_eq!(parse_decimal(b"-1"), None);
    assert_eq!(parse_decimal(b"12a"), None);
    assert_eq!(parse_decimal(b" 1"), None);
    assert_eq!(parse_decimal(b"1 "), None);
    assert_eq!(parse_decimal(b"1.5"), None);
    assert_eq!(parse_decimal(b"ten"), None);
}

#[test]
fn parse_decimal_agrees_with_std_on_sample_inputs() {
    let samples: Vec<&str> = vec![
        "0", "1", "+1", "-0", "", "+", "00", "42", "4 2", "9999999999", "0x10", "१२", "1e3",
        "18446744073709551615", "18446744073709551616", "99999999999999999999999",
    ];
    for s in samples {
        assert_eq!(parse_decimal(s.as_bytes()), s.parse::<usize>().ok(), "input {:?}", s);
    }
}

#[test]
fn parse_decimal_stops_at_the_largest_usize() {
    let max = usize::MAX.to_string();
    assert_eq!(parse_decimal(max.as_bytes()), Some(usize::MAX));
    let mut over = max.clone().into_bytes();
    let last = over.len() - 1;
    over[last] += 1;
    assert_eq!(parse_decimal(&over), None);
    let mut longer = max.into_bytes();
    longer.push(b'0');
    assert_eq!(parse_decimal(&longer), None);
}

#[test]
fn format_decimal_writes_digits_without_leading_zeros() {
    assert_eq!(format_decimal(0), b"0".to_vec());
    assert_eq!(format_decimal(9), b"9".to_vec());
    assert_eq!(format_decimal(10), b"10".to_vec());
    assert_eq!(format_decimal(20), b"20".to_vec());
    assert_eq!(format_decimal(502), b"502".to_vec());
    assert_eq!(format_decimal(usize::MAX), usize::MAX.to_string().into_bytes());
}

#[test]
fn parsing_what_was_formatted_gives_the_number_back() {
    for n in [0usize, 1, 9, 10, 99, 100, 12345, 10000000, usize::MAX - 1, usize::MAX] {
        assert_eq!(parse_decimal(&format_decimal(n)), Some(n));
    }
}
