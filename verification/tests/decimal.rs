use getblock_filter::decimal::parse_u64;

#[test]
fn parses_plain_digits() {
    assert_eq!(parse_u64("0"), Some(0));
    assert_eq!(parse_u64("7"), Some(7));
    assert_eq!(parse_u64("42"), Some(42));
    assert_eq!(parse_u64("1000000000"), Some(1_000_000_000));
}

#[test]
fn parses_leading_zeros() {
    assert_eq!(parse_u64("000"), Some(0));
    assert_eq!(parse_u64("00012"), Some(12));
}

#[test]
fn parses_one_leading_plus() {
    assert_eq!(parse_u64("+5"), Some(5));
    assert_eq!(parse_u64("+0"), Some(0));
    assert_eq!(parse_u64("++5"), None);
    assert_eq!(parse_u64("+"), None);
    assert_eq!(parse_u64("5+"), None);
}

#[test]
fn rejects_empty_text() {
    assert_eq!(parse_u64(""), None);
}

#[test]
fn rejects_minus_sign() {
    assert_eq!(parse_u64("-0"), None);
    assert_eq!(parse_u64("-1"), None);
}

#[test]
fn rejects_other_characters() {
    assert_eq!(parse_u64(" 1"), None);
    assert_eq!(parse_u64("1 "), None);
    assert_eq!(parse_u64("1_000"), None);
    assert_eq!(parse_u64("1.0"), None);
    assert_eq!(parse_u64("0x10"), None);
    assert_eq!(parse_u64("12a"), None);
    assert_eq!(parse_u64("1e3"), None);
}

#[test]
fn rejects_digits_outside_ascii() {
    assert_eq!(parse_u64("\u{0661}\u{0662}"), None);
    assert_eq!(parse_u64("1\u{00e9}"), None);
    assert_eq!(parse_u64("\u{ff11}"), None);
}

#[test]
fn accepts_the_largest_value() {
    assert_eq!(parse_u64("18446744073709551615"), Some(u64::MAX));
    assert_eq!(parse_u64("+18446744073709551615"), Some(u64::MAX));
    assert_eq!(parse_u64("0018446744073709551615"), Some(u64::MAX));
}

#[test]
fn rejects_values_past_the_largest() {
    assert_eq!(parse_u64("18446744073709551616"), None);
    assert_eq!(parse_u64("18446744073709551620"), None);
    assert_eq!(parse_u64("99999999999999999999"), None);
    assert_eq!(parse_u64("184467440737095516150"), None);
}

#[test]
fn agrees_with_the_standard_parser() {
    let samples = [
        "", "+", "-", "0", "+0", "-0", "1", "10", "0010", "+10", "++10", "10+", "1 0", "a",
        "9223372036854775808", "18446744073709551614", "18446744073709551615",
        "18446744073709551616", "28446744073709551615", "1844674407370955161",
        "100000000000000000000", "\u{0661}\u{0662}\u{0663}", "12\n", "\t12", "\u{0661}", "12.5", "1,000",
    ];
    for text in samples {
        assert_eq!(parse_u64(text), text.parse::<u64>().ok(), "text {:?}", text);
    }
}

#[test]
fn agrees_with_the_standard_parser_on_every_short_text() {
    let alphabet = ['0', '1', '9', '+', '-', ' ', 'a'];
    let mut texts: Vec<String> = vec![String::new()];
    let mut start = 0;
    for _ in 0..4 {
        let end = texts.len();
        for i in start..end {
            for c in alphabet {
                let mut longer = texts[i].clone();
                longer.push(c);
                texts.push(longer);
            }
        }
        start = end;
    }
    for text in &texts {
        assert_eq!(parse_u64(text), text.parse::<u64>().ok(), "text {:?}", text);
    }
}
