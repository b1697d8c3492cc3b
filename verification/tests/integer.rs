use sigc::compiler::parser::integer::Integer;

#[test]
fn numeral_is_read_by_its_value() {
    assert_eq!(Integer::parse("0").and_then(|n| n.to_u64()), Some(0));
    assert_eq!(Integer::parse("7").and_then(|n| n.to_u64()), Some(7));
    assert_eq!(Integer::parse("100").and_then(|n| n.to_u64()), Some(100));
    assert_eq!(Integer::parse("1234567890").and_then(|n| n.to_u64()), Some(1234567890));
}

#[test]
fn leading_zeros_are_dropped() {
    assert_eq!(Integer::parse("007"), Integer::parse("7"));
    assert_eq!(Integer::parse("0000"), Integer::parse("0"));
    assert_eq!(Integer::parse("0100").and_then(|n| n.to_u64()), Some(100));
    assert_ne!(Integer::parse("70"), Integer::parse("7"));
}

#[test]
fn text_that_is_no_numeral_is_refused() {
    for text in ["", " ", "-1", "+1", "1 ", " 1", "1a", "a1", "1.0", "٣", "１", "0x10"] {
        assert_eq!(Integer::parse(text), None, "{:?}", text);
    }
}

#[test]
fn largest_u64_fits_and_the_next_number_does_not() {
    assert_eq!(Integer::parse("18446744073709551615").and_then(|n| n.to_u64()), Some(u64::MAX));
    let next = Integer::parse("18446744073709551616").expect("a numeral");
    assert_eq!(next.to_u64(), None);
    let long = Integer::parse("100000000000000000000000000000000000000").expect("a numeral");
    assert_eq!(long.to_u64(), None);
    let padded = Integer::parse("000000000000000000000000000000000000042").expect("a numeral");
    assert_eq!(padded.to_u64(), Some(42));
}

#[test]
fn copy_is_the_same_number() {
    let number = Integer::parse("98765432109876543210").expect("a numeral");
    assert_eq!(number.clone(), number);
}

#[test]
fn number_of_a_u64_is_that_number() {
    for value in [0u64, 1, 9, 10, 11, 99, 100, 101, 1000, 4294967296, u64::MAX - 1, u64::MAX] {
        let number = Integer::from_u64(value);
        assert_eq!(number.to_u64(), Some(value));
        assert_eq!(Some(number), Integer::parse(&value.to_string()));
    }
}
