use hippo_party::player::PlayerId;

#[test]
fn an_identifier_is_written_in_decimal() {
    assert_eq!(PlayerId(0).to_wire(), "0");
    assert_eq!(PlayerId(7).to_wire(), "7");
    assert_eq!(PlayerId(10).to_wire(), "10");
    assert_eq!(PlayerId(9_007_199_254_740_993).to_wire(), "9007199254740993");
    assert_eq!(PlayerId(u64::MAX).to_wire(), "18446744073709551615");
}

#[test]
fn an_identifier_is_read_from_decimal() {
    assert_eq!(PlayerId::from_wire("0"), Some(PlayerId(0)));
    assert_eq!(PlayerId::from_wire("42"), Some(PlayerId(42)));
    assert_eq!(PlayerId::from_wire("18446744073709551615"), Some(PlayerId(u64::MAX)));
}

#[test]
fn a_plus_sign_and_leading_zeros_are_accepted() {
    assert_eq!(PlayerId::from_wire("+42"), Some(PlayerId(42)));
    assert_eq!(PlayerId::from_wire("0042"), Some(PlayerId(42)));
    assert_eq!(PlayerId::from_wire("+000"), Some(PlayerId(0)));
}

#[test]
fn what_is_no_number_is_refused() {
    assert_eq!(PlayerId::from_wire(""), None);
    assert_eq!(PlayerId::from_wire("+"), None);
    assert_eq!(PlayerId::from_wire("-1"), None);
    assert_eq!(PlayerId::from_wire("++1"), None);
    assert_eq!(PlayerId::from_wire("1+"), None);
    assert_eq!(PlayerId::from_wire("12a"), None);
    assert_eq!(PlayerId::from_wire(" 12"), None);
    assert_eq!(PlayerId::from_wire("1.0"), None);
    assert_eq!(PlayerId::from_wire("١٢"), None);
    assert_eq!(PlayerId::from_wire("12é"), None);
}

#[test]
fn a_number_beyond_64_bits_is_refused() {
    assert_eq!(PlayerId::from_wire("18446744073709551616"), None);
    assert_eq!(PlayerId::from_wire("99999999999999999999"), None);
    assert_eq!(PlayerId::from_wire("184467440737095516150"), None);
}

#[test]
fn reading_gives_back_what_was_written() {
    for raw in [0u64, 1, 9, 10, 99, 100, 12_345, 1 << 53, u64::MAX - 1, u64::MAX] {
        let id = PlayerId(raw);
        assert_eq!(PlayerId::from_wire(&id.to_wire()), Some(id));
        assert_eq!(id.to_wire(), raw.to_string());
    }
}

#[test]
fn reading_agrees_with_the_standard_parser() {
    for text in ["7", "+7", "007", "", "+", "-7", "7 ", "18446744073709551615", "18446744073709551616"] {
        assert_eq!(PlayerId::from_wire(text), text.parse::<u64>().ok().map(PlayerId));
    }
}

#[test]
fn random_identifiers_can_be_drawn() {
    let a = PlayerId::new();
    let b = PlayerId::new();
    assert_eq!(PlayerId::from_wire(&a.to_wire()), Some(a));
    assert_eq!(PlayerId::from_wire(&b.to_wire()), Some(b));
}
