use mini_redis::utils::parse_to_duration;

#[test]
fn test_parse_to_duration_numeric() {
    assert_eq!(parse_to_duration(Some("10")), Some(10));
    assert_eq!(parse_to_duration(Some("0")), Some(0));
    assert_eq!(parse_to_duration(Some("007")), Some(7));
}

#[test]
fn test_parse_to_duration_plus_sign() {
    assert_eq!(parse_to_duration(Some("+7")), Some(7));
    assert_eq!(parse_to_duration(Some("+")), None);
    assert_eq!(parse_to_duration(Some("++7")), None);
}

#[test]
fn test_parse_to_duration_rejects_garbage() {
    assert_eq!(parse_to_duration(None), None);
    assert_eq!(parse_to_duration(Some("")), None);
    assert_eq!(parse_to_duration(Some("EX")), None);
    assert_eq!(parse_to_duration(Some("1a")), None);
    assert_eq!(parse_to_duration(Some("-1")), None);
    assert_eq!(parse_to_duration(Some(" 1")), None);
}

#[test]
fn test_parse_to_duration_bounds() {
    assert_eq!(
        parse_to_duration(Some("18446744073709551615")),
        Some(u64::MAX)
    );
    assert_eq!(parse_to_duration(Some("18446744073709551616")), None);
    assert_eq!(parse_to_duration(Some("99999999999999999999999")), None);
}
