use trend_arb::text::{decimal_string, join_text, parse_usize_decimal, signed_decimal_string, str_equal};
use trend_arb::trade::{sort_params, query_string_bytes};

#[test]
fn decimal_texts() {
    assert_eq!(decimal_string(0), "0");
    assert_eq!(decimal_string(18446744073709551615), "18446744073709551615");
    assert_eq!(signed_decimal_string(-42), "-42");
    assert_eq!(signed_decimal_string(i64::MIN), "-9223372036854775808");
    assert_eq!(join_text("ab", "cd"), "abcd");
}

#[test]
fn usize_parsing() {
    assert_eq!(parse_usize_decimal(b"123"), Some(123));
    assert_eq!(parse_usize_decimal(b"+7"), Some(7));
    assert_eq!(parse_usize_decimal(b""), None);
    assert_eq!(parse_usize_decimal(b"1a"), None);
    assert_eq!(parse_usize_decimal(b"99999999999999999999999"), None);
}

#[test]
fn text_equality() {
    assert!(str_equal("abc", "abc"));
    assert!(!str_equal("abc", "abd"));
    assert!(!str_equal("ab", "abc"));
}

#[test]
fn params_sorted_and_joined() {
    let params = vec![
        ("type", "LIMIT".to_string()),
        ("timestamp", "1".to_string()),
        ("timeInForce", "GTC".to_string()),
        ("apiKey", "k".to_string()),
        ("newOrderRespType", "RESULT".to_string()),
        ("newClientOrderId", "c".to_string()),
    ];
    let sorted = sort_params(params);
    let keys: Vec<&str> = sorted.iter().map(|p| p.0).collect();
    assert_eq!(keys, vec!["apiKey", "newClientOrderId", "newOrderRespType", "timeInForce", "timestamp", "type"]);
    let q = query_string_bytes(&sorted);
    assert_eq!(
        String::from_utf8(q).unwrap(),
        "apiKey=k&newClientOrderId=c&newOrderRespType=RESULT&timeInForce=GTC&timestamp=1&type=LIMIT"
    );
}
