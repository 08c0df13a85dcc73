use nget::http_values::{closed_range_header, open_range_header, parse_u64, push_decimal};

#[test]
fn decimal_notation() {
    let mut v = b"x=".to_vec();
    push_decimal(&mut v, 0);
    assert_eq!(v, b"x=0");
    let mut w = Vec::new();
    push_decimal(&mut w, 1048575);
    assert_eq!(w, b"1048575");
    let mut m = Vec::new();
    push_decimal(&mut m, u64::MAX);
    assert_eq!(m, b"18446744073709551615");
}

#[test]
fn range_headers() {
    assert_eq!(closed_range_header(0, 262143), b"bytes=0-262143");
    assert_eq!(closed_range_header(786432, 1048575), b"bytes=786432-1048575");
    assert_eq!(open_range_header(4096), b"bytes=4096-");
}

#[test]
fn parse_accepts_digits_and_plus() {
    assert_eq!(parse_u64(b"1048576"), Some(1048576));
    assert_eq!(parse_u64(b"0"), Some(0));
    assert_eq!(parse_u64(b"007"), Some(7));
    assert_eq!(parse_u64(b"+42"), Some(42));
    assert_eq!(parse_u64(b"18446744073709551615"), Some(u64::MAX));
}

#[test]
fn parse_rejects_malformed() {
    assert_eq!(parse_u64(b""), None);
    assert_eq!(parse_u64(b"+"), None);
    assert_eq!(parse_u64(b"-1"), None);
    assert_eq!(parse_u64(b"12a"), None);
    assert_eq!(parse_u64(b" 12"), None);
    assert_eq!(parse_u64(b"++1"), None);
    assert_eq!(parse_u64(b"18446744073709551616"), None);
    assert_eq!(parse_u64(b"99999999999999999999x"), None);
}

#[test]
fn parse_reads_back_decimal() {
    for n in [0u64, 9, 10, 99, 100, 12345, u64::MAX - 1, u64::MAX] {
        let mut v = Vec::new();
        push_decimal(&mut v, n);
        assert_eq!(parse_u64(&v), Some(n));
        assert_eq!(String::from_utf8(v).unwrap(), n.to_string());
    }
}
