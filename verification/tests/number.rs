use multi_desktop::number::{parse_radix, parse_u64, u64_to_decimal};

fn chars(s: &str) -> Vec<char> {
    s.chars().collect()
}

#[test]
fn numbers_parse_like_from_str_radix() {
    assert_eq!(parse_u64(&chars("18446744073709551615")), Some(u64::MAX));
    assert_eq!(parse_u64(&chars("18446744073709551616")), None);
    assert_eq!(parse_u64(&chars("+12")), Some(12));
    assert_eq!(parse_u64(&chars("+")), None);
    assert_eq!(parse_u64(&chars("1 2")), None);
    assert_eq!(parse_radix(&chars("zz"), 36, 10_000), Some(1295));
    assert_eq!(parse_radix(&chars("ff"), 16, 254), None);
}

#[test]
fn decimal_formatting_round_trips() {
    for n in [0u64, 7, 10, 300, u64::MAX] {
        let text = u64_to_decimal(n);
        assert_eq!(text, n.to_string());
        assert_eq!(parse_u64(&chars(&text)), Some(n));
    }
}
