use autocreamapi::number::{decimal_string, parse_u32};

fn chars(s: &str) -> Vec<char> {
    s.chars().collect()
}

#[test]
fn decimal_string_writes_like_format() {
    assert_eq!(decimal_string(0), "0");
    assert_eq!(decimal_string(570), "570");
    assert_eq!(decimal_string(u64::MAX), u64::MAX.to_string());
}

#[test]
fn parse_u32_follows_str_parse() {
    for s in ["0", "570", "+570", "007", "4294967295", "4294967296", "", "+", "-1", " 1", "1 ", "12a", "99999999999999999999"] {
        assert_eq!(parse_u32(&chars(s)), s.parse::<u32>().ok(), "input {:?}", s);
    }
}

#[test]
fn parse_of_decimal_gives_the_number_back() {
    for n in [0u32, 1, 9, 10, 570, 4294967295] {
        assert_eq!(parse_u32(&chars(&decimal_string(n as u64))), Some(n));
    }
}
