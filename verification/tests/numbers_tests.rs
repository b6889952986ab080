use agent_memory_rs::numfmt::{decimal_string, hex_string_padded8};
use agent_memory_rs::numparse::{parse_i64, parse_usize};

#[test]
fn decimal_matches_format() {
    for n in [0u64, 7, 10, 99, 100, 12345, u64::MAX] {
        assert_eq!(decimal_string(n), format!("{}", n));
    }
}

#[test]
fn padded_hex_matches_format() {
    for n in [0u64, 0xab, 0x1234_5678, 0xdead_beef_cafe, u64::MAX] {
        assert_eq!(hex_string_padded8(n), format!("{:08x}", n));
    }
    assert_eq!(hex_string_padded8(0xab), "000000ab");
}

#[test]
fn parse_i64_matches_std() {
    for s in ["0", "42", "-42", "+7", "-0", "9223372036854775807", "-9223372036854775808",
              "9223372036854775808", "", "-", "+", "1a", " 1", "٣"] {
        assert_eq!(parse_i64(s), s.parse::<i64>().ok(), "input {:?}", s);
    }
}

#[test]
fn parse_usize_matches_std() {
    for s in ["0", "10", "+10", "-1", "18446744073709551615", "18446744073709551616", "", "x"] {
        assert_eq!(parse_usize(s), s.parse::<usize>().ok(), "input {:?}", s);
    }
}

#[test]
fn number_round_trips() {
    for n in [0u64, 5, 1000, 987654321] {
        assert_eq!(parse_usize(&decimal_string(n)), Some(n as usize));
        assert_eq!(u64::from_str_radix(&hex_string_padded8(n), 16).unwrap(), n);
    }
}
