use pyronyx_gen::number::{i64_to_string, parse_i64, parse_u32, parse_u64_hex, radix_digits_exec};
use pyronyx_gen::parse::enums::bit_at;

#[test]
fn unsigned_parsing_follows_str_parse() {
    assert_eq!(parse_u32("42"), Some(42));
    assert_eq!(parse_u32("+42"), Some(42));
    assert_eq!(parse_u32("4294967295"), Some(u32::MAX));
    assert_eq!(parse_u32("4294967296"), None);
    assert_eq!(parse_u32(""), None);
    assert_eq!(parse_u32("+"), None);
    assert_eq!(parse_u32("-1"), None);
    assert_eq!(parse_u32(" 1"), None);
    assert_eq!(parse_u64_hex("ffFF"), Some(0xffff));
    assert_eq!(parse_u64_hex("ffffffffffffffff"), Some(u64::MAX));
    assert_eq!(parse_u64_hex("1ffffffffffffffff"), None);
    assert_eq!(parse_u64_hex("0x1"), None);
}

#[test]
fn signed_parsing_follows_from_str_radix() {
    assert_eq!(parse_i64("-9223372036854775808", 10), Some(i64::MIN));
    assert_eq!(parse_i64("9223372036854775807", 10), Some(i64::MAX));
    assert_eq!(parse_i64("9223372036854775808", 10), None);
    assert_eq!(parse_i64("-", 10), None);
    assert_eq!(parse_i64("+7", 10), Some(7));
    assert_eq!(parse_i64("-1F", 16), Some(-31));
    assert_eq!(parse_i64("1.5", 10), None);
}

#[test]
fn number_formatting() {
    assert_eq!(radix_digits_exec(0, 10), "0");
    assert_eq!(radix_digits_exec(255, 16), "FF");
    assert_eq!(radix_digits_exec(u64::MAX, 10), "18446744073709551615");
    assert_eq!(i64_to_string(-5), "-5");
    assert_eq!(i64_to_string(i64::MIN), "-9223372036854775808");
    assert_eq!(i64_to_string(1_000_001_000), "1000001000");
}

#[test]
fn bit_positions() {
    assert_eq!(bit_at(0), 1);
    assert_eq!(bit_at(4), 16);
    assert_eq!(bit_at(63), i64::MIN);
}
