use batch_bench::extention::from_hex_to_int;
use batch_bench::hex::{digit_value, hex_to_u64, to_hex_lower};

#[test]
fn from_hex_to_int_reads_block_number() {
    assert_eq!(from_hex_to_int("0x1b4"), 436);
    assert_eq!(from_hex_to_int("0x0"), 0);
    assert_eq!(from_hex_to_int("0x10d4f"), 68943);
}

#[test]
fn from_hex_to_int_strips_every_prefix() {
    assert_eq!(from_hex_to_int("0x0x10"), 16);
    assert_eq!(from_hex_to_int("10"), 16);
}

#[test]
fn from_hex_to_int_accepts_both_cases_and_plus() {
    assert_eq!(from_hex_to_int("0xFF"), 255);
    assert_eq!(from_hex_to_int("0xAbC"), 0xabc);
    assert_eq!(from_hex_to_int("+ff"), 255);
    assert_eq!(from_hex_to_int("0xffffffffffffffff"), u64::MAX);
}

#[test]
fn hex_to_u64_refuses_what_from_str_radix_refuses() {
    assert_eq!(hex_to_u64(""), None);
    assert_eq!(hex_to_u64("0x"), None);
    assert_eq!(hex_to_u64("+"), None);
    assert_eq!(hex_to_u64("0x+"), None);
    assert_eq!(hex_to_u64("-1"), None);
    assert_eq!(hex_to_u64("0xg1"), None);
    assert_eq!(hex_to_u64("0X10"), None);
    assert_eq!(hex_to_u64("0x1ffffffffffffffff"), None);
    assert_eq!(hex_to_u64("0x10000000000000000"), None);
    assert_eq!(hex_to_u64("0x00000000000000000001"), Some(1));
}

#[test]
fn hex_to_u64_agrees_with_std() {
    for s in ["1b4", "ff", "FF", "+7", "0", "deadBEEF", "", "+", "x", "1g", "ffffffffffffffff", "10000000000000000"] {
        let want = u64::from_str_radix(s.trim_start_matches("0x"), 16).ok();
        assert_eq!(hex_to_u64(s), want, "{}", s);
        let prefixed = format!("0x{}", s);
        let want = u64::from_str_radix(prefixed.trim_start_matches("0x"), 16).ok();
        assert_eq!(hex_to_u64(&prefixed), want, "{}", prefixed);
    }
}

#[test]
fn digit_values() {
    assert_eq!(digit_value('0'), Some(0));
    assert_eq!(digit_value('9'), Some(9));
    assert_eq!(digit_value('a'), Some(10));
    assert_eq!(digit_value('F'), Some(15));
    assert_eq!(digit_value('g'), None);
    assert_eq!(digit_value('x'), None);
}

#[test]
fn to_hex_lower_formats_like_std() {
    assert_eq!(to_hex_lower(0), "0");
    assert_eq!(to_hex_lower(15), "f");
    assert_eq!(to_hex_lower(16), "10");
    assert_eq!(to_hex_lower(255), "ff");
    assert_eq!(to_hex_lower(436), "1b4");
    assert_eq!(to_hex_lower(u64::MAX), "ffffffffffffffff");
    for n in [1u64, 7, 4096, 123456789, 1 << 40] {
        assert_eq!(to_hex_lower(n), format!("{:x}", n));
    }
}

#[test]
fn law_hex_roundtrip_on_values() {
    for n in [0u64, 1, 15, 16, 436, 18_000_000, u64::MAX] {
        let written = format!("0x{}", to_hex_lower(n));
        assert_eq!(hex_to_u64(&written), Some(n));
        assert_eq!(from_hex_to_int(&written), n);
    }
}

#[test]
fn law_hex_roundtrip_upper_on_values() {
    for n in [0u64, 1, 15, 16, 436, 0xABCDEF, u64::MAX] {
        let written = format!("{:X}", n);
        assert_eq!(hex_to_u64(&written), Some(n));
        assert_eq!(from_hex_to_int(&written), n);
    }
}
