use iridium_proxy::text::{binary8_string, chars_of, chars_equal, decimal_string, parse_unsigned, string_of};

#[test]
fn numbers_are_written() {
    assert_eq!(decimal_string(0), "0");
    assert_eq!(decimal_string(1234567890), "1234567890");
    assert_eq!(decimal_string(u64::MAX), u64::MAX.to_string());
    assert_eq!(binary8_string(0), "00000000");
    assert_eq!(binary8_string(0b10100101), "10100101");
}

#[test]
fn numbers_are_read_as_from_str_radix_reads_them() {
    let cases = ["", "+", "-", "0", "+0", "-0", "ff", "FF", "fF", "10000", "ffff", "1g", " 1", "ffffffffffffffff", "10000000000000000"];
    for c in cases {
        let cs = chars_of(c);
        assert_eq!(parse_unsigned(&cs, 0, cs.len(), 16, 0xffff), u16::from_str_radix(c, 16).ok().map(|v| v as u64), "{}", c);
        assert_eq!(parse_unsigned(&cs, 0, cs.len(), 16, u64::MAX), u64::from_str_radix(c, 16).ok(), "{}", c);
        assert_eq!(parse_unsigned(&cs, 0, cs.len(), 10, 255), u8::from_str_radix(c, 10).ok().map(|v| v as u64), "{}", c);
    }
}

#[test]
fn characters_are_copied() {
    let cs = chars_of("añb");
    assert_eq!(cs, vec!['a', 'ñ', 'b']);
    assert_eq!(string_of(&cs, 1, 3), "ñb");
    assert!(chars_equal(&cs, &chars_of("añb")));
    assert!(!chars_equal(&cs, &chars_of("anb")));
}
