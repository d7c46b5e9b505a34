use yara_x::modules::string::{length, to_int, to_int_base};

#[test]
fn to_int_reads_decimal() {
    assert_eq!(to_int(b"1234"), Some(1234));
    assert_eq!(to_int(b"-10"), Some(-10));
    assert_eq!(to_int(b"+7"), Some(7));
    assert_eq!(to_int(b"0"), Some(0));
    assert_eq!(to_int(b"-0"), Some(0));
    assert_eq!(to_int(b"007"), Some(7));
}

#[test]
fn to_int_is_undefined_for_what_is_no_number() {
    assert_eq!(to_int(b""), None);
    assert_eq!(to_int(b"-"), None);
    assert_eq!(to_int(b"+"), None);
    assert_eq!(to_int(b"12a"), None);
    assert_eq!(to_int(b" 12"), None);
    assert_eq!(to_int(b"12 "), None);
    assert_eq!(to_int(b"1_000"), None);
    assert_eq!(to_int(b"--1"), None);
    assert_eq!(to_int(b"+-1"), None);
    assert_eq!(to_int(b"A"), None);
    assert_eq!(to_int(&[0xff, 0x31]), None);
    assert_eq!(to_int(&[0x31, 0xc3, 0x28]), None);
}

#[test]
fn to_int_keeps_to_64_bits() {
    assert_eq!(to_int(b"9223372036854775807"), Some(i64::MAX));
    assert_eq!(to_int(b"9223372036854775808"), None);
    assert_eq!(to_int(b"-9223372036854775808"), Some(i64::MIN));
    assert_eq!(to_int(b"-9223372036854775809"), None);
    assert_eq!(to_int(b"99999999999999999999999999999999999999999999"), None);
    assert_eq!(to_int(b"00000000000000000000000000000000000000000012"), Some(12));
}

#[test]
fn to_int_base_reads_the_digits_of_the_base() {
    assert_eq!(to_int_base(b"A", 16), Some(10));
    assert_eq!(to_int_base(b"a", 16), Some(10));
    assert_eq!(to_int_base(b"011", 8), Some(9));
    assert_eq!(to_int_base(b"-011", 8), Some(-9));
    assert_eq!(to_int_base(b"101", 2), Some(5));
    assert_eq!(to_int_base(b"zz", 36), Some(35 * 36 + 35));
    assert_eq!(to_int_base(b"Zz", 36), Some(35 * 36 + 35));
    assert_eq!(to_int_base(b"ff", 16), Some(255));
    assert_eq!(to_int_base(b"-7fffffffffffffff", 16), Some(-i64::MAX));
    assert_eq!(to_int_base(b"-8000000000000000", 16), Some(i64::MIN));
    assert_eq!(to_int_base(b"8000000000000000", 16), None);
}

#[test]
fn to_int_base_refuses_digits_of_a_larger_base() {
    assert_eq!(to_int_base(b"2", 2), None);
    assert_eq!(to_int_base(b"8", 8), None);
    assert_eq!(to_int_base(b"g", 16), None);
    assert_eq!(to_int_base(b"1g", 16), None);
    assert_eq!(to_int_base(b"z", 35), None);
    assert_eq!(to_int_base(b"0x10", 16), None);
}

#[test]
fn to_int_base_is_undefined_outside_2_to_36() {
    assert_eq!(to_int_base(b"-011", 0), None);
    assert_eq!(to_int_base(b"0", 1), None);
    assert_eq!(to_int_base(b"0", 37), None);
    assert_eq!(to_int_base(b"0", -10), None);
    assert_eq!(to_int_base(b"0", i64::MAX), None);
    assert_eq!(to_int_base(b"0", i64::MIN), None);
    assert_eq!(to_int_base(b"0", 2), Some(0));
    assert_eq!(to_int_base(b"0", 36), Some(0));
}

#[test]
fn to_int_is_to_int_base_10() {
    for s in ["1234", "-10", "", "x", "+5", "99999999999999999999"] {
        assert_eq!(to_int(s.as_bytes()), to_int_base(s.as_bytes(), 10));
        assert_eq!(to_int(s.as_bytes()), s.parse::<i64>().ok());
    }
}

#[test]
fn to_int_base_agrees_with_the_standard_conversion() {
    let samples =
        ["0", "7", "-7", "+7", "10", "zz", "ZZ", "1a", "-", "", "12345678901234567890", "-1f"];
    for base in 2..=36u32 {
        for s in samples {
            assert_eq!(
                to_int_base(s.as_bytes(), base as i64),
                i64::from_str_radix(s, base).ok(),
                "{} in base {}",
                s,
                base
            );
        }
    }
}

#[test]
fn length_counts_bytes() {
    assert_eq!(length(b"AXsx00ERS"), Some(9));
    assert_eq!(length(b""), Some(0));
    assert_eq!(length(&[0xff, 0x00, 0x41]), Some(3));
    assert_eq!(length("é".as_bytes()), Some(2));
}
