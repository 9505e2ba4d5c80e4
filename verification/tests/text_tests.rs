use mysql_binlog_connector_rust::text::{
    decimal_len, push_decimal, push_hex_byte, push_padded_decimal,
};

fn decimal(n: u64) -> String {
    let mut out = String::new();
    push_decimal(&mut out, n);
    out
}

fn padded(n: u64, width: usize) -> String {
    let mut out = String::new();
    push_padded_decimal(&mut out, n, width);
    out
}

#[test]
fn hex_digits_are_lower_case() {
    let mut out = String::new();
    for byte in [0x01u8, 0x23, 0x45, 0x67, 0x89, 0xab, 0xcd, 0xef] {
        push_hex_byte(&mut out, byte);
    }
    assert_eq!(out, "0123456789abcdef");
}

#[test]
fn decimal_digits() {
    assert_eq!(decimal(1_234_567_890), "1234567890");
}

#[test]
fn push_hex_byte_appends_two_digits() {
    let mut out = String::from("x");
    push_hex_byte(&mut out, 0x07);
    push_hex_byte(&mut out, 0xc0);
    push_hex_byte(&mut out, 0xff);
    assert_eq!(out, "x07c0ff");
}

#[test]
fn push_hex_byte_agrees_with_std_for_every_byte() {
    for byte in 0..=255u8 {
        let mut out = String::new();
        push_hex_byte(&mut out, byte);
        assert_eq!(out, format!("{:02x}", byte));
    }
}

#[test]
fn push_decimal_has_no_leading_zeros() {
    assert_eq!(decimal(0), "0");
    assert_eq!(decimal(1), "1");
    assert_eq!(decimal(9), "9");
    assert_eq!(decimal(10), "10");
    assert_eq!(decimal(99), "99");
    assert_eq!(decimal(100), "100");
    assert_eq!(decimal(1_000_000), "1000000");
    assert_eq!(decimal(u64::MAX), "18446744073709551615");
}

#[test]
fn push_decimal_appends() {
    let mut out = String::from("n=");
    push_decimal(&mut out, 305);
    assert_eq!(out, "n=305");
}

#[test]
fn push_decimal_agrees_with_std() {
    let mut n: u64 = 1;
    for _ in 0..64 {
        for probe in [n - 1, n, n + 1, n.wrapping_mul(3)] {
            assert_eq!(decimal(probe), format!("{}", probe));
        }
        n = n.wrapping_mul(2);
    }
}

#[test]
fn decimal_len_counts_digits() {
    assert_eq!(decimal_len(0), 1);
    assert_eq!(decimal_len(9), 1);
    assert_eq!(decimal_len(10), 2);
    assert_eq!(decimal_len(999_999), 6);
    assert_eq!(decimal_len(1_000_000), 7);
    assert_eq!(decimal_len(u64::MAX), 20);
}

#[test]
fn push_padded_decimal_fills_with_zeros() {
    assert_eq!(padded(0, 2), "00");
    assert_eq!(padded(5, 2), "05");
    assert_eq!(padded(59, 2), "59");
    assert_eq!(padded(0, 6), "000000");
    assert_eq!(padded(1, 6), "000001");
    assert_eq!(padded(123_000, 6), "123000");
    assert_eq!(padded(999_999, 6), "999999");
}

#[test]
fn push_padded_decimal_does_not_cut() {
    assert_eq!(padded(838, 2), "838");
    assert_eq!(padded(1_000_000, 6), "1000000");
    assert_eq!(padded(7, 0), "7");
    assert_eq!(padded(7, 1), "7");
}

#[test]
fn push_padded_decimal_agrees_with_std() {
    for n in [0u64, 3, 42, 100, 4095, 65_535_000, 999_999, 1_000_000] {
        assert_eq!(padded(n, 2), format!("{:02}", n));
        assert_eq!(padded(n, 6), format!("{:06}", n));
    }
}
