use mysql_binlog_connector_rust::binlog_error::BinlogError;
use mysql_binlog_connector_rust::column::time_value::{decode_time_value, TimePrecision};

/// The declared precision of a column type: `TIME` has none, `TIME(n)` has n.
fn declared_precision(col_type: &str) -> Option<u8> {
    let inner = col_type.strip_prefix("TIME")?;
    let digits = inner.strip_prefix('(')?.strip_suffix(')')?;
    Some(digits.parse().unwrap())
}

/// The bytes of a time of day with `fraction` as the stored fraction field,
/// `fraction_len` bytes wide.
fn time_bytes(hour: u32, minute: u32, second: u32, fraction: u32, fraction_len: usize) -> Vec<u8> {
    let packed: u32 = 0x80_0000 | (hour << 12) | (minute << 6) | second;
    let mut bytes = packed.to_be_bytes()[1..].to_vec();
    bytes.extend_from_slice(&fraction.to_be_bytes()[4 - fraction_len..]);
    bytes
}

/// The bytes that stand for the SQL literal `value` in a column of `col_type`.
fn encode(col_type: &str, value: &str) -> Vec<u8> {
    let text = value.trim_matches('\'');
    let (clock, fraction) = match text.split_once('.') {
        Some((clock, fraction)) => (clock, fraction),
        None => (text, ""),
    };
    let fields: Vec<u32> = clock.split(':').map(|f| f.parse().unwrap()).collect();
    let scaled = |digits: usize| -> u32 {
        let mut padded = fraction.to_string();
        while padded.len() < digits {
            padded.push('0');
        }
        padded[..digits].parse().unwrap()
    };
    match declared_precision(col_type) {
        None | Some(0) => time_bytes(fields[0], fields[1], fields[2], 0, 0),
        Some(3) => time_bytes(fields[0], fields[1], fields[2], scaled(3), 2),
        Some(6) => time_bytes(fields[0], fields[1], fields[2], scaled(6), 3),
        Some(other) => panic!("no layout for TIME({})", other),
    }
}

fn run_and_check(col_type: &str, values: &[&str], check_values: &[&str]) {
    assert_eq!(values.len(), check_values.len());
    for i in 0..check_values.len() {
        let raw = encode(col_type, values[i]);
        assert_eq!(
            decode_time_value(&raw, declared_precision(col_type)),
            Ok(check_values[i].to_string()),
        );
    }
}

#[test]
fn test_time6() {
    let col_type = "TIME(6)";

    let values = vec![
        "'00:00:00.000000'",
        "'23:59:59.999999'",
        "'03:04:05.0'",
        "'03:04:05.1'",
        "'03:04:05.12'",
        "'03:04:05.123'",
        "'03:04:05.1234'",
        "'03:04:05.12345'",
        "'03:04:05.123456'",
        "'03:04:05.000001'",
        "'03:04:05.000012'",
        "'03:04:05.000123'",
        "'03:04:05.001234'",
        "'03:04:05.012345'",
    ];

    let check_values = [
        "00:00:00.000000",
        "23:59:59.999999",
        "03:04:05.000000",
        "03:04:05.100000",
        "03:04:05.120000",
        "03:04:05.123000",
        "03:04:05.123400",
        "03:04:05.123450",
        "03:04:05.123456",
        "03:04:05.000001",
        "03:04:05.000012",
        "03:04:05.000123",
        "03:04:05.001234",
        "03:04:05.012345",
    ];

    run_and_check(col_type, &values, &check_values);
}

#[test]
fn test_time3() {
    let col_type = "TIME(3)";

    let values = vec![
        "'00:00:00.000'",
        "'23:59:59.999'",
        "'03:04:05.0'",
        "'03:04:05.1'",
        "'03:04:05.12'",
        "'03:04:05.123'",
        "'03:04:05.001'",
        "'03:04:05.012'",
    ];

    let check_values = [
        "00:00:00.000000",
        "23:59:59.999000",
        "03:04:05.000000",
        "03:04:05.100000",
        "03:04:05.120000",
        "03:04:05.123000",
        "03:04:05.001000",
        "03:04:05.012000",
    ];

    run_and_check(col_type, &values, &check_values);
}

#[test]
fn test_time() {
    let col_type = "TIME";
    // The stored values are "00:00:00" and "23:59:59"; the decoded text
    // carries six zeros all the same, since every value has one form.
    let values = vec!["'00:00:00'", "'23:59:59'"];
    let check_values = ["00:00:00.000000", "23:59:59.000000"];
    run_and_check(col_type, &values, &check_values);
}

#[test]
fn decode_time_exact_bytes() {
    // 03:04:05 packs to 0x003105; the top bit marks a non-negative value.
    assert_eq!(
        decode_time_value(&[0x80, 0x31, 0x05], None),
        Ok("03:04:05.000000".to_string())
    );
    assert_eq!(
        decode_time_value(&[0x80, 0x31, 0x05], Some(0)),
        Ok("03:04:05.000000".to_string())
    );
    // 123 milliseconds in two bytes.
    assert_eq!(
        decode_time_value(&[0x80, 0x31, 0x05, 0x00, 0x7b], Some(3)),
        Ok("03:04:05.123000".to_string())
    );
    // 100000 microseconds in three bytes.
    assert_eq!(
        decode_time_value(&[0x80, 0x31, 0x05, 0x01, 0x86, 0xa0], Some(6)),
        Ok("03:04:05.100000".to_string())
    );
    // 23:59:59.999999
    assert_eq!(
        decode_time_value(&[0x81, 0x7e, 0xfb, 0x0f, 0x42, 0x3f], Some(6)),
        Ok("23:59:59.999999".to_string())
    );
    // Midnight.
    assert_eq!(
        decode_time_value(&[0x80, 0x00, 0x00, 0x00, 0x00, 0x00], Some(6)),
        Ok("00:00:00.000000".to_string())
    );
}

#[test]
fn decode_time_ignores_the_two_top_bits() {
    for top in [0x00u8, 0x40, 0x80, 0xc0] {
        assert_eq!(
            decode_time_value(&[top | 0x00, 0x31, 0x05], None),
            Ok("03:04:05.000000".to_string())
        );
    }
}

#[test]
fn decode_time_ignores_bytes_after_the_value() {
    assert_eq!(
        decode_time_value(&[0x80, 0x31, 0x05, 0xff, 0xff, 0xff], None),
        Ok("03:04:05.000000".to_string())
    );
    assert_eq!(
        decode_time_value(&[0x80, 0x31, 0x05, 0x00, 0x7b, 0xff], Some(3)),
        Ok("03:04:05.123000".to_string())
    );
    assert_eq!(
        decode_time_value(&[0x80, 0x31, 0x05, 0x00, 0x00, 0x01, 0xee], Some(6)),
        Ok("03:04:05.000001".to_string())
    );
}

#[test]
fn decode_time_hours_grow_past_two_digits() {
    assert_eq!(
        decode_time_value(&time_bytes(838, 59, 59, 0, 0), None),
        Ok("838:59:59.000000".to_string())
    );
    assert_eq!(
        decode_time_value(&time_bytes(100, 0, 0, 1, 3), Some(6)),
        Ok("100:00:00.000001".to_string())
    );
    assert_eq!(
        decode_time_value(&time_bytes(1023, 0, 0, 0, 0), None),
        Ok("1023:00:00.000000".to_string())
    );
    assert_eq!(
        decode_time_value(&time_bytes(99, 1, 2, 0, 0), None),
        Ok("99:01:02.000000".to_string())
    );
}

#[test]
fn decode_time_does_not_judge_the_fields() {
    // Minute and second fields are six bits wide; 61 and 63 are rendered as
    // they are.
    assert_eq!(
        decode_time_value(&time_bytes(1, 61, 63, 0, 0), None),
        Ok("01:61:63.000000".to_string())
    );
    // A millisecond field above 999 scales like any other.
    assert_eq!(
        decode_time_value(&time_bytes(1, 2, 3, 1000, 2), Some(3)),
        Ok("01:02:03.1000000".to_string())
    );
    assert_eq!(
        decode_time_value(&time_bytes(1, 2, 3, 0xff_ffff, 3), Some(6)),
        Ok("01:02:03.16777215".to_string())
    );
}

#[test]
fn decode_time_millis_are_scaled_by_a_thousand() {
    assert_eq!(
        decode_time_value(&time_bytes(0, 0, 0, 1, 2), Some(3)),
        Ok("00:00:00.001000".to_string())
    );
    assert_eq!(
        decode_time_value(&time_bytes(0, 0, 0, 999, 2), Some(3)),
        Ok("00:00:00.999000".to_string())
    );
    assert_eq!(
        decode_time_value(&time_bytes(0, 0, 0, 256, 2), Some(3)),
        Ok("00:00:00.256000".to_string())
    );
}

fn assert_time_shape(text: &str) {
    let chars: Vec<char> = text.chars().collect();
    assert_eq!(chars.len(), 15);
    for (i, ch) in chars.iter().enumerate() {
        match i {
            2 | 5 => assert_eq!(*ch, ':'),
            8 => assert_eq!(*ch, '.'),
            _ => assert!(ch.is_ascii_digit()),
        }
    }
}

#[test]
fn decode_time_has_one_form_for_every_precision() {
    for hour in [0u32, 7, 23, 99] {
        for minute in [0u32, 9, 59] {
            for second in [0u32, 30, 59] {
                let text = decode_time_value(&time_bytes(hour, minute, second, 0, 0), None);
                assert_time_shape(&text.unwrap());
                for millis in [0u32, 1, 45, 999] {
                    let raw = time_bytes(hour, minute, second, millis, 2);
                    assert_time_shape(&decode_time_value(&raw, Some(3)).unwrap());
                }
                for micros in [0u32, 1, 4567, 999_999] {
                    let raw = time_bytes(hour, minute, second, micros, 3);
                    assert_time_shape(&decode_time_value(&raw, Some(6)).unwrap());
                }
            }
        }
    }
}

#[test]
fn decode_time_without_fraction_ends_in_six_zeros() {
    for hour in [0u32, 12, 23, 500] {
        let text = decode_time_value(&time_bytes(hour, 34, 56, 0, 0), None).unwrap();
        assert!(text.ends_with(".000000"));
        let text = decode_time_value(&time_bytes(hour, 34, 56, 0, 0), Some(0)).unwrap();
        assert!(text.ends_with(".000000"));
    }
}

#[test]
fn decode_time_rejects_precision_four() {
    assert_eq!(
        decode_time_value(&[0x80, 0x31, 0x05, 0x04, 0xce], Some(4)),
        Err(BinlogError::UnsupportedPrecision(4))
    );
}

#[test]
fn decode_time_rejects_every_other_precision() {
    let raw = [0x80, 0x31, 0x05, 0x00, 0x00, 0x00, 0x00, 0x00];
    for declared in 0..=255u8 {
        let res = decode_time_value(&raw, Some(declared));
        if declared == 0 || declared == 3 || declared == 6 {
            assert!(res.is_ok());
        } else {
            assert_eq!(res, Err(BinlogError::UnsupportedPrecision(declared)));
        }
    }
}

#[test]
fn decode_time_reports_precision_before_length() {
    assert_eq!(
        decode_time_value(&[], Some(4)),
        Err(BinlogError::UnsupportedPrecision(4))
    );
}

#[test]
fn decode_time_fails_on_short_input() {
    let raw = [0x80, 0x31, 0x05, 0x01, 0x86, 0xa0];
    for len in 0..3 {
        assert_eq!(
            decode_time_value(&raw[..len], None),
            Err(BinlogError::UnexpectedEndOfInput)
        );
        assert_eq!(
            decode_time_value(&raw[..len], Some(0)),
            Err(BinlogError::UnexpectedEndOfInput)
        );
    }
    for len in 0..5 {
        assert_eq!(
            decode_time_value(&raw[..len], Some(3)),
            Err(BinlogError::UnexpectedEndOfInput)
        );
    }
    for len in 0..6 {
        assert_eq!(
            decode_time_value(&raw[..len], Some(6)),
            Err(BinlogError::UnexpectedEndOfInput)
        );
    }
    assert!(decode_time_value(&raw[..3], None).is_ok());
    assert!(decode_time_value(&raw[..5], Some(3)).is_ok());
    assert!(decode_time_value(&raw[..6], Some(6)).is_ok());
}

#[test]
fn time_precision_table() {
    assert_eq!(TimePrecision::from_declared(None), Ok(TimePrecision::Seconds));
    assert_eq!(TimePrecision::from_declared(Some(0)), Ok(TimePrecision::Seconds));
    assert_eq!(TimePrecision::from_declared(Some(3)), Ok(TimePrecision::Millis));
    assert_eq!(TimePrecision::from_declared(Some(6)), Ok(TimePrecision::Micros));
    assert_eq!(
        TimePrecision::from_declared(Some(1)),
        Err(BinlogError::UnsupportedPrecision(1))
    );
    assert_eq!(
        TimePrecision::from_declared(Some(7)),
        Err(BinlogError::UnsupportedPrecision(7))
    );

    assert_eq!(TimePrecision::Seconds.fraction_len(), 0);
    assert_eq!(TimePrecision::Millis.fraction_len(), 2);
    assert_eq!(TimePrecision::Micros.fraction_len(), 3);

    assert_eq!(TimePrecision::Seconds.encoded_len(), 3);
    assert_eq!(TimePrecision::Millis.encoded_len(), 5);
    assert_eq!(TimePrecision::Micros.encoded_len(), 6);

    assert_eq!(TimePrecision::Millis.micros_per_unit(), 1000);
    assert_eq!(TimePrecision::Micros.micros_per_unit(), 1);
}
