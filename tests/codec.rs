use hiss_native::calendar::{days_to_civil, micros_to_components};
use hiss_native::{compact_value_to_py, decimal_i128_to_string, py_to_sql_literal};
use hiss_native::{CompactValue, HostParam, HostValue};

const GUID: [u8; 16] = [
    0xa1, 0xa2, 0xa3, 0xa4, 0xb1, 0xb2, 0xc1, 0xc2, 0xd1, 0xd2, 0xd3, 0xd4, 0xd5, 0xd6, 0xd7, 0xd8,
];

#[test]
fn days_to_civil_epoch_and_neighbours() {
    assert_eq!(days_to_civil(0), (1970, 1, 1));
    assert_eq!(days_to_civil(-1), (1969, 12, 31));
    assert_eq!(days_to_civil(11016), (2000, 2, 29));
    assert_eq!(days_to_civil(19723), (2024, 1, 1));
    assert_eq!(days_to_civil(-25508), (1900, 3, 1));
}

#[test]
fn days_to_civil_far_range() {
    assert_eq!(days_to_civil(-719162), (1, 1, 1));
    assert_eq!(days_to_civil(2932896), (9999, 12, 31));
}

#[test]
fn micros_to_components_positive() {
    assert_eq!(
        micros_to_components(1_700_000_000_123_456),
        (2023, 11, 14, 22, 13, 20, 123_456)
    );
}

#[test]
fn micros_to_components_before_epoch_uses_floor() {
    assert_eq!(micros_to_components(-1), (1969, 12, 31, 23, 59, 59, 999_999));
    assert_eq!(
        micros_to_components(-86_400_000_001),
        (1969, 12, 30, 23, 59, 59, 999_999)
    );
}

#[test]
fn micros_round_trip_examples() {
    for &us in &[0i64, -1, 1, 951_782_400_000_000, -2_208_988_800_000_001, i64::MAX, i64::MIN] {
        let (y, m, d, hh, mi, ss, frac) = micros_to_components(us as i128);
        let date = (y as i64, m, d);
        let mut days: i64 = 0;
        // find the day number of the decoded date by stepping from an estimate
        let est = (us as i128).div_euclid(86_400_000_000) as i64;
        for cand in [est - 1, est, est + 1] {
            if days_to_civil(cand) == date {
                days = cand;
            }
        }
        let back = (days as i128 * 86_400 + hh as i128 * 3600 + mi as i128 * 60 + ss as i128)
            * 1_000_000
            + frac as i128;
        assert_eq!(back, us as i128);
    }
}

#[test]
fn decimal_text_examples() {
    assert_eq!(decimal_i128_to_string(12345, 2), "123.45");
    assert_eq!(decimal_i128_to_string(-5, 3), "-0.005");
    assert_eq!(decimal_i128_to_string(0, 0), "0");
    assert_eq!(decimal_i128_to_string(100, 0), "100");
    assert_eq!(decimal_i128_to_string(5, 1), "0.5");
    assert_eq!(decimal_i128_to_string(123, 3), "0.123");
    assert_eq!(
        decimal_i128_to_string(i128::MIN, 0),
        "-170141183460469231731687303715884105728"
    );
}

#[test]
fn literal_text_doubles_quotes() {
    let p = HostParam::Text("O'Brien".to_string());
    assert_eq!(py_to_sql_literal(&p), "N'O''Brien'");
    let p = HostParam::Text("''".to_string());
    assert_eq!(py_to_sql_literal(&p), "N''''''");
    let p = HostParam::Other("it's".to_string());
    assert_eq!(py_to_sql_literal(&p), "N'it''s'");
}

#[test]
fn literal_scalars() {
    assert_eq!(py_to_sql_literal(&HostParam::Null), "NULL");
    assert_eq!(py_to_sql_literal(&HostParam::Bool(true)), "1");
    assert_eq!(py_to_sql_literal(&HostParam::Bool(false)), "0");
    assert_eq!(py_to_sql_literal(&HostParam::Int(-42)), "-42");
    assert_eq!(py_to_sql_literal(&HostParam::Int(i64::MIN as i128)), "-9223372036854775808");
    assert_eq!(py_to_sql_literal(&HostParam::Int(1i128 << 63)), "9223372036854775808");
    assert_eq!(
        py_to_sql_literal(&HostParam::Int(i128::MIN)),
        "-170141183460469231731687303715884105728"
    );
    assert_eq!(
        py_to_sql_literal(&HostParam::BigInt("340282366920938463463374607431768211456".to_string())),
        "340282366920938463463374607431768211456"
    );
    assert_eq!(py_to_sql_literal(&HostParam::Float("1.5".to_string())), "CAST(1.5 AS FLOAT)");
    assert_eq!(py_to_sql_literal(&HostParam::Decimal("12.30".to_string())), "12.30");
}

#[test]
fn literal_datetimes() {
    let with_fraction = HostParam::DateTime {
        year: 2024,
        month: 1,
        day: 2,
        hour: 3,
        minute: 4,
        second: 5,
        microsecond: 5,
    };
    assert_eq!(
        py_to_sql_literal(&with_fraction),
        "CAST('2024-01-02 03:04:05.0000050' AS DATETIME2(7))"
    );
    let whole = HostParam::DateTime {
        year: 24,
        month: 11,
        day: 12,
        hour: 13,
        minute: 14,
        second: 15,
        microsecond: 0,
    };
    assert_eq!(py_to_sql_literal(&whole), "'0024-11-12 13:14:15'");
    let date = HostParam::Date { year: 2024, month: 2, day: 29 };
    assert_eq!(py_to_sql_literal(&date), "'2024-02-29'");
    let time = HostParam::Time { hour: 9, minute: 8, second: 7, microsecond: 0 };
    assert_eq!(py_to_sql_literal(&time), "'09:08:07'");
    let time = HostParam::Time { hour: 9, minute: 8, second: 7, microsecond: 1200 };
    assert_eq!(py_to_sql_literal(&time), "'09:08:07.001200'");
}

#[test]
fn literal_uuid_and_bytes() {
    assert_eq!(
        py_to_sql_literal(&HostParam::Uuid(GUID)),
        "'a1a2a3a4-b1b2-c1c2-d1d2-d3d4d5d6d7d8'"
    );
    assert_eq!(py_to_sql_literal(&HostParam::Bytes(vec![0xde, 0xad, 0x01])), "0xDEAD01");
    assert_eq!(py_to_sql_literal(&HostParam::Bytes(vec![])), "0x");
}

#[test]
fn decode_scalars_pass_through() {
    assert_eq!(compact_value_to_py(CompactValue::Null), HostValue::Null);
    assert_eq!(compact_value_to_py(CompactValue::Bool(true)), HostValue::Bool(true));
    assert_eq!(compact_value_to_py(CompactValue::I64(-3)), HostValue::Int(-3));
    assert_eq!(
        compact_value_to_py(CompactValue::F64(1.5f64.to_bits())),
        HostValue::Float(1.5f64.to_bits())
    );
    assert_eq!(
        compact_value_to_py(CompactValue::Str("x".to_string())),
        HostValue::Text("x".to_string())
    );
    assert_eq!(
        compact_value_to_py(CompactValue::Bytes(vec![1, 2])),
        HostValue::Bytes(vec![1, 2])
    );
}

#[test]
fn decode_guid_and_decimal() {
    assert_eq!(
        compact_value_to_py(CompactValue::Guid(GUID)),
        HostValue::Uuid("a1a2a3a4-b1b2-c1c2-d1d2-d3d4d5d6d7d8".to_string())
    );
    assert_eq!(
        compact_value_to_py(CompactValue::Decimal(12345, 10, 2)),
        HostValue::Decimal("123.45".to_string())
    );
    assert_eq!(
        compact_value_to_py(CompactValue::Decimal(-5, 10, 3)),
        HostValue::Decimal("-0.005".to_string())
    );
}

#[test]
fn decode_calendar_values() {
    assert_eq!(
        compact_value_to_py(CompactValue::Date(11016)),
        HostValue::Date { year: 2000, month: 2, day: 29 }
    );
    assert_eq!(
        compact_value_to_py(CompactValue::Time(3_723_000_004_000)),
        HostValue::Time { hour: 1, minute: 2, second: 3, microsecond: 4 }
    );
    assert_eq!(
        compact_value_to_py(CompactValue::DateTime(-1)),
        HostValue::DateTime {
            year: 1969,
            month: 12,
            day: 31,
            hour: 23,
            minute: 59,
            second: 59,
            microsecond: 999_999,
        }
    );
}

#[test]
fn decode_datetimeoffset_shifts_to_local_time() {
    assert_eq!(
        compact_value_to_py(CompactValue::DateTimeOffset(0, 90)),
        HostValue::DateTimeOffset {
            year: 1970,
            month: 1,
            day: 1,
            hour: 1,
            minute: 30,
            second: 0,
            microsecond: 0,
            offset_seconds: 5400,
        }
    );
    assert_eq!(
        compact_value_to_py(CompactValue::DateTimeOffset(0, -60)),
        HostValue::DateTimeOffset {
            year: 1969,
            month: 12,
            day: 31,
            hour: 23,
            minute: 0,
            second: 0,
            microsecond: 0,
            offset_seconds: -3600,
        }
    );
}

fn is_leap(y: i64) -> bool {
    (y % 4 == 0 && y % 100 != 0) || y % 400 == 0
}

fn next_date((y, m, d): (i64, u32, u32)) -> (i64, u32, u32) {
    let len = match m {
        2 => {
            if is_leap(y) {
                29
            } else {
                28
            }
        }
        4 | 6 | 9 | 11 => 30,
        _ => 31,
    };
    if d < len {
        (y, m, d + 1)
    } else if m < 12 {
        (y, m + 1, 1)
    } else {
        (y + 1, 1, 1)
    }
}

#[test]
fn consecutive_day_numbers_are_consecutive_dates() {
    let mut date = days_to_civil(-800_000);
    for day in -800_000i64..800_000 {
        let next = days_to_civil(day + 1);
        assert_eq!(next, next_date(date));
        date = next;
    }
}
