use pledge::convert::classify;
use pledge::convert::convert_row_val_to_serde;
use pledge::convert::ColumnKind;
use pledge::convert::RawValue;
use pledge::render::ClockTime;
use pledge::render::BASE64_INPUT_MAX;
use pledge::render::JULIAN_DAY_MAX;
use pledge::render::JULIAN_DAY_MIN;
use pledge::value::PostcardValue;

fn text(s: &str) -> PostcardValue {
    PostcardValue::String(s.to_string())
}

fn noon() -> ClockTime {
    ClockTime { hour: 12, minute: 0, second: 0, nanosecond: 0 }
}

#[test]
fn bool_column_gives_bool() {
    assert_eq!(convert_row_val_to_serde("BOOL", &RawValue::Bool(true)), PostcardValue::Bool(true));
    assert_eq!(
        convert_row_val_to_serde("BOOL", &RawValue::Bool(false)),
        PostcardValue::Bool(false)
    );
}

#[test]
fn quoted_char_column_gives_integer8() {
    assert_eq!(
        convert_row_val_to_serde("\"CHAR\"", &RawValue::Char(-7)),
        PostcardValue::Integer8(-7)
    );
}

#[test]
fn small_integer_columns_give_integer16() {
    for name in ["SMALLINT", "SMALLSERIAL", "INT2"] {
        assert_eq!(
            convert_row_val_to_serde(name, &RawValue::SmallInt(-300)),
            PostcardValue::Integer16(-300)
        );
    }
}

#[test]
fn integer_columns_give_integer32() {
    for name in ["INT", "SERIAL", "INT4"] {
        assert_eq!(
            convert_row_val_to_serde(name, &RawValue::Int(70_000)),
            PostcardValue::Integer32(70_000)
        );
    }
}

#[test]
fn big_integer_columns_give_integer64() {
    for name in ["INT8", "BIGSERIAL", "BIGINT"] {
        assert_eq!(
            convert_row_val_to_serde(name, &RawValue::BigInt(i64::MIN)),
            PostcardValue::Integer64(i64::MIN)
        );
    }
}

#[test]
fn real_columns_give_float32() {
    for name in ["REAL", "FLOAT4"] {
        assert_eq!(
            convert_row_val_to_serde(name, &RawValue::Real(1.5f32.to_bits())),
            PostcardValue::Float32(1.5f32.to_bits())
        );
        assert_eq!(
            convert_row_val_to_serde(name, &RawValue::Real((-0.0f32).to_bits())),
            PostcardValue::Float32((-0.0f32).to_bits())
        );
        assert_eq!(
            convert_row_val_to_serde(name, &RawValue::Real(f32::MAX.to_bits())),
            PostcardValue::Float32(f32::MAX.to_bits())
        );
    }
}

#[test]
fn real_that_is_not_finite_gives_null() {
    for bits in [
        f32::NAN.to_bits(),
        f32::INFINITY.to_bits(),
        f32::NEG_INFINITY.to_bits(),
        0x7f80_0001,
        0xffff_ffff,
    ] {
        assert_eq!(convert_row_val_to_serde("REAL", &RawValue::Real(bits)), PostcardValue::Null);
    }
}

#[test]
fn double_columns_give_float64() {
    for name in ["DOUBLE PRECISION", "FLOAT8"] {
        assert_eq!(
            convert_row_val_to_serde(name, &RawValue::Double(2.25f64.to_bits())),
            PostcardValue::Float64(2.25f64.to_bits())
        );
        assert_eq!(
            convert_row_val_to_serde(name, &RawValue::Double(f64::MIN_POSITIVE.to_bits())),
            PostcardValue::Float64(f64::MIN_POSITIVE.to_bits())
        );
    }
}

#[test]
fn double_that_is_not_finite_gives_null() {
    for bits in [
        f64::NAN.to_bits(),
        f64::INFINITY.to_bits(),
        f64::NEG_INFINITY.to_bits(),
        0x7ff0_0000_0000_0001,
    ] {
        assert_eq!(
            convert_row_val_to_serde("FLOAT8", &RawValue::Double(bits)),
            PostcardValue::Null
        );
    }
}

#[test]
fn text_columns_give_string() {
    for name in ["VARCHAR", "CHAR(N)", "TEXT", "NAME", "CITEXT"] {
        assert_eq!(
            convert_row_val_to_serde(name, &RawValue::Text("gr\u{fc}n".to_string())),
            text("gr\u{fc}n")
        );
    }
}

#[test]
fn bytea_becomes_base64_text() {
    let raw = RawValue::Bytes(b"hello".to_vec());
    assert_eq!(convert_row_val_to_serde("BYTEA", &raw), text("aGVsbG8="));
    assert_eq!(convert_row_val_to_serde("BYTEA", &RawValue::Bytes(Vec::new())), text(""));
    assert_eq!(
        convert_row_val_to_serde("BYTEA", &RawValue::Bytes(vec![0xfb, 0xff])),
        text("+/8=")
    );
}

#[test]
fn base64_bound_leaves_room_for_the_output() {
    let output = (BASE64_INPUT_MAX as u64 / 3) * 4 + 4;
    assert!(output <= i32::MAX as u64);
}

#[test]
fn void_column_gives_null() {
    assert_eq!(convert_row_val_to_serde("VOID", &RawValue::Void), PostcardValue::Null);
    assert_eq!(convert_row_val_to_serde("VOID", &RawValue::Int(1)), PostcardValue::Null);
}

#[test]
fn uuid_becomes_hyphenated_text() {
    let raw = RawValue::Uuid(0x67e55044_10b1_426f_9247_bb680e5fe0c8);
    assert_eq!(
        convert_row_val_to_serde("UUID", &raw),
        text("67e55044-10b1-426f-9247-bb680e5fe0c8")
    );
    assert_eq!(
        convert_row_val_to_serde("UUID", &RawValue::Uuid(0)),
        text("00000000-0000-0000-0000-000000000000")
    );
}

#[test]
fn numeric_becomes_exact_decimal_text() {
    let raw = RawValue::Numeric { mantissa: 3141, scale: 3 };
    assert_eq!(convert_row_val_to_serde("NUMERIC", &raw), text("3.141"));
    assert_eq!(
        convert_row_val_to_serde("NUMERIC", &RawValue::Numeric { mantissa: -5, scale: 3 }),
        text("-0.005")
    );
    assert_eq!(
        convert_row_val_to_serde(
            "NUMERIC",
            &RawValue::Numeric { mantissa: 79_228_162_514_264_337_593_543_950_335, scale: 0 }
        ),
        text("79228162514264337593543950335")
    );
    assert_eq!(
        convert_row_val_to_serde(
            "NUMERIC",
            &RawValue::Numeric { mantissa: 10_000_000_000_000_000_000_000_000_001, scale: 28 }
        ),
        text("1.0000000000000000000000000001")
    );
}

#[test]
fn numeric_out_of_range_gives_null() {
    assert_eq!(
        convert_row_val_to_serde("NUMERIC", &RawValue::Numeric { mantissa: 1, scale: 29 }),
        PostcardValue::Null
    );
    assert_eq!(
        convert_row_val_to_serde(
            "NUMERIC",
            &RawValue::Numeric { mantissa: 79_228_162_514_264_337_593_543_950_336, scale: 0 }
        ),
        PostcardValue::Null
    );
    assert_eq!(
        convert_row_val_to_serde(
            "NUMERIC",
            &RawValue::Numeric { mantissa: -79_228_162_514_264_337_593_543_950_336, scale: 0 }
        ),
        PostcardValue::Null
    );
}

#[test]
fn date_and_time_become_text() {
    let clock = ClockTime { hour: 1, minute: 2, second: 3, nanosecond: 4_000 };
    assert_eq!(
        convert_row_val_to_serde("DATE", &RawValue::Date { julian_day: 2_451_545 }),
        text("2000-01-01")
    );
    assert_eq!(convert_row_val_to_serde("TIME", &RawValue::Time(clock)), text("1:02:03.000004"));
    assert_eq!(
        convert_row_val_to_serde("TIMESTAMP", &RawValue::Timestamp { julian_day: 2_451_545, clock }),
        text("2000-01-01 1:02:03.000004")
    );
    assert_eq!(
        convert_row_val_to_serde(
            "TIMESTAMPTZ",
            &RawValue::TimestampTz { julian_day: 2_451_545, clock }
        ),
        text("2000-01-01 1:02:03.000004 +00:00:00")
    );
}

#[test]
fn first_and_last_day_have_a_text() {
    assert_eq!(
        convert_row_val_to_serde("DATE", &RawValue::Date { julian_day: JULIAN_DAY_MIN }),
        text("-9999-01-01")
    );
    assert_eq!(
        convert_row_val_to_serde("DATE", &RawValue::Date { julian_day: JULIAN_DAY_MAX }),
        text("9999-12-31")
    );
    assert_eq!(
        convert_row_val_to_serde(
            "TIMESTAMP",
            &RawValue::Timestamp { julian_day: JULIAN_DAY_MAX, clock: noon() }
        ),
        text("9999-12-31 12:00:00.0")
    );
}

#[test]
fn day_out_of_range_gives_null() {
    for julian_day in [JULIAN_DAY_MIN - 1, JULIAN_DAY_MAX + 1, i32::MIN, i32::MAX] {
        assert_eq!(
            convert_row_val_to_serde("DATE", &RawValue::Date { julian_day }),
            PostcardValue::Null
        );
        assert_eq!(
            convert_row_val_to_serde(
                "TIMESTAMP",
                &RawValue::Timestamp { julian_day, clock: noon() }
            ),
            PostcardValue::Null
        );
        assert_eq!(
            convert_row_val_to_serde(
                "TIMESTAMPTZ",
                &RawValue::TimestampTz { julian_day, clock: noon() }
            ),
            PostcardValue::Null
        );
    }
}

#[test]
fn time_out_of_range_gives_null() {
    let bad = [
        ClockTime { hour: 24, minute: 0, second: 0, nanosecond: 0 },
        ClockTime { hour: 0, minute: 60, second: 0, nanosecond: 0 },
        ClockTime { hour: 0, minute: 0, second: 60, nanosecond: 0 },
        ClockTime { hour: 0, minute: 0, second: 0, nanosecond: 1_000_000_000 },
    ];
    for clock in bad {
        assert!(!clock.is_valid());
        assert_eq!(convert_row_val_to_serde("TIME", &RawValue::Time(clock)), PostcardValue::Null);
        assert_eq!(
            convert_row_val_to_serde(
                "TIMESTAMP",
                &RawValue::Timestamp { julian_day: 2_451_545, clock }
            ),
            PostcardValue::Null
        );
        assert_eq!(
            convert_row_val_to_serde(
                "TIMESTAMPTZ",
                &RawValue::TimestampTz { julian_day: 2_451_545, clock }
            ),
            PostcardValue::Null
        );
    }
    let last = ClockTime { hour: 23, minute: 59, second: 59, nanosecond: 999_999_999 };
    assert!(last.is_valid());
    assert_eq!(
        convert_row_val_to_serde("TIME", &RawValue::Time(last)),
        text("23:59:59.999999999")
    );
}

#[test]
fn unknown_column_type_gives_null() {
    for name in ["JSONB", "bool", "Bool", " BOOL", "BOOL ", "", "INT4[]", "CHAR", "MONEY"] {
        assert_eq!(classify(name), ColumnKind::Unknown);
        assert_eq!(convert_row_val_to_serde(name, &RawValue::Bool(true)), PostcardValue::Null);
        assert_eq!(
            convert_row_val_to_serde(name, &RawValue::Text("x".to_string())),
            PostcardValue::Null
        );
    }
}

#[test]
fn value_of_another_family_gives_null() {
    assert_eq!(convert_row_val_to_serde("BOOL", &RawValue::Int(1)), PostcardValue::Null);
    assert_eq!(convert_row_val_to_serde("INT4", &RawValue::BigInt(1)), PostcardValue::Null);
    assert_eq!(
        convert_row_val_to_serde("TEXT", &RawValue::Bytes(b"x".to_vec())),
        PostcardValue::Null
    );
    assert_eq!(
        convert_row_val_to_serde("TIMESTAMP", &RawValue::Date { julian_day: 2_451_545 }),
        PostcardValue::Null
    );
    assert_eq!(convert_row_val_to_serde("UUID", &RawValue::Void), PostcardValue::Null);
}

#[test]
fn every_name_of_the_table_has_its_family() {
    let table = [
        ("BOOL", ColumnKind::Bool),
        ("\"CHAR\"", ColumnKind::Char),
        ("SMALLINT", ColumnKind::SmallInt),
        ("SMALLSERIAL", ColumnKind::SmallInt),
        ("INT2", ColumnKind::SmallInt),
        ("INT", ColumnKind::Int),
        ("SERIAL", ColumnKind::Int),
        ("INT4", ColumnKind::Int),
        ("INT8", ColumnKind::BigInt),
        ("BIGSERIAL", ColumnKind::BigInt),
        ("BIGINT", ColumnKind::BigInt),
        ("REAL", ColumnKind::Real),
        ("FLOAT4", ColumnKind::Real),
        ("DOUBLE PRECISION", ColumnKind::Double),
        ("FLOAT8", ColumnKind::Double),
        ("VARCHAR", ColumnKind::Text),
        ("CHAR(N)", ColumnKind::Text),
        ("TEXT", ColumnKind::Text),
        ("NAME", ColumnKind::Text),
        ("CITEXT", ColumnKind::Text),
        ("BYTEA", ColumnKind::Bytes),
        ("VOID", ColumnKind::Void),
        ("TIMESTAMP", ColumnKind::Timestamp),
        ("TIMESTAMPTZ", ColumnKind::TimestampTz),
        ("DATE", ColumnKind::Date),
        ("TIME", ColumnKind::Time),
        ("NUMERIC", ColumnKind::Numeric),
        ("UUID", ColumnKind::Uuid),
    ];
    for (name, kind) in table {
        assert_eq!(classify(name), kind);
    }
}
