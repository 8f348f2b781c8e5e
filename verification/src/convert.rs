//! From a column's type name and the value read from it to a [`PostcardValue`].

use crate::render::BASE64_INPUT_MAX;
use crate::render::ClockTime;
use crate::render::JULIAN_DAY_MAX;
use crate::render::JULIAN_DAY_MIN;
use crate::render::base64_encode;
use crate::render::base64_text;
use crate::render::date_display;
use crate::render::date_text;
use crate::render::decimal_display;
use crate::render::decimal_text;
use crate::render::decimal_valid;
use crate::render::julian_day_valid;
use crate::render::time_display;
use crate::render::time_text;
use crate::render::timestamp_display;
use crate::render::timestamp_text;
use crate::render::timestamptz_display;
use crate::render::timestamptz_text;
use crate::render::uuid_display;
use crate::render::uuid_text;
use crate::text::text_eq;
use crate::value::PostcardValue;
use crate::value::Tree;
use vstd::prelude::*;

verus! {

/// What was read from one column of one row, before it is given a place in
/// the value model.
///
/// Floating-point numbers are held as their IEEE 754 bit patterns, dates as
/// Julian days, a decimal number as its unscaled digits and its scale
/// (`mantissa / 10^scale`), a UUID as its 128-bit value. A time stamp with
/// time zone is held at offset UTC.
#[derive(Debug, PartialEq, Eq)]
pub enum RawValue {
    Bool(bool),
    Char(i8),
    SmallInt(i16),
    Int(i32),
    BigInt(i64),
    Real(u32),
    Double(u64),
    Text(String),
    Bytes(Vec<u8>),
    Timestamp { julian_day: i32, clock: ClockTime },
    TimestampTz { julian_day: i32, clock: ClockTime },
    Date { julian_day: i32 },
    Time(ClockTime),
    Numeric { mantissa: i128, scale: u32 },
    Uuid(u128),
    /// Nothing was read: the column has no value to give.
    Void,
}

/// The families of column types that are told apart.
#[derive(Debug, Clone, Copy, PartialEq, Eq)]
pub enum ColumnKind {
    Bool,
    Char,
    SmallInt,
    Int,
    BigInt,
    Real,
    Double,
    Text,
    Bytes,
    Void,
    Timestamp,
    TimestampTz,
    Date,
    Time,
    Numeric,
    Uuid,
    Unknown,
}

/// The family that a column type name belongs to. Names are compared as
/// they are, letter for letter.
pub open spec fn column_kind(name: Seq<char>) -> ColumnKind {
    if name == "BOOL"@ {
        ColumnKind::Bool
    } else if name == "\"CHAR\""@ {
        ColumnKind::Char
    } else if name == "SMALLINT"@ || name == "SMALLSERIAL"@ || name == "INT2"@ {
        ColumnKind::SmallInt
    } else if name == "INT"@ || name == "SERIAL"@ || name == "INT4"@ {
        ColumnKind::Int
    } else if name == "INT8"@ || name == "BIGSERIAL"@ || name == "BIGINT"@ {
        ColumnKind::BigInt
    } else if name == "REAL"@ || name == "FLOAT4"@ {
        ColumnKind::Real
    } else if name == "DOUBLE PRECISION"@ || name == "FLOAT8"@ {
        ColumnKind::Double
    } else if name == "VARCHAR"@ || name == "CHAR(N)"@ || name == "TEXT"@ || name == "NAME"@
        || name == "CITEXT"@ {
        ColumnKind::Text
    } else if name == "BYTEA"@ {
        ColumnKind::Bytes
    } else if name == "VOID"@ {
        ColumnKind::Void
    } else if name == "TIMESTAMP"@ {
        ColumnKind::Timestamp
    } else if name == "TIMESTAMPTZ"@ {
        ColumnKind::TimestampTz
    } else if name == "DATE"@ {
        ColumnKind::Date
    } else if name == "TIME"@ {
        ColumnKind::Time
    } else if name == "NUMERIC"@ {
        ColumnKind::Numeric
    } else if name == "UUID"@ {
        ColumnKind::Uuid
    } else {
        ColumnKind::Unknown
    }
}

/// Finds the family of a column type name.
pub fn classify(name: &str) -> (kind: ColumnKind)
    ensures
        kind == column_kind(name@),
{
    if text_eq(name, "BOOL") {
        ColumnKind::Bool
    } else if text_eq(name, "\"CHAR\"") {
        ColumnKind::Char
    } else if text_eq(name, "SMALLINT") || text_eq(name, "SMALLSERIAL") || text_eq(name, "INT2") {
        ColumnKind::SmallInt
    } else if text_eq(name, "INT") || text_eq(name, "SERIAL") || text_eq(name, "INT4") {
        ColumnKind::Int
    } else if text_eq(name, "INT8") || text_eq(name, "BIGSERIAL") || text_eq(name, "BIGINT") {
        ColumnKind::BigInt
    } else if text_eq(name, "REAL") || text_eq(name, "FLOAT4") {
        ColumnKind::Real
    } else if text_eq(name, "DOUBLE PRECISION") || text_eq(name, "FLOAT8") {
        ColumnKind::Double
    } else if text_eq(name, "VARCHAR") || text_eq(name, "CHAR(N)") || text_eq(name, "TEXT")
        || text_eq(name, "NAME") || text_eq(name, "CITEXT") {
        ColumnKind::Text
    } else if text_eq(name, "BYTEA") {
        ColumnKind::Bytes
    } else if text_eq(name, "VOID") {
        ColumnKind::Void
    } else if text_eq(name, "TIMESTAMP") {
        ColumnKind::Timestamp
    } else if text_eq(name, "TIMESTAMPTZ") {
        ColumnKind::TimestampTz
    } else if text_eq(name, "DATE") {
        ColumnKind::Date
    } else if text_eq(name, "TIME") {
        ColumnKind::Time
    } else if text_eq(name, "NUMERIC") {
        ColumnKind::Numeric
    } else if text_eq(name, "UUID") {
        ColumnKind::Uuid
    } else {
        ColumnKind::Unknown
    }
}

/// Whether a 32-bit pattern is a finite number: neither an infinity nor a
/// NaN, whose exponent bits are all set.
pub open spec fn real_is_finite(bits: u32) -> bool {
    (bits >> 23) & 0xff != 0xff
}

/// Whether a 64-bit pattern is a finite number: neither an infinity nor a
/// NaN, whose exponent bits are all set.
pub open spec fn double_is_finite(bits: u64) -> bool {
    (bits >> 52) & 0x7ff != 0x7ff
}

/// The value that a column of family `kind` gives for what was read from it.
///
/// A column of an unknown family gives `Null`; so does a value that is not
/// of the column's family, a number that is not finite, a date, time or
/// decimal number outside the range that has a text form, and a byte string
/// longer than [`BASE64_INPUT_MAX`].
pub open spec fn converted_kind(kind: ColumnKind, raw: RawValue) -> Tree {
    match (kind, raw) {
        (ColumnKind::Bool, RawValue::Bool(b)) => Tree::Bool(b),
        (ColumnKind::Char, RawValue::Char(x)) => Tree::Integer8(x),
        (ColumnKind::SmallInt, RawValue::SmallInt(x)) => Tree::Integer16(x),
        (ColumnKind::Int, RawValue::Int(x)) => Tree::Integer32(x),
        (ColumnKind::BigInt, RawValue::BigInt(x)) => Tree::Integer64(x),
        (ColumnKind::Real, RawValue::Real(bits)) => if real_is_finite(bits) {
            Tree::Float32(bits)
        } else {
            Tree::Null
        },
        (ColumnKind::Double, RawValue::Double(bits)) => if double_is_finite(bits) {
            Tree::Float64(bits)
        } else {
            Tree::Null
        },
        (ColumnKind::Text, RawValue::Text(s)) => Tree::String(s@),
        (ColumnKind::Bytes, RawValue::Bytes(bytes)) => if bytes@.len() <= BASE64_INPUT_MAX {
            Tree::String(base64_text(bytes@))
        } else {
            Tree::Null
        },
        (ColumnKind::Timestamp, RawValue::Timestamp { julian_day, clock }) => if julian_day_valid(
            julian_day,
        ) && clock.valid() {
            Tree::String(
                timestamp_text(
                    julian_day,
                    clock.hour,
                    clock.minute,
                    clock.second,
                    clock.nanosecond,
                ),
            )
        } else {
            Tree::Null
        },
        (ColumnKind::TimestampTz, RawValue::TimestampTz { julian_day, clock }) => if julian_day_valid(
            julian_day,
        ) && clock.valid() {
            Tree::String(
                timestamptz_text(
                    julian_day,
                    clock.hour,
                    clock.minute,
                    clock.second,
                    clock.nanosecond,
                ),
            )
        } else {
            Tree::Null
        },
        (ColumnKind::Date, RawValue::Date { julian_day }) => if julian_day_valid(julian_day) {
            Tree::String(date_text(julian_day))
        } else {
            Tree::Null
        },
        (ColumnKind::Time, RawValue::Time(clock)) => if clock.valid() {
            Tree::String(time_text(clock.hour, clock.minute, clock.second, clock.nanosecond))
        } else {
            Tree::Null
        },
        (ColumnKind::Numeric, RawValue::Numeric { mantissa, scale }) => if decimal_valid(
            mantissa,
            scale,
        ) {
            Tree::String(decimal_text(mantissa, scale))
        } else {
            Tree::Null
        },
        (ColumnKind::Uuid, RawValue::Uuid(value)) => Tree::String(uuid_text(value)),
        _ => Tree::Null,
    }
}

/// The value that a column whose type is called `column_type` gives for what
/// was read from it.
pub open spec fn converted(column_type: Seq<char>, raw: RawValue) -> Tree {
    converted_kind(column_kind(column_type), raw)
}

/// A text, or `Null` where there is none.
fn text_or_null(text: Option<String>) -> (value: PostcardValue)
    ensures
        value@ == match text {
            Some(t) => Tree::String(t@),
            None => Tree::Null,
        },
{
    match text {
        Some(t) => PostcardValue::String(t),
        None => PostcardValue::Null,
    }
}

/// Tests [`julian_day_valid`].
fn julian_day_is_valid(julian_day: i32) -> (ok: bool)
    ensures
        ok == julian_day_valid(julian_day),
{
    JULIAN_DAY_MIN <= julian_day && julian_day <= JULIAN_DAY_MAX
}

/// Converts what was read from a column of family `kind`.
pub fn convert_kind(kind: ColumnKind, raw: &RawValue) -> (value: PostcardValue)
    ensures
        value@ == converted_kind(kind, *raw),
{
    match (kind, raw) {
        (ColumnKind::Bool, RawValue::Bool(b)) => PostcardValue::Bool(*b),
        (ColumnKind::Char, RawValue::Char(x)) => PostcardValue::Integer8(*x),
        (ColumnKind::SmallInt, RawValue::SmallInt(x)) => PostcardValue::Integer16(*x),
        (ColumnKind::Int, RawValue::Int(x)) => PostcardValue::Integer32(*x),
        (ColumnKind::BigInt, RawValue::BigInt(x)) => PostcardValue::Integer64(*x),
        (ColumnKind::Real, RawValue::Real(bits)) => {
            if (*bits >> 23) & 0xff != 0xff {
                PostcardValue::Float32(*bits)
            } else {
                PostcardValue::Null
            }
        },
        (ColumnKind::Double, RawValue::Double(bits)) => {
            if (*bits >> 52) & 0x7ff != 0x7ff {
                PostcardValue::Float64(*bits)
            } else {
                PostcardValue::Null
            }
        },
        (ColumnKind::Text, RawValue::Text(s)) => PostcardValue::String(s.clone()),
        (ColumnKind::Bytes, RawValue::Bytes(bytes)) => {
            if bytes.len() <= BASE64_INPUT_MAX {
                PostcardValue::String(base64_encode(bytes.as_slice()))
            } else {
                PostcardValue::Null
            }
        },
        (ColumnKind::Timestamp, RawValue::Timestamp { julian_day, clock }) => {
            if julian_day_is_valid(*julian_day) && clock.is_valid() {
                text_or_null(timestamp_display(*julian_day, *clock))
            } else {
                PostcardValue::Null
            }
        },
        (ColumnKind::TimestampTz, RawValue::TimestampTz { julian_day, clock }) => {
            if julian_day_is_valid(*julian_day) && clock.is_valid() {
                text_or_null(timestamptz_display(*julian_day, *clock))
            } else {
                PostcardValue::Null
            }
        },
        (ColumnKind::Date, RawValue::Date { julian_day }) => {
            if julian_day_is_valid(*julian_day) {
                text_or_null(date_display(*julian_day))
            } else {
                PostcardValue::Null
            }
        },
        (ColumnKind::Time, RawValue::Time(clock)) => text_or_null(time_display(*clock)),
        (ColumnKind::Numeric, RawValue::Numeric { mantissa, scale }) => text_or_null(
            decimal_display(*mantissa, *scale),
        ),
        (ColumnKind::Uuid, RawValue::Uuid(value)) => PostcardValue::String(uuid_display(*value)),
        _ => PostcardValue::Null,
    }
}

/// Converts what was read from a column whose type is called `column_type`.
///
/// The families and what each gives:
/// `BOOL` a `Bool`; `"CHAR"` an `Integer8`; `SMALLINT`, `SMALLSERIAL`, `INT2`
/// an `Integer16`; `INT`, `SERIAL`, `INT4` an `Integer32`; `INT8`,
/// `BIGSERIAL`, `BIGINT` an `Integer64`; `REAL`, `FLOAT4` a `Float32` and
/// `DOUBLE PRECISION`, `FLOAT8` a `Float64`, or `Null` for a number that is
/// not finite; `VARCHAR`, `CHAR(N)`, `TEXT`, `NAME`, `CITEXT` a `String`;
/// `BYTEA` the base64 text of the bytes; `TIMESTAMP`, `TIMESTAMPTZ`, `DATE`,
/// `TIME`, `NUMERIC`, `UUID` the text form of the value; `VOID` and every
/// other name `Null`.
pub fn convert_row_val_to_serde(column_type: &str, raw: &RawValue) -> (value: PostcardValue)
    ensures
        value@ == converted(column_type@, *raw),
{
    convert_kind(classify(column_type), raw)
}

} // verus!
