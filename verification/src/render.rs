//! Text forms of column values, as the crates that own those types print
//! them.
//!
//! The functions here that give a text are believed, not proved: the body
//! of each calls into another crate, and its contract names what that call
//! returns and says on which arguments it succeeds.

use base64::Engine;
use vstd::prelude::*;

verus! {

/// The first Julian day that has a text form: the first day of the year -9999.
pub const JULIAN_DAY_MIN: i32 = -1_930_999;

/// The last Julian day that has a text form: the last day of the year 9999.
pub const JULIAN_DAY_MAX: i32 = 5_373_484;

/// The largest number of bytes that is put into base64 text.
///
/// Four output characters stand for three input bytes; up to this length
/// the output length fits a signed 32-bit size, so on every platform.
pub const BASE64_INPUT_MAX: usize = 1_610_612_732;

/// The largest scale of a decimal number.
pub const DECIMAL_SCALE_MAX: u32 = 28;

/// The largest magnitude of the unscaled digits of a decimal number, 2^96 - 1.
pub const DECIMAL_MANTISSA_MAX: i128 = 0xFFFF_FFFF_FFFF_FFFF_FFFF_FFFF;

/// A time of day.
#[derive(Debug, Clone, Copy, PartialEq, Eq)]
pub struct ClockTime {
    pub hour: u8,
    pub minute: u8,
    pub second: u8,
    pub nanosecond: u32,
}

impl ClockTime {
    /// Whether every component is within its range.
    pub open spec fn valid(self) -> bool {
        self.hour < 24 && self.minute < 60 && self.second < 60 && self.nanosecond < 1_000_000_000
    }

    /// Tests [`ClockTime::valid`].
    pub fn is_valid(&self) -> (ok: bool)
        ensures
            ok == self.valid(),
    {
        self.hour < 24 && self.minute < 60 && self.second < 60 && self.nanosecond < 1_000_000_000
    }
}

/// Whether a Julian day is one that has a text form.
pub open spec fn julian_day_valid(julian_day: i32) -> bool {
    JULIAN_DAY_MIN <= julian_day <= JULIAN_DAY_MAX
}

/// Whether unscaled digits and a scale make a decimal number.
pub open spec fn decimal_valid(mantissa: i128, scale: u32) -> bool {
    scale <= DECIMAL_SCALE_MAX && -DECIMAL_MANTISSA_MAX <= mantissa <= DECIMAL_MANTISSA_MAX
}

/// What `base64`'s standard engine (standard alphabet, padded) makes of bytes.
pub uninterp spec fn base64_text(bytes: Seq<u8>) -> Seq<char>;

/// What `uuid` prints for the UUID with this 128-bit value.
pub uninterp spec fn uuid_text(value: u128) -> Seq<char>;

/// What `rust_decimal` prints for `mantissa / 10^scale`.
pub uninterp spec fn decimal_text(mantissa: i128, scale: u32) -> Seq<char>;

/// What `time` prints for the date with this Julian day.
pub uninterp spec fn date_text(julian_day: i32) -> Seq<char>;

/// What `time` prints for this time of day.
pub uninterp spec fn time_text(hour: u8, minute: u8, second: u8, nanosecond: u32) -> Seq<char>;

/// What `time` prints for this date and time of day without an offset.
pub uninterp spec fn timestamp_text(
    julian_day: i32,
    hour: u8,
    minute: u8,
    second: u8,
    nanosecond: u32,
) -> Seq<char>;

/// What `time` prints for this date and time of day at offset UTC.
pub uninterp spec fn timestamptz_text(
    julian_day: i32,
    hour: u8,
    minute: u8,
    second: u8,
    nanosecond: u32,
) -> Seq<char>;

/// Calls `base64::engine::general_purpose::STANDARD.encode`.
///
/// Claims that the text is a function of the bytes. The call panics when the
/// output length overflows, which the bound on the input excludes.
#[verifier::external_body]
pub(crate) fn base64_encode(bytes: &[u8]) -> (text: String)
    requires
        bytes@.len() <= BASE64_INPUT_MAX,
    ensures
        text@ == base64_text(bytes@),
{
    base64::engine::general_purpose::STANDARD.encode(bytes)
}

/// Prints the `uuid::Uuid` that `Uuid::from_u128` makes of the value, with
/// `to_string`.
///
/// Claims that the text is a function of the value.
#[verifier::external_body]
pub(crate) fn uuid_display(value: u128) -> (text: String)
    ensures
        text@ == uuid_text(value),
{
    uuid::Uuid::from_u128(value).to_string()
}

/// Prints the `rust_decimal::Decimal` that
/// `Decimal::try_from_i128_with_scale` makes of the arguments, with
/// `to_string`.
///
/// Claims that the constructor accepts exactly a scale of at most 28 with
/// digits of magnitude at most 2^96 - 1, and that the text is a function of
/// the two arguments.
#[verifier::external_body]
pub(crate) fn decimal_display(mantissa: i128, scale: u32) -> (text: Option<String>)
    ensures
        text is Some <==> decimal_valid(mantissa, scale),
        text matches Some(t) ==> t@ == decimal_text(mantissa, scale),
{
    match rust_decimal::Decimal::try_from_i128_with_scale(mantissa, scale) {
        Ok(number) => Some(number.to_string()),
        Err(_) => None,
    }
}

/// Prints the `time::Date` that `Date::from_julian_day` makes of the day,
/// with `to_string`.
///
/// Claims that every day of the years -9999 to 9999 is accepted, and that the
/// text is a function of the day.
#[verifier::external_body]
pub(crate) fn date_display(julian_day: i32) -> (text: Option<String>)
    ensures
        julian_day_valid(julian_day) ==> text is Some,
        text matches Some(t) ==> t@ == date_text(julian_day),
{
    match time::Date::from_julian_day(julian_day) {
        Ok(date) => Some(date.to_string()),
        Err(_) => None,
    }
}

/// Prints the `time::Time` that `Time::from_hms_nano` makes of the
/// components, with `to_string`.
///
/// Claims that the constructor accepts exactly the components that are in
/// range, and that the text is a function of them.
#[verifier::external_body]
pub(crate) fn time_display(clock: ClockTime) -> (text: Option<String>)
    ensures
        text is Some <==> clock.valid(),
        text matches Some(t) ==> t@ == time_text(
            clock.hour,
            clock.minute,
            clock.second,
            clock.nanosecond,
        ),
{
    match time::Time::from_hms_nano(clock.hour, clock.minute, clock.second, clock.nanosecond) {
        Ok(time) => Some(time.to_string()),
        Err(_) => None,
    }
}

/// Prints a `time::PrimitiveDateTime` with `to_string`: the one that
/// `PrimitiveDateTime::new` makes of a date and a time of day made as in
/// [`date_display`] and [`time_display`].
///
/// Claims success on a valid day with valid components, and that the text is
/// a function of the arguments.
#[verifier::external_body]
pub(crate) fn timestamp_display(julian_day: i32, clock: ClockTime) -> (text: Option<String>)
    ensures
        julian_day_valid(julian_day) && clock.valid() ==> text is Some,
        text matches Some(t) ==> t@ == timestamp_text(
            julian_day,
            clock.hour,
            clock.minute,
            clock.second,
            clock.nanosecond,
        ),
{
    let date = time::Date::from_julian_day(julian_day).ok()?;
    let time =
        time::Time::from_hms_nano(clock.hour, clock.minute, clock.second, clock.nanosecond).ok()?;
    Some(time::PrimitiveDateTime::new(date, time).to_string())
}

/// Prints a `time::OffsetDateTime` with `to_string`: the one that
/// `PrimitiveDateTime::assume_utc` makes of a date and time made as in
/// [`timestamp_display`].
///
/// Claims success on a valid day with valid components, and that the text is
/// a function of the arguments.
#[verifier::external_body]
pub(crate) fn timestamptz_display(julian_day: i32, clock: ClockTime) -> (text: Option<String>)
    ensures
        julian_day_valid(julian_day) && clock.valid() ==> text is Some,
        text matches Some(t) ==> t@ == timestamptz_text(
            julian_day,
            clock.hour,
            clock.minute,
            clock.second,
            clock.nanosecond,
        ),
{
    let date = time::Date::from_julian_day(julian_day).ok()?;
    let time =
        time::Time::from_hms_nano(clock.hour, clock.minute, clock.second, clock.nanosecond).ok()?;
    Some(time::PrimitiveDateTime::new(date, time).assume_utc().to_string())
}

} // verus!
