//! Calendar arithmetic on plain integer tuples.
//!
//! Conversions between a signed day count from the Unix epoch (Rata Die),
//! proleptic Gregorian civil dates, weekdays, ISO 8601 week-dates, and
//! epoch-relative clock times. Every conversion is a pure function over
//! value tuples; every contract is stated against the mathematical model
//! in the `model` module and proved.

pub mod consts;
mod model;
mod era;
mod gregorian;
mod laws;
mod week;
mod clock;
mod instant;

pub use model::{
    YEAR_MIN, YEAR_MAX, RD_MIN, RD_MAX, RD_SECONDS_MIN, RD_SECONDS_MAX,
    leap_year, month_length, valid_date, month_days_before, year_days_before,
    shifted_year, shifted_month, rd_of, date_of, weekday_of,
    iso_year_of, iso_week_of, rd_of_isoweekdate, iso_weeks_in_year, valid_isoweekdate,
    days_of_secs, hour_of_secs, minute_of_secs, second_of_secs, secs_of_dhms,
    valid_dhms, valid_time, valid_secs,
};
pub use gregorian::{date_to_rd, rd_to_date, is_leap_year, days_in_month};
pub use week::{
    rd_to_weekday, date_to_weekday, rd_to_isoweekdate, isoweekdate_to_rd,
    date_to_isoweekdate, isoweekdate_to_date, isoweeks_in_year,
};
pub use clock::{secs_to_dhms, dhms_to_secs, secs_to_datetime, datetime_to_secs};
pub use instant::{
    SystemTime, systemtime_to_secs, secs_to_systemtime, systemtime_to_datetime,
    datetime_to_systemtime,
};
pub use laws::{
    lemma_rd_to_date_to_rd, lemma_date_to_rd_to_date, lemma_rd_to_isoweekdate_to_rd,
    lemma_isoweekdate_to_rd_to_isoweekdate, lemma_iso_week_in_year, lemma_dhms_to_secs_to_dhms,
    lemma_secs_to_dhms_to_secs, lemma_secs_to_systemtime_to_secs, lemma_systemtime_unique,
};
