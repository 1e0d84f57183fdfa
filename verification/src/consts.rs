//! Named bounds and calendar numbers, offered for caller readability.
//!
//! The conversions themselves take and return plain integers; these
//! constants only name the values their contracts speak of.

use vstd::prelude::*;

verus! {

/// Minimum value for month
pub const MONTH_MIN: u8 = 1;

/// Maximum value for month
pub const MONTH_MAX: u8 = 12;

/// Minimum value for day of month
pub const DAY_MIN: u8 = 1;

/// Maximum value for day of month
pub const DAY_MAX: u8 = 31;

/// Minimum value for day of week
pub const WEEKDAY_MIN: u8 = 1;

/// Maximum value for day of week
pub const WEEKDAY_MAX: u8 = 7;

/// Minimum value for hours
pub const HOUR_MIN: u8 = 0;

/// Maximum value for hours
pub const HOUR_MAX: u8 = 23;

/// Minimum value for minutes
pub const MINUTE_MIN: u8 = 0;

/// Maximum value for minutes
pub const MINUTE_MAX: u8 = 59;

/// Minimum value for seconds
pub const SECOND_MIN: u8 = 0;

/// Maximum value for seconds
pub const SECOND_MAX: u8 = 59;

/// Minimum value for nanoseconds
pub const NANOSECOND_MIN: u32 = 0;

/// Maximum value for nanoseconds
pub const NANOSECOND_MAX: u32 = 999999999;

/// January month value
pub const JANUARY: u32 = 1;

/// February month value
pub const FEBRUARY: u32 = 2;

/// March month value
pub const MARCH: u32 = 3;

/// April month value
pub const APRIL: u32 = 4;

/// May month value
pub const MAY: u32 = 5;

/// June month value
pub const JUNE: u32 = 6;

/// July month value
pub const JULY: u32 = 7;

/// August month value
pub const AUGUST: u32 = 8;

/// September month value
pub const SEPTEMBER: u32 = 9;

/// October month value
pub const OCTOBER: u32 = 10;

/// November month value
pub const NOVEMBER: u32 = 11;

/// December month value
pub const DECEMBER: u32 = 12;

/// Monday day of week value
pub const MONDAY: u32 = 1;

/// Tuesday day of week value
pub const TUESDAY: u32 = 2;

/// Wednesday day of week value
pub const WEDNESDAY: u32 = 3;

/// Thursday day of week value
pub const THURSDAY: u32 = 4;

/// Friday day of week value
pub const FRIDAY: u32 = 5;

/// Saturday day of week value
pub const SATURDAY: u32 = 6;

/// Sunday day of week value
pub const SUNDAY: u32 = 7;

} // verus!
