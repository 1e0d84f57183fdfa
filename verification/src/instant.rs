//! Wall-clock instants on either side of the Unix epoch.
//!
//! An instant is held as its distance to the epoch: a direction flag and an
//! unsigned `(seconds, nanoseconds)` duration, the shape in which a host
//! clock reports the distance. The conversions below turn that shape into
//! the signed `(seconds, nanoseconds)` pair whose seconds round toward
//! minus infinity, so the nanosecond part is never negative, and back.

use vstd::prelude::*;

use crate::clock::{datetime_to_secs, secs_to_datetime};
use crate::model::{
    date_of, days_of_secs, hour_of_secs, minute_of_secs, rd_of, second_of_secs, secs_of_dhms,
    valid_date, valid_secs, valid_time, RD_SECONDS_MAX, RD_SECONDS_MIN,
};
use vstd::arithmetic::div_mod::{
    lemma_div_is_ordered, lemma_fundamental_div_mod_converse,
};

verus! {

/// A wall-clock instant, as an unsigned duration on one side of the Unix
/// epoch.
#[derive(Clone, Copy, Debug, PartialEq, Eq, Structural)]
pub struct SystemTime {
    /// The instant lies before the epoch.
    pub before_epoch: bool,
    /// Whole seconds of the distance to the epoch.
    pub secs: u64,
    /// Nanoseconds of the distance beyond the whole seconds, 0..=999999999.
    pub nanos: u32,
}

impl SystemTime {
    /// The instant as signed nanoseconds from the epoch: the one number the
    /// conversions' contracts speak of.
    pub open spec fn nanos_from_epoch(self) -> int {
        if self.before_epoch {
            -(self.secs * 1000000000 + self.nanos)
        } else {
            self.secs * 1000000000 + self.nanos
        }
    }

    /// A well-formed instant: the nanosecond part is below one second, and
    /// the epoch itself is never flagged as lying before the epoch, so each
    /// instant has exactly one representation.
    pub open spec fn wf(self) -> bool {
        &&& self.nanos <= 999999999
        &&& (self.before_epoch ==> self.secs + self.nanos > 0)
    }

    /// The Unix epoch.
    pub fn epoch() -> (r: SystemTime)
        ensures
            r.wf(),
            r.nanos_from_epoch() == 0,
    {
        SystemTime { before_epoch: false, secs: 0, nanos: 0 }
    }

    /// The instant `secs` seconds and `nanos` nanoseconds after the epoch.
    pub fn after(secs: u64, nanos: u32) -> (r: SystemTime)
        requires
            nanos <= 999999999,
        ensures
            r.wf(),
            r.nanos_from_epoch() == secs * 1000000000 + nanos,
    {
        SystemTime { before_epoch: false, secs, nanos }
    }

    /// The instant `secs` seconds and `nanos` nanoseconds before the epoch.
    pub fn before(secs: u64, nanos: u32) -> (r: SystemTime)
        requires
            nanos <= 999999999,
        ensures
            r.wf(),
            r.nanos_from_epoch() == -(secs * 1000000000 + nanos),
    {
        if secs == 0 && nanos == 0 {
            SystemTime { before_epoch: false, secs: 0, nanos: 0 }
        } else {
            SystemTime { before_epoch: true, secs, nanos }
        }
    }
}

/// Convert an instant to signed seconds and nanoseconds from the Unix
/// epoch.
///
/// The seconds round toward minus infinity, so the nanosecond part stays
/// in 0..=999999999 on both sides of the epoch: one nanosecond before the
/// epoch is `(-1, 999999999)`. Instants whose distance exceeds the
/// supported day range give `None`.
pub fn systemtime_to_secs(st: SystemTime) -> (r: Option<(i64, u32)>)
    requires
        st.wf(),
    ensures
        ({
            let t = st.nanos_from_epoch();
            if RD_SECONDS_MIN * 1000000000 <= t <= RD_SECONDS_MAX * 1000000000 + 999999999 {
                r matches Some(sn) && sn.0 as int == t / 1000000000 && sn.1 as int == t
                    % 1000000000
            } else {
                r is None
            }
        }),
{
    proof {
        let t: int = st.nanos_from_epoch();
        if !st.before_epoch {
            lemma_fundamental_div_mod_converse(t, 1000000000, st.secs as int, st.nanos as int);
        } else if st.nanos == 0 {
            lemma_fundamental_div_mod_converse(t, 1000000000, -(st.secs as int), 0);
        } else {
            lemma_fundamental_div_mod_converse(
                t,
                1000000000,
                -(st.secs as int) - 1,
                1000000000 - st.nanos as int,
            );
        }
    }
    if !st.before_epoch {
        if st.secs > RD_SECONDS_MAX as u64 {
            None
        } else {
            Some((st.secs as i64, st.nanos))
        }
    } else {
        if st.nanos == 0 {
            if st.secs > (-RD_SECONDS_MIN) as u64 {
                None
            } else {
                Some((-(st.secs as i64), 0))
            }
        } else {
            if st.secs >= (-RD_SECONDS_MIN) as u64 {
                None
            } else {
                Some((-((st.secs + 1) as i64), 1000000000 - st.nanos))
            }
        }
    }
}

/// Convert signed seconds and nanoseconds from the Unix epoch to an
/// instant.
///
/// The mirror image of `systemtime_to_secs`: negative seconds with a
/// nonzero nanosecond part become a duration before the epoch of one more
/// whole second, less the nanoseconds. Pairs outside the supported range
/// give `None`.
pub fn secs_to_systemtime(sn: (i64, u32)) -> (r: Option<SystemTime>)
    ensures
        ({
            if valid_secs(sn.0 as int) && sn.1 <= 999999999 {
                r matches Some(st) && st.wf() && st.nanos_from_epoch() == sn.0 as int
                    * 1000000000 + sn.1
            } else {
                r is None
            }
        }),
{
    let (secs, nsecs) = sn;
    if nsecs > 999999999 {
        None
    } else if secs < RD_SECONDS_MIN || secs > RD_SECONDS_MAX {
        None
    } else if secs >= 0 {
        Some(SystemTime::after(secs as u64, nsecs))
    } else if nsecs > 0 {
        Some(SystemTime::before((-(secs + 1)) as u64, 1000000000 - nsecs))
    } else {
        Some(SystemTime::before((-secs) as u64, 0))
    }
}

/// Convert an instant to a broken-down
/// `(year, month, day, hours, minutes, seconds, nanoseconds)` tuple.
///
/// Instants whose distance exceeds the supported day range give `None`.
pub fn systemtime_to_datetime(st: SystemTime) -> (r: Option<(i32, u8, u8, u8, u8, u8, u32)>)
    requires
        st.wf(),
    ensures
        ({
            let t = st.nanos_from_epoch();
            let secs = t / 1000000000;
            let days = days_of_secs(secs);
            if RD_SECONDS_MIN * 1000000000 <= t <= RD_SECONDS_MAX * 1000000000 + 999999999 {
                r matches Some(dt) && dt.0 as int == date_of(days).0 && dt.1 as int == date_of(
                    days,
                ).1 && dt.2 as int == date_of(days).2 && dt.3 as int == hour_of_secs(secs)
                    && dt.4 as int == minute_of_secs(secs) && dt.5 as int == second_of_secs(secs)
                    && dt.6 as int == t % 1000000000
            } else {
                r is None
            }
        }),
{
    match systemtime_to_secs(st) {
        None => None,
        Some((secs, nsecs)) => {
            proof {
                let t: int = st.nanos_from_epoch();
                lemma_div_is_ordered(RD_SECONDS_MIN * 1000000000, t, 1000000000);
                lemma_div_is_ordered(t, RD_SECONDS_MAX * 1000000000 + 999999999, 1000000000);
                lemma_fundamental_div_mod_converse(
                    RD_SECONDS_MIN * 1000000000,
                    1000000000,
                    RD_SECONDS_MIN as int,
                    0,
                );
                lemma_fundamental_div_mod_converse(
                    RD_SECONDS_MAX * 1000000000 + 999999999,
                    1000000000,
                    RD_SECONDS_MAX as int,
                    999999999,
                );
            }
            let (y, mo, dd, hh, mm, ss) = secs_to_datetime(secs);
            Some((y, mo, dd, hh, mm, ss, nsecs))
        },
    }
}

/// Convert a broken-down
/// `(year, month, day, hours, minutes, seconds, nanoseconds)` tuple to an
/// instant.
///
/// Every valid tuple denotes a representable instant, so the result is
/// always `Some`; the `Option` keeps the shape of the inverse direction.
pub fn datetime_to_systemtime(dt: (i32, u8, u8, u8, u8, u8, u32)) -> (r: Option<SystemTime>)
    requires
        valid_date(dt.0 as int, dt.1 as int, dt.2 as int),
        valid_time(dt.3 as int, dt.4 as int, dt.5 as int),
        dt.6 <= 999999999,
    ensures
        ({
            let secs = secs_of_dhms(
                rd_of(dt.0 as int, dt.1 as int, dt.2 as int),
                dt.3 as int,
                dt.4 as int,
                dt.5 as int,
            );
            r matches Some(st) && st.wf() && st.nanos_from_epoch() == secs * 1000000000 + dt.6
        }),
{
    let (y, mo, dd, hh, mm, ss, ns) = dt;
    let secs = datetime_to_secs((y, mo, dd, hh, mm, ss));
    secs_to_systemtime((secs, ns))
}

} // verus!
