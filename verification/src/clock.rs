//! The local time, as far as a time specification looks at it.
use chrono::{Datelike, Timelike};
use vstd::prelude::*;

verus! {

/// A minute of the local calendar.
#[derive(Debug, Clone, Copy, PartialEq, Eq, Structural)]
pub struct LocalTime {
    /// 0 to 59
    pub minute: usize,
    /// 0 to 23
    pub hour: usize,
    /// 1 to 31
    pub day_of_month: usize,
    /// 1 (January) to 12 (December)
    pub month: usize,
    /// 0 (Sunday) to 6 (Saturday)
    pub day_of_week: usize,
}

impl LocalTime {
    /// Whether each part is within the calendar.
    pub open spec fn valid(self) -> bool {
        &&& self.minute < 60
        &&& self.hour < 24
        &&& 1 <= self.day_of_month < 32
        &&& 1 <= self.month < 13
        &&& self.day_of_week < 7
    }
}

/// `chrono::Local::now`, and the parts of its result as `minute`, `hour`, `day`, `month` and
/// `weekday().num_days_from_sunday()` give them. Each part is within the range that `chrono`
/// documents. Which minute it is depends on the clock and the time zone of the machine, so nothing
/// more is claimed. `chrono` has no time to give, and panics, on a machine whose clock stands
/// before 1970, whose zone data yields no local time, or whose zone is a day or more away from
/// universal time.
#[verifier::external_body]
pub(crate) fn local_now() -> (now: LocalTime)
    ensures
        now.valid(),
{
    let now = chrono::Local::now();
    LocalTime {
        minute: now.minute() as usize,
        hour: now.hour() as usize,
        day_of_month: now.day() as usize,
        month: now.month() as usize,
        day_of_week: now.weekday().num_days_from_sunday() as usize,
    }
}

/// The calendar: 60 minutes from 0, 24 hours from 0, 31 days and 12 months from 1, and 7 days of the
/// week from 0.
pub proof fn law_calendar(time: LocalTime)
    ensures
        time.valid() <==> time.minute <= 59 && time.hour <= 23 && 1 <= time.day_of_month <= 31 && 1
            <= time.month <= 12 && time.day_of_week <= 6,
{
}

} // verus!
