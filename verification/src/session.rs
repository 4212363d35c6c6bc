//! Session-wide state carried from one record to the next: the last
//! chosen date and the category directory cache.

use vstd::prelude::*;

use crate::category::CategoryCache;

verus! {

/// A calendar date as a day number (days counted from a fixed
/// epoch), which is all the date arithmetic here needs.
#[derive(Clone, Copy, Debug, PartialEq, Eq, Structural)]
pub struct Day {
    pub num: i64,
}

/// How many days back from today the date prompt reaches.
pub const LOOKBACK_DAYS: i64 = 30;

/// The day a displayed calendar week begins with.
#[derive(Clone, Copy, Debug, PartialEq, Eq, Structural)]
pub enum WeekStart {
    Monday,
    Sunday,
}

/// The parameters of one date prompt: the preselected date, the
/// allowed range, and the day the displayed weeks begin with.
#[derive(Clone, Copy, Debug, PartialEq, Eq, Structural)]
pub struct DateRequest {
    pub default: Day,
    pub min: Day,
    pub max: Day,
    pub week_start: WeekStart,
}

/// The date a prompt preselects: the date chosen last in this
/// session, or today when none was chosen yet.
pub open spec fn spec_date_default(last: Option<Day>, today: Day) -> Day {
    match last {
        Some(d) => d,
        None => today,
    }
}

/// State owned by one session: the last chosen date, and the
/// category directory cache shared by all its records.
pub struct SessionState {
    pub last_date: Option<Day>,
    pub cache: CategoryCache,
}

impl SessionState {
    /// A fresh session: no date chosen yet, nothing fetched yet.
    pub fn new() -> (r: SessionState)
        ensures
            r.last_date is None,
            !r.cache@.loaded,
            r.cache@.entries == Seq::<crate::category::Category>::empty(),
    {
        SessionState { last_date: None, cache: CategoryCache::new() }
    }

    /// The parameters for a date prompt held today: preselect the
    /// session's last date or today, allow the lookback window up to
    /// and including today, and begin the weeks on Monday.
    pub fn date_request(&self, today: Day) -> (r: DateRequest)
        requires
            today.num >= i64::MIN + LOOKBACK_DAYS,
        ensures
            r.default == spec_date_default(self.last_date, today),
            r.min.num == today.num - LOOKBACK_DAYS,
            r.max == today,
            r.week_start == WeekStart::Monday,
    {
        let default = match self.last_date {
            Some(d) => d,
            None => today,
        };
        DateRequest {
            default,
            min: Day { num: today.num - LOOKBACK_DAYS },
            max: today,
            week_start: WeekStart::Monday,
        }
    }

    /// Remember a chosen date as the session's new default.
    pub fn note_date(&mut self, d: Day)
        ensures
            final(self).last_date == Some(d),
            final(self).cache == old(self).cache,
    {
        self.last_date = Some(d);
    }
}

/// Once a record's date is chosen, every later date prompt of the
/// session defaults to that date — whatever the current day then is —
/// until a newer date replaces it.
pub proof fn lemma_date_default_carries(d: Day, today: Day)
    ensures
        spec_date_default(Some(d), today) == d,
{
}

} // verus!
