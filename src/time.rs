use vstd::arithmetic::div_mod::{lemma_hoist_over_denominator, lemma_mod_multiples_vanish};
use vstd::prelude::*;

use chrono::{DateTime, Local, Offset};

verus! {

/// Seconds in one calendar day.
pub const SECONDS_PER_DAY: i64 = 86400;

/// A bound on the magnitude of any instant the library handles, in seconds
/// from the Unix epoch.  It is far beyond chrono's representable range.
pub const SECS_LIMIT: i64 = 1_000_000_000_000_000;

/// A whole number of weeks, in days, larger than any day number reachable
/// from `SECS_LIMIT`; adding it keeps division non-negative.
const SHIFT_DAYS: i64 = 14_000_000_000;

/// A timezone-aware instant: seconds from the Unix epoch (UTC), the
/// sub-second part, and the fixed offset of the local clock from UTC.
#[derive(Clone, Copy, Debug, PartialEq, Eq, Structural)]
pub struct Timestamp {
    pub secs: i64,
    pub nanos: u32,
    pub offset: i32,
}

/// The instant `secs`/`nanos` with local offset `offset`, if `s` is a valid
/// RFC 3339 date and time.
pub uninterp spec fn rfc3339_instant(s: Seq<char>) -> Option<Timestamp>;

impl Timestamp {
    pub open spec fn wf(&self) -> bool {
        &&& -SECS_LIMIT < self.secs < SECS_LIMIT
        &&& -SECONDS_PER_DAY < self.offset < SECONDS_PER_DAY
    }

    /// Strict order on instants: the offset plays no part.
    pub open spec fn spec_before(&self, other: &Timestamp) -> bool {
        self.secs < other.secs || (self.secs == other.secs && self.nanos < other.nanos)
    }

    /// Seconds from the epoch as read on the local clock.
    pub open spec fn local_secs(&self) -> int {
        self.secs + self.offset
    }

    /// The local calendar day, counted from 1970-01-01.
    pub open spec fn spec_day(&self) -> int {
        self.local_secs() / (SECONDS_PER_DAY as int)
    }

    /// Seconds elapsed since local midnight.
    pub open spec fn spec_seconds_of_day(&self) -> int {
        self.local_secs() % (SECONDS_PER_DAY as int)
    }

    pub fn before(&self, other: &Timestamp) -> (r: bool)
        ensures
            r == self.spec_before(other),
    {
        self.secs < other.secs || (self.secs == other.secs && self.nanos < other.nanos)
    }

    /// Local seconds shifted by a whole number of weeks so that they are
    /// never negative.
    fn shifted_local(&self) -> (r: u64)
        requires
            self.wf(),
        ensures
            r as int == self.local_secs() + SHIFT_DAYS * SECONDS_PER_DAY,
    {
        (self.secs + self.offset as i64 + SHIFT_DAYS * SECONDS_PER_DAY) as u64
    }

    /// The local calendar day of this instant, counted from 1970-01-01.
    pub fn day(&self) -> (r: i64)
        requires
            self.wf(),
        ensures
            r as int == self.spec_day(),
    {
        let n = self.shifted_local();
        proof {
            lemma_hoist_over_denominator(self.local_secs(), SHIFT_DAYS as int, SECONDS_PER_DAY as nat);
        }
        (n / 86400) as i64 - SHIFT_DAYS
    }

    /// The local weekday, Monday being 0.
    pub fn weekday(&self) -> (r: u8)
        requires
            self.wf(),
        ensures
            r as int == weekday_of_day(self.spec_day()),
            r < 7,
    {
        let d = self.shifted_local() / 86400;
        proof {
            lemma_hoist_over_denominator(self.local_secs(), SHIFT_DAYS as int, SECONDS_PER_DAY as nat);
            lemma_mod_multiples_vanish(SHIFT_DAYS / 7, self.spec_day() + 3, 7);
        }
        ((d + 3) % 7) as u8
    }

    /// Seconds elapsed since local midnight, in `0 .. 86400`.
    pub fn seconds_of_day(&self) -> (r: u32)
        requires
            self.wf(),
        ensures
            r as int == self.spec_seconds_of_day(),
            r < 86400,
    {
        let n = self.shifted_local();
        proof {
            lemma_mod_multiples_vanish(SHIFT_DAYS as int, self.local_secs(), SECONDS_PER_DAY as int);
            assert(self.local_secs() + SHIFT_DAYS * SECONDS_PER_DAY == SECONDS_PER_DAY * SHIFT_DAYS
                + self.local_secs()) by (nonlinear_arith);
        }
        (n % 86400) as u32
    }
}

/// Monday is 0; 1970-01-01 was a Thursday.
pub open spec fn weekday_of_day(day: int) -> int {
    (day + 3) % 7
}

/// The English name of weekday `w`, Monday being 0.
pub open spec fn weekday_name_spec(w: int) -> Seq<char> {
    if w == 0 {
        "Monday"@
    } else if w == 1 {
        "Tuesday"@
    } else if w == 2 {
        "Wednesday"@
    } else if w == 3 {
        "Thursday"@
    } else if w == 4 {
        "Friday"@
    } else if w == 5 {
        "Saturday"@
    } else {
        "Sunday"@
    }
}

/// Relies on chrono's `DateTime::parse_from_rfc3339`, read back through
/// `timestamp`, `timestamp_subsec_nanos` and `FixedOffset::local_minus_utc`:
/// the result depends on the text alone.  chrono builds every `FixedOffset`
/// through `east_opt`, which keeps it strictly inside one day, and counts
/// days in an `i32`, so `timestamp` stays far inside `SECS_LIMIT`.
#[verifier::external_body]
pub(crate) fn parse_rfc3339(text: &str) -> (r: Option<Timestamp>)
    ensures
        r == rfc3339_instant(text@),
        r matches Some(t) ==> t.wf(),
{
    DateTime::parse_from_rfc3339(text).ok().map(|d| Timestamp {
        secs: d.timestamp(),
        nanos: d.timestamp_subsec_nanos(),
        offset: d.offset().local_minus_utc(),
    })
}

/// Relies on chrono's `Local::now`, converted to its `FixedOffset`: the
/// current instant with the machine's present offset.  Nothing is known of
/// which instant that is; the bounds hold of every chrono value, as for
/// `parse_rfc3339`.
#[verifier::external_body]
pub fn now() -> (r: Timestamp)
    ensures
        r.wf(),
{
    let d = Local::now();
    Timestamp {
        secs: d.timestamp(),
        nanos: d.timestamp_subsec_nanos(),
        offset: d.offset().fix().local_minus_utc(),
    }
}

} // verus!
