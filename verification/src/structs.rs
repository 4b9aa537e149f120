use chrono::Timelike;
use vstd::prelude::*;

verus! {

/// A wall-clock time of day, held as plain hour/minute/second components.
///
/// No range validation is performed on construction: out-of-range components
/// are stored as given and simply yield a scalar outside the usual
/// `0..86400` band.  Ordering and comparison always go through
/// [`SimpleTime::as_seconds`].
#[derive(Clone, Copy, PartialEq, Eq, Structural, Debug)]
pub struct SimpleTime {
    pub hour: u8,
    pub minute: u8,
    pub seconds: u8,
}

/// The scalar projection of a time: seconds since midnight.
pub open spec fn spec_scalar(t: SimpleTime) -> int {
    t.hour * 3600 + t.minute * 60 + t.seconds
}

/// A time with every component inside its calendar range, as the wall clock
/// reports one.
pub open spec fn spec_clock_time(t: SimpleTime) -> bool {
    t.hour < 24 && t.minute < 60 && t.seconds < 60
}

impl SimpleTime {
    /// Builds a time from its components, storing them exactly as given.
    pub fn new(hour: u8, minute: u8, seconds: u8) -> (r: Self)
        ensures
            r == (SimpleTime { hour, minute, seconds }),
    {
        SimpleTime { hour, minute, seconds }
    }

    pub fn hour(&self) -> (r: u8)
        ensures
            r == self.hour,
    {
        self.hour
    }

    pub fn minute(&self) -> (r: u8)
        ensures
            r == self.minute,
    {
        self.minute
    }

    /// Seconds since midnight: `hour*3600 + minute*60 + seconds`, exactly,
    /// for any component values (no clamping).
    pub fn as_seconds(&self) -> (r: u32)
        ensures
            r == spec_scalar(*self),
    {
        self.hour as u32 * 3600 + self.minute as u32 * 60 + self.seconds as u32
    }

    /// Reads the local wall clock.
    ///
    /// Relies on `chrono::Local::now` and the `chrono::Timelike` accessors
    /// `hour`, `minute` and `second`, which chrono documents to return values
    /// in `0..=23`, `0..=59` and `0..=59` respectively (a leap second is
    /// carried in the nanosecond field, never here).  The value itself is
    /// whatever the clock said: nothing more can be promised of it.
    #[verifier::external_body]
    pub fn from_now() -> (r: Self)
        ensures
            spec_clock_time(r),
    {
        let now = chrono::Local::now();
        SimpleTime { hour: now.hour() as u8, minute: now.minute() as u8, seconds: now.second() as u8 }
    }
}

/// A named block of time on the day plan.
///
/// `is_now` is a cached snapshot: it is only brought up to date by an
/// explicit refresh ([`Activity::update_is_now`] or the store-level
/// refresh), never recomputed on read.
#[derive(Clone, Debug)]
pub struct Activity {
    pub id: u32,
    pub name: String,
    pub start_time: SimpleTime,
    pub end_time: SimpleTime,
    pub is_now: bool,
}

/// Whether `reference` falls inside the activity's time range, both ends
/// inclusive.  Unsatisfiable for any reference when the range is malformed
/// (`start` after `end`).
pub open spec fn spec_is_now_at(a: Activity, reference: SimpleTime) -> bool {
    spec_scalar(a.start_time) <= spec_scalar(reference) <= spec_scalar(a.end_time)
}

/// The activity as it stands after a refresh against `reference`: the same
/// record with the `is_now` flag recomputed.
pub open spec fn spec_refreshed(a: Activity, reference: SimpleTime) -> Activity {
    Activity { is_now: spec_is_now_at(a, reference), ..a }
}

impl Activity {
    /// Builds an activity; the `is_now` flag always starts out false and only
    /// becomes accurate after the next refresh.
    pub fn new(id: u32, name: String, start_time: SimpleTime, end_time: SimpleTime) -> (r: Self)
        ensures
            r.id == id,
            r.name@ == name@,
            r.start_time == start_time,
            r.end_time == end_time,
            r.is_now == false,
    {
        Activity { id, name, start_time, end_time, is_now: false }
    }

    /// Whether this activity is under way at `current_time`, boundary
    /// inclusive on both ends.  Does not touch the cached flag.
    pub fn is_now(&self, current_time: SimpleTime) -> (r: bool)
        ensures
            r == spec_is_now_at(*self, current_time),
    {
        self.start_time.as_seconds() <= current_time.as_seconds()
            && self.end_time.as_seconds() >= current_time.as_seconds()
    }

    /// Recomputes the cached `is_now` flag against the given reference time
    /// and reports whether the flag's value flipped.
    pub fn update_is_now_at(&mut self, reference: SimpleTime) -> (changed: bool)
        ensures
            *final(self) == spec_refreshed(*old(self), reference),
            changed == (old(self).is_now != final(self).is_now),
    {
        let previous_is_now = self.is_now;
        let new_is_now = self.is_now(reference);
        self.is_now = new_is_now;
        previous_is_now != new_is_now
    }

    /// Recomputes the cached `is_now` flag against the wall clock, reporting
    /// whether it flipped.  The clock is ambient, so all that is promised is
    /// that the new state is a refresh against some in-range time.
    pub fn update_is_now(&mut self) -> (changed: bool)
        ensures
            exists|t: SimpleTime| spec_clock_time(t) && *final(self) == spec_refreshed(*old(self), t),
            changed == (old(self).is_now != final(self).is_now),
    {
        let now = SimpleTime::from_now();
        let changed = self.update_is_now_at(now);
        proof {
            assert(spec_clock_time(now) && *self == spec_refreshed(*old(self), now));
        }
        changed
    }

    pub fn name(&self) -> (r: &str)
        ensures
            r@ == self.name@,
    {
        self.name.as_str()
    }

    pub fn start_time(&self) -> (r: &SimpleTime)
        ensures
            *r == self.start_time,
    {
        &self.start_time
    }

    pub fn end_time(&self) -> (r: &SimpleTime)
        ensures
            *r == self.end_time,
    {
        &self.end_time
    }
}

impl PartialEq for Activity {
    fn eq(&self, other: &Self) -> (r: bool) {
        self.id == other.id && self.name == other.name && self.start_time == other.start_time
            && self.end_time == other.end_time && self.is_now == other.is_now
    }
}

impl vstd::std_specs::cmp::PartialEqSpecImpl for Activity {
    open spec fn obeys_eq_spec() -> bool {
        true
    }

    open spec fn eq_spec(&self, other: &Self) -> bool {
        self.id == other.id && self.name@ == other.name@ && self.start_time == other.start_time
            && self.end_time == other.end_time && self.is_now == other.is_now
    }
}

/// A malformed range can never be under way: when an activity's start lies
/// after its end, the containment predicate is unsatisfiable, whatever the
/// reference time.
pub proof fn lemma_malformed_range_never_now(a: Activity, reference: SimpleTime)
    requires
        spec_scalar(a.start_time) > spec_scalar(a.end_time),
    ensures
        !spec_is_now_at(a, reference),
{
}

/// Refreshing a record that is already a refresh against `reference` changes
/// nothing and reports no flip: the store-level refresh is idempotent while
/// the clock stands still.
pub proof fn lemma_refresh_idempotent(a: Activity, reference: SimpleTime)
    ensures
        spec_refreshed(spec_refreshed(a, reference), reference) == spec_refreshed(a, reference),
        spec_refreshed(a, reference).is_now == spec_is_now_at(
            spec_refreshed(a, reference),
            reference,
        ),
{
}

} // verus!
