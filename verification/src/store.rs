use crate::structs::{spec_clock_time, spec_refreshed, Activity, SimpleTime};
use vstd::prelude::*;

verus! {

/// The sequence `acts` with every record refreshed against `reference`.
pub open spec fn spec_refreshed_all(acts: Seq<Activity>, reference: SimpleTime) -> Seq<Activity> {
    acts.map_values(|a: Activity| spec_refreshed(a, reference))
}

/// The in-memory activity store: an ordered collection of activities
/// (insertion order is display order) together with the time of the last
/// periodic refresh.
pub struct PlannerApp {
    pub activities: Vec<Activity>,
    pub last_update: SimpleTime,
}

impl PlannerApp {
    /// Builds the store over an already-loaded collection, refreshing every
    /// record against the wall clock so the cached flags start out accurate.
    pub fn new(activities: Vec<Activity>) -> (r: Self)
        ensures
            exists|t: SimpleTime|
                spec_clock_time(t) && r.activities@ == spec_refreshed_all(activities@, t),
            spec_clock_time(r.last_update),
    {
        let now = SimpleTime::from_now();
        let ghost acts0 = activities@;
        let mut app = PlannerApp { activities, last_update: now };
        app.refresh_all_at(now);
        proof {
            assert(spec_clock_time(now) && app.activities@ == spec_refreshed_all(acts0, now));
        }
        app
    }

    /// Refreshes every activity, unconditionally and in collection order,
    /// against the given reference time.  Reports whether any cached flag
    /// flipped.
    pub fn refresh_all_at(&mut self, reference: SimpleTime) -> (any_changed: bool)
        ensures
            final(self).activities@ == spec_refreshed_all(old(self).activities@, reference),
            final(self).last_update == old(self).last_update,
            any_changed == exists|i: int|
                0 <= i < old(self).activities@.len() && old(self).activities@[i].is_now
                    != final(self).activities@[i].is_now,
    {
        let ghost orig = self.activities@;
        let mut any_changed = false;
        let n = self.activities.len();
        for k in 0..n
            invariant
                n == orig.len(),
                self.activities@.len() == orig.len(),
                self.last_update == old(self).last_update,
                orig == old(self).activities@,
                forall|i: int| 0 <= i < k ==> self.activities@[i] == spec_refreshed(orig[i], reference),
                forall|i: int| k <= i < orig.len() ==> self.activities@[i] == orig[i],
                any_changed == exists|i: int|
                    0 <= i < k && orig[i].is_now != self.activities@[i].is_now,
        {
            let a = &mut self.activities[k];
            let changed = a.update_is_now_at(reference);
            if changed {
                any_changed = true;
            }
            proof {
                if changed {
                    assert(orig[k as int].is_now != self.activities@[k as int].is_now);
                }
            }
        }
        proof {
            assert(self.activities@ =~= spec_refreshed_all(orig, reference));
        }
        any_changed
    }

    /// Refreshes every activity against the wall clock.  The clock is
    /// ambient, so all that is promised is that the new state is a refresh
    /// of the old one against some in-range time.
    pub fn refresh_all(&mut self) -> (any_changed: bool)
        ensures
            exists|t: SimpleTime|
                spec_clock_time(t) && final(self).activities@ == spec_refreshed_all(
                    old(self).activities@,
                    t,
                ),
            final(self).last_update == old(self).last_update,
            final(self).activities@.len() == old(self).activities@.len(),
            any_changed == exists|i: int|
                0 <= i < old(self).activities@.len() && old(self).activities@[i].is_now
                    != final(self).activities@[i].is_now,
    {
        let now = SimpleTime::from_now();
        let r = self.refresh_all_at(now);
        proof {
            assert(spec_clock_time(now) && self.activities@ == spec_refreshed_all(
                old(self).activities@,
                now,
            ));
        }
        r
    }

    /// The periodic refresh decision against an explicit "now": refresh when
    /// ten or more seconds have passed since the last refresh, or when the
    /// clock has moved backwards (midnight rollover), in which case the
    /// reference point is resynchronised rather than left a day ahead.
    pub open spec fn spec_tick_due(self, now: SimpleTime) -> bool {
        crate::structs::spec_scalar(now) >= crate::structs::spec_scalar(self.last_update) + 10
            || crate::structs::spec_scalar(now) < crate::structs::spec_scalar(self.last_update)
    }

    /// Applies the periodic refresh policy at the given time: when due,
    /// refreshes every activity and records `now` as the last refresh time;
    /// otherwise leaves the store untouched.
    pub fn tick_at(&mut self, now: SimpleTime)
        ensures
            old(self).spec_tick_due(now) ==> final(self).activities@ == spec_refreshed_all(
                old(self).activities@,
                now,
            ) && final(self).last_update == now,
            !old(self).spec_tick_due(now) ==> *final(self) == *old(self),
    {
        let now_s = now.as_seconds();
        let last_s = self.last_update.as_seconds();
        if now_s >= last_s && now_s - last_s >= 10 || now_s < last_s {
            self.last_update = now;
            self.refresh_all_at(now);
        }
    }

    /// The periodic refresh driven by the wall clock: reads "now" once and
    /// applies the ten-second policy against it.
    pub fn update_activities_every_ten_seconds(&mut self)
        ensures
            exists|t: SimpleTime|
                spec_clock_time(t) && if old(self).spec_tick_due(t) {
                    final(self).activities@ == spec_refreshed_all(old(self).activities@, t)
                        && final(self).last_update == t
                } else {
                    *final(self) == *old(self)
                },
    {
        let now = SimpleTime::from_now();
        self.tick_at(now);
        proof {
            assert(spec_clock_time(now) && if old(self).spec_tick_due(now) {
                self.activities@ == spec_refreshed_all(old(self).activities@, now)
                    && self.last_update == now
            } else {
                *self == *old(self)
            });
        }
    }

    /// The "Add" action: appends a new activity whose id is the current
    /// count of activities, with the `is_now` flag starting out false.
    pub fn add_activity(&mut self, name: String, start_time: SimpleTime, end_time: SimpleTime)
        requires
            old(self).activities@.len() < u32::MAX,
        ensures
            final(self).activities@.len() == old(self).activities@.len() + 1,
            final(self).activities@ == old(self).activities@.push(final(self).activities@.last()),
            final(self).activities@.last().id == old(self).activities@.len(),
            final(self).activities@.last().name@ == name@,
            final(self).activities@.last().start_time == start_time,
            final(self).activities@.last().end_time == end_time,
            final(self).activities@.last().is_now == false,
            final(self).last_update == old(self).last_update,
    {
        let id = self.activities.len() as u32;
        let a = Activity::new(id, name, start_time, end_time);
        self.activities.push(a);
    }

    /// The "Update" action: replaces the name and time range of the first
    /// activity carrying the given id, leaving its id and cached flag as
    /// they were.  Reports whether such an activity was found.
    pub fn update_activity(
        &mut self,
        id: u32,
        name: String,
        start_time: SimpleTime,
        end_time: SimpleTime,
    ) -> (found: bool)
        ensures
            found == exists|i: int| 0 <= i < old(self).activities@.len()
                && old(self).activities@[i].id == id,
            !found ==> *final(self) == *old(self),
            found ==> ({
                let i = choose|i: int|
                    0 <= i < old(self).activities@.len() && old(self).activities@[i].id == id
                        && forall|j: int|
                        0 <= j < i ==> old(self).activities@[j].id != id;
                &&& 0 <= i < old(self).activities@.len()
                &&& old(self).activities@[i].id == id
                &&& final(self).activities@ == old(self).activities@.update(
                    i,
                    Activity {
                        id,
                        name,
                        start_time,
                        end_time,
                        is_now: old(self).activities@[i].is_now,
                    },
                )
                &&& final(self).activities@[i].name@ == name@
            }),
            final(self).last_update == old(self).last_update,
    {
        let n = self.activities.len();
        for k in 0..n
            invariant
                n == self.activities@.len(),
                *self == *old(self),
                forall|j: int| 0 <= j < k ==> self.activities@[j].id != id,
        {
            if self.activities[k].id == id {
                let ghost orig = self.activities@;
                let is_now = self.activities[k].is_now;
                self.activities[k] = Activity { id, name, start_time, end_time, is_now };
                proof {
                    let i = choose|i: int|
                        0 <= i < orig.len() && orig[i].id == id && forall|j: int|
                            0 <= j < i ==> orig[j].id != id;
                    assert(orig[k as int].id == id && forall|j: int|
                        0 <= j < k as int ==> orig[j].id != id);
                    assert(i == k as int);
                }
                return true;
            }
        }
        false
    }

    /// The "Delete All" action on the in-memory side: clears the collection.
    pub fn delete_all(&mut self)
        ensures
            final(self).activities@.len() == 0,
            final(self).last_update == old(self).last_update,
    {
        self.activities = Vec::new();
    }
}

/// Refreshing all activities is idempotent while the clock stands still: a
/// second refresh against the same reference leaves every record as it was,
/// and every cached flag already agrees with the reference, so no flip can
/// be reported.
pub proof fn lemma_refresh_all_idempotent(acts: Seq<Activity>, reference: SimpleTime)
    ensures
        spec_refreshed_all(spec_refreshed_all(acts, reference), reference) == spec_refreshed_all(
            acts,
            reference,
        ),
        forall|i: int|
            0 <= i < acts.len() ==> spec_refreshed_all(acts, reference)[i].is_now
                == crate::structs::spec_is_now_at(spec_refreshed_all(acts, reference)[i], reference),
{
    assert(spec_refreshed_all(spec_refreshed_all(acts, reference), reference) =~= spec_refreshed_all(
        acts,
        reference,
    ));
}

} // verus!
