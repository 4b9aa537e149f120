use daily_planner::store::PlannerApp;
use daily_planner::structs::{Activity, SimpleTime};

fn lunch() -> Activity {
    Activity::new(
        1,
        "LUNCH".to_string(),
        SimpleTime::new(12, 0, 0),
        SimpleTime::new(13, 0, 0),
    )
}

#[test]
fn scalar_formula_exact() {
    assert_eq!(SimpleTime::new(0, 0, 0).as_seconds(), 0);
    assert_eq!(SimpleTime::new(12, 30, 0).as_seconds(), 45000);
    assert_eq!(SimpleTime::new(23, 59, 59).as_seconds(), 86399);
    assert_eq!(SimpleTime::new(1, 2, 3).as_seconds(), 3723);
}

#[test]
fn scalar_no_clamping() {
    // Out-of-range components are kept as given: the scalar simply leaves
    // the usual 0..86400 band.
    assert_eq!(SimpleTime::new(24, 0, 0).as_seconds(), 86400);
    assert_eq!(
        SimpleTime::new(255, 255, 255).as_seconds(),
        255 * 3600 + 255 * 60 + 255
    );
}

#[test]
fn accessors_return_components() {
    let t = SimpleTime::new(7, 40, 59);
    assert_eq!(t.hour(), 7);
    assert_eq!(t.minute(), 40);
}

#[test]
fn lunch_is_now_boundaries() {
    let a = lunch();
    assert!(a.is_now(SimpleTime::new(12, 30, 0)));
    assert!(!a.is_now(SimpleTime::new(13, 0, 1)));
    // Both boundaries are inclusive.
    assert!(a.is_now(SimpleTime::new(13, 0, 0)));
    assert!(a.is_now(SimpleTime::new(12, 0, 0)));
    assert!(!a.is_now(SimpleTime::new(11, 59, 59)));
}

#[test]
fn malformed_range_is_never_now() {
    let a = Activity::new(
        0,
        "BACKWARDS".to_string(),
        SimpleTime::new(13, 0, 0),
        SimpleTime::new(12, 0, 0),
    );
    assert!(!a.is_now(SimpleTime::new(12, 30, 0)));
    assert!(!a.is_now(SimpleTime::new(13, 0, 0)));
    assert!(!a.is_now(SimpleTime::new(12, 0, 0)));
    assert!(!a.is_now(SimpleTime::new(0, 0, 0)));
}

#[test]
fn new_activity_starts_not_now() {
    let a = lunch();
    assert_eq!(a.id, 1);
    assert_eq!(a.name(), "LUNCH");
    assert!(!a.is_now);
    assert_eq!(a.start_time().as_seconds(), 12 * 3600);
    assert_eq!(a.end_time().as_seconds(), 13 * 3600);
}

#[test]
fn update_is_now_at_reports_flips() {
    let mut a = lunch();
    // false -> true: a flip is reported.
    assert!(a.update_is_now_at(SimpleTime::new(12, 30, 0)));
    assert!(a.is_now);
    // true -> true: no flip.
    assert!(!a.update_is_now_at(SimpleTime::new(12, 45, 0)));
    assert!(a.is_now);
    // true -> false: a flip again.
    assert!(a.update_is_now_at(SimpleTime::new(14, 0, 0)));
    assert!(!a.is_now);
}

#[test]
fn refresh_all_twice_is_idempotent() {
    let t = SimpleTime::new(12, 30, 0);
    let mut app = PlannerApp {
        activities: vec![
            lunch(),
            Activity::new(
                2,
                "DINNER".to_string(),
                SimpleTime::new(19, 0, 0),
                SimpleTime::new(20, 0, 0),
            ),
        ],
        last_update: SimpleTime::new(0, 0, 0),
    };
    let first = app.refresh_all_at(t);
    assert!(first);
    assert!(app.activities[0].is_now);
    assert!(!app.activities[1].is_now);
    let before = app.activities.clone();
    // Same reference time again: nothing changes, no flip is reported.
    let second = app.refresh_all_at(t);
    assert!(!second);
    assert_eq!(app.activities, before);
}

#[test]
fn add_assigns_ids_from_count() {
    let mut app = PlannerApp {
        activities: Vec::new(),
        last_update: SimpleTime::new(0, 0, 0),
    };
    app.add_activity(
        "FIRST".to_string(),
        SimpleTime::new(9, 0, 0),
        SimpleTime::new(10, 0, 0),
    );
    app.add_activity(
        "SECOND".to_string(),
        SimpleTime::new(10, 0, 0),
        SimpleTime::new(11, 0, 0),
    );
    assert_eq!(app.activities.len(), 2);
    assert_eq!(app.activities[0].id, 0);
    assert_eq!(app.activities[1].id, 1);
    assert_eq!(app.activities[0].name(), "FIRST");
    assert_eq!(app.activities[1].name(), "SECOND");
    assert!(!app.activities[0].is_now);
    assert!(!app.activities[1].is_now);
}

#[test]
fn update_activity_replaces_first_match() {
    let mut app = PlannerApp {
        activities: vec![lunch()],
        last_update: SimpleTime::new(0, 0, 0),
    };
    app.activities[0].update_is_now_at(SimpleTime::new(12, 30, 0));
    let found = app.update_activity(
        1,
        "BRUNCH".to_string(),
        SimpleTime::new(11, 0, 0),
        SimpleTime::new(12, 0, 0),
    );
    assert!(found);
    assert_eq!(app.activities[0].id, 1);
    assert_eq!(app.activities[0].name(), "BRUNCH");
    assert_eq!(app.activities[0].start_time().as_seconds(), 11 * 3600);
    assert_eq!(app.activities[0].end_time().as_seconds(), 12 * 3600);
    // The cached flag is left as it was until the next refresh.
    assert!(app.activities[0].is_now);
}

#[test]
fn update_activity_unknown_id_changes_nothing() {
    let mut app = PlannerApp {
        activities: vec![lunch()],
        last_update: SimpleTime::new(0, 0, 0),
    };
    let before = app.activities.clone();
    let found = app.update_activity(
        42,
        "GHOST".to_string(),
        SimpleTime::new(1, 0, 0),
        SimpleTime::new(2, 0, 0),
    );
    assert!(!found);
    assert_eq!(app.activities, before);
}

#[test]
fn delete_all_clears_collection() {
    let mut app = PlannerApp {
        activities: vec![lunch()],
        last_update: SimpleTime::new(0, 0, 0),
    };
    app.delete_all();
    assert!(app.activities.is_empty());
}

#[test]
fn tick_waits_ten_seconds() {
    let mut app = PlannerApp {
        activities: vec![lunch()],
        last_update: SimpleTime::new(12, 0, 0),
    };
    // Nine seconds later: not due, flags stay stale.
    app.tick_at(SimpleTime::new(12, 0, 9));
    assert_eq!(app.last_update.as_seconds(), 12 * 3600);
    assert!(!app.activities[0].is_now);
    // Ten seconds later: due, flags refresh and the reference moves.
    app.tick_at(SimpleTime::new(12, 0, 10));
    assert_eq!(app.last_update.as_seconds(), 12 * 3600 + 10);
    assert!(app.activities[0].is_now);
}

#[test]
fn tick_resynchronises_after_midnight_rollover() {
    let mut app = PlannerApp {
        activities: vec![Activity::new(
            0,
            "NIGHT".to_string(),
            SimpleTime::new(0, 0, 0),
            SimpleTime::new(1, 0, 0),
        )],
        last_update: SimpleTime::new(23, 59, 55),
    };
    // The clock has wrapped past midnight: the scalar went backwards, which
    // counts as due rather than underflowing.
    app.tick_at(SimpleTime::new(0, 0, 2));
    assert_eq!(app.last_update.as_seconds(), 2);
    assert!(app.activities[0].is_now);
}

#[test]
fn wall_clock_components_are_in_range() {
    let now = SimpleTime::from_now();
    assert!(now.hour() < 24);
    assert!(now.minute() < 60);
    assert!(now.as_seconds() < 86400);
}

#[test]
fn refresh_against_wall_clock_runs() {
    let mut app = PlannerApp::new(vec![lunch()]);
    assert_eq!(app.activities.len(), 1);
    app.update_activities_every_ten_seconds();
    assert_eq!(app.activities.len(), 1);
    let mut a = lunch();
    let _ = a.update_is_now();
}
