use daily_planner::codec::{load_activities, save_activities};
use daily_planner::structs::{Activity, SimpleTime};

fn act(id: u32, name: &str, start: (u8, u8, u8), end: (u8, u8, u8)) -> Activity {
    Activity::new(
        id,
        name.to_string(),
        SimpleTime::new(start.0, start.1, start.2),
        SimpleTime::new(end.0, end.1, end.2),
    )
}

#[test]
fn save_empty_gives_empty_array() {
    let saved = save_activities(&Vec::new());
    assert_eq!(saved, "[]");
    assert!(load_activities(&saved).is_empty());
}

#[test]
fn load_not_json_gives_empty_collection() {
    assert!(load_activities("not json").is_empty());
    assert!(load_activities("").is_empty());
    assert!(load_activities("{").is_empty());
    assert!(load_activities("[{}]").is_empty());
}

#[test]
fn load_trailing_garbage_gives_empty_collection() {
    assert!(load_activities("[]x").is_empty());
    let mut doc = save_activities(&vec![act(0, "TEA", (16, 0, 0), (16, 30, 0))]);
    doc.push('x');
    assert!(load_activities(&doc).is_empty());
}

#[test]
fn canonical_document_is_exact() {
    let saved = save_activities(&vec![act(3, "TEA", (16, 0, 0), (16, 30, 0))]);
    assert_eq!(
        saved,
        "[{\"id\":3,\"name\":\"TEA\",\"start_time\":{\"hour\":16,\"minute\":0,\"seconds\":0},\
         \"end_time\":{\"hour\":16,\"minute\":30,\"seconds\":0},\"is_now\":false}]"
    );
}

#[test]
fn round_trip_keeps_every_record() {
    let mut flagged = act(7, "NAP", (14, 5, 9), (15, 0, 0));
    flagged.update_is_now_at(SimpleTime::new(14, 30, 0));
    assert!(flagged.is_now);
    let acts = vec![
        act(0, "LUNCH", (12, 0, 0), (13, 0, 0)),
        flagged,
        // Duplicate id and out-of-range components are kept as given.
        act(0, "WEIRD \"QUOTES\" & \\SLASHES\\", (99, 255, 61), (0, 0, 0)),
        act(u32::MAX, "", (0, 0, 0), (0, 0, 0)),
    ];
    let loaded = load_activities(&save_activities(&acts));
    assert_eq!(loaded, acts);
}

#[test]
fn round_trip_keeps_every_escape_class() {
    let name = "A\"B\\C\u{8}D\u{c}E\nF\rG\tH\u{1}I\u{1f}J/K\u{e9}L\u{2603}M\u{1d11e}N";
    let acts = vec![act(5, name, (1, 2, 3), (4, 5, 6))];
    let saved = save_activities(&acts);
    let loaded = load_activities(&saved);
    assert_eq!(loaded, acts);
    assert_eq!(loaded[0].name(), name);
}

#[test]
fn saved_document_is_valid_json_for_serde() {
    let name = "CONTROL\u{1f}AND\nQUOTE\"END";
    let acts = vec![act(2, name, (8, 30, 0), (9, 45, 30))];
    let saved = save_activities(&acts);
    let v: serde_json::Value = serde_json::from_str(&saved).expect("canonical document parses");
    assert_eq!(v[0]["id"], serde_json::Value::from(2u32));
    assert_eq!(v[0]["name"].as_str(), Some(name));
    assert_eq!(v[0]["start_time"]["hour"], serde_json::Value::from(8u32));
    assert_eq!(v[0]["start_time"]["minute"], serde_json::Value::from(30u32));
    assert_eq!(v[0]["end_time"]["seconds"], serde_json::Value::from(30u32));
    assert_eq!(v[0]["is_now"], serde_json::Value::Bool(false));
    assert_eq!(v.as_array().map(|a| a.len()), Some(1));
}

#[test]
fn load_reads_documents_saved_by_serde_derives() {
    // The same shape serde's derived serializer writes for the record
    // structs, compact form: the canonical reader accepts it.
    let doc = "[{\"id\":0,\"name\":\"GYM\",\"start_time\":{\"hour\":6,\"minute\":0,\"seconds\":0},\
        \"end_time\":{\"hour\":7,\"minute\":0,\"seconds\":0},\"is_now\":true}]";
    let loaded = load_activities(doc);
    assert_eq!(loaded.len(), 1);
    assert_eq!(loaded[0].id, 0);
    assert_eq!(loaded[0].name(), "GYM");
    assert_eq!(loaded[0].start_time().as_seconds(), 6 * 3600);
    assert_eq!(loaded[0].end_time().as_seconds(), 7 * 3600);
    assert!(loaded[0].is_now);
}

#[test]
fn load_rejects_out_of_band_numbers() {
    // A time component over 255 or an id over u32::MAX does not fit the
    // record shape: the whole document is refused, yielding the empty
    // collection.
    let doc = "[{\"id\":0,\"name\":\"X\",\"start_time\":{\"hour\":256,\"minute\":0,\"seconds\":0},\
        \"end_time\":{\"hour\":7,\"minute\":0,\"seconds\":0},\"is_now\":true}]";
    assert!(load_activities(doc).is_empty());
    let doc2 = "[{\"id\":4294967296,\"name\":\"X\",\"start_time\":{\"hour\":1,\"minute\":0,\"seconds\":0},\
        \"end_time\":{\"hour\":7,\"minute\":0,\"seconds\":0},\"is_now\":true}]";
    assert!(load_activities(doc2).is_empty());
}
