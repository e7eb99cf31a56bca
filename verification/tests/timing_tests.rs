use chat_server::timing::{
    day_of, filter_time_ranges, SheetEntry, TimeRange, TimeSheet, TimeState, Timestamp,
};
use chat_server::types::UserID;

fn uid(s: &str) -> UserID {
    UserID(s.to_string())
}

fn ts(t: u64) -> Timestamp {
    Timestamp { time: t, note: None }
}

fn range(id: i64, start: u64, end: u64) -> TimeRange {
    TimeRange { id, start: ts(start), end: ts(end) }
}

#[test]
fn what_is_the_json() {
    let mut state = TimeState::new();
    let uids = vec![uid("Jimby"), uid("Johny"), uid("Hundo")];
    for u in &uids {
        state.start(u.clone(), None, 100);
    }
    for u in uids.iter().take(2) {
        state.stop(u, None, 101);
    }
    assert_eq!(state.is_active(&uids[0]), Some(false));
    assert_eq!(state.is_active(&uids[1]), Some(false));
    assert_eq!(state.is_active(&uids[2]), Some(true));
}

#[test]
fn start_stop_allocates_ids() {
    let mut state = TimeState::new();
    state.start(uid("a"), Some("in".to_string()), 10);
    // clocking in twice keeps the first clock-in
    state.start(uid("a"), None, 20);
    let id = state.stop(&uid("a"), Some("out".to_string()), 30).expect("was clocked in");
    assert_eq!(id, 0);
    assert_eq!(state.id_counter, 1);
    // stopped twice: nothing open
    assert!(state.stop(&uid("a"), None, 40).is_none());
    assert!(state.stop(&uid("ghost"), None, 40).is_none());
    let sheet = &state.sheets[0].sheet;
    assert_eq!(sheet.completed.len(), 1);
    assert_eq!(sheet.completed[0].start.time, 10);
    assert_eq!(sheet.completed[0].start.note.as_deref(), Some("in"));
    assert_eq!(sheet.completed[0].end.time, 30);
    assert_eq!(sheet.completed[0].end.note.as_deref(), Some("out"));
    assert_eq!(sheet.completed[0].seconds(), 20);
    // a second session gets the next identifier
    state.start(uid("a"), None, 50);
    assert_eq!(state.stop(&uid("a"), None, 60), Some(1));
}

#[test]
fn from_data_resumes_after_largest_id() {
    let data = vec![
        SheetEntry {
            user: uid("a"),
            sheet: TimeSheet { completed: vec![range(3, 0, 10), range(7, 20, 30)], current: None },
        },
        SheetEntry {
            user: uid("b"),
            sheet: TimeSheet { completed: vec![range(5, 0, 10)], current: None },
        },
    ];
    let state = TimeState::from_data(data);
    assert_eq!(state.id_counter, 7);
    let empty = TimeState::from_data(Vec::new());
    assert_eq!(empty.id_counter, 0);
}

#[test]
fn sheet_lookup_and_day_filter() {
    let sheet = TimeSheet {
        completed: vec![
            range(0, 0, 3600),
            range(1, 86400, 90000),
            range(2, 86400 * 3, 86400 * 3 + 60),
        ],
        current: None,
    };
    assert_eq!(sheet.get(1).unwrap().start.time, 86400);
    assert!(sheet.get(9).is_none());
    let within = sheet.find_in_range(1, 3);
    let ids: Vec<i64> = within.iter().map(|r| r.id).collect();
    assert_eq!(ids, vec![1, 2]);
    assert_eq!(day_of(86399), 0);
    assert_eq!(day_of(86400), 1);
}

#[test]
fn seconds_worked() {
    let sheet = TimeSheet {
        completed: vec![range(0, 100, 160), range(1, 86400, 86430)],
        current: Some(ts(90000)),
    };
    // 60 + 30 completed, plus 50 still on the clock
    assert_eq!(sheet.total_seconds(90050), 140);
    assert_eq!(sheet.seconds_for_day(0), 60);
    assert_eq!(sheet.seconds_for_day(1), 30);
    assert_eq!(sheet.seconds_for_day(2), 0);
    let closed = TimeSheet { completed: vec![range(0, 100, 160)], current: None };
    assert_eq!(closed.total_seconds(90050), 60);
}

#[test]
fn time_query_window() {
    let ranges = vec![range(0, 0, 3600), range(1, 86400 * 2, 86400 * 2 + 60)];
    // no bounds: everything comes back
    let all = filter_time_ranges(ranges.clone(), None, None, 5);
    assert_eq!(all.len(), 2);
    // the window keeps a range when its start is at or past the
    // clock-in day and the clock-out day is at or before its end
    let kept = filter_time_ranges(ranges.clone(), Some(0), Some(1), 5);
    let ids: Vec<i64> = kept.iter().map(|r| r.id).collect();
    assert_eq!(ids, vec![0]);
    // an absent bound defaults to today
    let today = filter_time_ranges(ranges, Some(2), None, 2);
    let ids: Vec<i64> = today.iter().map(|r| r.id).collect();
    assert_eq!(ids, vec![0, 1]);
}
