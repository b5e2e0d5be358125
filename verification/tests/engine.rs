use booking_engine::booking::Booking;
use booking_engine::conflict::is_duplicate_time;
use booking_engine::store::{append, delete_at, load, save, set_completed_at, toggle_completed_at};
use booking_engine::timeparse::parse_time;

fn mk(name: &str, date: &str, time: &str) -> Booking {
    Booking {
        name: String::from(name),
        address: String::from("1 Main St"),
        booked_on: String::from("2024-01-01"),
        booking_date: String::from(date),
        booking_time: String::from(time),
        completed: false,
    }
}

#[test]
fn parse_time_valid() {
    assert_eq!(parse_time("00:00"), Some(0));
    assert_eq!(parse_time("09:00"), Some(540));
    assert_eq!(parse_time("09:30"), Some(570));
    assert_eq!(parse_time("23:59"), Some(23 * 60 + 59));
}

#[test]
fn parse_time_invalid() {
    assert_eq!(parse_time(""), None);
    assert_eq!(parse_time("9:00"), None);
    assert_eq!(parse_time("24:00"), None);
    assert_eq!(parse_time("09:60"), None);
    assert_eq!(parse_time("ab:cd"), None);
    assert_eq!(parse_time("09-00"), None);
    assert_eq!(parse_time("09:000"), None);
}

#[test]
fn conflict_same_date_within_window() {
    let stored = vec![mk("A", "2024-01-01", "09:00")];
    assert!(is_duplicate_time("2024-01-01", "09:30", &stored));
    assert!(is_duplicate_time("2024-01-01", "09:44", &stored));
    assert!(is_duplicate_time("2024-01-01", "08:16", &stored));
    assert!(is_duplicate_time("2024-01-01", "09:00", &stored));
}

#[test]
fn conflict_same_date_outside_window() {
    let stored = vec![mk("A", "2024-01-01", "09:00")];
    assert!(!is_duplicate_time("2024-01-01", "09:45", &stored));
    assert!(!is_duplicate_time("2024-01-01", "08:15", &stored));
    assert!(!is_duplicate_time("2024-01-01", "23:00", &stored));
}

#[test]
fn conflict_different_date_never() {
    let stored = vec![mk("A", "2024-01-01", "09:00")];
    assert!(!is_duplicate_time("2024-01-02", "09:00", &stored));
    assert!(!is_duplicate_time("2024-01-02", "09:01", &stored));
}

#[test]
fn conflict_unparseable_candidate_is_fail_open() {
    let stored = vec![mk("A", "2024-01-01", "09:00")];
    assert!(!is_duplicate_time("2024-01-01", "late", &stored));
    assert!(!is_duplicate_time("2024-01-01", "9:00", &stored));
}

#[test]
fn conflict_unparseable_stored_time_is_skipped() {
    let stored = vec![mk("A", "2024-01-01", "whenever")];
    assert!(!is_duplicate_time("2024-01-01", "09:00", &stored));
}

#[test]
fn encode_exact_document() {
    let v = vec![mk("A", "2024-01-02", "09:00")];
    let doc = save(&v);
    assert_eq!(
        doc,
        "[{\"name\":\"A\",\"address\":\"1 Main St\",\"booked_on\":\"2024-01-01\",\
         \"booking_date\":\"2024-01-02\",\"booking_time\":\"09:00\",\"completed\":false}]"
    );
}

#[test]
fn encode_empty_document() {
    let v: Vec<Booking> = Vec::new();
    assert_eq!(save(&v), "[]");
}

#[test]
fn round_trip_plain() {
    let v = vec![mk("A", "2024-01-01", "09:00"), mk("B", "2024-01-02", "10:00")];
    let doc = save(&v);
    let back = load(&doc);
    assert_eq!(back.len(), 2);
    assert_eq!(back[0].name, "A");
    assert_eq!(back[1].name, "B");
    assert_eq!(back[1].booking_date, "2024-01-02");
    assert_eq!(back[1].booking_time, "10:00");
    assert!(!back[0].completed);
}

#[test]
fn round_trip_escaped_characters() {
    let mut b = mk("a\"b\\c\nd", "2024-01-01", "09:00");
    b.address = String::from("tab\there \u{1} smile \u{1F600}");
    let v = vec![b];
    let doc = save(&v);
    let back = load(&doc);
    assert_eq!(back.len(), 1);
    assert_eq!(back[0].name, "a\"b\\c\nd");
    assert_eq!(back[0].address, "tab\there \u{1} smile \u{1F600}");
}

#[test]
fn escapes_appear_in_document() {
    let v = vec![mk("a\"b", "2024-01-01", "09:00")];
    let doc = save(&v);
    assert!(doc.contains("a\\\"b"));
    let v2 = vec![mk("line\nbreak", "2024-01-01", "09:00")];
    let doc2 = save(&v2);
    assert!(doc2.contains("line\\u000abreak"));
}

#[test]
fn save_of_load_is_identity_on_stored_documents() {
    let v = vec![mk("A", "2024-01-01", "09:00"), mk("B\"x", "2024-01-02", "10:00")];
    let doc = save(&v);
    let again = save(&load(&doc));
    assert_eq!(again, doc);
}

#[test]
fn malformed_documents_load_empty() {
    assert_eq!(load("").len(), 0);
    assert_eq!(load("not a document").len(), 0);
    assert_eq!(load("{}").len(), 0);
    assert_eq!(load("[").len(), 0);
    assert_eq!(load("[]").len(), 0);
    assert_eq!(load("[{\"name\":\"A\"}]").len(), 0);
    assert_eq!(load("[{\"name\":\"A\",").len(), 0);
    assert_eq!(load("null").len(), 0);
}

#[test]
fn append_adds_at_end() {
    let doc = save(&Vec::new());
    let doc = append(&doc, mk("A", "2024-01-01", "09:00"));
    let doc = append(&doc, mk("B", "2024-01-02", "10:00"));
    let v = load(&doc);
    assert_eq!(v.len(), 2);
    assert_eq!(v[0].name, "A");
    assert_eq!(v[1].name, "B");
}

#[test]
fn delete_within_bounds_shifts_later_records() {
    let mut doc = save(&Vec::new());
    for (n, t) in [("A", "09:00"), ("B", "10:00"), ("C", "11:00")] {
        doc = append(&doc, mk(n, "2024-01-01", t));
    }
    let doc = delete_at(&doc, 1);
    let v = load(&doc);
    assert_eq!(v.len(), 2);
    assert_eq!(v[0].name, "A");
    assert_eq!(v[1].name, "C");
}

#[test]
fn delete_out_of_bounds_is_a_no_op() {
    let mut doc = save(&Vec::new());
    doc = append(&doc, mk("A", "2024-01-01", "09:00"));
    let after = delete_at(&doc, 5);
    assert_eq!(after, doc);
    let v = load(&after);
    assert_eq!(v.len(), 1);
    assert_eq!(v[0].name, "A");
}

#[test]
fn set_completed_changes_only_that_flag() {
    let mut doc = save(&Vec::new());
    doc = append(&doc, mk("A", "2024-01-01", "09:00"));
    doc = append(&doc, mk("B", "2024-01-02", "10:00"));
    let doc2 = set_completed_at(&doc, 0, true);
    let v = load(&doc2);
    assert!(v[0].completed);
    assert_eq!(v[0].name, "A");
    assert_eq!(v[0].address, "1 Main St");
    assert_eq!(v[0].booked_on, "2024-01-01");
    assert_eq!(v[0].booking_date, "2024-01-01");
    assert_eq!(v[0].booking_time, "09:00");
    assert!(!v[1].completed);
    assert_eq!(v[1].name, "B");
}

#[test]
fn toggle_flips_only_that_flag() {
    let mut doc = save(&Vec::new());
    doc = append(&doc, mk("A", "2024-01-01", "09:00"));
    let once = toggle_completed_at(&doc, 0);
    let v1 = load(&once);
    assert!(v1[0].completed);
    assert_eq!(v1[0].name, "A");
    let twice = toggle_completed_at(&once, 0);
    assert_eq!(twice, doc);
}

#[test]
fn toggle_out_of_bounds_is_a_no_op() {
    let mut doc = save(&Vec::new());
    doc = append(&doc, mk("A", "2024-01-01", "09:00"));
    let after = toggle_completed_at(&doc, 1);
    assert_eq!(after, doc);
}

#[test]
fn submission_scenario() {
    let doc = save(&Vec::new());

    let stored = load(&doc);
    assert!(!is_duplicate_time("2024-01-01", "09:00", &stored));
    let doc = append(&doc, mk("A", "2024-01-01", "09:00"));
    let stored = load(&doc);
    assert_eq!(stored.len(), 1);
    assert_eq!(stored[0].name, "A");

    assert!(is_duplicate_time("2024-01-01", "09:30", &stored));

    assert!(!is_duplicate_time("2024-01-01", "10:00", &stored));
    let doc = append(&doc, mk("C", "2024-01-01", "10:00"));
    let stored = load(&doc);
    assert_eq!(stored.len(), 2);
    assert_eq!(stored[1].name, "C");

    let doc = delete_at(&doc, 0);
    let stored = load(&doc);
    assert_eq!(stored.len(), 1);
    assert_eq!(stored[0].name, "C");
    assert_eq!(stored[0].booking_time, "10:00");
}
