use depot::workspace::fingerprint::{Fingerprints, Timestamp};

fn at(secs: u64, nanos: u32) -> Timestamp {
    Timestamp::new(secs, nanos).unwrap()
}

#[test]
fn fingerprints_skip_only_what_is_recorded_and_not_stale() {
    let mut fingerprints = Fingerprints::new();
    assert!(!fingerprints.can_skip("file.txt", &vec![Some(at(5, 0))]));
    assert!(!fingerprints.can_skip("file.txt", &vec![]));

    fingerprints.set_time("file.txt".into(), at(10, 500));
    assert!(fingerprints.can_skip("file.txt", &vec![Some(at(5, 0))]));
    assert!(fingerprints.can_skip("file.txt", &vec![Some(at(10, 500))]));
    assert!(fingerprints.can_skip("file.txt", &vec![Some(at(10, 499)), Some(at(9, 999_999_999))]));
    assert!(fingerprints.can_skip("file.txt", &vec![]));

    assert!(!fingerprints.can_skip("file.txt", &vec![Some(at(10, 501))]));
    assert!(!fingerprints.can_skip("file.txt", &vec![Some(at(1, 0)), Some(at(11, 0))]));
    assert!(!fingerprints.can_skip("other", &vec![Some(at(1, 0))]));
}

#[test]
fn fingerprints_pass_over_files_whose_time_is_unknown() {
    let mut fingerprints = Fingerprints::new();
    fingerprints.set_time("k".into(), at(10, 0));
    assert!(fingerprints.can_skip("k", &vec![None, Some(at(3, 0)), None]));
    assert!(fingerprints.can_skip("k", &vec![None]));
    assert!(!fingerprints.can_skip("k", &vec![None, Some(at(11, 0))]));
}

#[test]
fn fingerprints_set_time_replaces() {
    let mut fingerprints = Fingerprints::new();
    fingerprints.set_time("k".into(), at(10, 0));
    fingerprints.set_time("j".into(), at(20, 0));
    fingerprints.set_time("k".into(), at(30, 0));
    assert_eq!(fingerprints.get("k"), Some(at(30, 0)));
    assert_eq!(fingerprints.get("j"), Some(at(20, 0)));
    assert_eq!(fingerprints.get("i"), None);
    assert_eq!(fingerprints.entries().len(), 2);
}

#[test]
fn fingerprints_update_time_records_the_present() {
    let mut fingerprints = Fingerprints::new();
    fingerprints.set_time("j".into(), at(1, 0));
    fingerprints.update_time("k".into());
    let now = fingerprints.get("k").expect("the key is recorded");
    assert!(now.secs() > 1_600_000_000);
    assert!(now.nanos() < 1_000_000_000);
    assert_eq!(fingerprints.get("j"), Some(at(1, 0)));
    assert!(fingerprints.can_skip("k", &vec![Some(at(1_600_000_000, 0))]));
    assert!(!fingerprints.can_skip("k", &vec![Some(at(u64::MAX, 0))]));
}

#[test]
fn fingerprints_survive_being_written_down_and_read_back() {
    let mut fingerprints = Fingerprints::new();
    fingerprints.set_time("build:pkg(a)".into(), at(10, 1));
    fingerprints.set_time("init:ws".into(), at(20, 2));
    fingerprints.set_time("build:pkg(a)".into(), at(30, 3));
    let loaded = Fingerprints::from_entries(fingerprints.entries().clone());
    assert!(loaded.same_as(&fingerprints));
    assert!(fingerprints.same_as(&loaded));
    assert_eq!(loaded.get("build:pkg(a)"), Some(at(30, 3)));
    assert!(Fingerprints::from_entries(vec![]).same_as(&Fingerprints::new()));
}

#[test]
fn fingerprints_from_entries_let_the_later_entry_count() {
    let loaded = Fingerprints::from_entries(vec![("k".into(), at(1, 0)), ("j".into(), at(2, 0)), ("k".into(), at(3, 0))]);
    assert_eq!(loaded.get("k"), Some(at(3, 0)));
    assert_eq!(loaded.entries().len(), 2);
    let mut other = Fingerprints::new();
    other.set_time("j".into(), at(2, 0));
    assert!(!loaded.same_as(&other));
    other.set_time("k".into(), at(3, 0));
    assert!(loaded.same_as(&other));
    other.set_time("k".into(), at(3, 1));
    assert!(!loaded.same_as(&other));
}

#[test]
fn fingerprints_lie_among_the_installed_modules() {
    assert_eq!(Fingerprints::file_path("/ws"), "/ws/node_modules/.depot-fingerprints.json");
}

#[test]
fn timestamps_are_ordered_by_seconds_then_nanoseconds() {
    assert!(at(1, 999).at_most(&at(2, 0)));
    assert!(!at(2, 0).at_most(&at(1, 999)));
    assert!(at(2, 5).at_most(&at(2, 5)));
    assert!(at(2, 4).at_most(&at(2, 5)));
    assert!(!at(2, 6).at_most(&at(2, 5)));
}

#[test]
fn timestamp_keeps_its_nanoseconds_below_a_second() {
    assert!(Timestamp::new(5, 1_000_000_000).is_none());
    assert!(Timestamp::new(5, u32::MAX).is_none());
    let t = Timestamp::new(5, 999_999_999).unwrap();
    assert_eq!((t.secs(), t.nanos()), (5, 999_999_999));
    let next = Timestamp::new(6, 0).unwrap();
    assert!(t.at_most(&next));
    assert!(!next.at_most(&t));
    assert!(t.at_most(&t));
    assert!(Timestamp::new(5, 1).unwrap().at_most(&Timestamp::new(5, 2).unwrap()));
    assert!(!Timestamp::new(5, 2).unwrap().at_most(&Timestamp::new(5, 1).unwrap()));
    assert!(!Timestamp::new(6, 0).unwrap().at_most(&Timestamp::new(5, 999_999_999).unwrap()));
}
