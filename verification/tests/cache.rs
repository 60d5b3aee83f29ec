//! The cache of responses.

use nanodns::cache::Cache;

const SECOND: u64 = 1_000_000_000;

#[test]
fn disabled_cache_returns_nothing() {
    let mut c = Cache::new(false, 1024, 60);
    c.put("a.lan", 1, 1, vec![1, 2, 3]);
    assert!(c.get("a.lan", 1, 1).is_none());
}

#[test]
fn put_then_get() {
    let mut c = Cache::new(true, 1024, 60);
    c.put("a.lan", 1, 1, vec![1, 2, 3]);
    assert_eq!(c.get("a.lan", 1, 1), Some(vec![1, 2, 3]));
    assert!(c.get("a.lan", 28, 1).is_none());
    assert!(c.get("a.lan", 1, 3).is_none());
}

#[test]
fn expired_entry_ignored() {
    let mut c = Cache::new(true, 1024, 60);
    c.put_at(0, "old.lan", 1, 1, vec![9]);
    assert!(c.get_at(61 * SECOND, "old.lan", 1, 1).is_none());
}

#[test]
fn respects_max_entries() {
    let mut c = Cache::new(true, 2, 60);
    c.put("a.lan", 1, 1, vec![1]);
    c.put("b.lan", 1, 1, vec![2]);
    c.put("c.lan", 1, 1, vec![3]);
    assert!(c.len() <= 2);
}

#[test]
fn an_entry_expires_with_its_last_second() {
    let mut c = Cache::new(true, 8, 60);
    c.put_at(5, "a.lan", 1, 1, vec![7]);
    assert_eq!(c.get_at(60 * SECOND + 4, "a.lan", 1, 1), Some(vec![7]));
    assert_eq!(c.get_at(60 * SECOND + 5, "a.lan", 1, 1), None);
}

#[test]
fn a_limit_of_none_counts_as_one() {
    let mut c = Cache::new(true, 0, 60);
    c.put_at(0, "a.lan", 1, 1, vec![1]);
    c.put_at(0, "b.lan", 1, 1, vec![2]);
    assert_eq!(c.len(), 1);
    assert_eq!(c.get_at(1, "b.lan", 1, 1), Some(vec![2]));
}

#[test]
fn expired_entries_go_before_others() {
    let mut c = Cache::new(true, 2, 60);
    c.put_at(0, "a.lan", 1, 1, vec![1]);
    c.put_at(30 * SECOND, "b.lan", 1, 1, vec![2]);
    c.put_at(70 * SECOND, "c.lan", 1, 1, vec![3]);
    assert_eq!(c.len(), 2);
    assert_eq!(c.get_at(70 * SECOND, "b.lan", 1, 1), Some(vec![2]));
    assert_eq!(c.get_at(70 * SECOND, "c.lan", 1, 1), Some(vec![3]));
}

#[test]
fn storing_again_replaces() {
    let mut c = Cache::new(true, 8, 60);
    c.put_at(0, "a.lan", 1, 1, vec![1]);
    c.put_at(1, "a.lan", 1, 1, vec![2]);
    assert_eq!(c.len(), 1);
    assert_eq!(c.get_at(2, "a.lan", 1, 1), Some(vec![2]));
}

#[test]
fn storing_leaves_other_questions() {
    let mut c = Cache::new(true, 8, 60);
    c.put_at(0, "a.lan", 1, 1, vec![1]);
    c.put_at(0, "b.lan", 1, 1, vec![2]);
    assert_eq!(c.get_at(1, "a.lan", 1, 1), Some(vec![1]));
    assert_eq!(c.get_at(1, "c.lan", 1, 1), None);
}

#[test]
fn keys_hold_name_type_and_class() {
    assert_eq!(Cache::key("a.lan", 1, 1), "a.lan:1:1");
    assert_eq!(Cache::key("", 65535, 10), ":65535:10");
    assert_ne!(Cache::key("a:1", 2, 3), Cache::key("a", 1, 2));
}

#[test]
fn with_no_time_to_live_all_expires_at_once() {
    let mut c = Cache::new(true, 8, 0);
    c.put("a.lan", 1, 1, vec![1]);
    assert_eq!(c.get("a.lan", 1, 1), None);
}

#[test]
fn the_clock_does_not_run_backwards() {
    let c = Cache::new(true, 8, 60);
    let first = c.now();
    let second = c.now();
    assert!(first <= second);
    assert!(second < 60 * SECOND);
}

#[test]
fn storing_does_not_restart_the_clock() {
    let mut c = Cache::new(true, 2, 60);
    let mut last = c.now();
    for i in 0..100u16 {
        c.put("a.lan", i, 1, vec![1]);
        let now = c.now();
        assert!(last <= now);
        last = now;
    }
}
