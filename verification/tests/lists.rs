//! The list of blocked domains, the leases, and the files they come from.

use nanodns::addr::{parse_ipv4, Ipv4Addr};
use nanodns::blocklist;
use nanodns::clock::{reading_of, seconds_of, unix_now};
use nanodns::leases;
use nanodns::leases::{Lease, LeaseTable};
use nanodns::watch::{BlockStore, FileWatch, LeaseStore, RELOAD_INTERVAL};

#[test]
fn exact_match() {
    let list = blocklist::parse("ads.doubleclick.net\ntracking.example.com\n");
    assert!(list.is_blocked("ads.doubleclick.net"));
    assert!(list.is_blocked("tracking.example.com"));
    assert!(!list.is_blocked("example.com"));
    assert!(!list.is_blocked("doubleclick.net"));
}

#[test]
fn wildcard_match() {
    let list = blocklist::parse("*.adserver.com\n");
    assert!(list.is_blocked("adserver.com"));
    assert!(list.is_blocked("a.adserver.com"));
    assert!(list.is_blocked("x.y.adserver.com"));
    assert!(!list.is_blocked("notadserver.com"));
    assert!(!list.is_blocked("adserver.com.evil.net"));
}

#[test]
fn comments_and_blanks_ignored() {
    let list = blocklist::parse("# comment\n\n   \nads.test\n");
    assert_eq!(list.len(), 1);
    assert!(list.is_blocked("ads.test"));
}

#[test]
fn case_and_trailing_dot_normalized() {
    let list = blocklist::parse("Ads.Example.COM.\n");
    assert!(list.is_blocked("ads.example.com"));
}

#[test]
fn blocklist_missing_file_returns_empty() {
    assert!(blocklist::load(None).is_empty());
}

#[test]
fn a_block_file_that_can_be_read_is_parsed() {
    let list = blocklist::load(Some("a.test\r\n*.b.test\r\n*.\r\n"));
    // A wildcard counts as its domain and as the names below it; what is left of
    // a lone `*.` is a domain.
    assert_eq!(list.len(), 4);
    assert!(list.is_blocked("a.test"));
    assert!(list.is_blocked("x.b.test"));
    assert!(!list.is_empty());
}

#[test]
fn a_domain_given_twice_counts_once() {
    assert_eq!(blocklist::parse("a.test\nA.TEST\na.test.\n").len(), 1);
}

#[test]
fn parse_leases() {
    let text = "\
aa:bb:cc:dd:ee:ff 192.168.4.23 phone 1780310000
11:22:33:44:55:66 192.168.4.42 laptop 1780310000
";
    let map = leases::parse(text);
    assert_eq!(map.get("phone").map(|l| l.ip), Some(Ipv4Addr::new(192, 168, 4, 23)));
    assert_eq!(map.get("laptop").map(|l| l.ip), Some(Ipv4Addr::new(192, 168, 4, 42)));
}

#[test]
fn skip_broken_lines() {
    let text = "\
garbage
aa:bb:cc:dd:ee:ff not-an-ip phone 1
11:22:33:44:55:66 192.168.4.42 laptop 1780310000
";
    let map = leases::parse(text);
    assert_eq!(map.len(), 1);
    assert_eq!(map.get("laptop").map(|l| l.ip), Some(Ipv4Addr::new(192, 168, 4, 42)));
}

#[test]
fn leases_missing_file_returns_empty() {
    let map = leases::load(None, 0);
    assert!(map.is_empty());
}

#[test]
fn expired_leases_are_not_read() {
    let text = "m 10.0.0.1 old 100\nm 10.0.0.2 new 101\nm 10.0.0.3 ever 0\nm 10.0.0.4 bare\n";
    let map = leases::parse_at(text, 100);
    assert!(map.get("old").is_none());
    assert_eq!(map.get("new").map(|l| l.expires_at), Some(101));
    assert_eq!(map.get("ever").map(|l| l.expires_at), Some(0));
    assert_eq!(map.get("bare").map(|l| l.expires_at), Some(0));
    assert_eq!(map.len(), 3);
}

#[test]
fn lease_names_are_in_lower_case_and_not_a_star() {
    let map = leases::parse("# c\nm 10.0.0.1 PHONE 0\nm 10.0.0.2 * 0\n");
    assert_eq!(map.len(), 1);
    assert_eq!(map.get("phone").unwrap().hostname, "phone");
}

#[test]
fn the_last_lease_of_a_host_counts() {
    let map = leases::parse("m 10.0.0.1 tv 0\nm 10.0.0.2 tv 0\n");
    assert_eq!(map.get("tv").map(|l| l.ip), Some(Ipv4Addr::new(10, 0, 0, 2)));
}

#[test]
fn a_lease_holds_until_it_expires() {
    let lease = Lease {
        ip: Ipv4Addr::new(10, 0, 0, 1),
        hostname: "tv".to_string(),
        expires_at: 50,
    };
    assert!(lease.holds_at(49));
    assert!(!lease.holds_at(50));
    let mut table = LeaseTable::new();
    assert!(table.is_empty());
    table.insert(lease);
    assert_eq!(table.len(), 1);
}

#[test]
fn addresses_are_four_octets() {
    let read = |s: &str| parse_ipv4(&s.chars().collect::<Vec<char>>());
    assert_eq!(read("192.168.4.1"), Some(Ipv4Addr::new(192, 168, 4, 1)));
    assert_eq!(read("0.0.0.0").map(|a| a.octets()), Some([0, 0, 0, 0]));
    assert_eq!(read("255.255.255.255"), Some(Ipv4Addr::new(255, 255, 255, 255)));
    assert_eq!(read("256.0.0.1"), None);
    assert_eq!(read("1.2.3"), None);
    assert_eq!(read("1.2.3.4.5"), None);
    assert_eq!(read("1.2.3."), None);
    assert_eq!(read("01.2.3.4"), None);
    assert_eq!(read("1.2.3.4 "), None);
    assert_eq!(read("+1.2.3.4"), None);
    assert_eq!(read(""), None);
}

#[test]
fn looks_are_two_seconds_apart() {
    let mut watch = FileWatch::new(Some("/x".to_string()), 10);
    assert_eq!(watch.check(9 + RELOAD_INTERVAL), None);
    assert_eq!(watch.check(10 + RELOAD_INTERVAL), Some("/x".to_string()));
    assert_eq!(watch.check(11 + RELOAD_INTERVAL), None);
    assert_eq!(watch.check(10 + 2 * RELOAD_INTERVAL), Some("/x".to_string()));
    assert_eq!(watch.check(0), None);
    assert_eq!(FileWatch::new(None, 0).check(10 * RELOAD_INTERVAL), None);
}

#[test]
fn another_modification_time_is_a_change() {
    let mut store = LeaseStore::new(Some("/leases".to_string()), 0);
    assert!(!store.watch.changed(None));
    assert!(store.watch.changed(Some(5)));
    store.reload(Some(5), Some("m 10.0.0.1 tv 0\n"), 0);
    assert!(!store.watch.changed(Some(5)));
    assert!(store.watch.changed(Some(6)));
    assert!(store.watch.changed(None));
    assert_eq!(store.table.len(), 1);
    store.reload(None, None, 0);
    assert!(store.table.is_empty());
}

#[test]
fn the_block_file_is_read_again() {
    let mut store = BlockStore::new(Some("/block".to_string()), 0);
    assert_eq!(store.maybe_reload(RELOAD_INTERVAL), Some("/block".to_string()));
    store.reload(Some(1), Some("a.test\n"));
    assert!(store.list.is_blocked("a.test"));
    store.reload(Some(2), Some("b.test\n"));
    assert!(!store.list.is_blocked("a.test"));
    assert!(store.list.is_blocked("b.test"));
}

#[test]
fn the_calendar_has_passed_2020() {
    assert!(unix_now() > 1_577_836_800);
}

#[test]
fn a_clock_stops_at_its_largest_reading() {
    let largest = u64::MAX as u128;
    assert_eq!(reading_of(0), 0);
    assert_eq!(reading_of(1_000_000_001), 1_000_000_001);
    assert_eq!(reading_of(largest - 1), u64::MAX - 1);
    assert_eq!(reading_of(largest), u64::MAX);
    assert_eq!(reading_of(largest + 1), u64::MAX);
}

#[test]
fn a_moment_before_the_epoch_counts_as_the_epoch() {
    assert_eq!(seconds_of(Some(1_780_310_000)), 1_780_310_000);
    assert_eq!(seconds_of(None), 0);
}
