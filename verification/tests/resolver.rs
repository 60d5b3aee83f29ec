//! The resolver and the upstream servers.

use nanodns::addr::Ipv4Addr;
use nanodns::config::{BlockResponse, Config, StaticRecord};
use nanodns::dns::{Header, Query, Question, CLASS_IN, RCODE_NXDOMAIN, RCODE_SERVFAIL, TYPE_A};
use nanodns::forward::{forward, Attempt, ForwardError};
use nanodns::resolver::{Resolver, Source, Stage, Step};
use nanodns::watch::RELOAD_INTERVAL;

const SECOND: u64 = 1_000_000_000;

fn query(name: &str, qtype: u16) -> Query {
    Query {
        header: Header {
            id: 1,
            flags: 0x0100,
            qdcount: 1,
            ancount: 0,
            nscount: 0,
            arcount: 0,
        },
        question: Question {
            name: name.to_string(),
            qtype,
            qclass: CLASS_IN,
        },
    }
}

fn answer_ip(resp: &[u8]) -> Ipv4Addr {
    let n = resp.len();
    Ipv4Addr::new(resp[n - 4], resp[n - 3], resp[n - 2], resp[n - 1])
}

fn rcode(resp: &[u8]) -> u8 {
    (u16::from_be_bytes([resp[2], resp[3]]) & 0x000F) as u8
}

fn base_config() -> Config {
    let mut cfg = Config::default();
    cfg.domain = "lan".to_string();
    cfg.router_name = "router".to_string();
    cfg.router_ip = Ipv4Addr::new(192, 168, 4, 1);
    cfg.records = vec![StaticRecord {
        name: "admin.lan".to_string(),
        ip: Ipv4Addr::new(192, 168, 4, 5),
        ttl: 60,
    }];
    cfg
}

/// Give the resolver a lease, read before it expired.
fn insert_lease(r: &mut Resolver, host: &str, ip: Ipv4Addr, expires_at: u64) {
    let [a, b, c, d] = ip.octets();
    let line = format!("aa:bb:cc:dd:ee:ff {}.{}.{}.{} {} {}", a, b, c, d, host, expires_at);
    r.reload_leases(None, Some(line.as_str()), 0);
}

fn set_blocklist(r: &mut Resolver, text: &str) {
    r.reload_blocklist(None, Some(text));
}

fn reply(step: Step) -> Vec<u8> {
    match step {
        Step::Reply(resp, _) => resp,
        Step::CheckLeases(_) => panic!("wants the lease file"),
        Step::CheckBlocklist(_) => panic!("wants the block file"),
        Step::Forward => panic!("forwards"),
    }
}

fn resolve(r: &mut Resolver, q: &Query) -> Vec<u8> {
    reply(r.resolve(q, Stage::Begin))
}

#[test]
fn resolve_router() {
    let mut r = Resolver::new(base_config());
    let resp = resolve(&mut r, &query("router.lan", TYPE_A));
    assert_eq!(answer_ip(&resp), Ipv4Addr::new(192, 168, 4, 1));
    let flags = u16::from_be_bytes([resp[2], resp[3]]);
    assert_eq!(flags & 0x0400, 0x0400);
}

#[test]
fn resolve_static_record() {
    let mut r = Resolver::new(base_config());
    let resp = resolve(&mut r, &query("admin.lan", TYPE_A));
    assert_eq!(answer_ip(&resp), Ipv4Addr::new(192, 168, 4, 5));
}

#[test]
fn resolve_lease_hostname() {
    let mut r = Resolver::new(base_config());
    insert_lease(&mut r, "phone", Ipv4Addr::new(192, 168, 4, 23), 0);
    let resp = resolve(&mut r, &query("phone.lan", TYPE_A));
    assert_eq!(answer_ip(&resp), Ipv4Addr::new(192, 168, 4, 23));
}

#[test]
fn expired_lease_is_nxdomain() {
    let mut r = Resolver::new(base_config());
    insert_lease(&mut r, "ghostphone", Ipv4Addr::new(192, 168, 4, 99), 1);
    let resp = resolve(&mut r, &query("ghostphone.lan", TYPE_A));
    assert_eq!(rcode(&resp), RCODE_NXDOMAIN);
}

#[test]
fn unknown_local_zone_is_nxdomain() {
    let mut r = Resolver::new(base_config());
    let resp = resolve(&mut r, &query("ghost.lan", TYPE_A));
    assert_eq!(rcode(&resp), RCODE_NXDOMAIN);
}

#[test]
fn blocked_domain_returns_sinkhole_ip() {
    let mut r = Resolver::new(base_config());
    set_blocklist(&mut r, "ads.doubleclick.net\n");
    let resp = resolve(&mut r, &query("ads.doubleclick.net", TYPE_A));
    assert_eq!(answer_ip(&resp), Ipv4Addr::new(0, 0, 0, 0));
}

#[test]
fn blocked_domain_can_return_nxdomain() {
    let mut cfg = base_config();
    cfg.block_response = BlockResponse::NxDomain;
    let mut r = Resolver::new(cfg);
    set_blocklist(&mut r, "*.adserver.com\n");
    let resp = resolve(&mut r, &query("track.adserver.com", TYPE_A));
    assert_eq!(rcode(&resp), RCODE_NXDOMAIN);
}

#[test]
fn local_record_beats_blocklist() {
    let mut r = Resolver::new(base_config());
    set_blocklist(&mut r, "admin.lan\n");
    let resp = resolve(&mut r, &query("admin.lan", TYPE_A));
    assert_eq!(answer_ip(&resp), Ipv4Addr::new(192, 168, 4, 5));
}

#[test]
fn captive_returns_captive_ip() {
    let mut cfg = base_config();
    cfg.captive = true;
    cfg.captive_ip = Ipv4Addr::new(10, 0, 0, 1);
    let mut r = Resolver::new(cfg);
    let resp = resolve(&mut r, &query("example.com", TYPE_A));
    assert_eq!(answer_ip(&resp), Ipv4Addr::new(10, 0, 0, 1));
}

#[test]
fn captive_mode_forwards_other_types() {
    let mut cfg = base_config();
    cfg.captive = true;
    let mut r = Resolver::new(cfg);
    assert!(matches!(r.resolve(&query("router.lan", 28), Stage::Begin), Step::Forward));
    let mut chaos = query("router.lan", TYPE_A);
    chaos.question.qclass = 3;
    assert!(matches!(r.resolve(&chaos, Stage::Begin), Step::Forward));
}

#[test]
fn unknown_names_are_forwarded() {
    let mut r = Resolver::new(base_config());
    assert!(matches!(r.resolve(&query("example.com", TYPE_A), Stage::Begin), Step::Forward));
    assert!(matches!(r.resolve(&query("ghost.lan", 28), Stage::Begin), Step::Forward));
    assert!(matches!(r.resolve(&query("atlan", TYPE_A), Stage::Begin), Step::Forward));
}

#[test]
fn blocked_names_are_not_forwarded_for_other_types() {
    let mut r = Resolver::new(base_config());
    set_blocklist(&mut r, "ads.test\n");
    let resp = resolve(&mut r, &query("ads.test", 28));
    assert_eq!(rcode(&resp), RCODE_NXDOMAIN);
    assert_eq!(r.blocked_entries(), 1);
    assert!(r.is_blocked("ads.test"));
    assert!(!r.is_blocked("test"));
}

#[test]
fn the_zone_itself_is_local() {
    let mut r = Resolver::new(base_config());
    assert!(r.is_local_zone("lan"));
    assert!(r.is_local_zone("a.lan"));
    assert!(!r.is_local_zone("alan"));
    let resp = resolve(&mut r, &query("lan", TYPE_A));
    assert_eq!(rcode(&resp), RCODE_NXDOMAIN);
}

#[test]
fn the_first_record_of_a_name_counts() {
    let mut cfg = base_config();
    cfg.records.push(StaticRecord {
        name: "admin.lan".to_string(),
        ip: Ipv4Addr::new(1, 1, 1, 1),
        ttl: 1,
    });
    cfg.records.push(StaticRecord {
        name: "router.lan".to_string(),
        ip: Ipv4Addr::new(2, 2, 2, 2),
        ttl: 2,
    });
    let r = Resolver::new(cfg);
    assert_eq!(r.local_a("admin.lan", 0), Some((Ipv4Addr::new(192, 168, 4, 5), 60)));
    assert_eq!(r.local_a("router.lan", 0), Some((Ipv4Addr::new(192, 168, 4, 1), 60)));
    assert_eq!(r.local_a("nobody.lan", 0), None);
    assert_eq!(r.config().domain, "lan");
}

#[test]
fn leases_hold_until_they_expire() {
    let mut r = Resolver::new(base_config());
    insert_lease(&mut r, "tv", Ipv4Addr::new(10, 0, 0, 7), 100);
    assert_eq!(r.local_a("tv.lan", 99), Some((Ipv4Addr::new(10, 0, 0, 7), 60)));
    assert_eq!(r.local_a("tv.lan", 100), None);
}

#[test]
fn no_upstream_reply_is_servfail() {
    let mut r = Resolver::new(base_config());
    let resp = r.forward_or_servfail(&query("example.com", TYPE_A), None);
    assert_eq!(rcode(&resp), RCODE_SERVFAIL);
    let flags = u16::from_be_bytes([resp[2], resp[3]]);
    assert_eq!(flags & 0x0400, 0);
}

#[test]
fn replies_are_found_again_under_the_new_id() {
    let mut cfg = base_config();
    cfg.cache = true;
    cfg.cache_ttl = 60;
    let mut r = Resolver::new(cfg);
    let q = query("example.com", TYPE_A);
    let sent = r.forward_or_servfail_at(&q, Some(vec![0, 1, 42, 43]), 0);
    assert_eq!(sent, vec![0, 1, 42, 43]);
    let mut again = query("example.com", TYPE_A);
    again.header.id = 0xABCD;
    let resp = reply(r.resolve_at(&again, Stage::Begin, 59 * SECOND, 0));
    assert_eq!(resp, vec![0xAB, 0xCD, 42, 43]);
    let late = r.resolve_at(&again, Stage::Begin, 60 * SECOND, 0);
    assert!(matches!(late, Step::Forward));
    let other = r.resolve_at(&query("example.com", 28), Stage::Begin, SECOND, 0);
    assert!(matches!(other, Step::Forward));
}

#[test]
fn blocking_hides_what_is_cached() {
    let mut cfg = base_config();
    cfg.cache = true;
    let mut r = Resolver::new(cfg);
    let q = query("ads.test", TYPE_A);
    r.forward_or_servfail(&q, Some(vec![0, 1, 9]));
    set_blocklist(&mut r, "ads.test\n");
    assert_eq!(answer_ip(&resolve(&mut r, &q)), Ipv4Addr::new(0, 0, 0, 0));
}

#[test]
fn without_a_cache_all_is_forwarded_again() {
    let mut r = Resolver::new(base_config());
    let q = query("example.com", TYPE_A);
    r.forward_or_servfail(&q, Some(vec![0, 1, 42, 43]));
    assert!(matches!(r.resolve(&q, Stage::Begin), Step::Forward));
}

#[test]
fn files_are_looked_at_on_the_way() {
    let mut cfg = base_config();
    cfg.lease_file = Some("/leases".to_string());
    cfg.block_file = Some("/block".to_string());
    let mut r = Resolver::new(cfg);
    let q = query("tv.lan", TYPE_A);
    let now = 100 * SECOND;
    match r.resolve_at(&q, Stage::Begin, now, 0) {
        Step::CheckLeases(path) => assert_eq!(path, "/leases"),
        _ => panic!("does not want the lease file"),
    }
    match r.resolve_at(&q, Stage::LeasesChecked, now, 0) {
        Step::CheckBlocklist(path) => assert_eq!(path, "/block"),
        _ => panic!("does not want the block file"),
    }
    let resp = reply(r.resolve_at(&q, Stage::BlocklistChecked, now, 0));
    assert_eq!(rcode(&resp), RCODE_NXDOMAIN);
    reply(r.resolve_at(&q, Stage::Begin, now + RELOAD_INTERVAL - 1, 0));
    let due = r.resolve_at(&q, Stage::Begin, now + RELOAD_INTERVAL, 0);
    assert!(matches!(due, Step::CheckLeases(_)));
}

#[test]
fn a_file_is_read_when_its_time_changes() {
    let mut r = Resolver::new(base_config());
    assert!(r.leases_changed(Some(7)));
    r.reload_leases(Some(7), Some("m 10.0.0.7 tv 0\n"), 0);
    assert!(!r.leases_changed(Some(7)));
    assert!(r.leases_changed(None));
    assert!(r.blocklist_changed(Some(7)));
    r.reload_blocklist(Some(7), None);
    assert!(!r.blocklist_changed(Some(7)));
    assert_eq!(r.blocked_entries(), 0);
}

#[test]
fn the_first_reply_counts() {
    let servers = vec!["a:53".to_string(), "b:53".to_string()];
    assert!(matches!(forward(&servers, 0, None), Attempt::Ask(0)));
    assert!(matches!(forward(&servers, 1, None), Attempt::Ask(1)));
    match forward(&servers, 1, Some(vec![5])) {
        Attempt::Reply(response) => assert_eq!(response, vec![5]),
        _ => panic!("does not take the reply"),
    }
}

#[test]
fn asking_fails_where_nobody_replies() {
    let servers = vec!["a:53".to_string()];
    assert!(matches!(
        forward(&servers, 1, None),
        Attempt::Fail(ForwardError::AllFailed)
    ));
    assert!(matches!(forward(&[], 0, None), Attempt::Fail(ForwardError::NoUpstream)));
}

#[test]
fn responses_say_where_they_come_from() {
    let source = |r: &mut Resolver, name: &str| match r.resolve(&query(name, TYPE_A), Stage::Begin) {
        Step::Reply(_, source) => source,
        _ => panic!("does not reply"),
    };
    let mut cfg = base_config();
    cfg.cache = true;
    let mut r = Resolver::new(cfg);
    set_blocklist(&mut r, "ads.test\n");
    r.forward_or_servfail(&query("example.com", TYPE_A), Some(vec![0, 1]));
    assert_eq!(source(&mut r, "admin.lan"), Source::Local(Ipv4Addr::new(192, 168, 4, 5)));
    assert_eq!(source(&mut r, "ads.test"), Source::Blocked);
    assert_eq!(source(&mut r, "example.com"), Source::Cached);
    assert_eq!(source(&mut r, "ghost.lan"), Source::NoRecord);
    let mut cfg = base_config();
    cfg.captive = true;
    cfg.captive_ip = Ipv4Addr::new(10, 0, 0, 1);
    let mut r = Resolver::new(cfg);
    assert_eq!(source(&mut r, "ads.test"), Source::Captive(Ipv4Addr::new(10, 0, 0, 1)));
}
