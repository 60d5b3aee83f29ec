//! The configuration and the arguments.

use nanodns::addr::Ipv4Addr;
use nanodns::cli::{ignored_args, parse_args, IgnoredArg, Invocation};
use nanodns::config::{
    load_config, parse_bool, parse_record, skipped_lines, BlockResponse, Config, ConfigError,
    RecordError, SkipReason, StaticRecord,
};

#[test]
fn defaults_when_empty() {
    let cfg = Config::parse("").unwrap();
    assert_eq!(cfg.listen, "0.0.0.0:5353");
    assert_eq!(cfg.domain, "lan");
    assert_eq!(cfg.upstream, vec!["1.1.1.1:53".to_string()]);
    assert!(!cfg.cache);
}

#[test]
fn parse_full_config() {
    let text = "\
listen=0.0.0.0:5353
domain=lan
router_name=router
router_ip=192.168.4.1
upstream=1.1.1.1:53
upstream=8.8.8.8:53
lease_file=/var/lib/nanodhcp/leases.txt
cache=true
captive=false
captive_ip=192.168.4.1
record=admin.lan,A,192.168.4.1,60
record=router.lan,A,192.168.4.1,60
";
    let cfg = Config::parse(text).unwrap();
    assert_eq!(cfg.domain, "lan");
    assert_eq!(cfg.router_fqdn(), "router.lan");
    assert_eq!(cfg.upstream, vec!["1.1.1.1:53", "8.8.8.8:53"]);
    assert_eq!(
        cfg.lease_file.as_deref(),
        Some("/var/lib/nanodhcp/leases.txt")
    );
    assert!(cfg.cache);
    assert!(!cfg.captive);
    assert_eq!(cfg.records.len(), 2);
    assert_eq!(
        cfg.records[0],
        StaticRecord {
            name: "admin.lan".to_string(),
            ip: Ipv4Addr::new(192, 168, 4, 1),
            ttl: 60,
        }
    );
}

#[test]
fn comments_and_blank_lines_ignored() {
    let text = "# комментарий\n\n   \ndomain=home\n";
    let cfg = Config::parse(text).unwrap();
    assert_eq!(cfg.domain, "home");
}

#[test]
fn bad_record_does_not_fail_parse() {
    let text = "record=broken\nrecord=ok.lan,A,10.0.0.1,30\n";
    let cfg = Config::parse(text).unwrap();
    assert_eq!(cfg.records.len(), 1);
    assert_eq!(cfg.records[0].name, "ok.lan");
}

#[test]
fn documented_defaults() {
    let cfg = Config::default();
    assert_eq!(cfg.router_name, "router");
    assert_eq!(cfg.router_ip, Ipv4Addr::new(192, 168, 4, 1));
    assert_eq!(cfg.cache_max_entries, 1024);
    assert_eq!(cfg.cache_ttl, 60);
    assert_eq!(cfg.max_inflight, 64);
    assert_eq!(cfg.block_file, None);
    assert_eq!(cfg.block_response, BlockResponse::Ip(Ipv4Addr::new(0, 0, 0, 0)));
    assert!(!cfg.captive);
}

#[test]
fn limits_and_blocking_are_read() {
    let cfg = Config::parse(
        "cache_max_entries=10\ncache_ttl=5\nmax_inflight=3\nblock_file=/b\nblock_response=nxDomain\n",
    )
    .unwrap();
    assert_eq!(cfg.cache_max_entries, 10);
    assert_eq!(cfg.cache_ttl, 5);
    assert_eq!(cfg.max_inflight, 3);
    assert_eq!(cfg.block_file.as_deref(), Some("/b"));
    assert_eq!(cfg.block_response, BlockResponse::NxDomain);
    let cfg = Config::parse("block_response=10.0.0.9").unwrap();
    assert_eq!(cfg.block_response, BlockResponse::Ip(Ipv4Addr::new(10, 0, 0, 9)));
}

#[test]
fn names_are_normalized() {
    let cfg = Config::parse("domain=Home.\nrouter_name=GW.\nrecord=NAS.Home.,a,10.0.0.2,5\n").unwrap();
    assert_eq!(cfg.domain, "home");
    assert_eq!(cfg.router_name, "gw");
    assert_eq!(cfg.router_fqdn(), "gw.home");
    assert_eq!(cfg.records[0].name, "nas.home");
}

#[test]
fn the_last_value_counts() {
    let cfg = Config::parse("domain=a\nlisten=x\ndomain=b\n").unwrap();
    assert_eq!(cfg.domain, "b");
    assert_eq!(cfg.listen, "x");
}

#[test]
fn lines_that_say_nothing_are_ignored() {
    let with = Config::parse("unknown=1\nno equals sign\n domain = home \n#domain=x\n").unwrap();
    assert_eq!(with.domain, "home");
    assert_eq!(with.listen, "0.0.0.0:5353");
}

#[test]
fn a_value_may_hold_an_equals_sign() {
    let cfg = Config::parse("lease_file=/a=b\n").unwrap();
    assert_eq!(cfg.lease_file.as_deref(), Some("/a=b"));
}

#[test]
fn unreadable_values_are_refused() {
    assert_eq!(Config::parse("router_ip=x").err(), Some(ConfigError::RouterIp));
    assert_eq!(
        Config::parse("cache_max_entries=-1").err(),
        Some(ConfigError::CacheMaxEntries)
    );
    assert_eq!(Config::parse("cache_ttl=").err(), Some(ConfigError::CacheTtl));
    assert_eq!(Config::parse("max_inflight=many").err(), Some(ConfigError::MaxInflight));
    assert_eq!(
        Config::parse("block_response=refuse").err(),
        Some(ConfigError::BlockResponse)
    );
    assert_eq!(
        Config::parse("captive_ip=1.2.3.256").err(),
        Some(ConfigError::CaptiveIp)
    );
}

#[test]
fn unreadable_records_say_why() {
    assert_eq!(parse_record("a,A,1.2.3.4").err(), Some(RecordError::Format));
    assert_eq!(parse_record("a,AAAA,1.2.3.4,5").err(), Some(RecordError::Type));
    assert_eq!(parse_record("a,A,1.2.3,5").err(), Some(RecordError::Address));
    assert_eq!(parse_record("a,A,1.2.3.4,4294967296").err(), Some(RecordError::Ttl));
    let record = parse_record(" X.lan , a , 1.2.3.4 , 4294967295 ").unwrap();
    assert_eq!(record.name, "x.lan");
    assert_eq!(record.ttl, 4294967295);
}

#[test]
fn four_words_say_yes() {
    for v in ["true", "1", "YES", "On"] {
        assert!(parse_bool(v));
    }
    for v in ["false", "0", "no", "", "y", "true "] {
        assert!(!parse_bool(v));
    }
}

fn args(list: &[&str]) -> Vec<String> {
    list.iter().map(|s| s.to_string()).collect()
}

#[test]
fn the_path_of_the_configuration() {
    let path = |list: &[&str]| match parse_args(&args(list)) {
        Invocation::Serve(p) => p,
        Invocation::Help => panic!("asks for help"),
    };
    assert_eq!(path(&[]), "/etc/nanodns/config");
    assert_eq!(path(&["--config", "./c"]), "./c");
    assert_eq!(path(&["--config"]), "/etc/nanodns/config");
    assert_eq!(path(&["what", "--config", "./c", "--help"]), "./c");
    assert_eq!(path(&["--config", "--help"]), "--help");
}

#[test]
fn help_is_asked_for() {
    assert!(matches!(parse_args(&args(&["-h"])), Invocation::Help));
    assert!(matches!(parse_args(&args(&["x", "--help"])), Invocation::Help));
}

#[test]
fn the_default_is_loaded_where_there_is_no_other() {
    assert_eq!(load_config(None).domain, "lan");
    assert_eq!(load_config(Some("domain=home\n")).domain, "home");
    assert_eq!(load_config(Some("domain=home\nrouter_ip=x\n")).domain, "lan");
}

#[test]
fn skipped_lines_are_listed() {
    let text = "# c\n\n  lost line \nunknown=1\nrecord= a,B,1.2.3.4,5 \r\nrecord=b,A,1.2.3.4,5\nrecord=x";
    let skipped = skipped_lines(text);
    assert_eq!(skipped.len(), 3);
    assert_eq!(skipped[0].number, 3);
    assert_eq!(skipped[0].text, "lost line");
    assert_eq!(skipped[0].reason, SkipReason::NoEquals);
    assert_eq!(skipped[1].number, 5);
    assert_eq!(skipped[1].text, "a,B,1.2.3.4,5");
    assert_eq!(skipped[1].reason, SkipReason::BadRecord(RecordError::Type));
    assert_eq!(skipped[2].number, 7);
    assert_eq!(skipped[2].text, "x");
    assert_eq!(skipped[2].reason, SkipReason::BadRecord(RecordError::Format));
    assert!(skipped_lines("").is_empty());
}

#[test]
fn ignored_arguments_are_listed() {
    let ignored = ignored_args(&args(&["what", "-x", "--config", "./c", "later"]));
    assert_eq!(ignored.len(), 2);
    assert!(matches!(&ignored[0], IgnoredArg::Unknown(a) if a == "what"));
    assert!(matches!(&ignored[1], IgnoredArg::Unknown(a) if a == "-x"));
    let ignored = ignored_args(&args(&["--config"]));
    assert_eq!(ignored.len(), 1);
    assert!(matches!(ignored[0], IgnoredArg::ConfigWithoutValue));
    assert!(ignored_args(&args(&["-h", "later"])).is_empty());
    assert!(ignored_args(&[]).is_empty());
}
