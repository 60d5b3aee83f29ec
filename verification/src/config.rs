//! The configuration, in lines of the form `key=value`.
//!
//! Empty lines and lines that start with `#` are ignored, and so are lines
//! without `=` and keys that are not known. Of a key that is given twice the last
//! value counts; `upstream` and `record` may be given any number of times.

use vstd::prelude::*;
use vstd::hash_map::StringHashMap;
use crate::addr::Ipv4Addr;
use crate::addr;
use crate::number;
use crate::text;

verus! {

/// A static A record.
#[derive(Debug, Clone, PartialEq)]
pub struct StaticRecord {
    pub name: String,
    pub ip: Ipv4Addr,
    pub ttl: u32,
}

/// How a query for a blocked domain is answered.
#[derive(Debug, Clone, Copy, PartialEq, Eq, Structural)]
pub enum BlockResponse {
    /// The name does not exist.
    NxDomain,
    /// The name has this address.
    Ip(Ipv4Addr),
}

/// The configuration of the server.
#[derive(Debug, Clone)]
pub struct Config {
    /// The address and port to listen on.
    pub listen: String,
    /// The local zone.
    pub domain: String,
    pub router_name: String,
    pub router_ip: Ipv4Addr,
    /// The upstream servers, in the order in which they are asked.
    pub upstream: Vec<String>,
    pub lease_file: Option<String>,
    /// Whether responses are cached.
    pub cache: bool,
    pub cache_max_entries: usize,
    /// How long a response is cached, in seconds.
    pub cache_ttl: u64,
    /// How many requests may be worked on at the same time.
    pub max_inflight: usize,
    pub block_file: Option<String>,
    pub block_response: BlockResponse,
    pub captive: bool,
    pub captive_ip: Ipv4Addr,
    pub records: Vec<StaticRecord>,
}

/// Why a configuration is refused: the value of this key cannot be read.
#[derive(Debug, Clone, Copy, PartialEq, Eq, Structural)]
pub enum ConfigError {
    RouterIp,
    CacheMaxEntries,
    CacheTtl,
    MaxInflight,
    BlockResponse,
    CaptiveIp,
}

/// Why a static record cannot be read.
#[derive(Debug, Clone, Copy, PartialEq, Eq, Structural)]
pub enum RecordError {
    /// It is not of the form `name,A,ip,ttl`.
    Format,
    /// Its type is not A.
    Type,
    /// Its address cannot be read.
    Address,
    /// Its time to live cannot be read.
    Ttl,
}

/// Why a line of the configuration is skipped.
#[derive(Debug, Clone, Copy, PartialEq, Eq, Structural)]
pub enum SkipReason {
    /// It has no `=`.
    NoEquals,
    /// It is a static record that cannot be read.
    BadRecord(RecordError),
}

/// A line of the configuration that is skipped.
#[derive(Debug)]
pub struct SkippedLine {
    /// The number of the line; the first is 1.
    pub number: usize,
    /// The line itself, or the value of the record.
    pub text: String,
    pub reason: SkipReason,
}

/// What a [`SkippedLine`] holds.
pub struct SkippedLineView {
    pub number: nat,
    pub text: Seq<char>,
    pub reason: SkipReason,
}

impl View for SkippedLine {
    type V = SkippedLineView;

    open spec fn view(&self) -> SkippedLineView {
        SkippedLineView { number: self.number as nat, text: self.text@, reason: self.reason }
    }
}

/// What a [`StaticRecord`] holds.
pub struct RecordView {
    pub name: Seq<char>,
    pub ip: Ipv4Addr,
    pub ttl: u32,
}

/// What a [`Config`] holds.
#[verifier::ext_equal]
pub struct ConfigView {
    pub listen: Seq<char>,
    pub domain: Seq<char>,
    pub router_name: Seq<char>,
    pub router_ip: Ipv4Addr,
    pub upstream: Seq<Seq<char>>,
    pub lease_file: Option<Seq<char>>,
    pub cache: bool,
    pub cache_max_entries: nat,
    pub cache_ttl: nat,
    pub max_inflight: nat,
    pub block_file: Option<Seq<char>>,
    pub block_response: BlockResponse,
    pub captive: bool,
    pub captive_ip: Ipv4Addr,
    pub records: Seq<RecordView>,
}

impl View for StaticRecord {
    type V = RecordView;

    open spec fn view(&self) -> RecordView {
        RecordView { name: self.name@, ip: self.ip, ttl: self.ttl }
    }
}

impl View for Config {
    type V = ConfigView;

    open spec fn view(&self) -> ConfigView {
        ConfigView {
            listen: self.listen@,
            domain: self.domain@,
            router_name: self.router_name@,
            router_ip: self.router_ip,
            upstream: self.upstream@.map_values(|s: String| s@),
            lease_file: text_of(self.lease_file),
            cache: self.cache,
            cache_max_entries: self.cache_max_entries as nat,
            cache_ttl: self.cache_ttl as nat,
            max_inflight: self.max_inflight as nat,
            block_file: text_of(self.block_file),
            block_response: self.block_response,
            captive: self.captive,
            captive_ip: self.captive_ip,
            records: self.records@.map_values(|r: StaticRecord| r@),
        }
    }
}

/// What an optional string holds.
pub open spec fn text_of(s: Option<String>) -> Option<Seq<char>> {
    match s {
        Some(t) => Some(t@),
        None => None,
    }
}

// ---------------------------------------------------------------------------
// What a configuration says
// ---------------------------------------------------------------------------

/// The configuration where nothing is given.
pub open spec fn default_config() -> ConfigView {
    ConfigView {
        listen: "0.0.0.0:5353"@,
        domain: "lan"@,
        router_name: "router"@,
        router_ip: Ipv4Addr { a: 192, b: 168, c: 4, d: 1 },
        upstream: seq!["1.1.1.1:53"@],
        lease_file: None,
        cache: false,
        cache_max_entries: 1024,
        cache_ttl: 60,
        max_inflight: 64,
        block_file: None,
        block_response: BlockResponse::Ip(Ipv4Addr { a: 0, b: 0, c: 0, d: 0 }),
        captive: false,
        captive_ip: Ipv4Addr { a: 192, b: 168, c: 4, d: 1 },
        records: seq![],
    }
}

/// The key and the value on a line, if it has them.
pub open spec fn assignment_of(line: Seq<char>) -> Option<(Seq<char>, Seq<char>)> {
    let l = text::trimmed(line);
    let i = text::first_at(l, '=');
    if l.len() == 0 || l[0] == '#' || i == l.len() {
        None
    } else {
        Some((text::trimmed(l.take(i)), text::trimmed(l.skip(i + 1))))
    }
}

/// The values that the lines give to a key, in order.
pub open spec fn values_of(lines: Seq<Seq<char>>, key: Seq<char>) -> Seq<Seq<char>>
    decreases lines.len(),
{
    if lines.len() == 0 {
        seq![]
    } else {
        let before = values_of(lines.drop_last(), key);
        match assignment_of(lines.last()) {
            Some((k, v)) => if k == key {
                before.push(v)
            } else {
                before
            },
            None => before,
        }
    }
}

/// The value that counts: the last one, if there is any.
pub open spec fn setting(lines: Seq<Seq<char>>, key: Seq<char>) -> Option<Seq<char>> {
    let values = values_of(lines, key);
    if values.len() == 0 {
        None
    } else {
        Some(values.last())
    }
}

/// Whether a value says yes.
pub open spec fn says_yes(v: Seq<char>) -> bool {
    let l = text::lower(v);
    l == "true"@ || l == "1"@ || l == "yes"@ || l == "on"@
}

/// The static record that a value describes: `name,A,ip,ttl`.
pub open spec fn record_of(value: Seq<char>) -> Result<RecordView, RecordError> {
    let parts = text::split(value, ',');
    if parts.len() != 4 {
        Err(RecordError::Format)
    } else if text::lower(text::trimmed(parts[1])) != seq!['a'] {
        Err(RecordError::Type)
    } else {
        match (addr::ipv4(text::trimmed(parts[2])), number::number(
            text::trimmed(parts[3]),
            u32::MAX as nat,
        )) {
            (None, _) => Err(RecordError::Address),
            (_, None) => Err(RecordError::Ttl),
            (Some(ip), Some(ttl)) => Ok(
                RecordView {
                    name: text::normalized(text::trimmed(parts[0])),
                    ip,
                    ttl: ttl as u32,
                },
            ),
        }
    }
}

/// The records among values that describe one or do not.
pub open spec fn records_of(values: Seq<Seq<char>>) -> Seq<RecordView>
    decreases values.len(),
{
    if values.len() == 0 {
        seq![]
    } else {
        let before = records_of(values.drop_last());
        match record_of(values.last()) {
            Ok(record) => before.push(record),
            Err(_) => before,
        }
    }
}

/// The text of a setting.
pub open spec fn text_value(v: Option<Seq<char>>, default: Seq<char>) -> Seq<char> {
    match v {
        Some(t) => t,
        None => default,
    }
}

/// The name in a setting, as names are compared.
pub open spec fn name_value(v: Option<Seq<char>>, default: Seq<char>) -> Seq<char> {
    match v {
        Some(t) => text::normalized(t),
        None => default,
    }
}

/// Whether a setting says yes.
pub open spec fn bool_value(v: Option<Seq<char>>, default: bool) -> bool {
    match v {
        Some(t) => says_yes(t),
        None => default,
    }
}

/// The address in a setting, if it can be read.
pub open spec fn ip_value(v: Option<Seq<char>>, default: Ipv4Addr) -> Option<Ipv4Addr> {
    match v {
        Some(t) => addr::ipv4(t),
        None => Some(default),
    }
}

/// The number in a setting, if it can be read.
pub open spec fn number_value(v: Option<Seq<char>>, default: nat, max: nat) -> Option<nat> {
    match v {
        Some(t) => number::number(t, max),
        None => Some(default),
    }
}

/// The answer for blocked domains in a setting, if it can be read: `NXDOMAIN`,
/// in whatever case, or an address.
pub open spec fn block_value(v: Option<Seq<char>>, default: BlockResponse) -> Option<
    BlockResponse,
> {
    match v {
        Some(t) => if text::lower(t) == "nxdomain"@ {
            Some(BlockResponse::NxDomain)
        } else {
            match addr::ipv4(t) {
                Some(ip) => Some(BlockResponse::Ip(ip)),
                None => None,
            }
        },
        None => Some(default),
    }
}

/// The configuration that the lines give, or the first key whose value cannot be
/// read.
pub open spec fn config_of(lines: Seq<Seq<char>>) -> Result<ConfigView, ConfigError> {
    let d = default_config();
    let router_ip = ip_value(setting(lines, "router_ip"@), d.router_ip);
    let cache_max_entries = number_value(
        setting(lines, "cache_max_entries"@),
        d.cache_max_entries,
        usize::MAX as nat,
    );
    let cache_ttl = number_value(setting(lines, "cache_ttl"@), d.cache_ttl, u64::MAX as nat);
    let max_inflight = number_value(
        setting(lines, "max_inflight"@),
        d.max_inflight,
        usize::MAX as nat,
    );
    let block_response = block_value(setting(lines, "block_response"@), d.block_response);
    let captive_ip = ip_value(setting(lines, "captive_ip"@), d.captive_ip);
    let upstream = values_of(lines, "upstream"@);
    if router_ip is None {
        Err(ConfigError::RouterIp)
    } else if cache_max_entries is None {
        Err(ConfigError::CacheMaxEntries)
    } else if cache_ttl is None {
        Err(ConfigError::CacheTtl)
    } else if max_inflight is None {
        Err(ConfigError::MaxInflight)
    } else if block_response is None {
        Err(ConfigError::BlockResponse)
    } else if captive_ip is None {
        Err(ConfigError::CaptiveIp)
    } else {
        Ok(
            ConfigView {
                listen: text_value(setting(lines, "listen"@), d.listen),
                domain: name_value(setting(lines, "domain"@), d.domain),
                router_name: name_value(setting(lines, "router_name"@), d.router_name),
                router_ip: router_ip.unwrap(),
                upstream: if upstream.len() == 0 {
                    d.upstream
                } else {
                    upstream
                },
                lease_file: setting(lines, "lease_file"@),
                cache: bool_value(setting(lines, "cache"@), d.cache),
                cache_max_entries: cache_max_entries.unwrap(),
                cache_ttl: cache_ttl.unwrap(),
                max_inflight: max_inflight.unwrap(),
                block_file: setting(lines, "block_file"@),
                block_response: block_response.unwrap(),
                captive: bool_value(setting(lines, "captive"@), d.captive),
                captive_ip: captive_ip.unwrap(),
                records: records_of(values_of(lines, "record"@)),
            },
        )
    }
}

/// Why a line is skipped, if it is, and what of it is at fault. Empty lines,
/// comments and keys that are not known do not count as skipped.
pub open spec fn skip_of(line: Seq<char>) -> Option<(Seq<char>, SkipReason)> {
    let l = text::trimmed(line);
    if l.len() == 0 || l[0] == '#' {
        None
    } else {
        match assignment_of(line) {
            None => Some((l, SkipReason::NoEquals)),
            Some((key, value)) => if key == "record"@ {
                match record_of(value) {
                    Ok(_) => None,
                    Err(e) => Some((value, SkipReason::BadRecord(e))),
                }
            } else {
                None
            },
        }
    }
}

/// The lines that are skipped, in order.
pub open spec fn skipped_of(lines: Seq<Seq<char>>) -> Seq<SkippedLineView>
    decreases lines.len(),
{
    if lines.len() == 0 {
        seq![]
    } else {
        let before = skipped_of(lines.drop_last());
        match skip_of(lines.last()) {
            Some((text, reason)) => before.push(
                SkippedLineView { number: lines.len(), text, reason },
            ),
            None => before,
        }
    }
}

/// The full name of the router: `router_name.domain`.
pub open spec fn full_router_name(c: ConfigView) -> Seq<char> {
    c.router_name.push('.') + c.domain
}

// ---------------------------------------------------------------------------
// Reading it
// ---------------------------------------------------------------------------

impl Default for Config {
    /// The configuration where nothing is given.
    fn default() -> (r: Self)
        ensures
            r@ == default_config(),
    {
        let mut upstream: Vec<String> = Vec::new();
        upstream.push(String::from_str("1.1.1.1:53"));
        let r = Config {
            listen: String::from_str("0.0.0.0:5353"),
            domain: String::from_str("lan"),
            router_name: String::from_str("router"),
            router_ip: Ipv4Addr::new(192, 168, 4, 1),
            upstream,
            lease_file: None,
            cache: false,
            cache_max_entries: 1024,
            cache_ttl: 60,
            max_inflight: 64,
            block_file: None,
            block_response: BlockResponse::Ip(Ipv4Addr::new(0, 0, 0, 0)),
            captive: false,
            captive_ip: Ipv4Addr::new(192, 168, 4, 1),
            records: Vec::new(),
        };
        assert(r@.upstream =~= default_config().upstream);
        assert(r@.records =~= default_config().records);
        r
    }
}

/// Whether a value says yes: `true`, `1`, `yes` or `on`, in whatever case.
pub fn parse_bool(v: &str) -> (r: bool)
    ensures
        r == says_yes(v@),
{
    let chars = text::chars_of(v);
    let l = text::lower_string_of(chars.as_slice());
    let low = l.as_str();
    text::same_string(low, "true") || text::same_string(low, "1") || text::same_string(low, "yes")
        || text::same_string(low, "on")
}

/// Read a static record: `name,A,ip,ttl`.
pub fn parse_record(value: &str) -> (r: Result<StaticRecord, RecordError>)
    ensures
        match r {
            Ok(record) => record_of(value@) == Ok::<RecordView, RecordError>(record@),
            Err(e) => record_of(value@) == Err::<RecordView, RecordError>(e),
        },
{
    let chars = text::chars_of(value);
    let parts = text::split_at_char(chars.as_slice(), ',');
    let ghost split = text::split(value@, ',');
    assert(parts@.len() == split.len());
    if parts.len() != 4 {
        return Err(RecordError::Format);
    }
    assert forall|i: int| 0 <= i < split.len() implies #[trigger] split[i] == parts@[i]@ by {
        assert(text::views(parts@)[i] == parts@[i]@);
    }
    let kind = text::trim(parts[1]);
    if !(kind.len() == 1 && (kind[0] == 'A' || kind[0] == 'a')) {
        proof {
            if text::lower(kind@) == seq!['a'] {
                assert(text::lower(kind@).len() == kind@.len());
                assert(text::lower(kind@)[0] == text::lower_char(kind@[0]));
            }
        }
        return Err(RecordError::Type);
    }
    assert(text::lower(kind@) =~= seq!['a']);
    let ip = match addr::parse_ipv4(text::trim(parts[2])) {
        Some(ip) => ip,
        None => return Err(RecordError::Address),
    };
    let ttl = match number::parse_number(text::trim(parts[3]), 0xffff_ffff) {
        Some(n) => n as u32,
        None => return Err(RecordError::Ttl),
    };
    Ok(StaticRecord { name: text::normalize(text::trim(parts[0])), ip, ttl })
}

/// Read the key and the value on a line.
fn parse_assignment<'a>(line: &'a [char]) -> (r: Option<(&'a [char], &'a [char])>)
    ensures
        match r {
            Some((k, v)) => assignment_of(line@) == Some((k@, v@)),
            None => assignment_of(line@) is None,
        },
{
    let l = text::trim(line);
    if l.len() == 0 || l[0] == '#' {
        return None;
    }
    assert(l@.skip(0) =~= l@);
    let i = text::find_from(l, '=', 0);
    if i == l.len() {
        return None;
    }
    let key = text::trim(vstd::slice::slice_subrange(l, 0, i));
    let value = text::trim(vstd::slice::slice_subrange(l, i + 1, l.len()));
    assert(l@.subrange(0, i as int) =~= l@.take(i as int));
    assert(l@.subrange(i + 1, l@.len() as int) =~= l@.skip(i + 1));
    Some((key, value))
}

/// Read why a line is skipped, if it is.
fn parse_skip(line: &[char]) -> (r: Option<(String, SkipReason)>)
    ensures
        match r {
            Some((text, reason)) => skip_of(line@) == Some((text@, reason)),
            None => skip_of(line@) is None,
        },
{
    let l = text::trim(line);
    if l.len() == 0 || l[0] == '#' {
        return None;
    }
    match parse_assignment(line) {
        None => Some((text::string_of(l), SkipReason::NoEquals)),
        Some((key, value)) => {
            if !text::same_text(key, "record") {
                return None;
            }
            let v = text::string_of(value);
            match parse_record(v.as_str()) {
                Ok(_) => None,
                Err(e) => Some((v, SkipReason::BadRecord(e))),
            }
        },
    }
}

/// The lines of a configuration that are skipped: those without `=`, and the
/// static records that cannot be read.
pub fn skipped_lines(text: &str) -> (r: Vec<SkippedLine>)
    ensures
        r@.map_values(|l: SkippedLine| l@) == skipped_of(text::lines(text@)),
{
    let chars = text::chars_of(text);
    let parts = text::split_at_char(chars.as_slice(), '\n');
    let ghost lines = text::lines(text@);
    let mut out: Vec<SkippedLine> = Vec::new();
    proof {
        assert(lines.take(0) =~= seq![]);
        assert(out@.map_values(|l: SkippedLine| l@) =~= seq![]);
        assert(parts@.len() == text::views(parts@).len());
    }
    for i in 0..parts.len()
        invariant
            text::views(parts@) == lines,
            parts@.len() == lines.len(),
            out@.map_values(|l: SkippedLine| l@) == skipped_of(lines.take(i as int)),
    {
        proof {
            assert(lines[i as int] == parts@[i as int]@);
            assert(lines.take(i + 1).drop_last() =~= lines.take(i as int));
        }
        if let Some((text, reason)) = parse_skip(parts[i]) {
            let ghost before = out@.map_values(|l: SkippedLine| l@);
            let skipped = SkippedLine { number: i + 1, text, reason };
            out.push(skipped);
            assert(out@.map_values(|l: SkippedLine| l@) =~= before.push(skipped@));
        }
    }
    assert(lines.take(lines.len() as int) =~= lines);
    out
}

/// The configuration in a file whose contents are given; where the file could not
/// be read, or the configuration is refused, the default one.
pub fn load_config(contents: Option<&str>) -> (r: Config)
    ensures
        r@ == (match contents {
            Some(t) => match config_of(text::lines(t@)) {
                Ok(c) => c,
                Err(_) => default_config(),
            },
            None => default_config(),
        }),
{
    match contents {
        Some(t) => match Config::parse(t) {
            Ok(c) => c,
            Err(_) => Config::default(),
        },
        None => Config::default(),
    }
}

/// What is set for a key.
spec fn stored(settings: Map<Seq<char>, String>, key: Seq<char>) -> Option<Seq<char>> {
    if settings.contains_key(key) {
        Some(settings[key]@)
    } else {
        None
    }
}

/// The text that is set for a key.
fn text_setting(settings: &StringHashMap<String>, key: &str, default: String) -> (r: String)
    ensures
        r@ == text_value(stored(settings@, key@), default@),
{
    match settings.get(key) {
        Some(v) => v.clone(),
        None => default,
    }
}

/// The text that is set for a key, if any is.
fn optional_setting(settings: &StringHashMap<String>, key: &str) -> (r: Option<String>)
    ensures
        text_of(r) == stored(settings@, key@),
{
    match settings.get(key) {
        Some(v) => Some(v.clone()),
        None => None,
    }
}

/// The name that is set for a key, as names are compared.
fn name_setting(settings: &StringHashMap<String>, key: &str, default: String) -> (r: String)
    ensures
        r@ == name_value(stored(settings@, key@), default@),
{
    match settings.get(key) {
        Some(v) => {
            let chars = text::chars_of(v.as_str());
            text::normalize(chars.as_slice())
        },
        None => default,
    }
}

/// Whether yes is set for a key.
fn bool_setting(settings: &StringHashMap<String>, key: &str, default: bool) -> (r: bool)
    ensures
        r == bool_value(stored(settings@, key@), default),
{
    match settings.get(key) {
        Some(v) => parse_bool(v.as_str()),
        None => default,
    }
}

/// The address that is set for a key, if it can be read.
fn ip_setting(settings: &StringHashMap<String>, key: &str, default: Ipv4Addr) -> (r: Option<
    Ipv4Addr,
>)
    ensures
        r == ip_value(stored(settings@, key@), default),
{
    match settings.get(key) {
        Some(v) => {
            let chars = text::chars_of(v.as_str());
            addr::parse_ipv4(chars.as_slice())
        },
        None => Some(default),
    }
}

/// The number that is set for a key, if it can be read.
fn number_setting(settings: &StringHashMap<String>, key: &str, default: u64, max: u64) -> (r:
    Option<u64>)
    requires
        default <= max,
    ensures
        match r {
            Some(n) => n <= max && number_value(
                stored(settings@, key@),
                default as nat,
                max as nat,
            ) == Some(n as nat),
            None => number_value(stored(settings@, key@), default as nat, max as nat) is None,
        },
{
    match settings.get(key) {
        Some(v) => {
            let chars = text::chars_of(v.as_str());
            number::parse_number(chars.as_slice(), max)
        },
        None => Some(default),
    }
}

/// The answer for blocked domains that is set for a key, if it can be read.
fn block_setting(settings: &StringHashMap<String>, key: &str, default: BlockResponse) -> (r: Option<
    BlockResponse,
>)
    ensures
        r == block_value(stored(settings@, key@), default),
{
    match settings.get(key) {
        Some(v) => {
            let chars = text::chars_of(v.as_str());
            let low = text::lower_string_of(chars.as_slice());
            if text::same_string(low.as_str(), "nxdomain") {
                Some(BlockResponse::NxDomain)
            } else {
                match addr::parse_ipv4(chars.as_slice()) {
                    Some(ip) => Some(BlockResponse::Ip(ip)),
                    None => None,
                }
            }
        },
        None => Some(default),
    }
}

impl Config {
    /// The full name of the router, such as `router.lan`.
    pub fn router_fqdn(&self) -> (r: String)
        ensures
            r@ == full_router_name(self@),
    {
        let mut name = self.router_name.clone();
        name.push('.');
        name.append(self.domain.as_str());
        name
    }

    /// Read a configuration. What it does not give is as in the default one.
    pub fn parse(text: &str) -> (r: Result<Config, ConfigError>)
        ensures
            match r {
                Ok(c) => config_of(text::lines(text@)) == Ok::<ConfigView, ConfigError>(c@),
                Err(e) => config_of(text::lines(text@)) == Err::<ConfigView, ConfigError>(e),
            },
    {
        let chars = text::chars_of(text);
        let parts = text::split_at_char(chars.as_slice(), '\n');
        let ghost lines = text::lines(text@);
        let mut settings: StringHashMap<String> = StringHashMap::new();
        let mut upstream: Vec<String> = Vec::new();
        let mut records: Vec<StaticRecord> = Vec::new();
        proof {
            assert(lines.take(0) =~= seq![]);
            assert(upstream@.map_values(|s: String| s@) =~= seq![]);
            assert(records@.map_values(|r: StaticRecord| r@) =~= seq![]);
        }
        for i in 0..parts.len()
            invariant
                text::views(parts@) == lines,
                forall|k: Seq<char>| #[trigger]
                    stored(settings@, k) == setting(lines.take(i as int), k),
                upstream@.map_values(|s: String| s@) == values_of(
                    lines.take(i as int),
                    "upstream"@,
                ),
                records@.map_values(|r: StaticRecord| r@) == records_of(
                    values_of(lines.take(i as int), "record"@),
                ),
        {
            let ghost now = lines.take(i as int);
            let ghost next = lines.take(i + 1);
            proof {
                assert(lines[i as int] == parts@[i as int]@);
                assert(next.drop_last() =~= now);
                assert(next.last() == lines[i as int]);
            }
            if let Some((key, value)) = parse_assignment(parts[i]) {
                let ghost upstream_before = upstream@.map_values(|s: String| s@);
                let ghost records_before = records@.map_values(|r: StaticRecord| r@);
                let ghost settings_before = settings@;
                let v = text::string_of(value);
                if text::same_text(key, "upstream") {
                    upstream.push(v.clone());
                    assert(upstream@.map_values(|s: String| s@) =~= upstream_before.push(v@));
                }
                if text::same_text(key, "record") {
                    proof {
                        let values = values_of(now, "record"@);
                        assert(values.push(v@).drop_last() =~= values);
                    }
                    if let Ok(record) = parse_record(v.as_str()) {
                        records.push(record);
                        assert(records@.map_values(|r: StaticRecord| r@) =~= records_before.push(
                            record@,
                        ));
                    }
                }
                settings.insert(text::string_of(key), v);
                proof {
                    assert forall|k: Seq<char>| #[trigger] stored(settings@, k) == setting(
                        next,
                        k,
                    ) by {
                        assert(stored(settings_before, k) == setting(now, k));
                    }
                }
            } else {
                assert forall|k: Seq<char>| #[trigger] stored(settings@, k) == setting(
                    next,
                    k,
                ) by {
                    assert(stored(settings@, k) == setting(now, k));
                }
            }
        }
        assert(lines.take(lines.len() as int) =~= lines);

        let d = Config::default();
        let router_ip = match ip_setting(&settings, "router_ip", d.router_ip) {
            Some(ip) => ip,
            None => return Err(ConfigError::RouterIp),
        };
        let cache_max_entries = match number_setting(
            &settings,
            "cache_max_entries",
            d.cache_max_entries as u64,
            usize::MAX as u64,
        ) {
            Some(n) => n as usize,
            None => return Err(ConfigError::CacheMaxEntries),
        };
        let cache_ttl = match number_setting(
            &settings,
            "cache_ttl",
            d.cache_ttl,
            0xffff_ffff_ffff_ffff,
        ) {
            Some(n) => n,
            None => return Err(ConfigError::CacheTtl),
        };
        let max_inflight = match number_setting(
            &settings,
            "max_inflight",
            d.max_inflight as u64,
            usize::MAX as u64,
        ) {
            Some(n) => n as usize,
            None => return Err(ConfigError::MaxInflight),
        };
        let block_response = match block_setting(&settings, "block_response", d.block_response) {
            Some(b) => b,
            None => return Err(ConfigError::BlockResponse),
        };
        let captive_ip = match ip_setting(&settings, "captive_ip", d.captive_ip) {
            Some(ip) => ip,
            None => return Err(ConfigError::CaptiveIp),
        };
        proof {
            assert(values_of(lines, "upstream"@).len() == upstream@.len());
        }
        let c = Config {
            listen: text_setting(&settings, "listen", d.listen),
            domain: name_setting(&settings, "domain", d.domain),
            router_name: name_setting(&settings, "router_name", d.router_name),
            router_ip,
            upstream: if upstream.is_empty() {
                d.upstream
            } else {
                upstream
            },
            lease_file: optional_setting(&settings, "lease_file"),
            cache: bool_setting(&settings, "cache", d.cache),
            cache_max_entries,
            cache_ttl,
            max_inflight,
            block_file: optional_setting(&settings, "block_file"),
            block_response,
            captive: bool_setting(&settings, "captive", d.captive),
            captive_ip,
            records,
        };
        assert(config_of(lines) == Ok::<ConfigView, ConfigError>(c@));
        Ok(c)
    }
}

} // verus!
