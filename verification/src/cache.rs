//! Whitelist-driven response caching.
//!
//! A cache entry is a metadata file and a body file in the cache directory. This
//! module decides what is cached, for how long and what is served; reading and writing
//! the files is left to the caller. What the files are called and which of them have to
//! go is in [`crate::store`].

use http::header::HeaderMap;
use vstd::prelude::*;

use crate::clock;
use crate::clock::{now_seconds, read_clock, seconds_at};
use crate::config::{CacheConfig, CacheRule};
use crate::cors;
use crate::cors::is_hop_by_hop;
use crate::freshness;
use crate::freshness::{cache_control_requires_revalidation, cacheable_headers, effective_ttl_at};
use crate::headers;
use crate::headers::{
    header_append, header_has, header_insert, header_lines, header_map, header_text, header_values,
    read_name, read_value, room_for, write_value, HeaderValues,
};
use crate::rules;
use crate::rules::{CompiledRule, RuleView};
use crate::store;
use crate::store::{
    body_name, evict, kept_entries, stored_entries, useless_files, StoredFile, CACHE_VERSION,
};
use crate::text;
use crate::text::{same, trim};
use crate::urls;
use crate::urls::{normalized_url, TargetUrl, UrlView};
use crate::variants;
use crate::variants::{cache_key, parse_vary, read_variants};

verus! {

/// A cache key for a request and the age up to which the response may be kept.
#[derive(Debug)]
pub struct CachePlan {
    key: String,
    ttl: u64,
}

/// What a cache plan stands for.
pub struct PlanView {
    pub key: Seq<char>,
    pub ttl: u64,
}

impl View for CachePlan {
    type V = PlanView;

    closed spec fn view(&self) -> PlanView {
        PlanView { key: self.key@, ttl: self.ttl }
    }
}

impl CachePlan {
    /// The age up to which the response may be kept, in seconds.
    pub fn ttl(&self) -> (r: u64)
        ensures
            r == self@.ttl,
    {
        self.ttl
    }

    /// The key under which the response is kept.
    pub fn key(&self) -> (r: String)
        ensures
            r@ == self@.key,
    {
        self.key.clone()
    }
}

/// A response cache: its limits and its rules.
#[derive(Debug)]
pub struct Cache {
    max_size: u64,
    default_max_age: u64,
    rules: Vec<CompiledRule>,
}

/// What a response cache stands for.
pub struct CacheView {
    /// Upper bound on the size of the cache, in bytes.
    pub max_size: u64,
    /// Upper bound on the age of what it serves, in seconds.
    pub max_age: u64,
    /// The rules, of which the last that matches decides.
    pub rules: Seq<RuleView>,
}

pub open spec fn rule_views(rules: Seq<CompiledRule>) -> Seq<RuleView> {
    rules.map_values(|r: CompiledRule| r@)
}

impl View for Cache {
    type V = CacheView;

    closed spec fn view(&self) -> CacheView {
        CacheView {
            max_size: self.max_size,
            max_age: self.default_max_age,
            rules: rule_views(self.rules@),
        }
    }
}

/// The rules of a whitelist that can be compiled, in their order.
pub open spec fn valid_rules(whitelist: Seq<CacheRule>) -> Seq<RuleView>
    decreases whitelist.len(),
{
    if whitelist.len() == 0 {
        Seq::empty()
    } else {
        let before = valid_rules(whitelist.drop_last());
        match rules::rule_read(whitelist.last().pattern@) {
            Ok(pattern) => before.push(RuleView { pattern, max_age: whitelist.last().max_age }),
            Err(_) => before,
        }
    }
}

/// Why a configuration switches the cache off, if it does.
pub open spec fn off_reason(config: CacheConfig) -> Option<Seq<char>> {
    if !config.enabled {
        Some("cache.enabled is false"@)
    } else if config.max_age == 0 {
        Some("cache.max_age is 0"@)
    } else if config.max_size == 0 {
        Some("cache.max_size is 0"@)
    } else if config.whitelist@.len() == 0 {
        Some("cache.whitelist is empty"@)
    } else {
        None
    }
}

/// Why a configuration switches the cache off, if it does.
pub fn switched_off(config: &CacheConfig) -> (r: Option<String>)
    ensures
        text::text_option(r) == off_reason(*config),
{
    if !config.enabled {
        Some("cache.enabled is false".to_owned())
    } else if config.max_age == 0 {
        Some("cache.max_age is 0".to_owned())
    } else if config.max_size == 0 {
        Some("cache.max_size is 0".to_owned())
    } else if config.whitelist.len() == 0 {
        Some("cache.whitelist is empty".to_owned())
    } else {
        None
    }
}

/// The directory of the cache, to be resolved against the directory of the
/// configuration file where it is relative.
pub open spec fn location_of(config: CacheConfig) -> Seq<char> {
    if text::trimmed(config.location@).len() == 0 {
        ".cache"@
    } else {
        text::trimmed(config.location@)
    }
}

/// The directory of the cache, to be resolved against the directory of the
/// configuration file where it is relative.
pub fn cache_location(config: &CacheConfig) -> (r: String)
    ensures
        r@ == location_of(*config),
{
    let location = trim(&config.location);
    if location.as_str().is_empty() {
        ".cache".to_owned()
    } else {
        location
    }
}

/// Whether responses are cached, and if not, why.
#[derive(Debug)]
pub enum CacheStatus {
    Enabled,
    Disabled(String),
}

/// What came of setting the cache up.
#[derive(Debug)]
pub struct CacheInitialization {
    pub cache: Option<Cache>,
    pub status: CacheStatus,
}

/// Why there is no cache, if there is none, once it is known whether its directory can
/// be used.
pub open spec fn disabled_reason(config: CacheConfig, directory_ready: bool) -> Option<Seq<char>> {
    if off_reason(config) is Some {
        off_reason(config)
    } else if !directory_ready {
        Some("cache directory is unavailable"@)
    } else if valid_rules(config.whitelist@).len() == 0 {
        Some("no valid cache whitelist rules"@)
    } else {
        None
    }
}

/// The cache that a configuration describes.
pub open spec fn configured_cache(config: CacheConfig) -> CacheView {
    CacheView {
        max_size: config.max_size,
        max_age: config.max_age,
        rules: valid_rules(config.whitelist@),
    }
}

fn compile_rules(whitelist: &Vec<CacheRule>) -> (rules: Vec<CompiledRule>)
    ensures
        rule_views(rules@) == valid_rules(whitelist@),
{
    let mut rules: Vec<CompiledRule> = Vec::new();
    let mut i: usize = 0;
    proof {
        assert(whitelist@.take(0) =~= Seq::empty());
        assert(rule_views(rules@) =~= Seq::empty());
    }
    while i < whitelist.len()
        invariant
            i <= whitelist@.len(),
            rule_views(rules@) == valid_rules(whitelist@.take(i as int)),
        decreases whitelist@.len() - i,
    {
        proof {
            assert(whitelist@.take(i + 1).drop_last() =~= whitelist@.take(i as int));
        }
        if let Ok(rule) = CompiledRule::new(&whitelist[i]) {
            proof {
                assert(rule_views(rules@.push(rule)) =~= rule_views(rules@).push(rule@));
            }
            rules.push(rule);
        }
        i += 1;
    }
    proof {
        assert(whitelist@.take(whitelist@.len() as int) =~= whitelist@);
    }
    rules
}

/// The age that the last matching rule allows, if a rule matches.
pub open spec fn last_match(rules: Seq<RuleView>, subject: Seq<char>) -> Option<u64>
    decreases rules.len(),
{
    if rules.len() == 0 {
        None
    } else if rules::pattern_matches(rules.last().pattern, subject) {
        Some(rules.last().max_age)
    } else {
        last_match(rules.drop_last(), subject)
    }
}

/// Whether a request keeps the cache out: it carries credentials or asks for a part.
pub open spec fn bypasses_cache(request: HeaderValues) -> bool {
    ||| request.contains_key("authorization"@)
    ||| request.contains_key("cookie"@)
    ||| request.contains_key("range"@)
}

/// The plan for a request, where it may be answered from the cache.
pub open spec fn plan_of(cache: CacheView, url: UrlView, request: HeaderValues) -> Option<
    PlanView,
> {
    let subject = urls::normalized(url);
    if bypasses_cache(request) {
        None
    } else {
        match last_match(cache.rules, subject) {
            Some(age) => {
                let ttl = if age < cache.max_age {
                    age
                } else {
                    cache.max_age
                };
                if ttl == 0 {
                    None
                } else {
                    Some(PlanView { key: variants::cache_key_of(subject, request), ttl })
                }
            },
            None => None,
        }
    }
}

pub open spec fn plan_option(plan: Option<CachePlan>) -> Option<PlanView> {
    match plan {
        Some(plan) => Some(plan@),
        None => None,
    }
}

impl Cache {
    /// Create an active cache. Rules that cannot be compiled are left out; without any
    /// rule there is no cache.
    pub fn new(config: &CacheConfig) -> (r: Option<Cache>)
        ensures
            match r {
                Some(cache) => disabled_reason(*config, true) is None && cache@ == configured_cache(
                    *config,
                ),
                None => disabled_reason(*config, true) is Some,
            },
    {
        if switched_off(config).is_some() {
            return None;
        }
        let rules = compile_rules(&config.whitelist);
        if rules.len() == 0 {
            return None;
        }
        Some(Cache { max_size: config.max_size, default_max_age: config.max_age, rules })
    }

    /// Set the cache up, once it is known whether its directory can be used, and say
    /// what came of it.
    pub fn initialize(config: &CacheConfig, directory_ready: bool) -> (r: CacheInitialization)
        ensures
            match disabled_reason(*config, directory_ready) {
                Some(reason) => {
                    &&& r.cache is None
                    &&& r.status is Disabled
                    &&& r.status->0@ == reason
                },
                None => {
                    &&& r.cache is Some
                    &&& r.cache->0@ == configured_cache(*config)
                    &&& r.status is Enabled
                },
            },
    {
        if let Some(reason) = switched_off(config) {
            return CacheInitialization { cache: None, status: CacheStatus::Disabled(reason) };
        }
        if !directory_ready {
            return CacheInitialization {
                cache: None,
                status: CacheStatus::Disabled("cache directory is unavailable".to_owned()),
            };
        }
        match Cache::new(config) {
            Some(cache) => CacheInitialization {
                cache: Some(cache),
                status: CacheStatus::Enabled,
            },
            None => CacheInitialization {
                cache: None,
                status: CacheStatus::Disabled("no valid cache whitelist rules".to_owned()),
            },
        }
    }

    /// Return a cache plan for a safe request matching the last whitelist rule.
    pub fn plan(&self, url: &TargetUrl, headers: &HeaderMap) -> (r: Option<CachePlan>)
        ensures
            plan_option(r) == plan_of(self@, url@, header_values(*headers)),
    {
        proof {
            headers::lemma_known_names();
        }
        if header_has(headers, "authorization") || header_has(headers, "cookie") || header_has(
            headers,
            "range",
        ) {
            return None;
        }
        let subject = normalized_url(url);
        let ghost rules = self@.rules;
        let mut i: usize = self.rules.len();
        proof {
            assert(rules.take(rules.len() as int) =~= rules);
        }
        while i > 0
            invariant
                i <= self.rules@.len(),
                rules == self@.rules,
                rules.len() == self.rules@.len(),
                subject@ == urls::normalized(url@),
                !bypasses_cache(header_values(*headers)),
                last_match(rules.take(i as int), subject@) == last_match(rules, subject@),
            decreases i,
        {
            let rule = &self.rules[i - 1];
            proof {
                assert(rules.take(i as int).last() == rule@);
                assert(rules.take(i as int).drop_last() =~= rules.take(i - 1));
            }
            if rule.pattern.is_match(&subject) {
                let ttl: u64 = if rule.max_age < self.default_max_age {
                    rule.max_age
                } else {
                    self.default_max_age
                };
                if ttl == 0 {
                    return None;
                }
                return Some(CachePlan { key: cache_key(&subject, headers), ttl });
            }
            i -= 1;
        }
        None
    }
}
/// Seconds since the Unix epoch.
pub fn now() -> (r: u64)
    ensures
        exists|now: i128| clock::is_reading(now) && r == #[trigger] clock::seconds(now),
{
    now_seconds()
}
/// The header lines that pairs of texts write, with the names as they are.
pub open spec fn pair_lines(pairs: Seq<(Seq<char>, Seq<char>)>) -> Seq<(Seq<char>, Seq<u8>)> {
    pairs.map_values(|p: (Seq<char>, Seq<char>)| (p.0, vstd::utf8::encode_utf8(p.1)))
}

/// Whether a header of this name is kept in the cache.
pub open spec fn is_stored_name(name: Seq<char>) -> bool {
    name != "x-cache"@ && !cors::hop_by_hop(name)
}

/// What of a response's headers is kept in the cache: readable values of headers that
/// concern more than one hop, but for the diagnostic header.
pub open spec fn stored_values(response: HeaderValues) -> HeaderValues {
    headers::selected(
        response,
        |name: Seq<char>| is_stored_name(name),
        |value: Seq<u8>| headers::value_text(value) is Some,
    )
}

/// The headers of a response that are kept in the cache, as pairs of texts. The values
/// of a name keep their order; the names come in any order.
pub fn cache_headers(headers: &HeaderMap) -> (pairs: Vec<(String, String)>)
    ensures
        headers::collected(pair_lines(variants::pair_views(pairs@))) == stored_values(
            header_values(*headers),
        ),
        forall|i: int|
            0 <= i < pairs@.len() ==> headers::is_header_name((#[trigger] pairs@[i]).0@)
                && headers::is_header_value(vstd::utf8::encode_utf8(pairs@[i].1@)),
{
    let lines = header_lines(headers);
    let ghost views = headers::line_views(lines@);
    let ghost keep = |name: Seq<char>| is_stored_name(name);
    let ghost good = |value: Seq<u8>| headers::value_text(value) is Some;
    let ghost wanted = |l: (Seq<char>, Seq<u8>)| keep(l.0) && good(l.1);
    let mut pairs: Vec<(String, String)> = Vec::new();
    let mut i: usize = 0;
    proof {
        reveal(Seq::filter);
        assert(views.take(0).filter(wanted) =~= Seq::empty());
        assert(pair_lines(variants::pair_views(pairs@)) =~= Seq::empty());
    }
    while i < lines.len()
        invariant
            i <= lines@.len(),
            views == headers::line_views(lines@),
            keep == (|name: Seq<char>| is_stored_name(name)),
            good == (|value: Seq<u8>| headers::value_text(value) is Some),
            wanted == (|l: (Seq<char>, Seq<u8>)| keep(l.0) && good(l.1)),
            forall|k: int|
                0 <= k < lines@.len() ==> headers::is_header_name((#[trigger] lines@[k]).name@),
            pair_lines(variants::pair_views(pairs@)) == views.take(i as int).filter(wanted),
            forall|k: int|
                0 <= k < pairs@.len() ==> headers::is_header_name((#[trigger] pairs@[k]).0@)
                    && headers::is_header_value(vstd::utf8::encode_utf8(pairs@[k].1@)),
        decreases lines@.len() - i,
    {
        let line = &lines[i];
        proof {
            reveal(Seq::filter);
            assert(views.take(i + 1).drop_last() =~= views.take(i as int));
            assert(views.take(i + 1).last() == line@);
        }
        if !same(&line.name, "x-cache") && !is_hop_by_hop(&line.name) {
            if let Some(value) = read_value(&line.value) {
                let pair = (line.name.clone(), value);
                proof {
                    headers::lemma_readable_value(line.value@);
                    assert(pair_lines(variants::pair_views(pairs@.push(pair))) =~= pair_lines(
                        variants::pair_views(pairs@),
                    ).push(line@));
                }
                pairs.push(pair);
            }
        }
        i += 1;
    }
    proof {
        assert(views.take(lines@.len() as int) =~= views);
        headers::lemma_collected_selected(views, keep, good);
        assert(stored_values(header_values(*headers)) == headers::selected(
            headers::collected(views),
            keep,
            good,
        ));
    }
    pairs
}

/// A cached response without its body.
#[derive(Debug, Clone)]
pub struct CacheEntry {
    /// Version of the metadata format.
    pub version: u8,
    /// Status of the response.
    pub status: u16,
    /// Headers of the response.
    pub headers: Vec<(String, String)>,
    /// Length of the body file.
    pub body_len: u64,
    /// When the response was stored or last confirmed, in seconds since the Unix epoch.
    pub created_at: u64,
    /// When the response was last served, in seconds since the Unix epoch.
    pub last_access: u64,
    /// Age up to which the response is fresh, in seconds.
    pub ttl: u64,
    /// Whether the response has to be revalidated each time.
    pub revalidate: bool,
    /// Validators of the response.
    pub etag: Option<String>,
    pub last_modified: Option<String>,
    /// Request headers that the response varies by.
    pub vary: Vec<String>,
    /// The values that those had in the request.
    pub request_variants: Vec<(String, String)>,
    /// Cache key; not part of the metadata.
    pub key: String,
    /// Name of the body file in the cache directory; not part of the metadata.
    pub body_path: String,
}

/// What a cache entry says.
pub struct CacheEntryView {
    pub version: u8,
    pub status: u16,
    pub headers: Seq<(Seq<char>, Seq<char>)>,
    pub body_len: u64,
    pub created_at: u64,
    pub last_access: u64,
    pub ttl: u64,
    pub revalidate: bool,
    pub etag: Option<Seq<char>>,
    pub last_modified: Option<Seq<char>>,
    pub vary: Seq<Seq<char>>,
    pub request_variants: Seq<(Seq<char>, Seq<char>)>,
    pub key: Seq<char>,
    pub body_path: Seq<char>,
}

impl View for CacheEntry {
    type V = CacheEntryView;

    open spec fn view(&self) -> CacheEntryView {
        CacheEntryView {
            version: self.version,
            status: self.status,
            headers: variants::pair_views(self.headers@),
            body_len: self.body_len,
            created_at: self.created_at,
            last_access: self.last_access,
            ttl: self.ttl,
            revalidate: self.revalidate,
            etag: text::text_option(self.etag),
            last_modified: text::text_option(self.last_modified),
            vary: text::texts(self.vary@),
            request_variants: variants::pair_views(self.request_variants@),
            key: self.key@,
            body_path: self.body_path@,
        }
    }
}

/// What reading the metadata file of an entry gave.
pub enum StoredMetadata {
    /// There is no such file, or it cannot be read.
    Missing,
    /// The file holds no metadata.
    Corrupt,
    /// The metadata that the file holds.
    Read(CacheEntry),
}

/// What a lookup comes to.
pub enum Lookup {
    /// Nothing is stored under the key.
    Miss,
    /// What is stored is no use; its metadata file has to go.
    Remove,
    /// What is stored, to be written back with its new time of access.
    Hit(CacheEntry),
}

/// Whether stored metadata belongs to a complete entry: its version is known and the body
/// file has the length that it says.
pub open spec fn is_complete(entry: CacheEntryView, body_len: Option<u64>) -> bool {
    entry.version == CACHE_VERSION && body_len == Some(entry.body_len)
}

/// Whether stored metadata belongs to a complete entry.
pub fn complete(entry: &CacheEntry, body_len: Option<u64>) -> (r: bool)
    ensures
        r == is_complete(entry@, body_len),
{
    if entry.version != CACHE_VERSION {
        return false;
    }
    match body_len {
        Some(len) => len == entry.body_len,
        None => false,
    }
}

/// Whether an entry may be served at a time without asking the target: it is younger
/// than its age limit and has not to be revalidated each time.
pub open spec fn fresh(entry: CacheEntryView, now: u64) -> bool {
    !entry.revalidate && age(entry, now) < entry.ttl
}

/// The age of an entry at a time, in seconds; 0 for one from the future.
pub open spec fn age(entry: CacheEntryView, now: u64) -> nat {
    if now < entry.created_at {
        0
    } else {
        (now - entry.created_at) as nat
    }
}

/// What an entry becomes when the target says that it is still right.
pub open spec fn refreshed(
    entry: CacheEntryView,
    response: HeaderValues,
    configured_ttl: u64,
    now: i128,
) -> CacheEntryView {
    CacheEntryView {
        created_at: clock::seconds(now),
        last_access: clock::seconds(now),
        ttl: freshness::ttl_of(configured_ttl, response, now),
        etag: if headers::first_text(response, "etag"@) is Some {
            headers::first_text(response, "etag"@)
        } else {
            entry.etag
        },
        last_modified: if headers::first_text(response, "last-modified"@) is Some {
            headers::first_text(response, "last-modified"@)
        } else {
            entry.last_modified
        },
        ..entry
    }
}

/// Headers with a further one that a text writes, where it can be written.
pub open spec fn with_text(
    m: HeaderValues,
    name: Seq<char>,
    value: Option<Seq<char>>,
) -> HeaderValues {
    match value {
        Some(s) => match headers::text_value(s) {
            Some(bytes) => m.insert(name, seq![bytes]),
            None => m,
        },
        None => m,
    }
}

/// Request headers with the validators of an entry.
pub open spec fn validated(request: HeaderValues, entry: CacheEntryView) -> HeaderValues {
    with_text(
        with_text(request, "if-none-match"@, entry.etag),
        "if-modified-since"@,
        entry.last_modified,
    )
}

/// Whether a text is there and can be written as a header value.
pub open spec fn is_written(value: Option<Seq<char>>) -> bool {
    value is Some && headers::text_value(value->0) is Some
}

/// Whether an entry has a validator that the target can be asked with.
pub open spec fn has_validator(entry: CacheEntryView) -> bool {
    is_written(entry.etag) || is_written(entry.last_modified)
}

fn can_write(value: &Option<String>) -> (r: bool)
    ensures
        r == is_written(text::text_option(*value)),
{
    match value {
        Some(s) => write_value(s).is_some(),
        None => false,
    }
}

fn insert_text(headers: &mut HeaderMap, name: &str, value: &Option<String>)
    requires
        headers::is_header_name(name@),
        headers::has_room(header_values(*old(headers)), 1),
    ensures
        header_values(*final(headers)) == with_text(
            header_values(*old(headers)),
            name@,
            text::text_option(*value),
        ),
{
    if let Some(s) = value {
        if let Some(bytes) = write_value(s) {
            header_insert(headers, name, &bytes);
        }
    }
}

/// Whether a response is stored: it is a success, its headers allow it, it varies by
/// supported headers only, the request carries no credentials, and it may be kept for
/// some time.
pub open spec fn is_stored(
    ttl: u64,
    status: u16,
    response: HeaderValues,
    request: HeaderValues,
    now: i128,
) -> bool {
    &&& 200 <= status < 300
    &&& freshness::is_cacheable(response)
    &&& variants::vary_of(headers::values_of(response, "vary"@)) is Some
    &&& !request.contains_key("authorization"@)
    &&& freshness::ttl_of(ttl, response, now) > 0
}

/// Whether an entry is what is stored of a response. In what order the names of its
/// headers stand is left open.
pub open spec fn is_entry_of(
    entry: CacheEntryView,
    plan: PlanView,
    status: u16,
    response: HeaderValues,
    request: HeaderValues,
    now: i128,
) -> bool {
    let vary = variants::vary_of(headers::values_of(response, "vary"@))->0;
    &&& headers::collected(pair_lines(entry.headers)) == stored_values(response)
    &&& entry == CacheEntryView {
        version: CACHE_VERSION,
        status,
        headers: entry.headers,
        body_len: 0,
        created_at: clock::seconds(now),
        last_access: clock::seconds(now),
        ttl: freshness::ttl_of(plan.ttl, response, now),
        revalidate: freshness::needs_revalidation(response),
        etag: headers::first_text(response, "etag"@),
        last_modified: headers::first_text(response, "last-modified"@),
        vary,
        request_variants: variants::variants_of(request, vary),
        key: plan.key,
        body_path: store::body_file(plan.key),
    }
}

/// An entry whose body is being written.
#[derive(Debug)]
pub struct CacheWriter {
    entry: CacheEntry,
    body_len: u64,
}

impl CacheWriter {
    /// The entry, to which the body is still missing.
    pub closed spec fn entry(self) -> CacheEntryView {
        self.entry@
    }

    /// The bytes written so far.
    pub closed spec fn body_len(self) -> u64 {
        self.body_len
    }

    /// The key of the entry.
    pub fn key(&self) -> (r: String)
        ensures
            r@ == self.entry().key,
    {
        self.entry.key.clone()
    }

    /// Takes note of bytes that were written to the body file.
    pub fn write(&mut self, bytes: &[u8])
        ensures
            final(self).entry() == old(self).entry(),
            final(self).body_len() == (if old(self).body_len() + bytes@.len() > u64::MAX {
                u64::MAX as int
            } else {
                old(self).body_len() + bytes@.len()
            }),
    {
        let len: usize = bytes.len();
        self.body_len = self.body_len.saturating_add(len as u64);
    }

    /// The entry with the length of its body, once that is complete.
    pub fn finish(self) -> (r: CacheEntry)
        ensures
            r@ == (CacheEntryView { body_len: self.body_len(), ..self.entry() }),
    {
        let mut entry = self.entry;
        entry.body_len = self.body_len;
        entry
    }
}

impl Cache {
    /// What a lookup comes to, from what the metadata file holds and how long the body
    /// file is.
    pub fn lookup(
        &self,
        plan: &CachePlan,
        stored: StoredMetadata,
        body_len: Option<u64>,
        now: u64,
    ) -> (r: Lookup)
        ensures
            match stored {
                StoredMetadata::Missing => r is Miss,
                StoredMetadata::Corrupt => r is Remove,
                StoredMetadata::Read(entry) => if is_complete(entry@, body_len) {
                    r is Hit && r->Hit_0@ == (CacheEntryView {
                        key: plan@.key,
                        body_path: store::body_file(plan@.key),
                        last_access: now,
                        ..entry@
                    })
                } else {
                    r is Remove
                },
            },
    {
        match stored {
            StoredMetadata::Missing => Lookup::Miss,
            StoredMetadata::Corrupt => Lookup::Remove,
            StoredMetadata::Read(found) => {
                let mut entry = found;
                if !complete(&entry, body_len) {
                    return Lookup::Remove;
                }
                entry.key = plan.key.clone();
                entry.body_path = body_name(&plan.key);
                entry.last_access = now;
                Lookup::Hit(entry)
            },
        }
    }

    /// Refresh an entry after a successful conditional `304 Not Modified`, at a reading of
    /// the clock.
    pub fn refresh_at(
        entry: &mut CacheEntry,
        response_headers: &HeaderMap,
        configured_ttl: u64,
        now: i128,
    )
        requires
            clock::is_reading(now),
        ensures
            final(entry)@ == refreshed(
                old(entry)@,
                header_values(*response_headers),
                configured_ttl,
                now,
            ),
    {
        proof {
            headers::lemma_known_names();
        }
        entry.created_at = seconds_at(now);
        entry.last_access = entry.created_at;
        entry.ttl = effective_ttl_at(configured_ttl, response_headers, now);
        if let Some(value) = header_text(response_headers, "etag") {
            entry.etag = Some(value);
        }
        if let Some(value) = header_text(response_headers, "last-modified") {
            entry.last_modified = Some(value);
        }
    }

    /// Refresh an entry after a successful conditional `304 Not Modified`.
    pub fn refresh(
        &self,
        entry: &mut CacheEntry,
        response_headers: &HeaderMap,
        configured_ttl: u64,
    )
        ensures
            exists|now: i128|
                clock::is_reading(now) && final(entry)@ == #[trigger] refreshed(
                    old(entry)@,
                    header_values(*response_headers),
                    configured_ttl,
                    now,
                ),
    {
        Cache::refresh_at(entry, response_headers, configured_ttl, read_clock());
    }

    /// Whether an entry may be served at a time without asking the target.
    pub fn is_fresh(entry: &CacheEntry, now: u64) -> (r: bool)
        ensures
            r == fresh(entry@, now),
    {
        !entry.revalidate && now.saturating_sub(entry.created_at) < entry.ttl
    }

    /// Whether an entry has a validator that the target can be asked with.
    pub fn can_validate(entry: &CacheEntry) -> (r: bool)
        ensures
            r == has_validator(entry@),
    {
        can_write(&entry.etag) || can_write(&entry.last_modified)
    }

    /// Ask the target whether an entry is still right: puts the entry's validators into
    /// the headers of a request.
    pub fn add_validators(headers: &mut HeaderMap, entry: &CacheEntry)
        requires
            headers::has_room(header_values(*old(headers)), 2),
        ensures
            header_values(*final(headers)) == validated(header_values(*old(headers)), entry@),
    {
        proof {
            headers::lemma_known_names();
        }
        insert_text(headers, "if-none-match", &entry.etag);
        insert_text(headers, "if-modified-since", &entry.last_modified);
    }

    /// Begin to store a response, at a reading of the clock. `None` where it is not to be
    /// stored.
    pub fn begin_write_at(
        &self,
        plan: &CachePlan,
        status: u16,
        headers: &HeaderMap,
        request_headers: &HeaderMap,
        now: i128,
    ) -> (r: Option<CacheWriter>)
        requires
            clock::is_reading(now),
        ensures
            r is Some <==> is_stored(
                plan@.ttl,
                status,
                header_values(*headers),
                header_values(*request_headers),
                now,
            ),
            r is Some ==> r->0.body_len() == 0 && is_entry_of(
                r->0.entry(),
                plan@,
                status,
                header_values(*headers),
                header_values(*request_headers),
                now,
            ),
    {
        proof {
            headers::lemma_known_names();
        }
        if !(200 <= status && status < 300) || !cacheable_headers(headers) {
            return None;
        }
        let vary = match parse_vary(headers) {
            Some(vary) => vary,
            None => {
                return None;
            },
        };
        // Authenticated requests never participate in the cache, whether or not they went
        // through a plan.
        if header_has(request_headers, "authorization") {
            return None;
        }
        proof {
            let values = headers::values_of(header_values(*headers), "vary"@);
            variants::lemma_vary_supported(values);
            assert forall|i: int| 0 <= i < vary@.len() implies headers::is_header_name(
                (#[trigger] vary@[i])@,
            ) by {
                assert(variants::vary_of(values)->0[i] == vary@[i]@);
                variants::lemma_vary_names(vary@[i]@);
            }
        }
        let ttl: u64 = effective_ttl_at(plan.ttl, headers, now);
        if ttl == 0 {
            return None;
        }
        let request_variants = read_variants(request_headers, &vary);
        let seconds: u64 = seconds_at(now);
        let entry = CacheEntry {
            version: CACHE_VERSION,
            status,
            headers: cache_headers(headers),
            body_len: 0,
            created_at: seconds,
            last_access: seconds,
            ttl,
            revalidate: cache_control_requires_revalidation(headers),
            etag: header_text(headers, "etag"),
            last_modified: header_text(headers, "last-modified"),
            vary,
            request_variants,
            key: plan.key.clone(),
            body_path: body_name(&plan.key),
        };
        Some(CacheWriter { entry, body_len: 0 })
    }

    /// Begin to store a response. `None` where it is not to be stored.
    pub fn begin_write(
        &self,
        plan: &CachePlan,
        status: u16,
        headers: &HeaderMap,
        request_headers: &HeaderMap,
    ) -> (r: Option<CacheWriter>)
        ensures
            exists|now: i128| #[trigger]
                clock::is_reading(now) && (r is Some <==> is_stored(
                    plan@.ttl,
                    status,
                    header_values(*headers),
                    header_values(*request_headers),
                    now,
                )) && (r is Some ==> r->0.body_len() == 0 && is_entry_of(
                    r->0.entry(),
                    plan@,
                    status,
                    header_values(*headers),
                    header_values(*request_headers),
                    now,
                )),
    {
        self.begin_write_at(plan, status, headers, request_headers, read_clock())
    }

    /// Whether an entry may be stored: it fits into the cache, its two files together.
    pub fn admits(&self, entry: &CacheEntry, metadata_len: u64) -> (r: bool)
        ensures
            r == (entry@.body_len + metadata_len <= self@.max_size),
    {
        entry.body_len <= self.max_size && metadata_len <= self.max_size - entry.body_len
    }

    /// The keys of the entries that have to go, least recently used first, for the rest
    /// of what the cache directory holds to fit.
    pub fn evict(&self, files: &Vec<StoredFile>) -> (keys: Vec<String>)
        ensures
            ({
                let found = store::stored_candidates(store::file_views(files@), files@.len());
                text::texts(keys@) == store::keys_of(
                    store::eviction(found, store::counted_size(found), self@.max_size).0,
                )
            }),
    {
        evict(stored_entries(files), self.max_size)
    }

    /// What has to go when the cache starts: the names of files that are of no use, and
    /// then the keys of entries for which there is no room.
    pub fn cleanup(&self, files: &Vec<StoredFile>, now: u64) -> (r: (Vec<String>, Vec<String>))
        ensures
            text::texts(r.0@) == store::useless_names(
                store::file_views(files@),
                files@.len(),
                now,
            ),
            ({
                let kept = store::kept_candidates(store::file_views(files@), files@.len(), now);
                text::texts(r.1@) == store::keys_of(
                    store::eviction(kept, store::counted_size(kept), self@.max_size).0,
                )
            }),
    {
        (useless_files(files, now), evict(kept_entries(files, now), self.max_size))
    }

    /// The name of an entry's body file in the cache directory.
    pub fn body_path(&self, key: &str) -> (r: String)
        ensures
            r@ == store::body_file(key@),
    {
        body_name(key)
    }

    /// The name of the body file that an entry was found with.
    pub fn entry_body_path(&self, entry: &CacheEntry) -> (r: String)
        ensures
            r@ == entry@.body_path,
    {
        entry.body_path.clone()
    }
}

/// The header lines that the pairs of an entry write: those of which the name and the
/// value can be written.
pub open spec fn entry_lines(pairs: Seq<(Seq<char>, Seq<char>)>) -> Seq<(Seq<char>, Seq<u8>)>
    decreases pairs.len(),
{
    if pairs.len() == 0 {
        Seq::empty()
    } else {
        let before = entry_lines(pairs.drop_last());
        match (headers::parsed_name(pairs.last().0), headers::text_value(pairs.last().1)) {
            (Some(name), Some(value)) => before.push((name, value)),
            _ => before,
        }
    }
}

/// Whether a header map surely takes the headers of a cached response and `more` further
/// names: the pairs are few enough, or their names are. (Behind as many names as a map
/// surely takes, it may give up on a further value.)
pub open spec fn entry_has_room(pairs: Seq<(Seq<char>, Seq<char>)>, more: nat) -> bool {
    ||| pairs.len() + more <= headers::HEADER_NAME_LIMIT
    ||| {
        &&& headers::has_room(headers::collected(entry_lines(pairs)), more)
        &&& headers::has_room(headers::collected(entry_lines(pairs)), 1)
    }
}

/// The names among the first pairs are among all, and each pair adds at most one.
proof fn lemma_first_entry_names(pairs: Seq<(Seq<char>, Seq<char>)>, i: int)
    requires
        0 <= i <= pairs.len(),
    ensures
        ({
            let first = headers::collected(entry_lines(pairs.take(i))).dom();
            let all = headers::collected(entry_lines(pairs)).dom();
            &&& first.subset_of(all)
            &&& first.finite() && all.finite()
            &&& first.len() <= all.len()
            &&& first.len() <= i
        }),
{
    let first = headers::collected(entry_lines(pairs.take(i))).dom();
    let all = headers::collected(entry_lines(pairs)).dom();
    lemma_entry_names_grow(pairs, i);
    headers::lemma_collected_finite(entry_lines(pairs.take(i)));
    headers::lemma_collected_finite(entry_lines(pairs));
    vstd::set_lib::lemma_len_subset(first, all);
    lemma_entry_names_count(pairs.take(i));
}

proof fn lemma_entry_names_grow(pairs: Seq<(Seq<char>, Seq<char>)>, i: int)
    requires
        0 <= i <= pairs.len(),
    ensures
        headers::collected(entry_lines(pairs.take(i))).dom().subset_of(
            headers::collected(entry_lines(pairs)).dom(),
        ),
    decreases pairs.len() - i,
{
    if i == pairs.len() {
        assert(pairs.take(i) =~= pairs);
    } else {
        lemma_entry_names_grow(pairs, i + 1);
        let before = entry_lines(pairs.take(i));
        assert(pairs.take(i + 1).drop_last() =~= pairs.take(i));
        match (headers::parsed_name(pairs[i].0), headers::text_value(pairs[i].1)) {
            (Some(name), Some(value)) => {
                assert(before.push((name, value)).drop_last() =~= before);
            },
            _ => {},
        }
    }
}

proof fn lemma_entry_names_count(pairs: Seq<(Seq<char>, Seq<char>)>)
    ensures
        headers::collected(entry_lines(pairs)).dom().len() <= pairs.len(),
    decreases pairs.len(),
{
    if pairs.len() > 0 {
        lemma_entry_names_count(pairs.drop_last());
        let before = entry_lines(pairs.drop_last());
        headers::lemma_collected_finite(before);
        match (headers::parsed_name(pairs.last().0), headers::text_value(pairs.last().1)) {
            (Some(name), Some(value)) => {
                assert(before.push((name, value)).drop_last() =~= before);
                assert(headers::collected(before.push((name, value))).dom()
                    =~= headers::collected(before).dom().insert(name));
            },
            _ => {},
        }
    }
}

/// Whether a header map surely takes the headers of a cached response and `more` further
/// names.
pub fn room_for_entry(entry: &CacheEntry, more: usize) -> (r: bool)
    ensures
        r == entry_has_room(entry@.headers, more as nat),
{
    let count: usize = entry.headers.len();
    if count <= headers::HEADER_NAME_LIMIT && more <= headers::HEADER_NAME_LIMIT - count {
        return true;
    }
    let mut names = header_map();
    let empty: Vec<u8> = Vec::new();
    let ghost pairs = entry@.headers;
    let mut i: usize = 0;
    proof {
        assert(pairs.take(0) =~= Seq::empty());
    }
    while i < entry.headers.len()
        invariant
            i <= entry.headers@.len(),
            empty@.len() == 0,
            pairs == variants::pair_views(entry.headers@),
            pairs == entry@.headers,
            pairs.len() + more > headers::HEADER_NAME_LIMIT,
            header_values(names).dom() == headers::collected(
                entry_lines(pairs.take(i as int)),
            ).dom(),
        decreases entry.headers@.len() - i,
    {
        let pair = &entry.headers[i];
        proof {
            assert(pairs.take(i + 1).drop_last() =~= pairs.take(i as int));
            assert(pairs.take(i + 1).last() == (pair.0@, pair.1@));
        }
        if let Some(name) = read_name(&pair.0) {
            if let Some(value) = write_value(&pair.1) {
                proof {
                    let before = entry_lines(pairs.take(i as int));
                    assert(before.push((name@, value@)).drop_last() =~= before);
                    lemma_first_entry_names(pairs, i as int);
                }
                if !room_for(&names, 1) {
                    return false;
                }
                header_append(&mut names, &name, &empty);
                proof {
                    assert(header_values(names).dom() =~= headers::collected(
                        entry_lines(pairs.take(i + 1)),
                    ).dom());
                }
            }
        }
        i += 1;
    }
    proof {
        assert(pairs.take(entry.headers@.len() as int) =~= pairs);
    }
    room_for(&names, more) && room_for(&names, 1)
}

/// The headers of a cached response.
pub fn headers_from_entry(entry: &CacheEntry) -> (r: HeaderMap)
    requires
        entry_has_room(entry@.headers, 0),
    ensures
        header_values(r) == headers::collected(entry_lines(entry@.headers)),
        header_values(r).dom().finite(),
        header_values(r).dom().len() <= entry.headers@.len(),
{
    let mut headers = header_map();
    let ghost pairs = entry@.headers;
    let mut i: usize = 0;
    proof {
        assert(pairs.take(0) =~= Seq::empty());
    }
    while i < entry.headers.len()
        invariant
            i <= entry.headers@.len(),
            entry_has_room(pairs, 0),
            pairs == variants::pair_views(entry.headers@),
            header_values(headers) == headers::collected(entry_lines(pairs.take(i as int))),
        decreases entry.headers@.len() - i,
    {
        let pair = &entry.headers[i];
        proof {
            assert(pairs.take(i + 1).drop_last() =~= pairs.take(i as int));
            assert(pairs.take(i + 1).last() == (pair.0@, pair.1@));
            lemma_first_entry_names(pairs, i as int);
        }
        if let Some(name) = read_name(&pair.0) {
            if let Some(value) = write_value(&pair.1) {
                proof {
                    let before = entry_lines(pairs.take(i as int));
                    assert(before.push((name@, value@)).drop_last() =~= before);
                }
                header_append(&mut headers, &name, &value);
            }
        }
        i += 1;
    }
    proof {
        assert(pairs.take(entry.headers@.len() as int) =~= pairs);
        lemma_first_entry_names(pairs, pairs.len() as int);
    }
    headers
}

/// Say in a response how the cache took part in it.
pub fn add_cache_header(headers: &mut HeaderMap, value: &str)
    requires
        headers::has_room(header_values(*old(headers)), 1),
        headers::is_header_value(vstd::utf8::encode_utf8(value@)),
    ensures
        header_values(*final(headers)) == header_values(*old(headers)).insert(
            "x-cache"@,
            seq![vstd::utf8::encode_utf8(value@)],
        ),
{
    proof {
        headers::lemma_known_names();
    }
    header_insert(headers, "x-cache", value.as_bytes());
}

/// A request that carries credentials or asks for a part has no plan, and the response to
/// an authenticated request is never stored.
pub proof fn law_credentials_bypass_cache(
    cache: CacheView,
    url: UrlView,
    request: HeaderValues,
    ttl: u64,
    status: u16,
    response: HeaderValues,
    now: i128,
)
    requires
        bypasses_cache(request),
    ensures
        plan_of(cache, url, request) is None,
        request.contains_key("authorization"@) ==> !is_stored(ttl, status, response, request, now),
{
}

/// If several rules match, the last of them supplies the age, within the bound of the
/// cache; an age of 0 keeps the target out of the cache.
pub proof fn law_last_rule_wins(cache: CacheView, url: UrlView, request: HeaderValues, i: int)
    requires
        !bypasses_cache(request),
        0 <= i < cache.rules.len(),
        rules::pattern_matches(cache.rules[i].pattern, urls::normalized(url)),
        forall|j: int|
            i < j < cache.rules.len() ==> !rules::pattern_matches(
                (#[trigger] cache.rules[j]).pattern,
                urls::normalized(url),
            ),
    ensures
        ({
            let age = cache.rules[i].max_age;
            let bound = if age < cache.max_age {
                age
            } else {
                cache.max_age
            };
            plan_of(cache, url, request) == if bound == 0 {
                None
            } else {
                Some(
                    PlanView {
                        key: variants::cache_key_of(urls::normalized(url), request),
                        ttl: bound,
                    },
                )
            }
        }),
{
    lemma_last_match(cache.rules, urls::normalized(url), i);
}

/// The last match is what its name says.
proof fn lemma_last_match(rules: Seq<RuleView>, subject: Seq<char>, i: int)
    requires
        0 <= i < rules.len(),
        rules::pattern_matches(rules[i].pattern, subject),
        forall|j: int|
            i < j < rules.len() ==> !rules::pattern_matches(
                (#[trigger] rules[j]).pattern,
                subject,
            ),
    ensures
        last_match(rules, subject) == Some(rules[i].max_age),
    decreases rules.len(),
{
    if i < rules.len() - 1 {
        assert(rules.last() == rules[rules.len() - 1]);
        lemma_last_match(rules.drop_last(), subject, i);
    }
}

/// A target that no rule matches is not cached.
pub proof fn law_whitelist_only(cache: CacheView, url: UrlView, request: HeaderValues)
    requires
        forall|i: int|
            0 <= i < cache.rules.len() ==> !rules::pattern_matches(
                (#[trigger] cache.rules[i]).pattern,
                urls::normalized(url),
            ),
    ensures
        plan_of(cache, url, request) is None,
{
    lemma_no_match(cache.rules, urls::normalized(url));
}

/// Where no rule matches, there is no last match.
proof fn lemma_no_match(rules: Seq<RuleView>, subject: Seq<char>)
    requires
        forall|i: int|
            0 <= i < rules.len() ==> !rules::pattern_matches(
                (#[trigger] rules[i]).pattern,
                subject,
            ),
    ensures
        last_match(rules, subject) is None,
    decreases rules.len(),
{
    if rules.len() > 0 {
        assert(rules.last() == rules[rules.len() - 1]);
        lemma_no_match(rules.drop_last(), subject);
    }
}

/// The configured age is an upper bound, and so is the age of the cache.
pub proof fn law_ages_are_bounded(
    cache: CacheView,
    url: UrlView,
    request: HeaderValues,
    configured: u64,
    response: HeaderValues,
    now: i128,
)
    ensures
        plan_of(cache, url, request) is Some ==> 0 < plan_of(cache, url, request)->0.ttl
            <= cache.max_age,
        freshness::ttl_of(configured, response, now) <= configured,
{
}

/// What is stale stays stale.
pub proof fn law_stale_stays_stale(entry: CacheEntryView, now: u64, later: u64)
    requires
        now <= later,
        !fresh(entry, now),
    ensures
        !fresh(entry, later),
{
}

/// A confirmed entry is fresh again, unless it has to be revalidated each time or may not
/// be kept at all.
pub proof fn law_confirmed_is_fresh(
    entry: CacheEntryView,
    response: HeaderValues,
    configured_ttl: u64,
    now: i128,
)
    ensures
        fresh(refreshed(entry, response, configured_ttl, now), clock::seconds(now)) <==> (
        !entry.revalidate && freshness::ttl_of(configured_ttl, response, now) > 0),
{
}

/// A response marked `no-cache` is revalidated on every lookup.
pub proof fn law_no_cache_is_never_fresh(
    entry: CacheEntryView,
    plan: PlanView,
    status: u16,
    response: HeaderValues,
    request: HeaderValues,
    now: i128,
    later: u64,
)
    requires
        is_entry_of(entry, plan, status, response, request, now),
        freshness::needs_revalidation(response),
    ensures
        !fresh(entry, later),
{
}

/// What was written is found again: looked up under the same plan with a body file of the
/// length that was written, an entry is complete, and its key and body file are those
/// that it was written with.
pub proof fn law_written_entry_is_found(
    entry: CacheEntryView,
    plan: PlanView,
    status: u16,
    response: HeaderValues,
    request: HeaderValues,
    now: i128,
    written: u64,
    later: u64,
)
    requires
        is_entry_of(entry, plan, status, response, request, now),
    ensures
        ({
            let finished = CacheEntryView { body_len: written, ..entry };
            &&& is_complete(finished, Some(written))
            &&& (CacheEntryView {
                key: plan.key,
                body_path: store::body_file(plan.key),
                last_access: later,
                ..finished
            }) == CacheEntryView { last_access: later, ..finished }
        }),
{
}

/// Neither the diagnostic header nor a header that concerns one hop is stored.
pub proof fn law_hop_headers_are_not_stored(response: HeaderValues, name: Seq<char>)
    requires
        name == "x-cache"@ || cors::hop_by_hop(name),
    ensures
        !stored_values(response).contains_key(name),
{
}

/// Whether a header name can be read. (One with a quotation mark in it can be held, but
/// not read.)
pub open spec fn is_readable_name(name: Seq<char>) -> bool {
    !name.contains('"')
}

/// Headers that were stored come back: pairs that stand for the stored headers of a
/// response give those of them again whose names can be read.
pub proof fn law_stored_headers_come_back(
    pairs: Seq<(Seq<char>, Seq<char>)>,
    response: HeaderValues,
)
    requires
        headers::collected(pair_lines(pairs)) == stored_values(response),
        forall|i: int|
            0 <= i < pairs.len() ==> headers::is_header_name((#[trigger] pairs[i]).0)
                && headers::is_header_value(vstd::utf8::encode_utf8(pairs[i].1)),
    ensures
        headers::collected(entry_lines(pairs)) == stored_values(response).restrict(
            Set::new(|name: Seq<char>| is_readable_name(name)),
        ),
{
    let keep = |name: Seq<char>| is_readable_name(name);
    let readable = |l: (Seq<char>, Seq<u8>)| is_readable_name(l.0);
    let kept = |l: (Seq<char>, Seq<u8>)| keep(l.0);
    lemma_entry_lines(pairs);
    assert(readable =~= kept);
    headers::lemma_collected_filter(pair_lines(pairs), keep);
}

/// Headers of which all values can be read come back whole, repeated values and their
/// order included, but for those that are not stored, which do not come back at all.
pub proof fn law_readable_headers_come_back(
    pairs: Seq<(Seq<char>, Seq<char>)>,
    response: HeaderValues,
    name: Seq<char>,
)
    requires
        headers::collected(pair_lines(pairs)) == stored_values(response),
        forall|i: int|
            0 <= i < pairs.len() ==> headers::is_header_name((#[trigger] pairs[i]).0)
                && headers::is_header_value(vstd::utf8::encode_utf8(pairs[i].1)),
        is_readable_name(name),
        forall|i: int|
            0 <= i < headers::values_of(response, name).len() ==> headers::value_text(
                #[trigger] headers::values_of(response, name)[i],
            ) is Some,
    ensures
        headers::values_of(headers::collected(entry_lines(pairs)), name) == if is_stored_name(
            name,
        ) {
            headers::values_of(response, name)
        } else {
            Seq::empty()
        },
{
    law_stored_headers_come_back(pairs, response);
    lemma_all_readable(headers::values_of(response, name));
}

proof fn lemma_all_readable(values: Seq<Seq<u8>>)
    requires
        forall|i: int|
            0 <= i < values.len() ==> headers::value_text(#[trigger] values[i]) is Some,
    ensures
        values.filter(|value: Seq<u8>| headers::value_text(value) is Some) == values,
    decreases values.len(),
{
    reveal(Seq::filter);
    if values.len() > 0 {
        lemma_all_readable(values.drop_last());
        assert(values.drop_last().push(values.last()) =~= values);
    }
}

/// The headers that were stored of a response fit where those of the response do.
pub proof fn law_stored_headers_fit(
    pairs: Seq<(Seq<char>, Seq<char>)>,
    response: HeaderValues,
    more: nat,
)
    requires
        headers::collected(pair_lines(pairs)) == stored_values(response),
        forall|i: int| 0 <= i < pairs.len() ==> headers::is_header_name((#[trigger] pairs[i]).0),
        headers::has_room(response, more),
        more > 0,
    ensures
        entry_has_room(pairs, more),
{
    let names = headers::collected(entry_lines(pairs)).dom();
    lemma_entry_names(pairs);
    assert(names.subset_of(response.dom()));
    vstd::set_lib::lemma_len_subset(names, response.dom());
}

/// The names that are written are among those of the pairs.
proof fn lemma_entry_names(pairs: Seq<(Seq<char>, Seq<char>)>)
    requires
        forall|i: int| 0 <= i < pairs.len() ==> headers::is_header_name((#[trigger] pairs[i]).0),
    ensures
        headers::collected(entry_lines(pairs)).dom().subset_of(
            headers::collected(pair_lines(pairs)).dom(),
        ),
    decreases pairs.len(),
{
    if pairs.len() > 0 {
        lemma_entry_names(pairs.drop_last());
        let name = pairs.last().0;
        assert(pairs.last() == pairs[pairs.len() - 1]);
        headers::lemma_stored_name(name);
        assert(pair_lines(pairs).drop_last() =~= pair_lines(pairs.drop_last()));
        let before = entry_lines(pairs.drop_last());
        match (headers::parsed_name(name), headers::text_value(pairs.last().1)) {
            (Some(name), Some(value)) => {
                assert(before.push((name, value)).drop_last() =~= before);
            },
            _ => {},
        }
    }
}

/// Pairs that can be written are written as they are, where their names can be read.
proof fn lemma_entry_lines(pairs: Seq<(Seq<char>, Seq<char>)>)
    requires
        forall|i: int|
            0 <= i < pairs.len() ==> headers::is_header_name((#[trigger] pairs[i]).0)
                && headers::is_header_value(vstd::utf8::encode_utf8(pairs[i].1)),
    ensures
        entry_lines(pairs) == pair_lines(pairs).filter(
            |l: (Seq<char>, Seq<u8>)| is_readable_name(l.0),
        ),
    decreases pairs.len(),
{
    reveal(Seq::filter);
    if pairs.len() == 0 {
        assert(pair_lines(pairs) =~= Seq::empty());
    } else {
        lemma_entry_lines(pairs.drop_last());
        assert(pairs.last() == pairs[pairs.len() - 1]);
        headers::lemma_stored_name(pairs.last().0);
        assert(pair_lines(pairs).drop_last() =~= pair_lines(pairs.drop_last()));
    }
}

/// A request has a plan exactly when it carries no credentials and asks for no part, some
/// rule matches its target, and neither the last rule that does nor the cache has an age of
/// nothing.
pub proof fn law_plans(cache: CacheView, url: UrlView, request: HeaderValues, i: int)
    requires
        0 <= i < cache.rules.len(),
        rules::pattern_matches(cache.rules[i].pattern, urls::normalized(url)),
        forall|j: int|
            i < j < cache.rules.len() ==> !rules::pattern_matches(
                (#[trigger] cache.rules[j]).pattern,
                urls::normalized(url),
            ),
    ensures
        ({
            let plan = plan_of(cache, url, request);
            let kept_out = request.contains_key("authorization"@) || request.contains_key(
                "cookie"@,
            ) || request.contains_key("range"@);
            &&& plan is Some <==> !kept_out && cache.rules[i].max_age > 0 && cache.max_age > 0
            &&& plan is Some ==> plan->0.key == variants::cache_key_of(
                urls::normalized(url),
                request,
            )
            &&& plan is Some ==> plan->0.ttl <= cache.rules[i].max_age && plan->0.ttl
                <= cache.max_age
            &&& plan is Some ==> plan->0.ttl == cache.rules[i].max_age || plan->0.ttl
                == cache.max_age
        }),
{
    if !bypasses_cache(request) {
        law_last_rule_wins(cache, url, request, i);
    }
}

/// The rules of a cache are those of the whitelist that can be read, in their order, each
/// with its age.
pub proof fn law_rules_are_configured(whitelist: Seq<CacheRule>, rule: CacheRule)
    ensures
        valid_rules(Seq::empty()).len() == 0,
        rules::rule_read(rule.pattern@) is Err ==> valid_rules(whitelist.push(rule))
            == valid_rules(whitelist),
        rules::rule_read(rule.pattern@) is Ok ==> valid_rules(whitelist.push(rule)) == valid_rules(
            whitelist,
        ).push(
            RuleView {
                pattern: rules::rule_read(rule.pattern@)->Ok_0,
                max_age: rule.max_age,
            },
        ),
{
    assert(whitelist.push(rule).drop_last() =~= whitelist);
}

/// The cache is on exactly when it is enabled, has an age, a size and a rule that can be
/// read, and its directory can be used; otherwise the first of these that fails is the
/// reason.
pub proof fn law_cache_is_on(config: CacheConfig, directory_ready: bool)
    ensures
        disabled_reason(config, directory_ready) is None <==> {
            &&& config.enabled
            &&& config.max_age > 0
            &&& config.max_size > 0
            &&& config.whitelist@.len() > 0
            &&& directory_ready
            &&& valid_rules(config.whitelist@).len() > 0
        },
        !config.enabled ==> disabled_reason(config, directory_ready) == Some(
            "cache.enabled is false"@,
        ),
        config.enabled && config.max_age == 0 ==> disabled_reason(config, directory_ready) == Some(
            "cache.max_age is 0"@,
        ),
        config.enabled && config.max_age > 0 && config.max_size == 0 ==> disabled_reason(
            config,
            directory_ready,
        ) == Some("cache.max_size is 0"@),
        config.enabled && config.max_age > 0 && config.max_size > 0 && config.whitelist@.len() == 0
            ==> disabled_reason(config, directory_ready) == Some("cache.whitelist is empty"@),
        off_reason(config) is None && !directory_ready ==> disabled_reason(config, directory_ready)
            == Some("cache directory is unavailable"@),
        off_reason(config) is None && directory_ready && valid_rules(config.whitelist@).len() == 0
            ==> disabled_reason(config, directory_ready) == Some(
            "no valid cache whitelist rules"@,
        ),
        configured_cache(config).max_size == config.max_size,
        configured_cache(config).max_age == config.max_age,
        configured_cache(config).rules == valid_rules(config.whitelist@),
{
}

/// The directory of the cache is what is configured, without white space around it, and has
/// a name of its own where that is nothing.
pub proof fn law_location(config: CacheConfig, r: String)
    requires
        call_ensures(cache_location, (&config,), r),
    ensures
        text::trimmed(config.location@).len() > 0 ==> r@ == text::trimmed(config.location@),
        text::trimmed(config.location@).len() == 0 ==> r@ == ".cache"@,
{
}

/// An entry is fresh while fewer seconds have passed since it was stored than it may be kept,
/// and never where it has to be revalidated each time; a clock that was set back makes it no
/// older.
pub proof fn law_freshness(entry: CacheEntryView, now: u64)
    ensures
        entry.revalidate ==> !fresh(entry, now),
        !entry.revalidate && now >= entry.created_at ==> (fresh(entry, now) <==> now
            - entry.created_at < entry.ttl),
        !entry.revalidate && now < entry.created_at ==> (fresh(entry, now) <==> entry.ttl > 0),
{
}

/// A confirmed entry counts as stored at that time, for as long as the answer says; it takes
/// over the validators of the answer, where that has readable ones, and nothing else of it
/// changes.
pub proof fn law_confirmed_entries(
    entry: CacheEntryView,
    response: HeaderValues,
    configured_ttl: u64,
    now: i128,
)
    requires
        clock::is_reading(now),
        now >= 0,
    ensures
        ({
            let after = refreshed(entry, response, configured_ttl, now);
            let text_of = |name: Seq<char>|
                if response.contains_key(name) {
                    headers::value_text(response[name][0])
                } else {
                    None
                };
            &&& after.created_at * 1_000_000_000 <= now < (after.created_at + 1) * 1_000_000_000
            &&& after.last_access == after.created_at
            &&& after.ttl == freshness::ttl_of(configured_ttl, response, now)
            &&& after.etag == if text_of("etag"@) is Some {
                text_of("etag"@)
            } else {
                entry.etag
            }
            &&& after.last_modified == if text_of("last-modified"@) is Some {
                text_of("last-modified"@)
            } else {
                entry.last_modified
            }
            &&& after.version == entry.version && after.status == entry.status && after.headers
                == entry.headers && after.body_len == entry.body_len && after.revalidate
                == entry.revalidate && after.vary == entry.vary && after.request_variants
                == entry.request_variants && after.key == entry.key && after.body_path
                == entry.body_path
        }),
{
    clock::law_units(now);
}

/// What is stored: successes from 200 to 299 whose headers allow it, that vary by supported
/// headers only, answer a request without credentials, and may be kept for some time.
pub proof fn law_what_is_stored(
    ttl: u64,
    status: u16,
    response: HeaderValues,
    request: HeaderValues,
    now: i128,
)
    ensures
        is_stored(ttl, status, response, request, now) <==> {
            &&& status >= 200
            &&& status <= 299
            &&& freshness::is_cacheable(response)
            &&& variants::vary_of(headers::values_of(response, "vary"@)) is Some
            &&& !request.contains_key("authorization"@)
            &&& freshness::ttl_of(ttl, response, now) != 0
        },
{
}

/// How it is stored: an entry holds the answer's status and validators, the headers that are
/// kept, what it varies by and the request's values of that, the second at which it came,
/// how long it may be kept and whether it has to be revalidated, under the plan's key.
pub proof fn law_what_entries_hold(
    entry: CacheEntryView,
    plan: PlanView,
    status: u16,
    response: HeaderValues,
    request: HeaderValues,
    now: i128,
    name: Seq<char>,
)
    requires
        is_entry_of(entry, plan, status, response, request, now),
        clock::is_reading(now),
        now >= 0,
    ensures
        entry.version == 1,
        entry.status == status,
        entry.body_len == 0,
        entry.created_at * 1_000_000_000 <= now < (entry.created_at + 1) * 1_000_000_000,
        entry.last_access == entry.created_at,
        entry.ttl == freshness::ttl_of(plan.ttl, response, now),
        entry.revalidate == freshness::needs_revalidation(response),
        entry.etag == headers::first_text(response, "etag"@),
        entry.last_modified == headers::first_text(response, "last-modified"@),
        variants::vary_of(headers::values_of(response, "vary"@)) is Some ==> Some(entry.vary)
            == variants::vary_of(headers::values_of(response, "vary"@)),
        entry.request_variants == variants::variants_of(request, entry.vary),
        entry.key == plan.key,
        entry.body_path == plan.key + ".body"@,
        headers::values_of(headers::collected(pair_lines(entry.headers)), name)
            == if name == "x-cache"@ || cors::hop_by_hop(name) {
            Seq::empty()
        } else {
            headers::values_of(response, name).filter(
                |value: Seq<u8>| headers::value_text(value) is Some,
            )
        },
{
    clock::law_units(now);
    let good = |value: Seq<u8>| headers::value_text(value) is Some;
    reveal(Seq::filter);
    assert(Seq::<Seq<u8>>::empty().filter(good) =~= Seq::empty());
    let kept = headers::values_of(response, name).filter(good);
    if kept.len() == 0 {
        assert(kept =~= Seq::empty());
    }
}

/// A lookup finds what was stored in full, with its key, its body file and the time of the
/// lookup; what is corrupt, of another version or without its whole body has to go; and what
/// is not there is missed.
pub proof fn law_lookup(
    cache: Cache,
    plan: CachePlan,
    stored: StoredMetadata,
    body_len: Option<u64>,
    now: u64,
    r: Lookup,
)
    requires
        call_ensures(Cache::lookup, (&cache, &plan, stored, body_len, now), r),
    ensures
        stored is Missing <==> r is Miss,
        stored is Corrupt ==> r is Remove,
        stored is Read ==> (r is Hit <==> stored->Read_0.version == 1 && body_len is Some
            && body_len->0 == stored->Read_0.body_len),
        stored is Read && !(r is Hit) ==> r is Remove,
        r is Hit ==> {
            let (found, entry) = (r->Hit_0@, stored->Read_0@);
            &&& found.key == plan@.key
            &&& found.body_path == plan@.key + ".body"@
            &&& found.last_access == now
            &&& found == CacheEntryView {
                key: found.key,
                body_path: found.body_path,
                last_access: now,
                ..entry
            }
        },
{
}

/// An entry is admitted exactly when its two files together are within the cache's size.
pub proof fn law_admission(cache: Cache, entry: CacheEntry, metadata_len: u64, r: bool)
    requires
        call_ensures(Cache::admits, (&cache, &entry, metadata_len), r),
    ensures
        r <==> entry.body_len + metadata_len <= cache@.max_size,
{
}

/// A finished entry is the one that was begun, with the length that was written.
pub proof fn law_finished_entries(writer: CacheWriter, r: CacheEntry, key: String)
    requires
        call_ensures(CacheWriter::finish, (writer,), r),
        call_ensures(CacheWriter::key, (&writer,), key),
    ensures
        r@.body_len == writer.body_len(),
        r@ == (CacheEntryView { body_len: r@.body_len, ..writer.entry() }),
        key@ == writer.entry().key,
{
}

/// A plan tells its key and its age, and the files of an entry have the names that the
/// store gives them.
pub proof fn law_plans_and_files(
    plan: CachePlan,
    key: String,
    ttl: u64,
    cache: Cache,
    name: &str,
    body: String,
    entry: CacheEntry,
    found: String,
)
    requires
        call_ensures(CachePlan::key, (&plan,), key),
        call_ensures(CachePlan::ttl, (&plan,), ttl),
        call_ensures(Cache::body_path, (&cache, name), body),
        call_ensures(Cache::entry_body_path, (&cache, &entry), found),
    ensures
        key@ == plan@.key,
        ttl == plan@.ttl,
        body@ == name@ + ".body"@,
        found@ == entry.body_path@,
{
}

/// An entry's validators are put in place of what the request had under their names, where
/// they can be written; nothing else changes.
pub proof fn law_validators(request: HeaderValues, entry: CacheEntryView, name: Seq<char>)
    ensures
        ({
            let sent = headers::values_of(validated(request, entry), name);
            let had = headers::values_of(request, name);
            let written = |value: Option<Seq<char>>|
                match value {
                    Some(s) => if headers::is_header_value(vstd::utf8::encode_utf8(s)) {
                        seq![vstd::utf8::encode_utf8(s)]
                    } else {
                        had
                    },
                    None => had,
                };
            &&& name == "if-none-match"@ ==> sent == written(entry.etag)
            &&& name == "if-modified-since"@ ==> sent == written(entry.last_modified)
            &&& name != "if-none-match"@ && name != "if-modified-since"@ ==> sent == had
        }),
        has_validator(entry) <==> {
            ||| entry.etag is Some && headers::is_header_value(
                vstd::utf8::encode_utf8(entry.etag->0),
            )
            ||| entry.last_modified is Some && headers::is_header_value(
                vstd::utf8::encode_utf8(entry.last_modified->0),
            )
        },
{
    reveal_strlit("if-none-match");
    reveal_strlit("if-modified-since");
    assert("if-none-match"@.len() != "if-modified-since"@.len());
}

/// A stored pair is a header line again where its name and its value can be written, with the
/// name in small letters, and none otherwise.
pub proof fn law_pairs_become_lines(
    pairs: Seq<(Seq<char>, Seq<char>)>,
    name: Seq<char>,
    value: Seq<char>,
)
    ensures
        entry_lines(Seq::empty()).len() == 0,
        headers::parsed_name(name) is Some && headers::is_header_value(
            vstd::utf8::encode_utf8(value),
        ) ==> entry_lines(pairs.push((name, value))) == entry_lines(pairs).push(
            (text::lowered(name), vstd::utf8::encode_utf8(value)),
        ),
        headers::parsed_name(name) is None || !headers::is_header_value(
            vstd::utf8::encode_utf8(value),
        ) ==> entry_lines(pairs.push((name, value))) == entry_lines(pairs),
{
    assert(pairs.push((name, value)).drop_last() =~= pairs);
}

/// The bytes of a body are counted as they are written, as far as 64 bits can hold that, and
/// nothing else of the entry changes.
pub proof fn law_written_bytes(writer: &mut CacheWriter, bytes: &[u8])
    requires
        call_ensures(CacheWriter::write, (writer, bytes), ()),
    ensures
        final(writer).entry() == old(writer).entry(),
        old(writer).body_len() + bytes@.len() <= 0xffff_ffff_ffff_ffff ==> final(writer).body_len()
            == old(writer).body_len() + bytes@.len(),
        old(writer).body_len() + bytes@.len() > 0xffff_ffff_ffff_ffff ==> final(writer).body_len()
            == 0xffff_ffff_ffff_ffff,
{
}

/// The diagnostic header gets the one value that is given; no other header is touched.
pub proof fn law_cache_header(headers: &mut HeaderMap, value: &str, name: Seq<char>)
    requires
        call_ensures(add_cache_header, (headers, value), ()),
    ensures
        headers::values_of(header_values(*final(headers)), "x-cache"@) == seq![
            vstd::utf8::encode_utf8(value@),
        ],
        name != "x-cache"@ ==> headers::values_of(header_values(*final(headers)), name)
            == headers::values_of(header_values(*old(headers)), name),
{
}

/// What is confirmed is refreshed and what is asked about is validated as stated.
pub proof fn law_refreshing_and_asking(
    entry: &mut CacheEntry,
    response: HeaderMap,
    configured_ttl: u64,
    now: i128,
    request: &mut HeaderMap,
    about: CacheEntry,
)
    requires
        call_ensures(Cache::refresh_at, (entry, &response, configured_ttl, now), ()),
        call_ensures(Cache::add_validators, (request, &about), ()),
    ensures
        final(entry)@ == refreshed(old(entry)@, header_values(response), configured_ttl, now),
        header_values(*final(request)) == validated(header_values(*old(request)), about@),
{
}

/// A response is begun to be stored exactly when it is one that is stored, with nothing of
/// its body written yet.
pub proof fn law_storing(
    cache: Cache,
    plan: CachePlan,
    status: u16,
    response: HeaderMap,
    request: HeaderMap,
    now: i128,
    r: Option<CacheWriter>,
)
    requires
        call_ensures(Cache::begin_write_at, (&cache, &plan, status, &response, &request, now), r),
    ensures
        r is Some <==> is_stored(
            plan@.ttl,
            status,
            header_values(response),
            header_values(request),
            now,
        ),
        r is Some ==> r->0.body_len() == 0 && is_entry_of(
            r->0.entry(),
            plan@,
            status,
            header_values(response),
            header_values(request),
            now,
        ),
{
}

/// A plan is made for a target and a request, and freshness is answered for an entry, as
/// stated.
pub proof fn law_planning(
    cache: Cache,
    url: TargetUrl,
    request: HeaderMap,
    plan: Option<CachePlan>,
    entry: CacheEntry,
    now: u64,
    is_fresh: bool,
    can_ask: bool,
)
    requires
        call_ensures(Cache::plan, (&cache, &url, &request), plan),
        call_ensures(Cache::is_fresh, (&entry, now), is_fresh),
        call_ensures(Cache::can_validate, (&entry,), can_ask),
    ensures
        plan_option(plan) == plan_of(cache@, url@, header_values(request)),
        plan is Some ==> plan_option(plan) == Some(plan->0@),
        is_fresh == fresh(entry@, now),
        can_ask == has_validator(entry@),
{
}

/// A cache is made exactly when nothing keeps it off, with what is configured; and where it
/// is set up, it is said whether there is one and, if not, why.
pub proof fn law_setting_up(
    config: CacheConfig,
    directory_ready: bool,
    made: Option<Cache>,
    r: CacheInitialization,
    off: Option<String>,
)
    requires
        call_ensures(Cache::new, (&config,), made),
        call_ensures(Cache::initialize, (&config, directory_ready), r),
        call_ensures(switched_off, (&config,), off),
    ensures
        made is Some <==> disabled_reason(config, true) is None,
        made is Some ==> made->0@ == configured_cache(config),
        r.cache is Some <==> disabled_reason(config, directory_ready) is None,
        r.cache is Some ==> r.cache->0@ == configured_cache(config) && r.status is Enabled,
        r.cache is None ==> r.status is Disabled && Some(r.status->0@) == disabled_reason(
            config,
            directory_ready,
        ),
        off is Some <==> !config.enabled || config.max_age == 0 || config.max_size == 0
            || config.whitelist@.len() == 0,
        off is Some ==> Some(off->0@) == disabled_reason(config, directory_ready),
{
}

/// Eviction goes by the entries that the directory holds and cleaning up by those that are
/// worth keeping, and both by the size of the cache; cleaning up names the useless files
/// first.
pub proof fn law_making_room(
    cache: Cache,
    files: Vec<StoredFile>,
    now: u64,
    keys: Vec<String>,
    r: (Vec<String>, Vec<String>),
)
    requires
        call_ensures(Cache::evict, (&cache, &files), keys),
        call_ensures(Cache::cleanup, (&cache, &files, now), r),
    ensures
        ({
            let views = store::file_views(files@);
            let found = store::stored_candidates(views, views.len());
            let kept = store::kept_candidates(views, views.len(), now);
            &&& views.len() == files@.len()
            &&& text::texts(keys@) == store::keys_of(
                store::eviction(found, store::counted_size(found), cache@.max_size).0,
            )
            &&& text::texts(r.0@) == store::useless_names(views, views.len(), now)
            &&& text::texts(r.1@) == store::keys_of(
                store::eviction(kept, store::counted_size(kept), cache@.max_size).0,
            )
        }),
{
}

/// An entry is complete exactly when it has the version of today and its body has the length
/// that it says.
pub proof fn law_complete_entries(entry: CacheEntry, body_len: Option<u64>, r: bool)
    requires
        call_ensures(complete, (&entry, body_len), r),
    ensures
        r <==> entry.version == 1 && body_len == Some(entry.body_len),
        is_complete(entry@, body_len) == r,
{
}

/// What is kept of a response's headers adds up to the readable values of those that are
/// stored, in their order; and what an entry holds becomes headers again line by line.
pub proof fn law_storing_headers(
    response: HeaderMap,
    pairs: Vec<(String, String)>,
    entry: CacheEntry,
    r: HeaderMap,
    name: Seq<char>,
)
    requires
        call_ensures(cache_headers, (&response,), pairs),
        call_ensures(headers_from_entry, (&entry,), r),
    ensures
        headers::values_of(
            headers::collected(pair_lines(variants::pair_views(pairs@))),
            name,
        ) == if name == "x-cache"@ || cors::hop_by_hop(name) {
            Seq::empty()
        } else {
            headers::values_of(header_values(response), name).filter(
                |value: Seq<u8>| headers::value_text(value) is Some,
            )
        },
        header_values(r) == headers::collected(entry_lines(entry@.headers)),
{
    let good = |value: Seq<u8>| headers::value_text(value) is Some;
    reveal(Seq::filter);
    assert(Seq::<Seq<u8>>::empty().filter(good) =~= Seq::empty());
    let kept = headers::values_of(header_values(response), name).filter(good);
    if kept.len() == 0 {
        assert(kept =~= Seq::empty());
    }
}

/// There is room for an entry's headers and more where its pairs are few enough, or its names
/// are and at least one more would fit; and this is what is answered.
pub proof fn law_room_for_entries(entry: CacheEntry, more: usize, r: bool)
    requires
        call_ensures(room_for_entry, (&entry, more), r),
    ensures
        ({
            let names = headers::collected(entry_lines(entry@.headers)).dom().len();
            r <==> entry.headers@.len() + more <= 6554 || (names + more <= 6554 && names < 6554)
        }),
        r == entry_has_room(entry@.headers, more as nat),
{
    headers::lemma_collected_finite(entry_lines(entry@.headers));
}

/// At the time of the call, whatever that is: an entry is refreshed and a response is begun
/// to be stored as at some reading of the clock, and what is now is the seconds of one.
pub proof fn law_at_the_time_of_the_call(
    cache: Cache,
    entry: &mut CacheEntry,
    response: HeaderMap,
    configured_ttl: u64,
    plan: CachePlan,
    status: u16,
    request: HeaderMap,
    r: Option<CacheWriter>,
    secs: u64,
)
    requires
        call_ensures(Cache::refresh, (&cache, entry, &response, configured_ttl), ()),
        call_ensures(Cache::begin_write, (&cache, &plan, status, &response, &request), r),
        call_ensures(now, (), secs),
    ensures
        exists|at: i128|
            clock::is_reading(at) && final(entry)@ == #[trigger] refreshed(
                old(entry)@,
                header_values(response),
                configured_ttl,
                at,
            ),
        r is Some ==> exists|at: i128|
            clock::is_reading(at) && #[trigger] is_entry_of(
                r->0.entry(),
                plan@,
                status,
                header_values(response),
                header_values(request),
                at,
            ),
        r is Some ==> r->0.body_len() == 0 && 200 <= status <= 299 && freshness::is_cacheable(
            header_values(response),
        ) && !header_values(request).contains_key("authorization"@),
        exists|at: i128| clock::is_reading(at) && secs == #[trigger] clock::seconds(at),
{
}

} // verus!
