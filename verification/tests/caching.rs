use std::time::{Duration, SystemTime};

use corsget::cache::{
    add_cache_header, cache_headers, cache_location, headers_from_entry, now, room_for_entry,
    switched_off, Cache, CacheEntry, CacheStatus, Lookup, StoredMetadata,
};
use corsget::clock::{millis_at, now_seconds, seconds_at};
use corsget::config::{CacheConfig, CacheRule};
use corsget::freshness::{
    cache_control_requires_revalidation, cacheable_headers, effective_ttl, effective_ttl_at,
    request_requires_revalidation, ttl_until,
};
use corsget::headers::HEADER_NAME_LIMIT;
use corsget::rules::CompiledRule;
use corsget::store::{
    body_name, classify, evict, meta_name, temporary_body_name, temporary_meta_name, Candidate,
    FileKind, StoredFile,
};
use corsget::urls::{normalized_url, TargetUrl};
use corsget::variants::{cache_key, key_bytes, parse_vary, to_hex};
use http::header::{self, HeaderMap, HeaderValue};

const SECOND: i128 = 1_000_000_000;

fn rule(pattern: &str, max_age: u64) -> CacheRule {
    CacheRule { pattern: pattern.to_string(), max_age }
}

fn config(rules: Vec<CacheRule>) -> CacheConfig {
    CacheConfig {
        enabled: true,
        max_age: 900,
        max_size: 1024 * 1024,
        location: ".cache-test".to_string(),
        whitelist: rules,
    }
}

fn url(text: &str) -> TargetUrl {
    TargetUrl::parse(text).unwrap()
}

fn map(lines: &[(&'static str, &'static str)]) -> HeaderMap {
    let mut headers = HeaderMap::new();
    for (name, value) in lines {
        headers.append(*name, HeaderValue::from_static(value));
    }
    headers
}

fn matches(pattern: &str, subject: &str) -> bool {
    CompiledRule::new(&rule(pattern, 1)).unwrap().pattern.is_match(subject)
}

#[test]
fn normalizes_url_without_fragment() {
    let url = TargetUrl::parse("https://EXAMPLE.com/path?q=1#fragment").unwrap();
    assert_eq!(normalized_url(&url), "example.com/path?q=1");
}

#[test]
fn last_matching_rule_wins() {
    let cfg = config(vec![rule("example.com/*", 10), rule("example.com/private/*", 0)]);
    let cache = Cache::new(&cfg).unwrap();
    let headers = HeaderMap::new();
    let public = url("https://example.com/public");
    let private = url("https://example.com/private/value");
    assert!(cache.plan(&public, &headers).is_some());
    assert!(cache.plan(&private, &headers).is_none());
}

#[test]
fn sensitive_request_headers_bypass_cache() {
    let cache = Cache::new(&config(vec![rule("example.com/*", 10)])).unwrap();
    let url = url("https://example.com/");
    let mut headers = HeaderMap::new();
    headers.insert(header::AUTHORIZATION, HeaderValue::from_static("Bearer test"));
    assert!(cache.plan(&url, &headers).is_none());
    assert!(cache.plan(&url, &map(&[("cookie", "a=b")])).is_none());
    assert!(cache.plan(&url, &map(&[("range", "bytes=0-1")])).is_none());
    assert!(cache.plan(&url, &HeaderMap::new()).is_some());
}

#[test]
fn cache_control_exclusions_are_respected() {
    let mut headers = HeaderMap::new();
    headers.insert(header::CACHE_CONTROL, HeaderValue::from_static("private, max-age=60"));
    assert!(!cacheable_headers(&headers));
    headers.remove(header::CACHE_CONTROL);
    headers.insert(header::SET_COOKIE, HeaderValue::from_static("session=test"));
    assert!(!cacheable_headers(&headers));
}

#[test]
fn unsupported_vary_is_rejected() {
    let mut headers = HeaderMap::new();
    headers.insert(header::VARY, HeaderValue::from_static("User-Agent"));
    assert!(parse_vary(&headers).is_none());
    headers.insert(header::VARY, HeaderValue::from_static("Accept, Origin"));
    assert_eq!(parse_vary(&headers).unwrap().len(), 2);
}

#[test]
fn authorization_vary_is_supported_for_public_responses() {
    let mut headers = HeaderMap::new();
    headers.insert(
        header::VARY,
        HeaderValue::from_static("Authorization, accept-encoding, AUTHORIZATION"),
    );

    assert_eq!(parse_vary(&headers).unwrap(), vec!["authorization", "accept-encoding"]);
}

#[test]
fn vary_values_from_multiple_headers_are_combined() {
    let mut headers = HeaderMap::new();
    headers.append(header::VARY, HeaderValue::from_static("Accept"));
    headers.append(header::VARY, HeaderValue::from_static("Authorization, Origin"));

    assert_eq!(parse_vary(&headers).unwrap(), vec!["accept", "authorization", "origin"]);
}

#[test]
fn unsupported_or_star_vary_is_rejected() {
    let mut headers = HeaderMap::new();
    headers.insert(header::VARY, HeaderValue::from_static("Authorization, User-Agent"));
    assert!(parse_vary(&headers).is_none());

    headers.insert(header::VARY, HeaderValue::from_static("*"));
    assert!(parse_vary(&headers).is_none());
}

#[test]
fn public_authorization_variant_can_be_cached() {
    let cache = Cache::new(&config(vec![rule("example.com/*", 10)])).unwrap();
    let url = url("https://example.com/public");
    let request_headers = HeaderMap::new();
    let plan = cache.plan(&url, &request_headers).unwrap();
    let mut response_headers = HeaderMap::new();
    response_headers
        .insert(header::VARY, HeaderValue::from_static("Authorization, Accept-Encoding"));

    let mut writer = cache.begin_write(&plan, 200, &response_headers, &request_headers).unwrap();
    writer.write(b"public data");
    let stored = writer.finish();

    let entry = match cache.lookup(&plan, StoredMetadata::Read(stored), Some(11), now()) {
        Lookup::Hit(entry) => entry,
        _ => panic!("not found"),
    };
    assert_eq!(entry.body_len, 11);
    assert_eq!(entry.vary, vec!["authorization", "accept-encoding"]);
    assert_eq!(entry.body_path, cache.body_path(&plan.key()));
    assert_eq!(cache.entry_body_path(&entry), format!("{}.body", plan.key()));
}

#[test]
fn authenticated_authorization_variant_is_not_cached() {
    let cache = Cache::new(&config(vec![rule("example.com/*", 10)])).unwrap();
    let url = url("https://example.com/private");
    let plan = cache.plan(&url, &HeaderMap::new()).unwrap();
    let mut authenticated_headers = HeaderMap::new();
    authenticated_headers.insert(header::AUTHORIZATION, HeaderValue::from_static("Bearer test"));
    let mut response_headers = HeaderMap::new();
    response_headers.insert(header::VARY, HeaderValue::from_static("Authorization"));

    assert!(cache.begin_write(&plan, 200, &response_headers, &authenticated_headers).is_none());
}

#[test]
fn expires_can_reduce_ttl() {
    let mut headers = HeaderMap::new();
    let expires = httpdate::fmt_http_date(SystemTime::now() + Duration::from_secs(5));
    headers.insert(header::EXPIRES, HeaderValue::from_str(&expires).unwrap());
    assert!(effective_ttl(900, &headers) <= 5);
}

#[test]
fn cache_control_max_age_is_case_insensitive_and_allows_spacing() {
    let mut headers = HeaderMap::new();
    headers.insert(header::CACHE_CONTROL, HeaderValue::from_static("public, Max-Age = 5"));
    assert_eq!(effective_ttl(900, &headers), 5);
}

#[test]
fn request_no_cache_requires_revalidation() {
    let mut headers = HeaderMap::new();
    headers.insert(header::CACHE_CONTROL, HeaderValue::from_static("no-cache"));
    assert!(request_requires_revalidation(&headers));
}

#[test]
fn request_no_cache_is_case_insensitive_and_supports_parameters() {
    let mut headers = HeaderMap::new();
    headers.insert(
        header::CACHE_CONTROL,
        HeaderValue::from_static("max-age=0, NO-CACHE=\"etag\""),
    );
    assert!(request_requires_revalidation(&headers));
}

#[test]
fn request_no_cache_reads_multiple_header_values() {
    let mut headers = HeaderMap::new();
    headers.append(header::CACHE_CONTROL, HeaderValue::from_static("max-age=60"));
    headers.append(header::CACHE_CONTROL, HeaderValue::from_static("no-cache"));
    assert!(request_requires_revalidation(&headers));
}

#[test]
fn request_without_no_cache_does_not_require_revalidation() {
    let mut headers = HeaderMap::new();
    headers.insert(
        header::CACHE_CONTROL,
        HeaderValue::from_static("max-age=0, must-revalidate"),
    );
    assert!(!request_requires_revalidation(&headers));
}

#[test]
fn rules_are_exact_wildcards_or_expressions() {
    assert!(matches("https://Example.com/a?b", "example.com/a?b"));
    assert!(!matches("Example.com/A", "example.com/a"));
    assert!(matches("example.com", "example.com/"));
    assert!(!matches("example.com", "example.com/a"));
    assert!(matches("*.example.com/v*/x", "api.example.com/v2/x"));
    assert!(!matches("*.example.com/v*/x", "api.example.com/v2/y"));
    assert!(!matches("example.com/*", "example.org/a"));
    assert!(matches("example.com/a.c*", "example.com/a.cd"));
    assert!(!matches("example.com/a.c*", "example.com/abcd"));
    assert!(matches(" * ", "anything.example/at/all?x=1"));
    assert!(!matches("*", "nothing"));
    assert!(matches(r"/^EXAMPLE\.com\/\d+$/i", "example.com/42"));
    assert!(!matches(r"/^EXAMPLE\.com\/\d+$/", "example.com/42"));
}

#[test]
fn wrong_rules_are_reported() {
    assert_eq!(CompiledRule::new(&rule("  ", 1)).unwrap_err(), "empty cache rule");
    assert_eq!(CompiledRule::new(&rule("/a/q", 1)).unwrap_err(), "unknown regex flag `q`");
    assert!(CompiledRule::new(&rule("/(/", 1)).is_err());
}

#[test]
fn age_is_bounded_by_the_cache() {
    let rules = vec![rule("a.example/*", 5000), rule("b.example/*", 7)];
    let cache = Cache::new(&config(rules)).unwrap();
    let headers = HeaderMap::new();
    assert_eq!(cache.plan(&url("http://a.example/"), &headers).unwrap().ttl(), 900);
    assert_eq!(cache.plan(&url("http://b.example/x"), &headers).unwrap().ttl(), 7);
    assert!(cache.plan(&url("http://c.example/"), &headers).is_none());
}

#[test]
fn key_is_the_digest_of_target_and_variants() {
    let headers = map(&[("accept", "text/html"), ("origin", "https://a.example")]);
    let material = key_bytes("example.com/", &headers);
    assert_eq!(
        material,
        [
            &b"example.com/accept\0text/html\0accept-language\0\0accept-encoding\0\0"[..],
            &b"origin\0https://a.example\0authorization\0\0"[..],
        ]
        .concat()
    );
    let key = cache_key("example.com/", &headers);
    assert_eq!(key.len(), 64);
    assert_ne!(key, cache_key("example.com/", &map(&[("accept", "text/html")])));
    assert_ne!(key, cache_key("example.com/x", &headers));
    assert_eq!(key, cache_key("example.com/", &headers));
    assert_eq!(
        cache_key("", &HeaderMap::new()),
        "ea0312bc1a6316e1e3b3425da4a1f320a48a0564aa5f57f7a7a2d447e3e40ebf"
    );
}

#[test]
fn bytes_in_hexadecimal() {
    assert_eq!(to_hex(&vec![0, 9, 10, 255, 0x1f]), "00090aff1f");
    assert_eq!(to_hex(&Vec::new()), "");
}

#[test]
fn cache_is_off_for_a_reason() {
    let mut cfg = config(vec![rule("example.com/*", 10)]);
    assert_eq!(switched_off(&cfg), None);
    cfg.enabled = false;
    assert_eq!(switched_off(&cfg).unwrap(), "cache.enabled is false");
    cfg.enabled = true;
    cfg.max_age = 0;
    assert_eq!(switched_off(&cfg).unwrap(), "cache.max_age is 0");
    cfg.max_age = 1;
    cfg.max_size = 0;
    assert_eq!(switched_off(&cfg).unwrap(), "cache.max_size is 0");
    cfg.max_size = 1;
    cfg.whitelist = Vec::new();
    assert_eq!(switched_off(&cfg).unwrap(), "cache.whitelist is empty");
    assert!(Cache::new(&cfg).is_none());
}

#[test]
fn cache_needs_its_directory_and_a_rule() {
    let cfg = config(vec![rule("/(/", 1), rule("example.com/*", 10)]);
    let ready = Cache::initialize(&cfg, true);
    assert!(ready.cache.is_some());
    assert!(matches!(ready.status, CacheStatus::Enabled));
    match Cache::initialize(&cfg, false).status {
        CacheStatus::Disabled(reason) => assert_eq!(reason, "cache directory is unavailable"),
        CacheStatus::Enabled => panic!("enabled"),
    }
    let none = Cache::initialize(&config(vec![rule("/(/", 1)]), true);
    assert!(none.cache.is_none());
    match none.status {
        CacheStatus::Disabled(reason) => assert_eq!(reason, "no valid cache whitelist rules"),
        CacheStatus::Enabled => panic!("enabled"),
    }
}

#[test]
fn location_has_a_default() {
    let mut cfg = config(Vec::new());
    cfg.location = "  ".to_string();
    assert_eq!(cache_location(&cfg), ".cache");
    cfg.location = " /var/cache ".to_string();
    assert_eq!(cache_location(&cfg), "/var/cache");
}

#[test]
fn directives_are_read_in_any_case() {
    assert!(cacheable_headers(&HeaderMap::new()));
    assert!(!cacheable_headers(&map(&[("cache-control", "No-Store")])));
    assert!(cacheable_headers(&map(&[("cache-control", "no-storex, public")])));
    assert!(!cacheable_headers(&map(&[("cache-control", "public"), ("set-cookie", "a=b")])));
    assert!(cache_control_requires_revalidation(&map(&[("cache-control", "public, NO-CACHE")])));
    assert!(!cache_control_requires_revalidation(&map(&[("cache-control", "no-cache=x")])));
}

#[test]
fn every_line_of_cache_control_counts() {
    let lines = |first: &'static str, second: &'static str| {
        map(&[("cache-control", first), ("cache-control", second)])
    };
    assert!(cacheable_headers(&lines("max-age=60", "public")));
    assert!(!cacheable_headers(&lines("max-age=60", "no-store")));
    assert!(!cacheable_headers(&lines("max-age=60", "public, Private")));
    assert!(!cacheable_headers(&lines("no-store", "max-age=60")));
    assert!(cache_control_requires_revalidation(&lines("max-age=60", "no-cache")));
    assert!(!cache_control_requires_revalidation(&lines("max-age=60", "public")));
    assert_eq!(effective_ttl_at(900, &lines("public", "max-age=60"), 0), 60);
    assert_eq!(effective_ttl_at(900, &lines("max-age=x", "max-age=60"), 0), 60);
    assert_eq!(effective_ttl_at(900, &lines("max-age=90", "max-age=60"), 0), 90);
    assert_eq!(effective_ttl_at(900, &lines("public", "s-maxage=60"), 0), 900);
    let (cache, plan) = plan_and_cache();
    let response = lines("max-age=60", "no-store");
    assert!(cache.begin_write(&plan, 200, &response, &HeaderMap::new()).is_none());
}

#[test]
fn unreadable_lines_of_cache_control_say_nothing() {
    let mut headers = map(&[("cache-control", "public")]);
    headers.append("cache-control", HeaderValue::from_bytes(&[200]).unwrap());
    assert!(cacheable_headers(&headers));
    headers.append("cache-control", HeaderValue::from_static("no-store"));
    assert!(!cacheable_headers(&headers));
}

#[test]
fn max_age_bounds_the_configured_age() {
    let ttl = |value: &'static str| effective_ttl_at(900, &map(&[("cache-control", value)]), 0);
    assert_eq!(ttl("max-age=\"30\""), 30);
    assert_eq!(ttl("max-age=x, max-age=20, max-age=10"), 20);
    assert_eq!(ttl("max-age=5000"), 900);
    assert_eq!(ttl("max-age"), 900);
    assert_eq!(ttl("max-age=0"), 0);
}

#[test]
fn expires_counts_whole_seconds() {
    // 784111777 seconds after the epoch.
    let headers = map(&[("expires", "Sun, 06 Nov 1994 08:49:37 GMT")]);
    let at = 784_111_777 * SECOND;
    assert_eq!(effective_ttl_at(900, &headers, at - 60 * SECOND), 60);
    assert_eq!(effective_ttl_at(900, &headers, at - 60 * SECOND + 1), 59);
    assert_eq!(effective_ttl_at(10, &headers, at - 60 * SECOND), 10);
    assert_eq!(effective_ttl_at(900, &headers, at + 1), 0);
    assert_eq!(effective_ttl_at(900, &map(&[("expires", "0")]), at), 900);
    assert_eq!(ttl_until(900, 100, 40 * SECOND), 60);
    assert_eq!(ttl_until(900, 100, -SECOND), 101);
}

#[test]
fn clock_readings() {
    assert_eq!(seconds_at(1_999_999_999), 1);
    assert_eq!(seconds_at(-1), 0);
    assert_eq!(millis_at(1_999_999_999), 1999);
    assert_eq!(millis_at(-1), 0);
    assert_eq!(millis_at((1i128 << 64) * 1_000_000 + 5_000_000), 5);
    // Later than the first of January 2020.
    assert!(now_seconds() > 1_577_836_800);
    assert!(now() >= now_seconds() - 5);
}

fn plan_and_cache() -> (Cache, corsget::cache::CachePlan) {
    let cache = Cache::new(&config(vec![rule("example.com/*", 10)])).unwrap();
    let plan = cache.plan(&url("https://example.com/a"), &HeaderMap::new()).unwrap();
    (cache, plan)
}

fn entry() -> CacheEntry {
    let (cache, plan) = plan_and_cache();
    let response = map(&[
        ("content-type", "text/plain"),
        ("etag", "\"v1\""),
        ("last-modified", "Sun, 06 Nov 1994 08:49:37 GMT"),
        ("x-cache", "HIT"),
        ("keep-alive", "5"),
        ("vary", "accept"),
    ]);
    let request = map(&[("accept", "text/html")]);
    cache.begin_write_at(&plan, 200, &response, &request, 100 * SECOND).unwrap().finish()
}

#[test]
fn entry_holds_what_is_stored() {
    let entry = entry();
    assert_eq!((entry.version, entry.status, entry.body_len), (1, 200, 0));
    assert_eq!((entry.created_at, entry.last_access, entry.ttl), (100, 100, 10));
    assert_eq!(entry.etag.as_deref(), Some("\"v1\""));
    assert_eq!(entry.last_modified.as_deref(), Some("Sun, 06 Nov 1994 08:49:37 GMT"));
    assert_eq!(entry.vary, vec!["accept"]);
    assert_eq!(entry.request_variants, vec![("accept".to_string(), "text/html".to_string())]);
    assert!(!entry.revalidate);
    let mut names: Vec<&str> = entry.headers.iter().map(|(name, _)| name.as_str()).collect();
    names.sort();
    assert_eq!(names, vec!["content-type", "etag", "last-modified", "vary"]);
}

#[test]
fn only_successes_are_stored() {
    let (cache, plan) = plan_and_cache();
    let none = HeaderMap::new();
    assert!(cache.begin_write(&plan, 199, &none, &none).is_none());
    assert!(cache.begin_write(&plan, 299, &none, &none).is_some());
    assert!(cache.begin_write(&plan, 300, &none, &none).is_none());
    assert!(cache
        .begin_write(&plan, 200, &map(&[("cache-control", "no-store")]), &none)
        .is_none());
    assert!(cache
        .begin_write(&plan, 200, &map(&[("cache-control", "max-age=0")]), &none)
        .is_none());
    assert!(cache.begin_write(&plan, 200, &map(&[("vary", "*")]), &none).is_none());
    assert!(cache
        .begin_write(&plan, 200, &map(&[("cache-control", "no-cache")]), &none)
        .unwrap()
        .finish()
        .revalidate);
}

#[test]
fn entries_age() {
    let mut entry = entry();
    assert!(Cache::is_fresh(&entry, 100));
    assert!(Cache::is_fresh(&entry, 0));
    assert!(Cache::is_fresh(&entry, 109));
    assert!(!Cache::is_fresh(&entry, 110));
    entry.revalidate = true;
    assert!(!Cache::is_fresh(&entry, 100));
}

#[test]
fn confirmed_entries_are_fresh_again() {
    let mut entry = entry();
    Cache::refresh_at(&mut entry, &map(&[("etag", "\"v2\"")]), 20, 500 * SECOND);
    assert_eq!((entry.created_at, entry.last_access, entry.ttl), (500, 500, 20));
    assert_eq!(entry.etag.as_deref(), Some("\"v2\""));
    assert_eq!(entry.last_modified.as_deref(), Some("Sun, 06 Nov 1994 08:49:37 GMT"));
    assert!(Cache::is_fresh(&entry, 519));
    let (cache, _) = plan_and_cache();
    cache.refresh(&mut entry, &HeaderMap::new(), 30);
    assert_eq!(entry.ttl, 30);
    assert!(entry.created_at > 1_577_836_800);
}

#[test]
fn validators_are_added() {
    let mut headers = map(&[("if-none-match", "\"old\""), ("accept", "x")]);
    Cache::add_validators(&mut headers, &entry());
    assert_eq!(headers.get("if-none-match").unwrap(), "\"v1\"");
    assert_eq!(headers.get("if-modified-since").unwrap(), "Sun, 06 Nov 1994 08:49:37 GMT");
    assert_eq!(headers.get("accept").unwrap(), "x");
    let mut bare = entry();
    bare.etag = Some("a\nb".to_string());
    bare.last_modified = None;
    let mut headers = HeaderMap::new();
    Cache::add_validators(&mut headers, &bare);
    assert!(headers.is_empty());
}

#[test]
fn lookups_check_what_is_stored() {
    let (cache, plan) = plan_and_cache();
    assert!(matches!(cache.lookup(&plan, StoredMetadata::Missing, None, 1), Lookup::Miss));
    assert!(matches!(cache.lookup(&plan, StoredMetadata::Corrupt, None, 1), Lookup::Remove));
    assert!(matches!(
        cache.lookup(&plan, StoredMetadata::Read(entry()), Some(1), 1),
        Lookup::Remove
    ));
    assert!(matches!(cache.lookup(&plan, StoredMetadata::Read(entry()), None, 1), Lookup::Remove));
    let mut old = entry();
    old.version = 2;
    assert!(matches!(cache.lookup(&plan, StoredMetadata::Read(old), Some(0), 1), Lookup::Remove));
    match cache.lookup(&plan, StoredMetadata::Read(entry()), Some(0), 105) {
        Lookup::Hit(entry) => {
            assert_eq!(entry.last_access, 105);
            assert_eq!(entry.created_at, 100);
            assert_eq!(entry.key, plan.key());
        }
        _ => panic!("not found"),
    }
}

#[test]
fn stored_headers_come_back() {
    let mut source = map(&[
        ("x-a", "1"),
        ("x-a", "2"),
        ("content-type", "text/plain"),
        ("x-forwarded-for", "1.2.3.4"),
        ("connection", "close"),
        ("x-cache", "MISS"),
    ]);
    source.append("x-raw", HeaderValue::from_bytes(&[200]).unwrap());
    let pairs = cache_headers(&source);
    assert_eq!(pairs.len(), 3);
    let mut entry = entry();
    entry.headers = pairs;
    let back = headers_from_entry(&entry);
    let values: Vec<&HeaderValue> = back.get_all("x-a").iter().collect();
    assert_eq!(values, vec!["1", "2"]);
    assert_eq!(back.get("content-type").unwrap(), "text/plain");
    assert_eq!(back.len(), 3);
}

#[test]
fn headers_that_cannot_be_written_are_dropped() {
    let mut entry = entry();
    entry.headers = vec![
        ("X-Upper".to_string(), "ok".to_string()),
        ("bad name".to_string(), "x".to_string()),
        ("x-bad-value".to_string(), "a\nb".to_string()),
        ("x-utf8".to_string(), "\u{e9}".to_string()),
        ("".to_string(), "x".to_string()),
        ("a\"b".to_string(), "x".to_string()),
    ];
    let headers = headers_from_entry(&entry);
    assert_eq!(headers.len(), 2);
    assert_eq!(headers.get("x-upper").unwrap(), "ok");
    assert_eq!(headers.get("x-utf8").unwrap().as_bytes(), "\u{e9}".as_bytes());
}

#[test]
fn names_count_and_not_values() {
    let mut entry = entry();
    entry.headers = vec![("x-a".to_string(), "1".to_string()); HEADER_NAME_LIMIT + 100];
    assert!(room_for_entry(&entry, 2));
    assert_eq!(headers_from_entry(&entry).get_all("x-a").iter().count(), HEADER_NAME_LIMIT + 100);
    entry.headers.push(("bad name".to_string(), "1".to_string()));
    assert!(room_for_entry(&entry, 2));
    entry.headers = (0..HEADER_NAME_LIMIT).map(|i| (format!("x-{i}"), "1".to_string())).collect();
    assert!(room_for_entry(&entry, 0));
    assert!(!room_for_entry(&entry, 1));
    assert_eq!(headers_from_entry(&entry).keys_len(), HEADER_NAME_LIMIT);
    entry.headers.push(("X-0".to_string(), "2".to_string()));
    assert!(!room_for_entry(&entry, 0));
    entry.headers.truncate(HEADER_NAME_LIMIT - 2);
    assert!(room_for_entry(&entry, 2));
    assert!(!room_for_entry(&entry, 3));
}

#[test]
fn diagnostic_header_replaces_another() {
    let mut headers = map(&[("x-cache", "HIT from elsewhere"), ("x-cache", "again")]);
    add_cache_header(&mut headers, "MISS");
    let values: Vec<&HeaderValue> = headers.get_all("x-cache").iter().collect();
    assert_eq!(values, vec!["MISS"]);
}

#[test]
fn files_are_told_apart() {
    assert_eq!(body_name("abc"), "abc.body");
    assert_eq!(meta_name("abc"), "abc.json");
    assert_eq!(temporary_body_name("abc", 12, 3), ".abc.body.tmp-12-3");
    assert_eq!(temporary_meta_name("abc", 12, 3), ".abc.meta.tmp-12-3");
    assert!(matches!(classify("abc.body"), FileKind::Body(key) if key == "abc"));
    assert!(matches!(classify("abc.json"), FileKind::Metadata(key) if key == "abc"));
    assert!(matches!(classify(".abc.body.tmp-12-3"), FileKind::Temporary));
    assert!(matches!(classify(".abc.meta.tmp-12-3"), FileKind::Temporary));
    let hidden = classify(".a.body.tmp-1.json");
    assert!(matches!(hidden, FileKind::Metadata(key) if key == ".a.body.tmp-1"));
    assert!(matches!(classify(".abc.meta.tmp-1.body"), FileKind::Temporary));
    assert!(matches!(classify(".json"), FileKind::Other));
    assert!(matches!(classify("abc.body.tmp-1-1"), FileKind::Other));
    assert!(matches!(classify("readme"), FileKind::Other));
}

fn candidate(key: &str, last_access: u64, size: u64) -> Candidate {
    Candidate { last_access, key: key.to_string(), size }
}

#[test]
fn least_recently_used_entries_go_first() {
    let all = || {
        vec![
            candidate("a", 5, 10),
            candidate("b", 2, 10),
            candidate("c", 9, 10),
            candidate("d", 2, 10),
        ]
    };
    assert!(evict(all(), 40).is_empty());
    assert_eq!(evict(all(), 39), vec!["b"]);
    assert_eq!(evict(all(), 29), vec!["b", "d"]);
    assert_eq!(evict(all(), 10), vec!["b", "d", "a"]);
    assert_eq!(evict(all(), 0), vec!["b", "d", "a", "c"]);
}

#[test]
fn sizes_are_counted_up_to_the_largest_number() {
    let all = vec![candidate("a", 1, u64::MAX), candidate("b", 2, 5)];
    assert_eq!(evict(all, 4), vec!["a"]);
}

#[test]
fn entries_that_cannot_fit_are_not_admitted() {
    let (cache, _) = plan_and_cache();
    let mut entry = entry();
    entry.body_len = 1024 * 1024 - 10;
    assert!(cache.admits(&entry, 10));
    assert!(!cache.admits(&entry, 11));
    entry.body_len = u64::MAX;
    assert!(!cache.admits(&entry, u64::MAX));
}

fn file(name: &str, len: u64, entry: Option<CacheEntry>) -> StoredFile {
    StoredFile { name: name.to_string(), len, entry }
}

fn stored(created_at: u64, last_access: u64, body_len: u64) -> Option<CacheEntry> {
    let mut entry = entry();
    entry.created_at = created_at;
    entry.last_access = last_access;
    entry.body_len = body_len;
    Some(entry)
}

#[test]
fn cleanup_removes_what_is_of_no_use() {
    let (cache, _) = plan_and_cache();
    let files = vec![
        file("fresh.json", 10, stored(100, 100, 7)),
        file("fresh.body", 7, None),
        file("stale.json", 10, stored(90, 90, 7)),
        file("stale.body", 7, None),
        file("short.json", 10, stored(100, 100, 8)),
        file("short.body", 7, None),
        file("corrupt.json", 3, None),
        file("corrupt.body", 7, None),
        file("orphan.body", 7, None),
        file("bodyless.json", 10, stored(100, 100, 7)),
        file(".x.body.tmp-1-1", 7, None),
        file("notes.txt", 7, None),
    ];
    let (useless, evicted) = cache.cleanup(&files, 100);
    assert_eq!(
        useless,
        vec![
            "stale.json",
            "stale.body",
            "short.json",
            "short.body",
            "corrupt.json",
            "corrupt.body",
            "orphan.body",
            "bodyless.json",
            ".x.body.tmp-1-1",
        ]
    );
    assert!(evicted.is_empty());
}

#[test]
fn cleanup_enforces_the_size() {
    let mut cfg = config(vec![rule("example.com/*", 10)]);
    cfg.max_size = 20;
    let cache = Cache::new(&cfg).unwrap();
    let files = vec![
        file("a.json", 5, stored(100, 103, 7)),
        file("a.body", 7, None),
        file("b.json", 5, stored(100, 101, 7)),
        file("b.body", 7, None),
    ];
    let (useless, evicted) = cache.cleanup(&files, 104);
    assert!(useless.is_empty());
    assert_eq!(evicted, vec!["b"]);
}

#[test]
fn eviction_counts_metadata_and_bodies() {
    let mut cfg = config(vec![rule("example.com/*", 10)]);
    cfg.max_size = 20;
    let cache = Cache::new(&cfg).unwrap();
    let mut files = vec![
        file("a.json", 5, stored(0, 103, 7)),
        file("a.body", 7, None),
        file("b.json", 8, stored(0, 101, 99)),
        file("corrupt.json", 50, None),
        file("orphan.body", 50, None),
    ];
    assert!(cache.evict(&files).is_empty());
    files.push(file("b.body", 1, None));
    assert_eq!(cache.evict(&files), vec!["b"]);
}
