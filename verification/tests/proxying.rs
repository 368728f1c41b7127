use corsget::cache::{Cache, CacheEntry};
use corsget::config::{
    ApplicationConfig, BandwidthLimitConfig, CacheConfig, CacheRule, Config, ConnectionConfig,
    LimitTier, ProxyConfig, TargetListConfig,
};
use corsget::cors::{connection_headers, cors_headers, cors_layer, is_hop_by_hop, preflight_handler};
use corsget::error::AppError;
use corsget::exchange::{
    relayed_headers, stored_headers, Action, CacheUse, Event, Exchange,
};
use corsget::extractors::{ClientIp, Origin, RateLimitKey};
use corsget::headers::{room_for, HEADER_NAME_LIMIT};
use corsget::proxy::{
    copy_response_headers, forward_headers, judge, parse_target_url, quota, read_target, route,
    validate_target_policy, RequestTarget, Route,
};
use corsget::rates::{add_rate_headers, add_rate_headers_at, LimitSnapshot};
use corsget::state::AppState;
use corsget::urls::TargetUrl;
use http::header::{self, HeaderMap, HeaderValue};
use http::Uri;

fn target(uri: &str) -> RequestTarget {
    let uri: Uri = uri.parse().unwrap();
    RequestTarget {
        scheme: uri.scheme_str().map(|s| s.to_string()),
        text: uri.to_string(),
        path_and_query: uri.path_and_query().map(|pq| pq.as_str().to_string()),
    }
}

fn map(lines: &[(&'static str, &'static str)]) -> HeaderMap {
    let mut headers = HeaderMap::new();
    for (name, value) in lines {
        headers.append(*name, HeaderValue::from_static(value));
    }
    headers
}

fn url(text: &str) -> TargetUrl {
    TargetUrl::parse(text).unwrap()
}

fn strings(list: &[&str]) -> Vec<String> {
    list.iter().map(|s| s.to_string()).collect()
}

fn config() -> Config {
    Config {
        application: ApplicationConfig {
            host: strings(&["127.0.0.1"]),
            port: 9647,
            hostname: "localhost".to_string(),
            real_ip_header: "X-Real-IP".to_string(),
        },
        connection: ConnectionConfig {
            target: TargetListConfig {
                blacklist: strings(&["evil.example"]),
                whitelist: Vec::new(),
            },
            origin: TargetListConfig::default(),
            rate_limit: Vec::new(),
            bandwidth_limit: BandwidthLimitConfig::default(),
        },
        proxy: ProxyConfig { max_redirects: 2, timeout: 30 },
        cache: CacheConfig::default(),
    }
}

fn state(config: Config) -> AppState {
    AppState::new(config, true).unwrap()
}

fn answered(
    status: u16,
    lines: &[(&'static str, &'static str)],
    content_length: Option<u64>,
) -> Event {
    Event::Answered { status, headers: map(lines), content_length }
}

#[test]
fn parses_https_url() {
    let url = parse_target_url(&target("https://github.com/a/b?q=1")).unwrap();
    assert_eq!(url.href, "https://github.com/a/b?q=1");
}

#[test]
fn prepends_scheme_when_absent() {
    let url = parse_target_url(&target("/github.com/search?q=rust")).unwrap();
    assert_eq!(url.href, "https://github.com/search?q=rust");
}

#[test]
fn handles_scheme_relative() {
    let url = parse_target_url(&target("//github.com/")).unwrap();
    assert_eq!(url.href, "https://github.com/");
}

#[test]
fn rejects_empty() {
    let err = parse_target_url(&target("/")).err().unwrap();
    assert!(matches!(err, AppError::BadUrl(_)));
}

#[test]
fn rejects_non_http_scheme() {
    // `ftp://` is a valid absolute URI that we reject (only http/https).
    let err = parse_target_url(&target("ftp://example.com/file")).err().unwrap();
    assert!(matches!(err, AppError::BadUrl(_)));
    assert_eq!(err.reason(), "unsupported scheme `ftp`; only http/https are allowed");
}

#[test]
fn forward_headers_strips_hop_by_hop() {
    let mut source = HeaderMap::new();
    source.insert(header::AUTHORIZATION, "Bearer x".parse().unwrap());
    source.insert(header::CONNECTION, "keep-alive".parse().unwrap());
    source.insert(header::HOST, "proxy.local".parse().unwrap());
    source.insert("x-forwarded-for", "1.2.3.4".parse().unwrap());
    let url = TargetUrl::parse("https://github.com/").unwrap();
    let out = forward_headers(&source, &url);
    assert!(out.contains_key(header::AUTHORIZATION));
    assert!(!out.contains_key(header::CONNECTION));
    assert!(!out.contains_key("x-forwarded-for"));
    // Host is set to the target's host.
    assert_eq!(out.get(header::HOST).unwrap(), "github.com");
}

#[test]
fn forward_headers_preserves_cookie() {
    let mut source = HeaderMap::new();
    source.insert(header::COOKIE, "session=abc".parse().unwrap());
    let url = TargetUrl::parse("https://example.com/").unwrap();
    let out = forward_headers(&source, &url);
    assert_eq!(out.get(header::COOKIE).unwrap(), "session=abc");
}

#[test]
fn forward_headers_strips_connection_nominated_headers() {
    let mut source = HeaderMap::new();
    source.insert(header::CONNECTION, "x-private".parse().unwrap());
    source.insert("x-private", "secret".parse().unwrap());
    let url = TargetUrl::parse("https://example.com/").unwrap();

    let out = forward_headers(&source, &url);

    assert!(!out.contains_key("x-private"));
}

#[test]
fn response_headers_remove_content_length_when_body_can_be_truncated() {
    let mut source = HeaderMap::new();
    source.insert(header::CONTENT_LENGTH, "10".parse().unwrap());
    source.insert(header::CONTENT_TYPE, "text/plain".parse().unwrap());

    let out = copy_response_headers(&source, true);

    assert!(!out.contains_key(header::CONTENT_LENGTH));
    assert!(out.contains_key(header::CONTENT_TYPE));
}

#[test]
fn response_headers_preserve_content_length_without_result_cap() {
    let mut source = HeaderMap::new();
    source.insert(header::CONTENT_LENGTH, "10".parse().unwrap());

    let out = copy_response_headers(&source, false);

    assert_eq!(out.get(header::CONTENT_LENGTH).unwrap(), "10");
}

#[test]
fn real_ip_header_accepts_only_ip_addresses() {
    let config = config();
    let headers = map(&[("X-Real-IP", "not-an-ip")]);
    let claimed = ClientIp::claimed(&headers, &config.application.real_ip_header).unwrap();
    assert_eq!(claimed, "not-an-ip");
    // What is no address is passed over.
    assert_eq!(ClientIp::from_parts(None, None).0, "unknown");
}

#[test]
fn client_address_is_claimed_or_seen() {
    let headers = map(&[("x-real-ip", " 10.0.0.1 , 10.0.0.2"), ("x-real-ip", "10.0.0.3")]);
    assert_eq!(ClientIp::claimed(&headers, "X-Real-IP").unwrap(), "10.0.0.1");
    assert_eq!(ClientIp::claimed(&headers, "X-Other"), None);
    assert_eq!(ClientIp::claimed(&headers, "not a name"), None);
    let some = |s: &str| Some(s.to_string());
    assert_eq!(ClientIp::from_parts(some("10.0.0.1"), some("::1")).0, "10.0.0.1");
    assert_eq!(ClientIp::from_parts(None, some("::1")).0, "::1");
}

#[test]
fn origin_prefers_the_origin_header() {
    let origin = |lines: &[(&'static str, &'static str)]| Origin::from_headers(&map(lines)).0;
    assert_eq!(
        origin(&[("origin", "https://A.Example:8080"), ("referer", "https://b.example/x")]),
        Some("a.example".to_string())
    );
    assert_eq!(
        origin(&[("origin", "null"), ("referer", "https://B.example/x")]),
        Some("b.example".to_string())
    );
    assert_eq!(origin(&[("origin", "data:,x")]), None);
    assert_eq!(origin(&[]), None);
    let some = |s: &str| Some(s.to_string());
    assert_eq!(Origin::from_hosts(some("a"), some("b")).0, some("a"));
    assert_eq!(Origin::from_hosts(None, some("b")).0, some("b"));
    assert_eq!(Origin::host_in(&url("http://[::1]/")), some("[::1]"));
}

#[test]
fn buckets_name_origin_and_client() {
    let key = RateLimitKey {
        origin: Origin(Some("a.example".to_string())),
        client_ip: ClientIp("10.0.0.1".to_string()),
    };
    assert_eq!(key.bucket(), "origin:a.example|ip:10.0.0.1");
    let key = RateLimitKey { origin: Origin(None), client_ip: ClientIp("unknown".to_string()) };
    assert_eq!(key.bucket(), "origin:unknown|ip:unknown");
}

#[test]
fn targets_are_read() {
    let read = |uri: &str| read_target(&target(uri));
    assert_eq!(read("/example.com/search?q=CORS").unwrap(), "https://example.com/search?q=CORS");
    assert_eq!(
        read("/https://example.com/search?q=CORS").unwrap(),
        "https://example.com/search?q=CORS"
    );
    assert_eq!(read("/http://example.com/").unwrap(), "http://example.com/");
    assert_eq!(read("///example.com/path").unwrap(), "https://example.com/path");
    assert_eq!(read("/").unwrap_err().reason(), "no target url provided");
    let none = RequestTarget { scheme: None, text: "*".to_string(), path_and_query: None };
    assert_eq!(read_target(&none).unwrap_err().status(), 400);
    assert_eq!(
        parse_target_url(&target("/example.com:8080/x?y#z")).unwrap().port,
        Some(8080)
    );
    assert!(parse_target_url(&target("/%20/")).is_err());
}

#[test]
fn only_get_is_proxied() {
    assert_eq!(route("GET", "/example.com"), Route::Proxy);
    assert_eq!(route("OPTIONS", "/example.com"), Route::Preflight);
    assert_eq!(route("HEAD", "/example.com"), Route::MethodNotAllowed);
    assert_eq!(route("POST", "/example.com"), Route::MethodNotAllowed);
    assert_eq!(route("GET", "/"), Route::NotFound);
    assert_eq!(route("POST", "/"), Route::NotFound);
    assert_eq!(route("OPTIONS", "*"), Route::NotFound);
    assert_eq!(route("GET", ""), Route::NotFound);
}

#[test]
fn hop_by_hop_names_in_any_case() {
    assert!(is_hop_by_hop("Connection"));
    assert!(is_hop_by_hop("X-Forwarded-Anything"));
    assert!(is_hop_by_hop("TE"));
    assert!(is_hop_by_hop("x-real-ip"));
    assert!(!is_hop_by_hop("x-forwarded"));
    assert!(!is_hop_by_hop("authorization"));
}

#[test]
fn nominated_names_are_listed() {
    let headers = map(&[("connection", "close, X-A ,,"), ("connection", " x-b")]);
    assert_eq!(connection_headers(&headers), vec!["close", "X-A", "x-b"]);
    let out = copy_response_headers(
        &map(&[("connection", "X-A"), ("x-a", "1"), ("x-b", "2"), ("x-b", "3")]),
        false,
    );
    assert!(!out.contains_key("x-a"));
    let values: Vec<&HeaderValue> = out.get_all("x-b").iter().collect();
    assert_eq!(values, vec!["2", "3"]);
}

#[test]
fn other_schemes_are_refused_in_paths_too() {
    let refused = |uri: &str| match parse_target_url(&target(uri)) {
        Err(AppError::BadUrl(reason)) => reason,
        _ => panic!("{uri} was taken"),
    };
    assert_eq!(
        refused("/ftp://example.com/file"),
        "unsupported scheme `ftp`; only http/https are allowed"
    );
    assert_eq!(
        refused("/Web+x-1.0://example.com"),
        "unsupported scheme `Web+x-1.0`; only http/https are allowed"
    );
    assert_eq!(parse_target_url(&target("/ftp://example.com/file")).err().unwrap().status(), 400);
    let read = |uri: &str| read_target(&target(uri)).unwrap();
    assert_eq!(read("/HTTP://example.com/"), "HTTP://example.com/");
    assert_eq!(parse_target_url(&target("/HTTPS://example.com/")).unwrap().scheme, "https");
    assert_eq!(read("/example.com:8080/x"), "https://example.com:8080/x");
    assert_eq!(read("/example.com/?u=ftp://x"), "https://example.com/?u=ftp://x");
    assert_eq!(read("/ftp:example.com"), "https://ftp:example.com");
    assert_eq!(read("/1ftp://example.com"), "https://1ftp://example.com");
    assert_eq!(read("/://example.com"), "https://://example.com");
}

#[test]
fn host_has_the_port_of_the_target() {
    let out = forward_headers(&HeaderMap::new(), &url("http://example.com:8080/"));
    assert_eq!(out.get("host").unwrap(), "example.com:8080");
    let out = forward_headers(&HeaderMap::new(), &url("https://example.com:443/"));
    assert_eq!(out.get("host").unwrap(), "example.com");
    let out = forward_headers(&map(&[("host", "proxy.local")]), &url("data:,x"));
    assert_eq!(out.get("host").unwrap(), "");
}

#[test]
fn cors_headers_echo_the_request() {
    let cors = cors_headers(&map(&[
        ("origin", "https://consumer.example.com"),
        ("access-control-request-headers", "x-a, x-b"),
    ]));
    assert_eq!(cors.get("access-control-allow-origin").unwrap(), "https://consumer.example.com");
    assert_eq!(cors.get("access-control-allow-headers").unwrap(), "x-a, x-b");
    assert_eq!(cors.get("access-control-allow-credentials").unwrap(), "true");
    assert_eq!(cors.get("access-control-allow-methods").unwrap(), "GET, OPTIONS");
    assert_eq!(cors.get("access-control-max-age").unwrap(), "86400");
    assert_eq!(cors.len(), 5);
    let cors = cors_headers(&map(&[("access-control-request-headers", "")]));
    assert_eq!(cors.get("access-control-allow-origin").unwrap(), "*");
    assert_eq!(cors.get("access-control-allow-headers").unwrap(), "Authorization");
}

#[test]
fn cors_headers_prevail_over_the_target() {
    let mut response = map(&[
        ("access-control-allow-origin", "https://proxy.example"),
        ("access-control-allow-origin", "https://other.example"),
        ("content-type", "text/plain"),
    ]);
    cors_layer(&map(&[("origin", "https://consumer.example.com")]), &mut response);
    let values: Vec<&HeaderValue> =
        response.get_all("access-control-allow-origin").iter().collect();
    assert_eq!(values, vec!["https://consumer.example.com"]);
    assert_eq!(response.get("content-type").unwrap(), "text/plain");
    assert_eq!(response.len(), 6);
}

#[test]
fn preflights_are_held_against_the_policy() {
    let state = state(config());
    let request = map(&[("origin", "https://consumer.example.com")]);
    let answer = preflight_handler(&state.match_policy, &target("/example.com"), &request).unwrap();
    assert_eq!(answer.get("access-control-allow-origin").unwrap(), "https://consumer.example.com");
    let error =
        preflight_handler(&state.match_policy, &target("/evil.example/x"), &request).unwrap_err();
    assert_eq!(error.status(), 403);
    assert_eq!(error.reason(), "target `evil.example` is not allowed");
    let error = preflight_handler(&state.match_policy, &target("/"), &request).unwrap_err();
    assert_eq!(error.status(), 400);
}

#[test]
fn policy_decides_on_target_and_origin() {
    let mut cfg = config();
    cfg.connection.origin.whitelist = strings(&["*.good.example"]);
    let state = state(cfg);
    let check = |target: &str, origin: Option<&str>| {
        let origin = Origin(origin.map(|s| s.to_string()));
        match validate_target_policy(&state.match_policy, &url(target), &origin) {
            Ok(()) => (200, String::new()),
            Err(error) => (error.status(), error.reason()),
        }
    };
    assert_eq!(check("https://example.com/", Some("a.good.example")).0, 200);
    assert_eq!(
        check("https://evil.example/", Some("a.good.example")),
        (403, "target `evil.example` is not allowed".to_string())
    );
    assert_eq!(
        check("https://example.com/", Some("bad.example")),
        (403, "origin `bad.example` is not allowed".to_string())
    );
    assert_eq!(
        check("https://example.com/", None),
        (403, "a valid origin is required".to_string())
    );
    assert_eq!(
        check("ftp://example.com/", Some("a.good.example")),
        (400, "unsupported scheme `ftp`; only http/https are allowed".to_string())
    );
    let mut hostless = url("http://example.com/");
    hostless.host = None;
    let error = judge(&hostless, &Origin(None), true, true).unwrap_err();
    assert_eq!((error.status(), error.reason().as_str()), (400, "target url has no host"));
}

#[test]
fn errors_become_responses() {
    let text = || "x".to_string();
    let all = [
        (AppError::BadUrl(text()), 400, "invalid target url: x", false),
        (AppError::Denied(text()), 403, "access denied: x", false),
        (AppError::TooLarge(text()), 413, "response too large: x", false),
        (AppError::Upstream(text()), 502, "upstream error: x", true),
        (AppError::LimitBackend(text()), 503, "rate limit storage failure: x", true),
    ];
    for (error, status, message, fault) in all {
        assert_eq!(error.status(), status);
        assert_eq!(error.message(), message);
        assert_eq!(error.reason(), "x");
        assert_eq!(error.is_server_fault(), fault);
    }
    assert_eq!(AppError::from_upstream(true, true, "e").reason(), "upstream timeout: e");
    assert_eq!(AppError::from_upstream(false, true, "e").reason(), "too many redirects: e");
    assert_eq!(AppError::from_upstream(false, false, "e").reason(), "e");
}

#[test]
fn quotas_are_in_milliseconds() {
    assert_eq!(quota(&LimitTier { window: 60, max: 500 }), (500, 60_000));
}

#[test]
fn wrong_lists_keep_the_state_from_being_made() {
    let mut cfg = config();
    cfg.connection.target.whitelist = strings(&["/a/q"]);
    let error = AppState::new(cfg, true).unwrap_err();
    assert_eq!(error.status(), 403);
    assert_eq!(
        error.reason(),
        "invalid match policy: invalid regex `/a/q`: unknown regex flag `q`"
    );
}

fn begin(state: &AppState, uri: &str, request: &HeaderMap) -> (Exchange, Action) {
    Exchange::begin(state, &target(uri), Origin(None), request).ok().unwrap()
}

fn fetched(action: Action) -> (String, HeaderMap) {
    match action {
        Action::Fetch { url, headers } => (url, headers),
        _ => panic!("no fetch"),
    }
}

fn failed(action: Action) -> (u16, String) {
    match action {
        Action::Fail(error) => (error.status(), error.reason()),
        _ => panic!("no failure"),
    }
}

#[test]
fn plain_request_is_fetched_and_relayed() {
    let state = state(config());
    let request = map(&[("authorization", "Bearer x"), ("connection", "close")]);
    let (mut exchange, action) = begin(&state, "/example.com/a", &request);
    let (url, headers) = fetched(action);
    assert_eq!(url, "https://example.com/a");
    assert_eq!(headers.get("authorization").unwrap(), "Bearer x");
    assert_eq!(headers.get("host").unwrap(), "example.com");
    assert!(!headers.contains_key("connection"));
    assert!(exchange.plan().is_none());
    let action = exchange.step(&state, &request, answered(404, &[], None));
    assert!(matches!(action, Action::Relay(None)));
}

#[test]
fn denied_requests_are_refused() {
    let state = state(config());
    let none = HeaderMap::new();
    let error = Exchange::begin(&state, &target("/evil.example/"), Origin(None), &none)
        .err()
        .unwrap();
    assert_eq!(error.status(), 403);
    let error = Exchange::begin(&state, &target("/"), Origin(None), &none).err().unwrap();
    assert_eq!(error.status(), 400);
}

#[test]
fn every_tier_is_asked() {
    let mut cfg = config();
    cfg.connection.rate_limit =
        vec![LimitTier { window: 1, max: 5 }, LimitTier { window: 60, max: 500 }];
    let state = state(cfg);
    let none = HeaderMap::new();
    let (mut exchange, action) = begin(&state, "/example.com/", &none);
    assert!(matches!(action, Action::CheckLimit(LimitTier { window: 1, max: 5 })));
    let action = exchange.step(&state, &none, Event::Checked(true));
    assert!(matches!(action, Action::CheckLimit(LimitTier { window: 60, max: 500 })));
    let action = exchange.step(&state, &none, Event::Checked(true));
    assert_eq!(fetched(action).0, "https://example.com/");
    let (mut exchange, _) = begin(&state, "/example.com/", &none);
    assert!(matches!(exchange.step(&state, &none, Event::Checked(false)), Action::RefuseRate));
    let (mut exchange, _) = begin(&state, "/example.com/", &none);
    let action = exchange.step(&state, &none, Event::LimiterFailed("down".to_string()));
    assert_eq!(failed(action), (503, "down".to_string()));
}

#[test]
fn redirects_are_followed_up_to_the_limit() {
    let state = state(config());
    let request = map(&[("authorization", "Bearer x")]);
    let (mut exchange, _) = begin(&state, "/example.com/a/b", &request);
    let action =
        exchange.step(&state, &request, answered(302, &[("location", "c?d=1")], None));
    let (url, headers) = fetched(action);
    assert_eq!(url, "https://example.com/a/c?d=1");
    assert_eq!(headers.get("authorization").unwrap(), "Bearer x");
    let action = exchange.step(
        &state,
        &request,
        answered(301, &[("location", "http://other.example:81/")], None),
    );
    let (url, headers) = fetched(action);
    assert_eq!(url, "http://other.example:81/");
    assert_eq!(headers.get("host").unwrap(), "other.example:81");
    assert_eq!(headers.get("authorization").unwrap(), "Bearer x");
    let action = exchange.step(&state, &request, answered(302, &[("location", "/x")], None));
    assert_eq!(failed(action), (502, "redirect limit reached".to_string()));
}

#[test]
fn redirects_are_held_against_the_policy() {
    let state = state(config());
    let none = HeaderMap::new();
    let follow = |lines: &[(&'static str, &'static str)]| {
        let (mut exchange, _) = begin(&state, "/example.com/", &none);
        failed(exchange.step(&state, &none, answered(307, lines, None)))
    };
    assert_eq!(
        follow(&[("location", "https://evil.example/")]),
        (403, "target `evil.example` is not allowed".to_string())
    );
    assert_eq!(follow(&[("location", "ftp://example.com/")]).0, 400);
    assert_eq!(follow(&[("location", "http://[")]).0, 400);
    assert_eq!(follow(&[]), (502, "redirect without Location header".to_string()));
    assert_eq!(failed({
        let (mut exchange, _) = begin(&state, "/example.com/", &none);
        exchange.redirect(&state, &none, Err("no such place".to_string()))
    }), (400, "no such place".to_string()));
}

#[test]
fn declared_excess_is_refused() {
    let mut cfg = config();
    cfg.connection.bandwidth_limit.result.max = 100;
    let state = state(cfg);
    let none = HeaderMap::new();
    let (mut exchange, _) = begin(&state, "/example.com/", &none);
    let action = exchange.step(&state, &none, answered(200, &[], Some(101)));
    assert_eq!(
        failed(action),
        (413, "response Content-Length (101) exceeds per-result cap (100)".to_string())
    );
    let (mut exchange, _) = begin(&state, "/example.com/", &none);
    let action = exchange.step(&state, &none, answered(200, &[], Some(100)));
    assert!(matches!(action, Action::Relay(None)));
    let (mut exchange, _) = begin(&state, "/example.com/", &none);
    let action = exchange.step(
        &state,
        &none,
        Event::Failed { is_timeout: true, is_redirect: false, cause: "late".to_string() },
    );
    assert_eq!(failed(action), (502, "upstream timeout: late".to_string()));
}

fn caching() -> AppState {
    let mut cfg = config();
    cfg.cache = CacheConfig {
        enabled: true,
        max_age: 900,
        max_size: 1024,
        location: String::new(),
        whitelist: vec![CacheRule { pattern: "example.com/*".to_string(), max_age: 60 }],
    };
    state(cfg)
}

fn stored(state: &AppState, exchange: &Exchange) -> CacheEntry {
    let cache = state.cache.as_ref().unwrap();
    let plan = exchange.plan().as_ref().unwrap();
    let none = HeaderMap::new();
    let response = map(&[("etag", "\"v1\""), ("content-length", "3")]);
    let mut writer = cache.begin_write_at(plan, 200, &response, &none, 0).unwrap();
    writer.write(b"abc");
    writer.finish()
}

#[test]
fn fresh_entries_are_served() {
    let state = caching();
    let none = HeaderMap::new();
    let (mut exchange, action) = begin(&state, "/example.com/a", &none);
    assert!(matches!(action, Action::LookUp));
    let entry = stored(&state, &exchange);
    match exchange.step(&state, &none, Event::Found(Some(entry), 59)) {
        Action::Serve(entry, cache_use) => {
            assert_eq!(cache_use, CacheUse::Hit);
            assert_eq!(entry.body_len, 3);
            let headers = stored_headers(&entry, 0, CacheUse::Hit);
            assert_eq!(headers.get("x-cache").unwrap(), "HIT");
            assert_eq!(headers.get("content-length").unwrap(), "3");
            assert!(!stored_headers(&entry, 9, CacheUse::Hit).contains_key("content-length"));
        }
        _ => panic!("not served"),
    }
}

#[test]
fn stale_entries_are_revalidated() {
    let state = caching();
    let none = HeaderMap::new();
    let (mut exchange, _) = begin(&state, "/example.com/a", &none);
    let entry = stored(&state, &exchange);
    let (_, headers) = fetched(exchange.step(&state, &none, Event::Found(Some(entry), 60)));
    assert_eq!(headers.get("if-none-match").unwrap(), "\"v1\"");
    match exchange.step(&state, &none, answered(304, &[], None)) {
        Action::ServeConfirmed(entry, cache_use) => {
            assert_eq!(entry.etag.as_deref(), Some("\"v1\""));
            assert_eq!(cache_use, CacheUse::Revalidated);
        }
        _ => panic!("not served"),
    }
}

#[test]
fn entries_are_revalidated_by_their_own_validators() {
    let state = caching();
    let request = map(&[
        ("if-none-match", "\"mine\""),
        ("if-none-match", "\"other\""),
        ("if-modified-since", "Sun, 06 Nov 1994 08:49:37 GMT"),
        ("accept-charset", "utf-8"),
    ]);
    let (mut exchange, _) = begin(&state, "/example.com/a", &request);
    let entry = stored(&state, &exchange);
    let (_, headers) = fetched(exchange.step(&state, &request, Event::Found(Some(entry), 60)));
    let values: Vec<&HeaderValue> = headers.get_all("if-none-match").iter().collect();
    assert_eq!(values, vec!["\"v1\""]);
    assert!(!headers.contains_key("if-modified-since"));
    assert_eq!(headers.get("accept-charset").unwrap(), "utf-8");
    let action = exchange.step(&state, &request, answered(304, &[], None));
    assert!(matches!(action, Action::ServeConfirmed(_, CacheUse::Revalidated)));
}

#[test]
fn entries_without_validators_are_not_confirmed() {
    let state = caching();
    let request = map(&[("if-none-match", "\"mine\"")]);
    for etag in [None, Some("a\nb".to_string())] {
        let (mut exchange, _) = begin(&state, "/example.com/a", &request);
        let mut entry = stored(&state, &exchange);
        entry.etag = etag;
        assert!(!Cache::can_validate(&entry));
        let found = Event::Found(Some(entry), 60);
        let (_, headers) = fetched(exchange.step(&state, &request, found));
        assert!(!headers.contains_key("if-none-match"));
        let action = exchange.step(&state, &request, answered(304, &[], None));
        assert!(matches!(action, Action::Relay(Some(CacheUse::Miss))));
    }
    let (mut exchange, _) = begin(&state, "/example.com/a", &request);
    let mut entry = stored(&state, &exchange);
    entry.etag = None;
    entry.last_modified = Some("Sun, 06 Nov 1994 08:49:37 GMT".to_string());
    assert!(Cache::can_validate(&entry));
    let (_, headers) = fetched(exchange.step(&state, &request, Event::Found(Some(entry), 60)));
    assert!(!headers.contains_key("if-none-match"));
    assert_eq!(headers.get("if-modified-since").unwrap(), "Sun, 06 Nov 1994 08:49:37 GMT");
    let action = exchange.step(&state, &request, answered(304, &[], None));
    assert!(matches!(action, Action::ServeConfirmed(_, CacheUse::Revalidated)));
}

#[test]
fn not_modified_reaches_the_client() {
    let request = map(&[("if-none-match", "\"mine\"")]);
    let plain = state(config());
    let (mut exchange, action) = begin(&plain, "/example.com/a", &request);
    assert_eq!(fetched(action).1.get("if-none-match").unwrap(), "\"mine\"");
    let action = exchange.step(&plain, &request, answered(304, &[], None));
    assert!(matches!(action, Action::Relay(None)));
    let caching = caching();
    let (mut exchange, _) = begin(&caching, "/example.com/a", &request);
    let (_, headers) = fetched(exchange.step(&caching, &request, Event::Found(None, 1)));
    assert_eq!(headers.get("if-none-match").unwrap(), "\"mine\"");
    let action = exchange.step(&caching, &request, answered(304, &[], None));
    assert!(matches!(action, Action::Relay(Some(CacheUse::Miss))));
    // Other statuses of the kind still lead elsewhere, or nowhere.
    let (mut exchange, _) = begin(&plain, "/example.com/a", &request);
    let action = exchange.step(&plain, &request, answered(303, &[], None));
    assert_eq!(failed(action), (502, "redirect without Location header".to_string()));
}

#[test]
fn clients_can_force_revalidation() {
    let state = caching();
    let request = map(&[("cache-control", "no-cache")]);
    let (mut exchange, _) = begin(&state, "/example.com/a", &request);
    let entry = stored(&state, &exchange);
    fetched(exchange.step(&state, &request, Event::Found(Some(entry), 1)));
    let action = exchange.step(&state, &request, answered(200, &[], None));
    assert!(matches!(action, Action::Relay(Some(CacheUse::Revalidated))));
    let headers = relayed_headers(&map(&[("content-length", "3")]), 0, Some(CacheUse::Revalidated));
    assert_eq!(headers.get("x-cache").unwrap(), "REVALIDATED");
    assert_eq!(headers.get("content-length").unwrap(), "3");
}

#[test]
fn misses_are_labelled() {
    let state = caching();
    let none = HeaderMap::new();
    let (mut exchange, _) = begin(&state, "/example.com/a", &none);
    fetched(exchange.step(&state, &none, Event::Found(None, 1)));
    let action = exchange.step(&state, &none, answered(200, &[], None));
    assert!(matches!(action, Action::Relay(Some(CacheUse::Miss))));
    assert_eq!(CacheUse::Miss.label(), "MISS");
    // Credentials keep the cache out.
    let request = map(&[("authorization", "Bearer x")]);
    let (exchange, action) = begin(&state, "/example.com/a", &request);
    fetched(action);
    assert!(exchange.plan().is_none());
}

#[test]
fn room_is_counted_in_names() {
    let headers = map(&[("x-a", "1"), ("x-a", "2"), ("x-b", "3")]);
    assert!(room_for(&headers, HEADER_NAME_LIMIT - 2));
    assert!(!room_for(&headers, HEADER_NAME_LIMIT - 1));
    assert!(!room_for(&headers, usize::MAX));
}

#[test]
fn refused_clients_are_told_to_wait() {
    let snapshot = LimitSnapshot { allowed: false, limit: 5, remaining: 0, reset_at_ms: 12_001 };
    let told = |now_ms: u64| {
        let mut response = map(&[("retry-after", "never"), ("content-type", "text/plain")]);
        add_rate_headers_at(&mut response, &snapshot, now_ms);
        response
    };
    let response = told(10_000);
    assert_eq!(response.get("x-ratelimit-limit").unwrap(), "5");
    assert_eq!(response.get("x-ratelimit-remaining").unwrap(), "0");
    assert_eq!(response.get("x-ratelimit-reset").unwrap(), "12");
    assert_eq!(response.get("retry-after").unwrap(), "3");
    assert_eq!(response.get("content-type").unwrap(), "text/plain");
    assert_eq!(told(11_001).get("retry-after").unwrap(), "1");
    assert_eq!(told(11_000).get("retry-after").unwrap(), "2");
    assert_eq!(told(20_000).get("retry-after").unwrap(), "1");
    let mut response = HeaderMap::new();
    let snapshot = LimitSnapshot { allowed: true, limit: 5, remaining: 4, reset_at_ms: 1 };
    add_rate_headers(&mut response, &snapshot);
    assert_eq!(response.get("x-ratelimit-remaining").unwrap(), "4");
    assert!(!response.contains_key("retry-after"));
}
