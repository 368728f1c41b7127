//! What a request is answered: which target it names, whether policy allows it, and
//! which headers go on to the target and come back.

use http::header::HeaderMap;
use vstd::prelude::*;

use crate::config::LimitTier;
use crate::cors;
use crate::cors::{connection_headers, is_hop_by_hop};
use crate::error::AppError;
use crate::extractors::Origin;
use crate::headers;
use crate::headers::{
    header_append, header_insert, header_lines, header_map, header_values, write_value,
    HeaderValues,
};
use crate::matcher;
use crate::matcher::{MatchPolicy, PolicyView};
use crate::text;
use crate::text::{
    chars_of, cut_at, lower, same, same_ignoring_case, starts_with, strip_prefix,
};
use crate::urls;
use crate::urls::{parse_url, push_port, TargetUrl, UrlView};

verus! {

/// What is to be done with a request, by its method and path.
#[derive(Debug, Clone, Copy, PartialEq, Eq, Structural)]
pub enum Route {
    /// Fetch the target and hand it on.
    Proxy,
    /// Answer a CORS preflight.
    Preflight,
    /// There is nothing here: `404 Not Found`.
    NotFound,
    /// `405 Method Not Allowed`.
    MethodNotAllowed,
}

/// What is to be done with a request: there is nothing at the root; below it, only `GET`
/// requests are proxied, and `OPTIONS` requests are preflights.
pub open spec fn route_of(method: Seq<char>, path: Seq<char>) -> Route {
    if path.len() <= 1 || path.first() != '/' {
        Route::NotFound
    } else if method == "GET"@ {
        Route::Proxy
    } else if method == "OPTIONS"@ {
        Route::Preflight
    } else {
        Route::MethodNotAllowed
    }
}

/// What is to be done with a request, by its method and path.
pub fn route(method: &str, path: &str) -> (r: Route)
    ensures
        r == route_of(method@, path@),
{
    proof {
        reveal_strlit("/");
        assert("/"@ =~= seq!['/']);
        if text::begins(path@, "/"@) {
            assert(path@.first() == path@.take(1)[0]);
        } else if path@.len() > 0 && path@.first() == '/' {
            assert(path@.take(1) =~= "/"@);
        }
    }
    match strip_prefix(path, "/") {
        Some(rest) => if rest.as_str().is_empty() {
            Route::NotFound
        } else if same(method, "GET") {
            Route::Proxy
        } else if same(method, "OPTIONS") {
            Route::Preflight
        } else {
            Route::MethodNotAllowed
        },
        None => Route::NotFound,
    }
}

/// The URI of a request, taken apart.
pub struct RequestTarget {
    /// The scheme, where the URI is absolute.
    pub scheme: Option<String>,
    /// The whole URI.
    pub text: String,
    /// The path and query as they were sent, where there are any.
    pub path_and_query: Option<String>,
}

/// The complaint about a scheme that is not proxied.
pub open spec fn scheme_complaint(scheme: Seq<char>) -> Seq<char> {
    "unsupported scheme `"@ + scheme + "`; only http/https are allowed"@
}

pub open spec fn is_proxied_scheme(scheme: Seq<char>) -> bool {
    scheme == "http"@ || scheme == "https"@
}

/// What follows the first slash, or all of a text that does not begin with one.
pub open spec fn without_slash(s: Seq<char>) -> Seq<char> {
    match text::without_prefix(s, "/"@) {
        Some(rest) => rest,
        None => s,
    }
}

pub open spec fn is_letter(c: char) -> bool {
    'a' <= c <= 'z' || 'A' <= c <= 'Z'
}

/// The characters that a scheme may have behind its first one.
pub open spec fn is_scheme_char(c: char) -> bool {
    is_letter(c) || text::is_digit(c) || c == '+' || c == '-' || c == '.'
}

/// Whether a text is a scheme: a letter, then letters, digits, `+`, `-` and `.`.
pub open spec fn is_scheme(s: Seq<char>) -> bool {
    &&& s.len() > 0
    &&& is_letter(s[0])
    &&& forall|i: int| 0 <= i < s.len() ==> is_scheme_char(#[trigger] s[i])
}

/// The scheme that a target gives, if it gives one: what stands before its first colon,
/// where that is a scheme and two slashes follow.
pub open spec fn given_scheme(raw: Seq<char>) -> Option<Seq<char>> {
    match text::cut(raw, ':') {
        Some((scheme, rest)) => if is_scheme(scheme) && text::begins(rest, "//"@) {
            Some(scheme)
        } else {
            None
        },
        None => None,
    }
}

/// A target with the scheme that it lacks, or the complaint about the one that it has.
/// Schemes are the same in any case.
pub open spec fn with_scheme(raw: Seq<char>) -> Result<Seq<char>, Seq<char>> {
    match given_scheme(raw) {
        Some(scheme) => if is_proxied_scheme(text::lowered(scheme)) {
            Ok(raw)
        } else {
            Err(scheme_complaint(scheme))
        },
        None => match text::without_prefix(raw, "//"@) {
            Some(rest) => Ok("https://"@ + rest),
            None => Ok("https://"@ + raw),
        },
    }
}

/// The text of the target URL that a request names, or what is wrong with it. An absolute
/// URI is the target; otherwise what follows the first slash is.
pub open spec fn target_text(uri: RequestTarget) -> Result<Seq<char>, Seq<char>> {
    match uri.scheme {
        Some(scheme) => if is_proxied_scheme(scheme@) {
            Ok(uri.text@)
        } else {
            Err(scheme_complaint(scheme@))
        },
        None => {
            let raw = match uri.path_and_query {
                Some(path_and_query) => without_slash(path_and_query@),
                None => Seq::empty(),
            };
            if raw.len() == 0 {
                Err("no target url provided"@)
            } else {
                with_scheme(raw)
            }
        },
    }
}

/// The target URL that a request names, or what is wrong with it.
pub open spec fn target_of(uri: RequestTarget) -> Result<UrlView, Seq<char>> {
    match target_text(uri) {
        Ok(s) => urls::url_parsed(s),
        Err(complaint) => Err(complaint),
    }
}

fn complain_of_scheme(scheme: &str) -> (r: String)
    ensures
        r@ == scheme_complaint(scheme@),
{
    let mut out = "unsupported scheme `".to_owned();
    out.append(scheme);
    out.append("`; only http/https are allowed");
    out
}

fn letter(c: char) -> (r: bool)
    ensures
        r == is_letter(c),
{
    ('a' <= c && c <= 'z') || ('A' <= c && c <= 'Z')
}

fn scheme_text(s: &str) -> (r: bool)
    ensures
        r == is_scheme(s@),
{
    let chars = chars_of(s);
    if chars.len() == 0 || !letter(chars[0]) {
        return false;
    }
    let mut i: usize = 0;
    while i < chars.len()
        invariant
            i <= chars@.len(),
            chars@ == s@,
            forall|k: int| 0 <= k < i ==> is_scheme_char(#[trigger] chars@[k]),
        decreases chars@.len() - i,
    {
        let c = chars[i];
        if !(letter(c) || ('0' <= c && c <= '9') || c == '+' || c == '-' || c == '.') {
            proof {
                assert(!is_scheme_char(s@[i as int]));
            }
            return false;
        }
        i += 1;
    }
    true
}

fn find_scheme(raw: &str) -> (r: Option<String>)
    ensures
        text::text_option(r) == given_scheme(raw@),
{
    match cut_at(raw, ':') {
        Some((scheme, rest)) => if scheme_text(&scheme) && starts_with(&rest, "//") {
            Some(scheme)
        } else {
            None
        },
        None => None,
    }
}

/// The text of the target URL that a request names.
///
/// When the request URI is absolute, it is used directly. Otherwise the path portion
/// (everything after the leading `/`) is treated as the target; if it lacks a scheme,
/// `https://` is prepended. The query string is preserved. A scheme other than `http` and
/// `https` is refused.
pub fn read_target(uri: &RequestTarget) -> (r: Result<String, AppError>)
    ensures
        match target_text(*uri) {
            Ok(s) => r is Ok && r->Ok_0@ == s,
            Err(complaint) => r is Err && r->Err_0 is BadUrl && r->Err_0.detail() == complaint,
        },
{
    if let Some(scheme) = &uri.scheme {
        if !same(scheme, "http") && !same(scheme, "https") {
            return Err(AppError::BadUrl(complain_of_scheme(scheme)));
        }
        return Ok(uri.text.clone());
    }
    let raw = match &uri.path_and_query {
        Some(path_and_query) => match strip_prefix(path_and_query, "/") {
            Some(rest) => rest,
            None => path_and_query.clone(),
        },
        None => String::new(),
    };
    if raw.as_str().is_empty() {
        return Err(AppError::BadUrl("no target url provided".to_owned()));
    }
    if let Some(scheme) = find_scheme(&raw) {
        let small = lower(&scheme);
        if !same(&small, "http") && !same(&small, "https") {
            return Err(AppError::BadUrl(complain_of_scheme(&scheme)));
        }
        return Ok(raw);
    }
    match strip_prefix(&raw, "//") {
        Some(rest) => Ok("https://".to_owned().concat(&rest)),
        None => Ok("https://".to_owned().concat(&raw)),
    }
}

/// Parse the target URL from the incoming request's URI.
pub fn parse_target_url(uri: &RequestTarget) -> (r: Result<TargetUrl, AppError>)
    ensures
        match target_of(*uri) {
            Ok(url) => r is Ok && r->Ok_0@ == url,
            Err(complaint) => r is Err && r->Err_0 is BadUrl && r->Err_0.detail() == complaint,
        },
{
    match read_target(uri) {
        Ok(s) => match parse_url(&s) {
            Ok(url) => Ok(url),
            Err(complaint) => Err(AppError::BadUrl(complaint)),
        },
        Err(error) => Err(error),
    }
}

/// An error as the client sees it: status and reason.
pub struct Fault {
    pub code: u16,
    pub detail: Seq<char>,
}

/// The fault that an error is.
pub open spec fn fault_of(error: AppError) -> Fault {
    Fault { code: error.code(), detail: error.detail() }
}

/// What is wrong with a target and an origin, once it is known whether the policy allows
/// them.
pub open spec fn verdict(
    url: UrlView,
    origin: Option<Seq<char>>,
    target_allowed: bool,
    origin_allowed: bool,
) -> Option<Fault> {
    if !is_proxied_scheme(url.scheme) {
        Some(Fault { code: 400, detail: scheme_complaint(url.scheme) })
    } else if url.host is None {
        Some(Fault { code: 400, detail: "target url has no host"@ })
    } else if !target_allowed {
        Some(Fault { code: 403, detail: "target `"@ + url.host->0 + "` is not allowed"@ })
    } else if !origin_allowed {
        match origin {
            Some(host) => Some(
                Fault { code: 403, detail: "origin `"@ + host + "` is not allowed"@ },
            ),
            None => Some(Fault { code: 403, detail: "a valid origin is required"@ }),
        }
    } else {
        None
    }
}

/// Whether an origin is allowed. A request without one is, unless the policy has a list
/// of the origins that are.
pub open spec fn origin_allowed(policy: PolicyView, origin: Option<Seq<char>>) -> bool {
    match origin {
        Some(host) => matcher::allowed(policy.origin, host),
        None => policy.origin.whitelist.len() == 0,
    }
}

/// What is wrong with a target and an origin under a policy, if something is.
pub open spec fn policy_fault(
    policy: PolicyView,
    url: UrlView,
    origin: Option<Seq<char>>,
) -> Option<Fault> {
    verdict(
        url,
        origin,
        url.host is Some && matcher::allowed(policy.target, url.host->0),
        origin_allowed(policy, origin),
    )
}

/// What is wrong with a target and an origin, once it is known whether the policy allows
/// them.
pub fn judge(url: &TargetUrl, origin: &Origin, target_allowed: bool, origin_allowed: bool) -> (r:
    Result<(), AppError>)
    ensures
        match verdict(url@, text::text_option(origin.0), target_allowed, origin_allowed) {
            Some(fault) => r is Err && fault_of(r->Err_0) == fault,
            None => r is Ok,
        },
{
    if !same(&url.scheme, "http") && !same(&url.scheme, "https") {
        return Err(AppError::BadUrl(complain_of_scheme(&url.scheme)));
    }
    let host = match &url.host {
        Some(host) => host,
        None => {
            return Err(AppError::BadUrl("target url has no host".to_owned()));
        },
    };
    if !target_allowed {
        let mut reason = "target `".to_owned();
        reason.append(host);
        reason.append("` is not allowed");
        return Err(AppError::Denied(reason));
    }
    if !origin_allowed {
        return match &origin.0 {
            Some(host) => {
                let mut reason = "origin `".to_owned();
                reason.append(host);
                reason.append("` is not allowed");
                Err(AppError::Denied(reason))
            },
            None => Err(AppError::Denied("a valid origin is required".to_owned())),
        };
    }
    Ok(())
}

/// Whether the policy lets a request of this origin go to this target: the scheme is one
/// that is proxied, and the lists allow the host and the origin.
pub fn validate_target_policy(policy: &MatchPolicy, url: &TargetUrl, origin: &Origin) -> (r: Result<
    (),
    AppError,
>)
    ensures
        match policy_fault(policy@, url@, text::text_option(origin.0)) {
            Some(fault) => r is Err && fault_of(r->Err_0) == fault,
            None => r is Ok,
        },
{
    let target_ok = match &url.host {
        Some(host) => policy.target.is_allowed(host),
        None => false,
    };
    let origin_ok = match &origin.0 {
        Some(host) => policy.origin.is_allowed(host),
        None => !policy.origin.has_whitelist(),
    };
    judge(url, origin, target_ok, origin_ok)
}

/// Whether a message names a header as one that concerns this hop only.
pub open spec fn is_nominated(m: HeaderValues, name: Seq<char>) -> bool {
    exists|i: int|
        0 <= i < cors::nominated(m).len() && text::lowered(#[trigger] cors::nominated(m)[i])
            == name
}

/// Whether a header of a message goes on to the next hop.
pub open spec fn goes_on(m: HeaderValues, name: Seq<char>) -> bool {
    !cors::hop_by_hop(name) && !is_nominated(m, name)
}

/// The headers of a message that go on to the next hop, but for one.
pub open spec fn relayed(m: HeaderValues, skipped: Option<Seq<char>>) -> HeaderValues {
    m.restrict(Set::new(|name: Seq<char>| goes_on(m, name) && skipped != Some(name)))
}

fn nominates(names: &Vec<String>, name: &str) -> (r: bool)
    ensures
        r == exists|i: int|
            0 <= i < names@.len() && text::lowered(#[trigger] text::texts(names@)[i])
                == text::lowered(name@),
{
    let ghost views = text::texts(names@);
    let mut i: usize = 0;
    while i < names.len()
        invariant
            i <= names@.len(),
            views == text::texts(names@),
            forall|k: int|
                0 <= k < i ==> text::lowered(#[trigger] views[k]) != text::lowered(name@),
        decreases names@.len() - i,
    {
        proof {
            assert(views[i as int] == names@[i as int]@);
        }
        if same_ignoring_case(&names[i], name) {
            return true;
        }
        i += 1;
    }
    false
}

/// The names among the first lines are among all.
proof fn lemma_first_names(lines: Seq<(Seq<char>, Seq<u8>)>, i: int)
    requires
        0 <= i <= lines.len(),
    ensures
        headers::collected(lines.take(i)).dom().subset_of(headers::collected(lines).dom()),
    decreases lines.len() - i,
{
    if i == lines.len() {
        assert(lines.take(i) =~= lines);
    } else {
        lemma_first_names(lines, i + 1);
        assert(lines.take(i + 1).drop_last() =~= lines.take(i));
    }
}

fn relay(source: &HeaderMap, skipped: Option<&str>) -> (out: HeaderMap)
    requires
        headers::has_room(header_values(*source), 1),
    ensures
        header_values(out) == relayed(
            header_values(*source),
            match skipped {
                Some(name) => Some(name@),
                None => None,
            },
        ),
{
    let ghost m = header_values(*source);
    let ghost skip = match skipped {
        Some(name) => Some(name@),
        None => None,
    };
    let ghost keep = |name: Seq<char>| goes_on(m, name) && skip != Some(name);
    let ghost wanted = |l: (Seq<char>, Seq<u8>)| keep(l.0);
    let nominated = connection_headers(source);
    let lines = header_lines(source);
    let ghost views = headers::line_views(lines@);
    let mut out = header_map();
    let mut i: usize = 0;
    proof {
        reveal(Seq::filter);
        assert(views.take(0).filter(wanted) =~= Seq::empty());
    }
    while i < lines.len()
        invariant
            i <= lines@.len(),
            m == header_values(*source),
            headers::has_room(m, 1),
            skip == (match skipped {
                Some(name) => Some(name@),
                None => None,
            }),
            keep == (|name: Seq<char>| goes_on(m, name) && skip != Some(name)),
            wanted == (|l: (Seq<char>, Seq<u8>)| keep(l.0)),
            text::texts(nominated@) == cors::nominated(m),
            views == headers::line_views(lines@),
            headers::collected(views) == m,
            forall|k: int|
                0 <= k < lines@.len() ==> headers::is_header_name((#[trigger] lines@[k]).name@),
            forall|k: int|
                0 <= k < lines@.len() ==> headers::is_header_value((#[trigger] lines@[k]).value@),
            header_values(out) == headers::collected(views.take(i as int).filter(wanted)),
        decreases lines@.len() - i,
    {
        let line = &lines[i];
        proof {
            reveal(Seq::filter);
            assert(views.take(i + 1).drop_last() =~= views.take(i as int));
            assert(views.take(i + 1).last() == line@);
            headers::lemma_collected_filter(views.take(i as int), keep);
            lemma_first_names(views, i as int);
            headers::lemma_stored_name(line.name@);
            assert(header_values(out).dom().subset_of(m.dom()));
            vstd::set_lib::lemma_len_subset(header_values(out).dom(), m.dom());
        }
        let skip_it = match skipped {
            Some(name) => same(&line.name, name),
            None => false,
        };
        if !is_hop_by_hop(&line.name) && !nominates(&nominated, &line.name) && !skip_it {
            proof {
                let before = views.take(i as int).filter(wanted);
                assert(before.push(line@).drop_last() =~= before);
            }
            header_append(&mut out, &line.name, &line.value);
        }
        i += 1;
    }
    proof {
        assert(views.take(lines@.len() as int) =~= views);
        headers::lemma_collected_filter(views, keep);
        assert(relayed(m, skip) =~= m.restrict(Set::new(keep)));
    }
    out
}

/// What the `Host` header of a request to a URL says, if it says something.
pub open spec fn host_text(url: UrlView) -> Option<Seq<char>> {
    match url.host {
        Some(host) => Some(host + urls::port_suffix(url.port)),
        None => if url.port is Some {
            None
        } else {
            Some(Seq::empty())
        },
    }
}

/// The headers with which a request goes on to its target: those that concern more than
/// one hop, and the target's host.
pub open spec fn forwarded(request: HeaderValues, url: UrlView) -> HeaderValues {
    let kept = relayed(request, Some("host"@));
    match host_text(url) {
        Some(host) => match headers::text_value(host) {
            Some(value) => kept.insert("host"@, seq![value]),
            None => kept,
        },
        None => kept,
    }
}

/// Forward client headers to the target, stripping hop-by-hop and proxy-injected headers.
/// The `Host` header is set to the target's host.
pub fn forward_headers(source: &HeaderMap, target_url: &TargetUrl) -> (out: HeaderMap)
    requires
        headers::has_room(header_values(*source), 1),
    ensures
        header_values(out) == forwarded(header_values(*source), target_url@),
{
    let mut out = relay(source, Some("host"));
    proof {
        headers::lemma_known_names();
        lemma_relayed_room(header_values(*source), Some("host"@), 1);
    }
    let mut host = match &target_url.host {
        Some(host) => host.clone(),
        None => {
            if target_url.port.is_some() {
                return out;
            }
            String::new()
        },
    };
    push_port(&mut host, target_url.port);
    proof {
        assert(Seq::<char>::empty() + urls::port_suffix(None) =~= Seq::empty());
    }
    if let Some(value) = write_value(&host) {
        header_insert(&mut out, "host", &value);
    }
    out
}

/// What goes on takes no more room than there was before.
pub(crate) proof fn lemma_relayed_room(m: HeaderValues, skipped: Option<Seq<char>>, more: nat)
    requires
        headers::has_room(m, more),
    ensures
        headers::has_room(relayed(m, skipped), more),
{
    assert(relayed(m, skipped).dom().subset_of(m.dom()));
    vstd::set_lib::lemma_len_subset(relayed(m, skipped).dom(), m.dom());
}

/// The headers with which a response comes back: those that concern more than one hop,
/// without its length where the body may be cut short.
pub open spec fn returned(response: HeaderValues, body_may_be_truncated: bool) -> HeaderValues {
    relayed(
        response,
        if body_may_be_truncated {
            Some("content-length"@)
        } else {
            None
        },
    )
}

/// Copy response headers from the upstream response, stripping hop-by-hop headers.
/// `Content-Length` is also removed when the body can be truncated by the per-result
/// limit.
pub fn copy_response_headers(source: &HeaderMap, body_may_be_truncated: bool) -> (out: HeaderMap)
    requires
        headers::has_room(header_values(*source), 1),
    ensures
        header_values(out) == returned(header_values(*source), body_may_be_truncated),
{
    if body_may_be_truncated {
        relay(source, Some("content-length"))
    } else {
        relay(source, None)
    }
}

/// What a tier allows, as the rate limiter takes it: a number of requests and a time in
/// milliseconds.
pub fn quota(tier: &LimitTier) -> (r: (usize, u64))
    requires
        tier.window * 1000 <= u64::MAX,
    ensures
        r.0 == tier.max as usize,
        r.1 == tier.window * 1000,
{
    (tier.max as usize, tier.window * 1000)
}

/// No header that concerns one hop goes on, neither a known one nor one that the message
/// names; every other header goes on with all its values.
pub proof fn law_hop_headers_stay(m: HeaderValues, skipped: Option<Seq<char>>, name: Seq<char>)
    ensures
        cors::hop_by_hop(name) || is_nominated(m, name) ==> !relayed(m, skipped).contains_key(name),
        !cors::hop_by_hop(name) && !is_nominated(m, name) && skipped != Some(name) ==> relayed(
            m,
            skipped,
        ).contains_key(name) == m.contains_key(name),
        relayed(m, skipped).contains_key(name) ==> relayed(m, skipped)[name] == m[name],
{
}

/// The length of a response is handed on exactly where its body cannot be cut short.
pub proof fn law_length_is_kept_without_a_cap(response: HeaderValues)
    requires
        goes_on(response, "content-length"@),
    ensures
        !returned(response, true).contains_key("content-length"@),
        returned(response, false).contains_key("content-length"@) == response.contains_key(
            "content-length"@,
        ),
        response.contains_key("content-length"@) ==> returned(response, false)["content-length"@]
            == response["content-length"@],
{
}

/// A request reaches its target with the target's host and otherwise with the headers
/// that it would have at any other target: in particular credentials are the same before
/// and after a redirect.
pub proof fn law_headers_survive_redirects(
    request: HeaderValues,
    url: UrlView,
    next: UrlView,
    name: Seq<char>,
)
    requires
        name != "host"@,
    ensures
        forwarded(request, url).contains_key(name) == forwarded(request, next).contains_key(name),
        forwarded(request, url).contains_key(name) ==> forwarded(request, url)[name] == forwarded(
            request,
            next,
        )[name],
{
}

/// Credentials are forwarded, unless the request names them as concerning this hop only.
pub proof fn law_credentials_are_forwarded(request: HeaderValues, url: UrlView, name: Seq<char>)
    requires
        name == "authorization"@ || name == "cookie"@,
        request.contains_key(name),
        !is_nominated(request, name),
    ensures
        forwarded(request, url).contains_key(name),
        forwarded(request, url)[name] == request[name],
{
    reveal_strlit("authorization");
    reveal_strlit("cookie");
    reveal_strlit("host");
    reveal_strlit("x-forwarded-");
    reveal_strlit("connection");
    reveal_strlit("keep-alive");
    reveal_strlit("proxy-authenticate");
    reveal_strlit("proxy-authorization");
    reveal_strlit("te");
    reveal_strlit("trailers");
    reveal_strlit("transfer-encoding");
    reveal_strlit("upgrade");
    reveal_strlit("x-forwarded-for");
    reveal_strlit("x-forwarded-host");
    reveal_strlit("x-forwarded-proto");
    reveal_strlit("x-forwarded-port");
    reveal_strlit("x-real-ip");
    reveal_strlit("forwarded");
    assert(text::lowered(name) =~= name);
    assert(name[0] == 'a' || name[0] == 'c');
    assert(name.len() == 13 || name.len() == 6);
    if text::begins(name, "x-forwarded-"@) {
        assert(name.take(12)[0] == 'x');
    }
}

/// What a request names, behind the first slash of its path.
proof fn lemma_behind_slash(target: Seq<char>)
    ensures
        without_slash("/"@ + target) == target,
{
    reveal_strlit("/");
    let path = "/"@ + target;
    assert(path.take(1) =~= "/"@);
    assert(path.skip(1) =~= target);
}

/// What stands before `://` is the scheme that a target gives.
proof fn lemma_given_scheme(scheme: Seq<char>, rest: Seq<char>)
    requires
        is_scheme(scheme),
    ensures
        given_scheme(scheme + "://"@ + rest) == Some(scheme),
{
    reveal_strlit("://");
    reveal_strlit("//");
    let raw = scheme + "://"@ + rest;
    let at = scheme.len() as int;
    assert(raw[at] == ':');
    assert forall|i: int| 0 <= i < at implies #[trigger] raw[i] != ':' by {
        assert(is_scheme_char(scheme[i]));
    }
    raw.index_of_first_ensures(':');
    assert(raw.contains(raw[at]));
    assert(raw.index_of_first(':') == Some(at));
    assert(raw.take(at) =~= scheme);
    assert(raw.skip(at + 1).take(2) =~= "//"@);
}

/// A request that gives no scheme goes to the `https` target, whether or not two slashes
/// stand where the scheme would end.
pub proof fn law_scheme_is_prepended(uri: RequestTarget, target: Seq<char>)
    requires
        uri.scheme is None,
        uri.path_and_query is Some,
        uri.path_and_query->0@ == "/"@ + target,
        target.len() > 0,
        given_scheme(target) is None,
    ensures
        target_text(uri) == Ok::<Seq<char>, Seq<char>>(
            if text::begins(target, "//"@) {
                "https:"@ + target
            } else {
                "https://"@ + target
            },
        ),
{
    reveal_strlit("//");
    reveal_strlit("https:");
    reveal_strlit("https://");
    lemma_behind_slash(target);
    if text::begins(target, "//"@) {
        assert("https:"@ + target =~= "https://"@ + target.skip(2)) by {
            assert(target.take(2)[0] == '/' && target.take(2)[1] == '/');
        }
    }
}

/// A request that gives the scheme goes to the target as it is written.
pub proof fn law_scheme_is_kept(uri: RequestTarget, target: Seq<char>)
    requires
        uri.scheme is None,
        uri.path_and_query is Some,
        uri.path_and_query->0@ == "/"@ + target,
        text::begins(target, "http://"@) || text::begins(target, "https://"@),
    ensures
        target_text(uri) == Ok::<Seq<char>, Seq<char>>(target),
{
    reveal_strlit("http");
    reveal_strlit("https");
    reveal_strlit("http://");
    reveal_strlit("https://");
    reveal_strlit("://");
    lemma_behind_slash(target);
    assert(text::lowered("http"@) =~= "http"@);
    assert(text::lowered("https"@) =~= "https"@);
    if text::begins(target, "http://"@) {
        assert("http://"@ =~= "http"@ + "://"@);
        assert(target =~= "http"@ + "://"@ + target.skip(7));
        lemma_given_scheme("http"@, target.skip(7));
    } else {
        assert("https://"@ =~= "https"@ + "://"@);
        assert(target =~= "https"@ + "://"@ + target.skip(8));
        lemma_given_scheme("https"@, target.skip(8));
    }
}

/// A request that gives another scheme is refused, whether the URI has it or the target in
/// its path.
pub proof fn law_other_schemes_are_refused(
    uri: RequestTarget,
    scheme: Seq<char>,
    rest: Seq<char>,
)
    requires
        is_scheme(scheme),
        !is_proxied_scheme(text::lowered(scheme)),
        match uri.scheme {
            Some(s) => s@ == scheme,
            None => uri.path_and_query is Some && uri.path_and_query->0@ == "/"@ + (scheme
                + "://"@ + rest),
        },
    ensures
        target_text(uri) == Err::<Seq<char>, Seq<char>>(scheme_complaint(scheme)),
{
    reveal_strlit("http");
    reveal_strlit("https");
    assert(text::lowered("http"@) =~= "http"@);
    assert(text::lowered("https"@) =~= "https"@);
    lemma_behind_slash(scheme + "://"@ + rest);
    lemma_given_scheme(scheme, rest);
}

/// Where the policy has a list of the origins that are allowed, a request without a valid
/// origin is denied.
pub proof fn law_whitelisted_origins_are_required(policy: PolicyView, url: UrlView)
    requires
        policy.origin.whitelist.len() > 0,
    ensures
        policy_fault(policy, url, None) is Some,
{
}

/// Only `GET` requests are proxied.
pub proof fn law_only_get_is_proxied(method: Seq<char>, path: Seq<char>)
    requires
        route_of(method, path) is Proxy,
    ensures
        method == "GET"@,
{
}

/// Only http and https targets with a host are proxied, and a request is let through
/// exactly when the host is on no blacklist of targets and on the whitelist, where there is
/// one, and the origin is on no blacklist of origins and on the whitelist, where there is
/// one. A request without an origin is let through where there is no whitelist of origins.
pub proof fn law_policy(policy: PolicyView, url: UrlView, origin: Option<Seq<char>>)
    ensures
        policy_fault(policy, url, origin) is None <==> {
            &&& url.scheme == "http"@ || url.scheme == "https"@
            &&& url.host is Some
            &&& !matcher::matches_any(policy.target.blacklist, url.host->0)
            &&& policy.target.whitelist.len() == 0 || matcher::matches_any(
                policy.target.whitelist,
                url.host->0,
            )
            &&& match origin {
                Some(host) => {
                    &&& !matcher::matches_any(policy.origin.blacklist, host)
                    &&& policy.origin.whitelist.len() == 0 || matcher::matches_any(
                        policy.origin.whitelist,
                        host,
                    )
                },
                None => policy.origin.whitelist.len() == 0,
            }
        },
{
}

/// A URL that cannot be proxied at all is a bad request, whatever the lists say; one that
/// the lists are against is forbidden, and the reason names the target where it is the
/// target's lists, and else the origin.
pub proof fn law_denials(policy: PolicyView, url: UrlView, origin: Option<Seq<char>>)
    ensures
        ({
            let fault = policy_fault(policy, url, origin);
            let denied = |list: matcher::ListView, host: Seq<char>|
                matcher::matches_any(list.blacklist, host) || (list.whitelist.len() > 0
                    && !matcher::matches_any(list.whitelist, host));
            if url.scheme != "http"@ && url.scheme != "https"@ {
                fault == Some(
                    Fault {
                        code: 400,
                        detail: "unsupported scheme `"@ + url.scheme
                            + "`; only http/https are allowed"@,
                    },
                )
            } else if url.host is None {
                fault == Some(Fault { code: 400, detail: "target url has no host"@ })
            } else if denied(policy.target, url.host->0) {
                fault == Some(
                    Fault { code: 403, detail: "target `"@ + url.host->0 + "` is not allowed"@ },
                )
            } else {
                &&& origin is Some && denied(policy.origin, origin->0) ==> fault == Some(
                    Fault { code: 403, detail: "origin `"@ + origin->0 + "` is not allowed"@ },
                )
                &&& origin is None && policy.origin.whitelist.len() > 0 ==> fault is Some
                    && fault->0.code == 403
            }
        }),
{
}

/// What a policy says of a target and an origin is what the check of the policy returns.
pub proof fn law_policy_is_enforced(
    policy: MatchPolicy,
    url: TargetUrl,
    origin: Origin,
    r: Result<(), AppError>,
)
    requires
        call_ensures(validate_target_policy, (&policy, &url, &origin), r),
    ensures
        r is Ok <==> policy_fault(policy@, url@, text::text_option(origin.0)) is None,
        r is Err ==> Some(
            Fault { code: r->Err_0.code(), detail: r->Err_0.detail() },
        ) == policy_fault(policy@, url@, text::text_option(origin.0)),
{
}

/// The root answers nothing; below it, `GET` is proxied, `OPTIONS` is a preflight, and every
/// other method is refused, `HEAD` included.
pub proof fn law_routes(method: Seq<char>, rest: Seq<char>)
    ensures
        route_of(method, seq!['/']) is NotFound,
        route_of(method, Seq::empty()) is NotFound,
        rest.len() > 0 ==> (route_of(method, seq!['/'] + rest) is Proxy <==> method == "GET"@),
        rest.len() > 0 ==> (route_of(method, seq!['/'] + rest) is Preflight <==> method
            == "OPTIONS"@),
        rest.len() > 0 ==> (route_of(method, seq!['/'] + rest) is MethodNotAllowed <==> method
            != "GET"@ && method != "OPTIONS"@),
        rest.len() > 0 && rest.first() != '/' ==> route_of(method, rest) is NotFound,
{
    reveal_strlit("GET");
    reveal_strlit("OPTIONS");
    assert("GET"@.len() != "OPTIONS"@.len());
}

/// A header goes on with all its values, in order, unless it is one of the names that stay
/// on a hop or a readable `Connection` value lists it, in any case; then it does not go on.
pub proof fn law_headers_go_on(m: HeaderValues, name: Seq<char>)
    ensures
        ({
            let listed = exists|i: int, item: Seq<char>|
                0 <= i < headers::values_of(m, "connection"@).len() && headers::value_text(
                    #[trigger] headers::values_of(m, "connection"@)[i],
                ) is Some && #[trigger] text::listed(
                    headers::value_text(headers::values_of(m, "connection"@)[i])->0,
                ).contains(item) && text::lowered(item) == name;
            let stays = text::begins(text::lowered(name), "x-forwarded-"@) || seq![
                "connection"@,
                "keep-alive"@,
                "proxy-authenticate"@,
                "proxy-authorization"@,
                "te"@,
                "trailers"@,
                "transfer-encoding"@,
                "upgrade"@,
                "x-real-ip"@,
                "forwarded"@,
            ].contains(text::lowered(name));
            headers::values_of(relayed(m, None), name) == if listed || stays {
                Seq::empty()
            } else {
                headers::values_of(m, name)
            }
        }),
{
    cors::law_hop_names(name);
    let values = headers::values_of(m, "connection"@);
    let names = cors::nominated(m);
    if is_nominated(m, name) {
        let k = choose|k: int| 0 <= k < names.len() && text::lowered(#[trigger] names[k]) == name;
        assert(names.contains(names[k]));
        cors::law_nominated(m, names[k]);
        let i = choose|i: int|
            0 <= i < values.len() && headers::value_text(#[trigger] values[i]) is Some
                && text::listed(headers::value_text(values[i])->0).contains(names[k]);
        assert(text::listed(headers::value_text(values[i])->0).contains(names[k]));
    }
    if exists|i: int, item: Seq<char>|
        0 <= i < values.len() && headers::value_text(#[trigger] values[i]) is Some
            && #[trigger] text::listed(headers::value_text(values[i])->0).contains(item)
            && text::lowered(item) == name {
        let (i, item) = choose|i: int, item: Seq<char>|
            0 <= i < values.len() && headers::value_text(#[trigger] values[i]) is Some
                && #[trigger] text::listed(headers::value_text(values[i])->0).contains(item)
                && text::lowered(item) == name;
        cors::law_nominated(m, item);
        let k = choose|k: int| 0 <= k < names.len() && names[k] == item;
        assert(text::lowered(names[k]) == name);
    }
}

/// A response comes back with the headers that go on; its length is left out exactly where
/// the body may be cut short, and nothing else is.
pub proof fn law_responses_come_back(m: HeaderValues, name: Seq<char>)
    ensures
        returned(m, false) == relayed(m, None),
        name != "content-length"@ ==> headers::values_of(returned(m, true), name)
            == headers::values_of(relayed(m, None), name),
        !returned(m, true).contains_key("content-length"@),
{
    assert(returned(m, false) =~= relayed(m, None));
}

/// In particular what says how a message is to be read comes back, with the values that the
/// target gave.
pub proof fn law_content_headers_come_back(m: HeaderValues, name: Seq<char>)
    requires
        seq![
            "accept"@,
            "accept-encoding"@,
            "accept-language"@,
            "age"@,
            "authorization"@,
            "cache-control"@,
            "content-disposition"@,
            "content-encoding"@,
            "content-language"@,
            "content-length"@,
            "content-range"@,
            "content-type"@,
            "cookie"@,
            "date"@,
            "etag"@,
            "expires"@,
            "if-modified-since"@,
            "if-none-match"@,
            "last-modified"@,
            "link"@,
            "location"@,
            "origin"@,
            "range"@,
            "referer"@,
            "server"@,
            "set-cookie"@,
            "user-agent"@,
            "vary"@,
            "x-cache"@,
        ].contains(name),
        !is_nominated(m, name),
    ensures
        relayed(m, None).contains_key(name) == m.contains_key(name),
        headers::values_of(relayed(m, None), name) == headers::values_of(m, name),
        headers::values_of(returned(m, false), name) == headers::values_of(m, name),
{
    cors::law_end_to_end_names(name);
}

/// A request goes on with the headers that go on, but for its `Host`, which becomes the
/// target's host with the port that the URL has.
pub proof fn law_requests_go_on(m: HeaderValues, url: UrlView, name: Seq<char>)
    ensures
        name != "host"@ ==> headers::values_of(forwarded(m, url), name) == headers::values_of(
            relayed(m, None),
            name,
        ),
        url.host is Some && url.port is None && headers::text_value(url.host->0) is Some
            ==> headers::values_of(forwarded(m, url), "host"@) == seq![
            vstd::utf8::encode_utf8(url.host->0),
        ],
        url.host is Some && url.port is Some && headers::text_value(
            url.host->0 + seq![':'] + text::decimal(url.port->0 as nat),
        ) is Some ==> headers::values_of(forwarded(m, url), "host"@) == seq![
            vstd::utf8::encode_utf8(url.host->0 + seq![':'] + text::decimal(url.port->0 as nat)),
        ],
        url.host is None && url.port is Some ==> !forwarded(m, url).contains_key("host"@),
{
    if url.host is Some {
        if url.port is Some {
            let digits = text::decimal(url.port->0 as nat);
            assert(url.host->0 + (seq![':'] + digits) =~= url.host->0 + seq![':'] + digits);
        } else {
            assert(url.host->0 + urls::port_suffix(None) =~= url.host->0);
        }
    }
    assert(headers::values_of(relayed(m, None), name) == if goes_on(m, name) {
        headers::values_of(m, name)
    } else {
        Seq::empty()
    });
}

/// A request that names no target is refused; an absolute one is its own target; and the
/// first slash of the path is all that is taken off.
pub proof fn law_targets(uri: RequestTarget, target: Seq<char>)
    ensures
        uri.scheme is Some && (uri.scheme->0@ == "http"@ || uri.scheme->0@ == "https"@)
            ==> target_text(uri) == Ok::<Seq<char>, Seq<char>>(uri.text@),
        uri.scheme is None && (uri.path_and_query is None || uri.path_and_query->0@.len() == 0
            || uri.path_and_query->0@ == seq!['/']) ==> target_text(uri) == Err::<
            Seq<char>,
            Seq<char>,
        >("no target url provided"@),
        uri.scheme is None && uri.path_and_query is Some && uri.path_and_query->0@ == seq!['/']
            + target && target.len() > 0 && (text::begins(target, "http://"@) || text::begins(
            target,
            "https://"@,
        )) ==> target_text(uri) == Ok::<Seq<char>, Seq<char>>(target),
        target_text(uri) is Ok ==> target_of(uri) == urls::url_parsed(target_text(uri)->Ok_0),
        target_text(uri) is Err ==> target_of(uri) == Err::<UrlView, Seq<char>>(
            target_text(uri)->Err_0,
        ),
{
    reveal_strlit("/");
    assert("/"@ =~= seq!['/']);
    if uri.scheme is None && uri.path_and_query is Some {
        let path = uri.path_and_query->0@;
        if path == seq!['/'] {
            assert(path =~= "/"@ + Seq::<char>::empty());
            lemma_behind_slash(Seq::empty());
        }
        if path.len() == 0 {
            assert(path =~= Seq::empty());
        }
        if path == seq!['/'] + target && (text::begins(target, "http://"@) || text::begins(
            target,
            "https://"@,
        )) {
            law_scheme_is_kept(uri, target);
        }
    }
}

/// What may stand before `://` as a scheme: a letter first, then letters, digits and three
/// signs.
pub proof fn law_schemes(s: Seq<char>)
    ensures
        is_scheme(s) <==> s.len() > 0 && !(48 <= s[0] as int <= 57) && s[0] as int != 43
            && s[0] as int != 45 && s[0] as int != 46 && (forall|i: int|
            0 <= i < s.len() ==> {
                let c = #[trigger] s[i] as int;
                ||| 48 <= c <= 57
                ||| 65 <= c <= 90
                ||| 97 <= c <= 122
                ||| c == 43 || c == 45 || c == 46
            }),
        is_proxied_scheme(s) <==> s == seq!['h', 't', 't', 'p'] || s == seq![
            'h',
            't',
            't',
            'p',
            's',
        ],
{
    reveal_strlit("http");
    reveal_strlit("https");
    assert("http"@ =~= seq!['h', 't', 't', 'p']);
    assert("https"@ =~= seq!['h', 't', 't', 'p', 's']);
    if s.len() > 0 {
        assert((forall|i: int| 0 <= i < s.len() ==> is_scheme_char(#[trigger] s[i])) <==> (
        forall|i: int|
            0 <= i < s.len() ==> {
                let c = #[trigger] s[i] as int;
                ||| 48 <= c <= 57
                ||| 65 <= c <= 90
                ||| 97 <= c <= 122
                ||| c == 43 || c == 45 || c == 46
            }));
        if is_scheme(s) {
            assert(is_scheme_char(s[0]));
        }
    }
}

/// What a request is answered with for an unreadable target is a bad request that says why.
pub proof fn law_bad_targets(uri: RequestTarget, r: Result<TargetUrl, AppError>)
    requires
        call_ensures(parse_target_url, (&uri,), r),
    ensures
        r is Ok <==> target_of(uri) is Ok,
        r is Ok ==> r->Ok_0@ == target_of(uri)->Ok_0,
        r is Err ==> r->Err_0.code() == 400 && r->Err_0.detail() == target_of(uri)->Err_0,
{
}

/// A tier is handed to the rate limiter with its number of requests and its window in
/// milliseconds.
pub proof fn law_quota(tier: LimitTier, r: (usize, u64))
    requires
        call_ensures(quota, (&tier,), r),
    ensures
        tier.max <= usize::MAX ==> r.0 == tier.max,
        r.1 == 1000 * tier.window,
{
}

/// Requests are routed, targets read, verdicts given and headers passed on as stated.
pub proof fn law_answering(
    method: &str,
    path: &str,
    way: Route,
    uri: RequestTarget,
    target: Result<String, AppError>,
    message: HeaderMap,
    url: TargetUrl,
    sent: HeaderMap,
    cut_short: bool,
    back: HeaderMap,
)
    requires
        call_ensures(route, (method, path), way),
        call_ensures(read_target, (&uri,), target),
        call_ensures(forward_headers, (&message, &url), sent),
        call_ensures(copy_response_headers, (&message, cut_short), back),
    ensures
        way == route_of(method@, path@),
        target is Ok <==> target_text(uri) is Ok,
        target is Ok ==> target->Ok_0@ == target_text(uri)->Ok_0,
        target is Err ==> target->Err_0 is BadUrl && target->Err_0.detail() == target_text(
            uri,
        )->Err_0,
        header_values(sent) == forwarded(header_values(message), url@),
        header_values(back) == returned(header_values(message), cut_short),
{
}

/// Once it is known what the lists say, a request is let through exactly when its URL can be
/// proxied and the lists allow both its target and its origin.
pub proof fn law_judgement(
    url: TargetUrl,
    origin: Origin,
    target_allowed: bool,
    origin_allowed: bool,
    r: Result<(), AppError>,
)
    requires
        call_ensures(judge, (&url, &origin, target_allowed, origin_allowed), r),
    ensures
        r is Ok <==> (url.scheme@ == "http"@ || url.scheme@ == "https"@) && url.host is Some
            && target_allowed && origin_allowed,
        r is Err && (url.scheme@ != "http"@ && url.scheme@ != "https"@ || url.host is None)
            ==> r->Err_0.code() == 400,
        r is Err && (url.scheme@ == "http"@ || url.scheme@ == "https"@) && url.host is Some
            ==> r->Err_0.code() == 403,
{
}

} // verus!
