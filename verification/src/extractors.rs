//! What is taken from a request: the requesting origin, the client's address, and the
//! key that is made of the two.
//!
//! Limits apply per requesting site per client address, so the key of a request is
//! `(origin, client_ip)`.

use http::header::HeaderMap;
use vstd::prelude::*;

use crate::headers;
use crate::headers::{header_text, header_values, read_name, HeaderValues};
use crate::text;
use crate::text::{split_on, trim};
use crate::urls;
use crate::urls::{parse_url, TargetUrl, UrlView};

verus! {

/// The requesting site's host, derived from the `Origin` header (preferred) or the
/// `Referer` header. `None` when neither is present or parseable (e.g. same-origin or
/// direct requests).
#[derive(Debug, Clone)]
pub struct Origin(pub Option<String>);

/// The host of a URL, in small letters.
pub open spec fn small_host(url: UrlView) -> Option<Seq<char>> {
    match url.host {
        Some(host) => Some(text::unicode_lowered(host)),
        None => None,
    }
}

/// The host of a header value that is a URL, in small letters.
pub open spec fn host_of(value: Seq<char>) -> Option<Seq<char>> {
    match urls::url_parsed(value) {
        Ok(url) => small_host(url),
        Err(_) => None,
    }
}

/// The host of a header whose first value is a URL.
pub open spec fn header_host(m: HeaderValues, name: Seq<char>) -> Option<Seq<char>> {
    match headers::first_text(m, name) {
        Some(value) => host_of(value),
        None => None,
    }
}

/// The requesting site's host.
pub open spec fn origin_of(m: HeaderValues) -> Option<Seq<char>> {
    if header_host(m, "origin"@) is Some {
        header_host(m, "origin"@)
    } else {
        header_host(m, "referer"@)
    }
}

fn find_host(headers: &HeaderMap, name: &str) -> (r: Option<String>)
    requires
        headers::is_header_name(name@),
    ensures
        text::text_option(r) == header_host(header_values(*headers), name@),
{
    match header_text(headers, name) {
        Some(value) => match parse_url(&value) {
            Ok(url) => Origin::host_in(&url),
            Err(_) => None,
        },
        None => None,
    }
}

impl Origin {
    /// Extract the host from request headers.
    pub fn from_headers(headers: &HeaderMap) -> (r: Origin)
        ensures
            text::text_option(r.0) == origin_of(header_values(*headers)),
    {
        proof {
            headers::lemma_known_names();
        }
        Origin::from_hosts(find_host(headers, "origin"), find_host(headers, "referer"))
    }

    /// The host of a URL, in small letters.
    pub fn host_in(url: &TargetUrl) -> (r: Option<String>)
        ensures
            text::text_option(r) == small_host(url@),
            url@.host is Some && vstd::utf8::is_ascii_chars(url@.host->0) ==> r is Some && r->0@
                == text::lowered(url@.host->0),
    {
        match &url.host {
            Some(host) => Some(host.as_str().to_lowercase()),
            None => None,
        }
    }

    /// The host of the `Origin` header, or else that of the `Referer` header.
    pub fn from_hosts(origin: Option<String>, referer: Option<String>) -> (r: Origin)
        ensures
            r.0 == (if origin is Some {
                origin
            } else {
                referer
            }),
    {
        match origin {
            Some(host) => Origin(Some(host)),
            None => Origin(referer),
        }
    }

    /// The origin's part of a bucket key.
    pub open spec fn key_part(self) -> Seq<char> {
        match self.0 {
            Some(host) => "origin:"@ + host@,
            None => "origin:unknown"@,
        }
    }

    /// The origin's part of a bucket key.
    pub fn storage_key(&self) -> (r: String)
        ensures
            r@ == self.key_part(),
    {
        match &self.0 {
            Some(host) => "origin:".to_owned().concat(host),
            None => "origin:unknown".to_owned(),
        }
    }
}

/// The client's real IP address, taken from the configured `real_ip_header` when present
/// (reverse-proxy scenario), or else the TCP peer address.
#[derive(Debug, Clone)]
pub struct ClientIp(pub String);

/// What the configured header says of the client's address: the first item of its first
/// value.
pub open spec fn claimed_ip(m: HeaderValues, header: Seq<char>) -> Option<Seq<char>> {
    match headers::parsed_name(header) {
        Some(name) => match headers::first_text(m, name) {
            Some(value) => Some(text::trimmed(text::split(value, ',')[0])),
            None => None,
        },
        None => None,
    }
}

impl ClientIp {
    /// What the configured header says of the client's address, to be read as an address.
    pub fn claimed(headers: &HeaderMap, real_ip_header: &str) -> (r: Option<String>)
        ensures
            text::text_option(r) == claimed_ip(header_values(*headers), real_ip_header@),
    {
        match read_name(real_ip_header) {
            Some(name) => match header_text(headers, &name) {
                Some(value) => {
                    let items = split_on(&value, ',');
                    proof {
                        assert(text::texts(items@)[0] == items@[0]@);
                    }
                    Some(trim(&items[0]))
                },
                None => None,
            },
            None => None,
        }
    }

    /// The client's address: the one that the configured header claims, where that is an
    /// address; else that of the TCP peer; else unknown.
    pub fn from_parts(claimed: Option<String>, peer: Option<String>) -> (r: ClientIp)
        ensures
            r.0@ == (match claimed {
                Some(ip) => ip@,
                None => match peer {
                    Some(ip) => ip@,
                    None => "unknown"@,
                },
            }),
    {
        match claimed {
            Some(ip) => ClientIp(ip),
            None => match peer {
                Some(ip) => ClientIp(ip),
                None => ClientIp("unknown".to_owned()),
            },
        }
    }

    /// The address's part of a bucket key.
    pub open spec fn key_part(self) -> Seq<char> {
        "ip:"@ + self.0@
    }

    /// The address's part of a bucket key.
    pub fn storage_key(&self) -> (r: String)
        ensures
            r@ == self.key_part(),
    {
        "ip:".to_owned().concat(&self.0)
    }
}

/// Composite rate-limit / bandwidth key: `(origin, client_ip)`.
///
/// This is the subject against which both request-count and byte-bandwidth limits are
/// enforced.
#[derive(Debug, Clone)]
pub struct RateLimitKey {
    /// Requesting site host (or `None` if not determinable).
    pub origin: Origin,
    /// Client IP string.
    pub client_ip: ClientIp,
}

impl RateLimitKey {
    /// The key as a text.
    pub open spec fn key_text(self) -> Seq<char> {
        self.origin.key_part() + "|"@ + self.client_ip.key_part()
    }

    /// A stable string key shared by both the request-count and bandwidth limiters so they
    /// bucket the same subject.
    pub fn bucket(&self) -> (r: String)
        ensures
            r@ == self.key_text(),
    {
        let mut key = self.origin.storage_key();
        key.append("|");
        key.append(&self.client_ip.storage_key());
        key
    }
}

/// Whether a text has no bar in it, as no host and no address has.
pub open spec fn has_no_bar(s: Seq<char>) -> bool {
    !s.contains('|')
}

/// Different clients, and different sites, have different buckets. (Hosts and addresses
/// have no bar in them; a site called `unknown` shares its bucket with requests of which
/// the site is not known.)
pub proof fn law_buckets_tell_subjects_apart(a: RateLimitKey, b: RateLimitKey)
    requires
        a.origin.0 is Some ==> has_no_bar(a.origin.0->0@),
        b.origin.0 is Some ==> has_no_bar(b.origin.0->0@),
        a.key_text() == b.key_text(),
    ensures
        a.client_ip.0@ == b.client_ip.0@,
        a.origin.key_part() == b.origin.key_part(),
        a.origin.0 is Some && b.origin.0 is Some ==> a.origin.0->0@ == b.origin.0->0@,
{
    reveal_strlit("origin:");
    reveal_strlit("origin:unknown");
    reveal_strlit("ip:");
    reveal_strlit("|");
    let (p, q) = (a.origin.key_part(), b.origin.key_part());
    let (x, y) = (a.client_ip.key_part(), b.client_ip.key_part());
    lemma_no_bar(a.origin);
    lemma_no_bar(b.origin);
    let whole = a.key_text();
    assert(whole[p.len() as int] == '|');
    assert(whole[q.len() as int] == '|');
    if p.len() < q.len() {
        assert(q[p.len() as int] == whole[p.len() as int]);
    }
    if q.len() < p.len() {
        assert(p[q.len() as int] == whole[q.len() as int]);
    }
    assert(whole.take(p.len() as int) =~= p);
    assert(whole.take(q.len() as int) =~= q);
    assert(whole.skip(p.len() as int + 1) =~= x);
    assert(whole.skip(q.len() as int + 1) =~= y);
    assert(x.skip(3) =~= a.client_ip.0@);
    assert(y.skip(3) =~= b.client_ip.0@);
    if a.origin.0 is Some && b.origin.0 is Some {
        assert(p.skip(7) =~= a.origin.0->0@);
        assert(q.skip(7) =~= b.origin.0->0@);
    }
}

/// An origin's part of a bucket key has no bar in it.
proof fn lemma_no_bar(origin: Origin)
    requires
        origin.0 is Some ==> has_no_bar(origin.0->0@),
    ensures
        forall|i: int| 0 <= i < origin.key_part().len() ==> #[trigger] origin.key_part()[i] != '|',
{
    reveal_strlit("origin:");
    reveal_strlit("origin:unknown");
    if origin.0 is Some {
        let host = origin.0->0@;
        assert forall|i: int| 0 <= i < origin.key_part().len() implies
            #[trigger] origin.key_part()[i] != '|' by {
            if i >= 7 {
                assert(origin.key_part()[i] == host[i - 7]);
                assert(host.contains(host[i - 7]));
            }
        }
    }
}

/// The requesting site is the host of `Origin`, where that is a URL with a host, and else
/// that of `Referer`; only the first value of each counts.
pub proof fn law_origins(m: HeaderValues)
    ensures
        ({
            let host = |name: Seq<char>|
                if m.contains_key(name) && headers::value_text(m[name][0]) is Some {
                    match urls::url_parsed(headers::value_text(m[name][0])->0) {
                        Ok(url) => match url.host {
                            Some(host) => Some(text::unicode_lowered(host)),
                            None => None,
                        },
                        Err(_) => None,
                    }
                } else {
                    None
                };
            &&& host("origin"@) is Some ==> origin_of(m) == host("origin"@)
            &&& host("origin"@) is None ==> origin_of(m) == host("referer"@)
        }),
{
}

/// The address that a client claims is what stands before the first comma of the first value
/// of the header, without the white space around it; the header's name counts in any case.
pub proof fn law_claimed_addresses(
    m: HeaderValues,
    header: Seq<char>,
    name: Seq<char>,
    address: Seq<char>,
    rest: Seq<char>,
)
    requires
        headers::parsed_name(header) == Some(name),
        m.contains_key(name),
        !address.contains(','),
    ensures
        headers::value_text(m[name][0]) == Some(address) || headers::value_text(m[name][0])
            == Some(address + seq![','] + rest) ==> claimed_ip(m, header) == Some(
            text::trimmed(address),
        ),
        headers::value_text(m[name][0]) is None ==> claimed_ip(m, header) is None,
        claimed_ip(m, header) == claimed_ip(m, text::lowered(header)),
{
    text::law_split(address, rest, ',');
    text::law_split(rest, rest, ',');
    assert(text::lowered(text::lowered(header)) =~= text::lowered(header));
    headers::law_names_are_read(header);
    let parts = text::split(address, ',') + text::split(rest, ',');
    assert(parts[0] == text::split(address, ',')[0]);
}

/// Without the header, or where its name is none, nothing is claimed.
pub proof fn law_nothing_claimed(m: HeaderValues, header: Seq<char>)
    ensures
        headers::parsed_name(header) is None ==> claimed_ip(m, header) is None,
        headers::parsed_name(header) is Some && !m.contains_key(headers::parsed_name(header)->0)
            ==> claimed_ip(m, header) is None,
{
}

/// A claimed address counts before the peer's; without either the client is unknown.
pub proof fn law_client_addresses(claimed: Option<String>, peer: Option<String>, r: ClientIp)
    requires
        call_ensures(ClientIp::from_parts, (claimed, peer), r),
    ensures
        claimed is Some ==> r.0@ == claimed->0@,
        claimed is None && peer is Some ==> r.0@ == peer->0@,
        claimed is None && peer is None ==> r.0@ == "unknown"@,
{
}

/// An origin counts before a referrer.
pub proof fn law_sites(origin: Option<String>, referer: Option<String>, r: Origin)
    requires
        call_ensures(Origin::from_hosts, (origin, referer), r),
    ensures
        origin is Some ==> r.0 == origin,
        origin is None ==> r.0 == referer,
{
}

/// A bucket is named by the site and the client, each behind a word that says which it is.
pub proof fn law_bucket_names(key: RateLimitKey, r: String)
    requires
        call_ensures(RateLimitKey::bucket, (&key,), r),
    ensures
        key.origin.0 is Some ==> r@ == "origin:"@ + key.origin.0->0@ + "|"@ + ("ip:"@
            + key.client_ip.0@),
        key.origin.0 is None ==> r@ == "origin:unknown"@ + "|"@ + ("ip:"@ + key.client_ip.0@),
        r@ == key.key_text(),
{
}

/// The requesting site, the claimed address and the parts of a bucket's name are read as
/// stated.
pub proof fn law_reading_requests(
    request: HeaderMap,
    origin: Origin,
    header: &str,
    claimed: Option<String>,
    url: TargetUrl,
    host: Option<String>,
    client: ClientIp,
    client_key: String,
    origin_key: String,
)
    requires
        call_ensures(Origin::from_headers, (&request,), origin),
        call_ensures(ClientIp::claimed, (&request, header), claimed),
        call_ensures(Origin::host_in, (&url,), host),
        call_ensures(ClientIp::storage_key, (&client,), client_key),
        call_ensures(Origin::storage_key, (&origin,), origin_key),
    ensures
        text::text_option(origin.0) == origin_of(header_values(request)),
        text::text_option(claimed) == claimed_ip(header_values(request), header@),
        host is Some <==> url.host is Some,
        host is Some ==> host->0@ == text::unicode_lowered(url.host->0@),
        client_key@ == "ip:"@ + client.0@,
        origin.0 is Some ==> origin_key@ == "origin:"@ + origin.0->0@,
        origin.0 is None ==> origin_key@ == "origin:unknown"@,
{
}

} // verus!
