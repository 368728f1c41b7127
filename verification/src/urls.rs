//! Target URLs, taken apart.
//!
//! Parsing is the [`url`] crate's; what it finds is carried as plain texts, and
//! everything else in the crate works on those.

use vstd::prelude::*;

use crate::text;
use crate::text::{lower, to_decimal};

verus! {

/// An absolute URL with the parts that the proxy looks at.
pub struct TargetUrl {
    /// The whole URL as it is written.
    pub href: String,
    /// The scheme, without the colon.
    pub scheme: String,
    /// The host, where the URL has one.
    pub host: Option<String>,
    /// The port, where it is not the default one of the scheme.
    pub port: Option<u16>,
    /// The path.
    pub path: String,
    /// The query, without the question mark.
    pub query: Option<String>,
}

/// The parts of a URL as sequences of characters.
pub struct UrlView {
    pub href: Seq<char>,
    pub scheme: Seq<char>,
    pub host: Option<Seq<char>>,
    pub port: Option<u16>,
    pub path: Seq<char>,
    pub query: Option<Seq<char>>,
}

impl View for TargetUrl {
    type V = UrlView;

    open spec fn view(&self) -> UrlView {
        UrlView {
            href: self.href@,
            scheme: self.scheme@,
            host: text::text_option(self.host),
            port: self.port,
            path: self.path@,
            query: text::text_option(self.query),
        }
    }
}

/// A URL, or the text of the complaint about what should have been one.
pub open spec fn url_result(r: Result<TargetUrl, String>) -> Result<UrlView, Seq<char>> {
    match r {
        Ok(url) => Ok(url@),
        Err(complaint) => Err(complaint@),
    }
}

/// What parsing a text as an absolute URL gives.
pub uninterp spec fn url_parsed(input: Seq<char>) -> Result<UrlView, Seq<char>>;

/// What resolving a reference against the URL written as `base` gives.
pub uninterp spec fn url_joined(base: Seq<char>, reference: Seq<char>) -> Result<UrlView, Seq<char>>;

/// `Url::parse`, whose outcome depends on its input alone. The URL is taken
/// apart by the accessors of `Url`; an error is given by its text.
#[verifier::external_body]
pub(crate) fn parse_url(input: &str) -> (r: Result<TargetUrl, String>)
    ensures
        url_result(r) == url_parsed(input@),
{
    url::Url::parse(input).map(|url| TargetUrl {
        href: url.as_str().to_string(),
        scheme: url.scheme().to_string(),
        host: url.host_str().map(|part| part.to_string()),
        port: url.port(),
        path: url.path().to_string(),
        query: url.query().map(|part| part.to_string()),
    }).map_err(|error| error.to_string())
}

/// `Url::join` of the reference to the URL that `base` writes, whose outcome
/// depends on the two texts alone. The result is taken apart as in
/// [`parse_url`].
#[verifier::external_body]
pub(crate) fn join_url(base: &str, reference: &str) -> (r: Result<TargetUrl, String>)
    ensures
        url_result(r) == url_joined(base@, reference@),
{
    url::Url::parse(base).and_then(|base| base.join(reference)).map(|url| TargetUrl {
        href: url.as_str().to_string(),
        scheme: url.scheme().to_string(),
        host: url.host_str().map(|part| part.to_string()),
        port: url.port(),
        path: url.path().to_string(),
        query: url.query().map(|part| part.to_string()),
    }).map_err(|error| error.to_string())
}

impl TargetUrl {
    /// Parse an absolute URL.
    pub fn parse(input: &str) -> (r: Result<TargetUrl, String>)
        ensures
            url_result(r) == url_parsed(input@),
    {
        parse_url(input)
    }
}

/// A port as it stands behind a host.
pub open spec fn port_suffix(port: Option<u16>) -> Seq<char> {
    match port {
        Some(number) => seq![':'] + text::decimal(number as nat),
        None => Seq::empty(),
    }
}

/// A URL without its scheme and fragment: host in small letters, port unless it
/// is the default one, path and query.
pub open spec fn normalized(url: UrlView) -> Seq<char> {
    let host = match url.host {
        Some(host) => text::lowered(host),
        None => Seq::empty(),
    };
    let path = if url.path.len() == 0 {
        seq!['/']
    } else {
        url.path
    };
    let query = match url.query {
        Some(query) => seq!['?'] + query,
        None => Seq::empty(),
    };
    host + port_suffix(url.port) + path + query
}

/// Appends a port to a host, with its colon.
pub(crate) fn push_port(value: &mut String, port: Option<u16>)
    ensures
        final(value)@ == old(value)@ + port_suffix(port),
{
    match port {
        Some(number) => {
            value.push(':');
            value.append(&to_decimal(number as u64));
            proof {
                assert(old(value)@.push(':') + text::decimal(number as nat) =~= old(value)@ + (
                seq![':'] + text::decimal(number as nat)));
            }
        },
        None => {
            proof {
                assert(old(value)@ + Seq::empty() =~= old(value)@);
            }
        },
    }
}

pub fn normalized_url(url: &TargetUrl) -> (r: String)
    ensures
        r@ == normalized(url@),
{
    let mut value = match &url.host {
        Some(host) => lower(host),
        None => String::new(),
    };
    push_port(&mut value, url.port);
    if url.path.as_str().is_empty() {
        value.push('/');
    } else {
        value.append(&url.path);
    }
    if let Some(query) = &url.query {
        value.push('?');
        value.append(query);
    }
    proof {
        assert(value@ =~= normalized(url@));
    }
    value
}

/// The identity of a URL tells targets apart: where two URLs are the same without scheme and
/// fragment, they have the same path, query and port, character for character, and hosts
/// that differ in ASCII case only.
pub proof fn law_identity_tells_targets_apart(a: UrlView, b: UrlView)
    requires
        normalized(a) == normalized(b),
        a.host is Some && b.host is Some,
        !a.host->0.contains('/') && !a.host->0.contains('?') && !a.host->0.contains(':'),
        !b.host->0.contains('/') && !b.host->0.contains('?') && !b.host->0.contains(':'),
        a.path.len() > 0 && a.path.first() == '/' && !a.path.contains('?'),
        b.path.len() > 0 && b.path.first() == '/' && !b.path.contains('?'),
    ensures
        a.path == b.path,
        a.query == b.query,
        a.port == b.port,
        a.host->0.len() == b.host->0.len(),
        forall|i: int|
            0 <= i < a.host->0.len() ==> {
                let (x, y) = (#[trigger] a.host->0[i] as int, b.host->0[i] as int);
                ||| x == y
                ||| 65 <= x <= 90 && y == x + 32
                ||| 65 <= y <= 90 && x == y + 32
            },
{
    let (front_a, back_a) = lemma_identity_parts(a);
    let (front_b, back_b) = lemma_identity_parts(b);
    text::law_cut(front_a, back_a.drop_first(), '/');
    text::law_cut(front_b, back_b.drop_first(), '/');
    assert(front_a + seq!['/'] + back_a.drop_first() =~= front_a + back_a);
    assert(front_b + seq!['/'] + back_b.drop_first() =~= front_b + back_b);
    assert(front_a == front_b);
    assert(back_a =~= seq!['/'] + back_a.drop_first());
    assert(back_b =~= seq!['/'] + back_b.drop_first());
    assert(back_a == back_b);
    lemma_query_parts(a.path, a.query);
    lemma_query_parts(b.path, b.query);
    let (host_a, host_b) = (text::lowered(a.host->0), text::lowered(b.host->0));
    lemma_host_parts(a.host->0, a.port);
    lemma_host_parts(b.host->0, b.port);
    assert(host_a == host_b);
    if a.port is Some {
        text::lemma_decimal(a.port->0 as nat);
        text::lemma_decimal(b.port->0 as nat);
    }
    assert forall|i: int| 0 <= i < a.host->0.len() implies {
        let (x, y) = (#[trigger] a.host->0[i] as int, b.host->0[i] as int);
        ||| x == y
        ||| 65 <= x <= 90 && y == x + 32
        ||| 65 <= y <= 90 && x == y + 32
    } by {
        assert(host_a[i] == host_b[i]);
        text::law_lowered(a.host->0, i);
        text::law_lowered(b.host->0, i);
    }
}

proof fn lemma_identity_parts(url: UrlView) -> (parts: (Seq<char>, Seq<char>))
    requires
        url.host is Some,
        !url.host->0.contains('/'),
        url.path.len() > 0,
    ensures
        normalized(url) == parts.0 + parts.1,
        parts.0 == text::lowered(url.host->0) + port_suffix(url.port),
        parts.1 == url.path + query_text(url.query),
        !parts.0.contains('/'),
        parts.1.first() == url.path.first(),
        parts.1.len() > 0,
{
    let front = text::lowered(url.host->0) + port_suffix(url.port);
    let back = url.path + query_text(url.query);
    assert(normalized(url) =~= front + back);
    assert forall|i: int| 0 <= i < front.len() implies #[trigger] front[i] != '/' by {
        let host = url.host->0;
        if i < host.len() {
            assert(host.contains(host[i]));
        } else if url.port is Some {
            text::lemma_decimal(url.port->0 as nat);
            if i > host.len() {
                assert(text::is_digit(text::decimal(url.port->0 as nat)[i - host.len() - 1]));
            }
        }
    }
    (front, back)
}

spec fn query_text(query: Option<Seq<char>>) -> Seq<char> {
    match query {
        Some(query) => seq!['?'] + query,
        None => Seq::empty(),
    }
}

proof fn lemma_query_parts(path: Seq<char>, query: Option<Seq<char>>)
    requires
        !path.contains('?'),
    ensures
        text::cut(path + query_text(query), '?') == match query {
            Some(query) => Some((path, query)),
            None => None,
        },
        query is None ==> path + query_text(query) == path,
{
    match query {
        Some(q) => {
            text::law_cut(path, q, '?');
            assert(path + (seq!['?'] + q) =~= path + seq!['?'] + q);
        },
        None => {
            text::law_cut(path, path, '?');
            assert(path + query_text(query) =~= path);
        },
    }
}

proof fn lemma_host_parts(host: Seq<char>, port: Option<u16>)
    requires
        !host.contains(':'),
    ensures
        text::cut(text::lowered(host) + port_suffix(port), ':') == match port {
            Some(number) => Some((text::lowered(host), text::decimal(number as nat))),
            None => None,
        },
        port is None ==> text::lowered(host) + port_suffix(port) == text::lowered(host),
{
    let small = text::lowered(host);
    assert forall|i: int| 0 <= i < small.len() implies #[trigger] small[i] != ':' by {
        assert(host.contains(host[i]));
    }
    match port {
        Some(number) => {
            let digits = text::decimal(number as nat);
            text::law_cut(small, digits, ':');
            assert(small + (seq![':'] + digits) =~= small + seq![':'] + digits);
        },
        None => {
            text::law_cut(small, small, ':');
            assert(small + port_suffix(port) =~= small);
        },
    }
}

/// The identity of a URL ends with its path and query as they are written, an empty path
/// being the root's; what stands before them is the host in small letters and the port.
/// Neither the scheme nor the case of the host makes a difference.
pub proof fn law_identity_keeps_path_and_query(url: UrlView, other: UrlView)
    ensures
        url.query is Some ==> text::ends(normalized(url), url.path + seq!['?'] + url.query->0),
        url.query is None ==> text::ends(normalized(url), url.path),
        url.path.len() == 0 ==> normalized(url) == normalized(UrlView { path: seq!['/'], ..url }),
        url.host is Some && url.port is None && url.query is None ==> normalized(url)
            == text::lowered(url.host->0) + (if url.path.len() == 0 {
            seq!['/']
        } else {
            url.path
        }),
        url.host is Some ==> normalized(url) == normalized(
            UrlView { host: Some(text::lowered(url.host->0)), ..url },
        ),
        normalized(url) == normalized(UrlView { scheme: other.scheme, href: other.href, ..url }),
{
    let n = normalized(url);
    if url.query is Some {
        let tail = url.path + seq!['?'] + url.query->0;
        assert(n.skip(n.len() - tail.len()) =~= tail);
    } else {
        assert(n.skip(n.len() - url.path.len()) =~= url.path);
    }
    if url.host is Some {
        let host = url.host->0;
        assert(text::lowered(text::lowered(host)) =~= text::lowered(host));
        if url.port is None && url.query is None {
            assert(n =~= text::lowered(host) + (if url.path.len() == 0 {
                seq!['/']
            } else {
                url.path
            }));
        }
    }
}

/// A port stands behind a colon in decimal digits; where there is none, nothing stands
/// there.
pub proof fn law_port_suffix(port: u16)
    ensures
        port_suffix(Some(port)).len() > 1,
        port_suffix(Some(port)).first() == ':',
        text::parsed_u64(port_suffix(Some(port)).drop_first()) == Some(port as u64),
        port_suffix(Some(port))[1] == '0' ==> port == 0,
        port_suffix(None).len() == 0,
{
    text::law_numbers_are_written(port as u64, 0);
    text::lemma_decimal(port as nat);
    assert(port_suffix(Some(port)).drop_first() =~= text::decimal(port as nat));
    assert(port_suffix(Some(port))[1] == text::decimal(port as nat).first());
}

/// What a URL is taken apart into is what the parser found, whoever asks.
pub proof fn law_parsing_is_the_parsers(input: &str, r: Result<TargetUrl, String>)
    requires
        call_ensures(TargetUrl::parse, (input,), r),
    ensures
        match url_parsed(input@) {
            Ok(url) => r is Ok && r->Ok_0@ == url,
            Err(complaint) => r is Err && r->Err_0@ == complaint,
        },
{
}

/// The identity of a URL is answered as stated.
pub proof fn law_identity_answers(url: TargetUrl, r: String)
    requires
        call_ensures(normalized_url, (&url,), r),
    ensures
        r@ == normalized(url@),
{
}

} // verus!
