//! CORS handling.
//!
//! Adds permissive CORS headers to every response so that browsers can consume
//! proxied resources across origins, and says which headers belong to one hop
//! only and must not be passed on.

use http::header::HeaderMap;
use vstd::prelude::*;

use crate::error::AppError;
use crate::extractors;
use crate::extractors::Origin;
use crate::headers;
use crate::headers::{
    header_extend, header_get, header_get_all, header_insert, header_map, header_values,
    read_value, HeaderValues,
};
use crate::matcher::{MatchPolicy, PolicyView};
use crate::proxy;
use crate::proxy::{parse_target_url, validate_target_policy, Fault, RequestTarget};
use crate::text;
use crate::text::{list_items, lower, same, starts_with};
use crate::urls::UrlView;

verus! {

/// The names of headers that concern one hop only (RFC 7230, section 6.1) or
/// that proxies put in.
pub open spec fn is_hop_name(name: Seq<char>) -> bool {
    ||| name == "connection"@
    ||| name == "keep-alive"@
    ||| name == "proxy-authenticate"@
    ||| name == "proxy-authorization"@
    ||| name == "te"@
    ||| name == "trailers"@
    ||| name == "transfer-encoding"@
    ||| name == "upgrade"@
    ||| name == "x-forwarded-for"@
    ||| name == "x-forwarded-host"@
    ||| name == "x-forwarded-proto"@
    ||| name == "x-forwarded-port"@
    ||| name == "x-real-ip"@
    ||| name == "forwarded"@
}

/// Whether a header of this name stays on one hop: one of the known names or
/// one that begins with `x-forwarded-`, in any case.
pub open spec fn hop_by_hop(name: Seq<char>) -> bool {
    let small = text::lowered(name);
    text::begins(small, "x-forwarded-"@) || is_hop_name(small)
}

/// Returns `true` if `name` is a hop-by-hop or proxy-injected header.
pub fn is_hop_by_hop(name: &str) -> (r: bool)
    ensures
        r == hop_by_hop(name@),
{
    let name = lower(name);
    starts_with(&name, "x-forwarded-") || same(&name, "connection") || same(&name, "keep-alive")
        || same(&name, "proxy-authenticate") || same(&name, "proxy-authorization") || same(
        &name,
        "te",
    ) || same(&name, "trailers") || same(&name, "transfer-encoding") || same(&name, "upgrade")
        || same(&name, "x-forwarded-for") || same(&name, "x-forwarded-host") || same(
        &name,
        "x-forwarded-proto",
    ) || same(&name, "x-forwarded-port") || same(&name, "x-real-ip") || same(&name, "forwarded")
}

/// The names listed in the values of a `Connection` header.
pub open spec fn names_listed(values: Seq<Seq<u8>>) -> Seq<Seq<char>>
    decreases values.len(),
{
    if values.len() == 0 {
        Seq::empty()
    } else {
        names_listed(values.drop_last()) + (match headers::value_text(values.last()) {
            Some(t) => text::listed(t),
            None => Seq::empty(),
        })
    }
}

/// The header names that a message nominates as hop-by-hop, as written.
pub open spec fn nominated(m: HeaderValues) -> Seq<Seq<char>> {
    names_listed(headers::values_of(m, "connection"@))
}

/// Return header names nominated by the `Connection` header.
pub fn connection_headers(headers: &HeaderMap) -> (names: Vec<String>)
    ensures
        text::texts(names@) == nominated(header_values(*headers)),
{
    proof {
        headers::lemma_known_names();
    }
    let values = header_get_all(headers, "connection");
    let mut names: Vec<String> = Vec::new();
    let mut i: usize = 0;
    let ghost views = headers::value_views(values@);
    proof {
        assert(views.take(0) =~= Seq::empty());
        assert(text::texts(names@) =~= Seq::empty());
    }
    while i < values.len()
        invariant
            i <= values@.len(),
            views == headers::value_views(values@),
            text::texts(names@) == names_listed(views.take(i as int)),
        decreases values@.len() - i,
    {
        proof {
            assert(views.take(i + 1).drop_last() =~= views.take(i as int));
            assert(views.take(i + 1).last() == values@[i as int]@);
        }
        if let Some(t) = read_value(&values[i]) {
            let ghost before = names@;
            let mut items = list_items(&t);
            let ghost added = items@;
            names.append(&mut items);
            proof {
                assert(text::texts(before + added) =~= text::texts(before) + text::texts(added));
            }
        } else {
            proof {
                assert(names_listed(views.take(i as int)) + Seq::empty() =~= names_listed(
                    views.take(i as int),
                ));
            }
        }
        i += 1;
    }
    proof {
        assert(views.take(values@.len() as int) =~= views);
    }
    names
}

/// The value of `Access-Control-Allow-Origin`: the request's `Origin` where it
/// has a readable one, else `*`.
pub open spec fn allowed_origin(request: HeaderValues) -> Seq<u8> {
    if headers::first_text(request, "origin"@) is Some {
        request["origin"@][0]
    } else {
        vstd::utf8::encode_utf8("*"@)
    }
}

/// The value of `Access-Control-Allow-Headers`: what the request asks for, where
/// it asks for something, else `Authorization`.
pub open spec fn allowed_headers(request: HeaderValues) -> Seq<u8> {
    let asked = headers::values_of(request, "access-control-request-headers"@);
    if asked.len() > 0 && asked[0].len() > 0 {
        asked[0]
    } else {
        vstd::utf8::encode_utf8("Authorization"@)
    }
}

/// The CORS headers that answer a request.
pub open spec fn cors_values(request: HeaderValues) -> HeaderValues {
    HeaderValues::empty()
        .insert("access-control-allow-origin"@, seq![allowed_origin(request)])
        .insert(
        "access-control-allow-credentials"@,
        seq![vstd::utf8::encode_utf8("true"@)],
    )
        .insert("access-control-allow-headers"@, seq![allowed_headers(request)])
        .insert(
        "access-control-allow-methods"@,
        seq![vstd::utf8::encode_utf8("GET, OPTIONS"@)],
    )
        .insert("access-control-max-age"@, seq![vstd::utf8::encode_utf8("86400"@)])
}

/// Build the CORS header map for a given request.
///
/// - `Access-Control-Allow-Origin` echoes the request's `Origin` if present,
///   else `*`.
/// - `Access-Control-Allow-Credentials` is `true`.
/// - `Access-Control-Allow-Headers` echoes the request's
///   `Access-Control-Request-Headers`, so that any client header is allowed; an
///   explicit list is needed because `*` does not cover credentialed requests.
/// - `Access-Control-Allow-Methods` is `GET, OPTIONS`.
/// - `Access-Control-Max-Age` is `86400`.
pub fn cors_headers(headers: &HeaderMap) -> (cors: HeaderMap)
    ensures
        header_values(cors) == cors_values(header_values(*headers)),
{
    proof {
        headers::lemma_known_names();
        lemma_values();
    }
    let mut cors = header_map();
    match header_get(headers, "origin") {
        Some(value) => match read_value(&value) {
            Some(_) => header_insert(&mut cors, "access-control-allow-origin", &value),
            None => header_insert(&mut cors, "access-control-allow-origin", "*".as_bytes()),
        },
        None => header_insert(&mut cors, "access-control-allow-origin", "*".as_bytes()),
    }
    header_insert(&mut cors, "access-control-allow-credentials", "true".as_bytes());
    match header_get(headers, "access-control-request-headers") {
        Some(value) => if value.len() > 0 {
            header_insert(&mut cors, "access-control-allow-headers", &value)
        } else {
            header_insert(&mut cors, "access-control-allow-headers", "Authorization".as_bytes())
        },
        None => header_insert(
            &mut cors,
            "access-control-allow-headers",
            "Authorization".as_bytes(),
        ),
    }
    header_insert(&mut cors, "access-control-allow-methods", "GET, OPTIONS".as_bytes());
    header_insert(&mut cors, "access-control-max-age", "86400".as_bytes());
    cors
}

/// Puts the CORS headers that answer `request` on a response, in place of what
/// the response had under the same names.
pub fn cors_layer(request: &HeaderMap, response: &mut HeaderMap)
    requires
        headers::has_room(header_values(*old(response)), 5),
    ensures
        header_values(*final(response)) == header_values(*old(response)).union_prefer_right(
            cors_values(header_values(*request)),
        ),
{
    let cors = cors_headers(request);
    header_extend(response, cors);
}

/// What is wrong with a preflight request, if something is: its target is held against the
/// same policy as that of the request that is to follow.
pub open spec fn preflight_fault(
    policy: PolicyView,
    target: Result<UrlView, Seq<char>>,
    origin: Option<Seq<char>>,
) -> Option<Fault> {
    match target {
        Ok(url) => proxy::policy_fault(policy, url, origin),
        Err(complaint) => Some(Fault { code: 400, detail: complaint }),
    }
}

/// Answer a preflight request: the headers of a `204 No Content`, or an error where the
/// target or the requesting origin is not allowed.
pub fn preflight_handler(policy: &MatchPolicy, uri: &RequestTarget, headers: &HeaderMap) -> (r:
    Result<HeaderMap, AppError>)
    ensures
        match preflight_fault(
            policy@,
            proxy::target_of(*uri),
            extractors::origin_of(header_values(*headers)),
        ) {
            Some(fault) => r is Err && proxy::fault_of(r->Err_0) == fault,
            None => r is Ok && header_values(r->Ok_0) == cors_values(header_values(*headers)),
        },
{
    let url = match parse_target_url(uri) {
        Ok(url) => url,
        Err(error) => {
            return Err(error);
        },
    };
    match validate_target_policy(policy, &url, &Origin::from_headers(headers)) {
        Ok(_) => Ok(cors_headers(headers)),
        Err(error) => Err(error),
    }
}

/// Every response carries the CORS headers, each with one value that depends on the
/// consumer's request alone, whatever the target sent under these names; its other
/// headers are left as they are.
pub proof fn law_cors_headers_prevail(
    request: HeaderValues,
    response: HeaderValues,
    other: HeaderValues,
    name: Seq<char>,
)
    ensures
        cors_values(request).contains_key(name) ==> response.union_prefer_right(
            cors_values(request),
        )[name] == other.union_prefer_right(cors_values(request))[name] && cors_values(
            request,
        )[name].len() == 1,
        !cors_values(request).contains_key(name) && response.contains_key(name)
            ==> response.union_prefer_right(cors_values(request)).contains_key(name)
            && response.union_prefer_right(cors_values(request))[name] == response[name],
        response.union_prefer_right(cors_values(request)).dom() == response.dom().union(
            cors_values(request).dom(),
        ),
{
}

/// The consumer's origin is echoed, whatever the target said.
pub proof fn law_origin_is_echoed(request: HeaderValues, response: HeaderValues)
    requires
        headers::first_text(request, "origin"@) is Some,
    ensures
        response.union_prefer_right(cors_values(request))["access-control-allow-origin"@] == seq![
            request["origin"@][0],
        ],
{
    lemma_names_differ();
}

/// The names of the CORS headers are different from each other.
proof fn lemma_names_differ()
    ensures
        "access-control-allow-origin"@ != "access-control-allow-credentials"@,
        "access-control-allow-origin"@ != "access-control-allow-headers"@,
        "access-control-allow-origin"@ != "access-control-allow-methods"@,
        "access-control-allow-origin"@ != "access-control-max-age"@,
{
    reveal_strlit("access-control-allow-origin");
    reveal_strlit("access-control-allow-credentials");
    reveal_strlit("access-control-allow-headers");
    reveal_strlit("access-control-allow-methods");
    reveal_strlit("access-control-max-age");
    let (origin, other) = ("access-control-allow-origin"@, "access-control-allow-headers"@);
    assert(origin[21] == 'o' && other[21] == 'h');
    let other = "access-control-allow-methods"@;
    assert(origin[21] == 'o' && other[21] == 'm');
    assert(origin.len() != "access-control-allow-credentials"@.len());
    assert(origin.len() != "access-control-max-age"@.len());
}

/// The values used here can stand in a header.
proof fn lemma_values()
    ensures
        headers::is_header_value(vstd::utf8::encode_utf8("*"@)),
        headers::is_header_value(vstd::utf8::encode_utf8("true"@)),
        headers::is_header_value(vstd::utf8::encode_utf8("Authorization"@)),
        headers::is_header_value(vstd::utf8::encode_utf8("GET, OPTIONS"@)),
        headers::is_header_value(vstd::utf8::encode_utf8("86400"@)),
{
    reveal_strlit("*");
    reveal_strlit("true");
    reveal_strlit("Authorization");
    reveal_strlit("GET, OPTIONS");
    reveal_strlit("86400");
    headers::lemma_visible_text("*"@);
    headers::lemma_visible_text("true"@);
    headers::lemma_visible_text("Authorization"@);
    headers::lemma_visible_text("GET, OPTIONS"@);
    headers::lemma_visible_text("86400"@);
}

/// The names that stay on a hop, in any case: ten that are listed here, and those that begin
/// with `x-forwarded-`.
pub proof fn law_hop_names(name: Seq<char>)
    ensures
        hop_by_hop(name) <==> text::begins(text::lowered(name), "x-forwarded-"@) || seq![
            "connection"@,
            "keep-alive"@,
            "proxy-authenticate"@,
            "proxy-authorization"@,
            "te"@,
            "trailers"@,
            "transfer-encoding"@,
            "upgrade"@,
            "x-real-ip"@,
            "forwarded"@,
        ].contains(text::lowered(name)),
        hop_by_hop(name) == hop_by_hop(text::lowered(name)),
{
    let small = text::lowered(name);
    let listed = seq![
        "connection"@,
        "keep-alive"@,
        "proxy-authenticate"@,
        "proxy-authorization"@,
        "te"@,
        "trailers"@,
        "transfer-encoding"@,
        "upgrade"@,
        "x-real-ip"@,
        "forwarded"@,
    ];
    assert(text::lowered(small) =~= small);
    reveal_strlit("x-forwarded-");
    reveal_strlit("x-forwarded-for");
    reveal_strlit("x-forwarded-host");
    reveal_strlit("x-forwarded-proto");
    reveal_strlit("x-forwarded-port");
    assert("x-forwarded-for"@.take(12) =~= "x-forwarded-"@);
    assert("x-forwarded-host"@.take(12) =~= "x-forwarded-"@);
    assert("x-forwarded-proto"@.take(12) =~= "x-forwarded-"@);
    assert("x-forwarded-port"@.take(12) =~= "x-forwarded-"@);
    if is_hop_name(small) && !text::begins(small, "x-forwarded-"@) {
        assert(listed[0] == small || listed[1] == small || listed[2] == small || listed[3] == small
            || listed[4] == small || listed[5] == small || listed[6] == small || listed[7] == small
            || listed[8] == small || listed[9] == small);
    }
    if listed.contains(small) {
        let i = choose|i: int| 0 <= i < listed.len() && listed[i] == small;
        assert(is_hop_name(listed[i]));
    }
}

/// Headers that describe the message from end to end do not stay on a hop.
pub proof fn law_end_to_end_names(name: Seq<char>)
    requires
        seq![
            "accept"@,
            "accept-encoding"@,
            "accept-language"@,
            "age"@,
            "authorization"@,
            "cache-control"@,
            "content-disposition"@,
            "content-encoding"@,
            "content-language"@,
            "content-length"@,
            "content-range"@,
            "content-type"@,
            "cookie"@,
            "date"@,
            "etag"@,
            "expires"@,
            "if-modified-since"@,
            "if-none-match"@,
            "last-modified"@,
            "link"@,
            "location"@,
            "origin"@,
            "range"@,
            "referer"@,
            "server"@,
            "set-cookie"@,
            "user-agent"@,
            "vary"@,
            "x-cache"@,
        ].contains(name),
    ensures
        !hop_by_hop(name),
{
    reveal_strlit("accept");
    reveal_strlit("accept-encoding");
    reveal_strlit("accept-language");
    reveal_strlit("age");
    reveal_strlit("authorization");
    reveal_strlit("cache-control");
    reveal_strlit("content-disposition");
    reveal_strlit("content-encoding");
    reveal_strlit("content-language");
    reveal_strlit("content-length");
    reveal_strlit("content-range");
    reveal_strlit("content-type");
    reveal_strlit("cookie");
    reveal_strlit("date");
    reveal_strlit("etag");
    reveal_strlit("expires");
    reveal_strlit("if-modified-since");
    reveal_strlit("if-none-match");
    reveal_strlit("last-modified");
    reveal_strlit("link");
    reveal_strlit("location");
    reveal_strlit("origin");
    reveal_strlit("range");
    reveal_strlit("referer");
    reveal_strlit("server");
    reveal_strlit("set-cookie");
    reveal_strlit("user-agent");
    reveal_strlit("vary");
    reveal_strlit("x-cache");
    reveal_strlit("x-forwarded-");
    reveal_strlit("connection");
    reveal_strlit("keep-alive");
    reveal_strlit("proxy-authenticate");
    reveal_strlit("proxy-authorization");
    reveal_strlit("te");
    reveal_strlit("trailers");
    reveal_strlit("transfer-encoding");
    reveal_strlit("upgrade");
    reveal_strlit("x-forwarded-for");
    reveal_strlit("x-forwarded-host");
    reveal_strlit("x-forwarded-proto");
    reveal_strlit("x-forwarded-port");
    reveal_strlit("x-real-ip");
    reveal_strlit("forwarded");
    assert forall|i: int| 0 <= i < name.len() implies text::lower_char(#[trigger] name[i])
        == name[i] by {}
    assert(text::lowered(name) =~= name);
    if text::begins(name, "x-forwarded-"@) {
        assert(name.take(12)[0] == 'x');
    }
    assert(name.len() > 2 && name[0] != 'k');
}

/// A header is nominated by the items of the readable `Connection` values, of all of them.
pub proof fn law_nominated(m: HeaderValues, name: Seq<char>)
    ensures
        nominated(m).contains(name) <==> exists|i: int|
            0 <= i < headers::values_of(m, "connection"@).len() && headers::value_text(
                #[trigger] headers::values_of(m, "connection"@)[i],
            ) is Some && text::listed(
                headers::value_text(headers::values_of(m, "connection"@)[i])->0,
            ).contains(name),
{
    lemma_names_listed(headers::values_of(m, "connection"@), name);
}

proof fn lemma_names_listed(values: Seq<Seq<u8>>, name: Seq<char>)
    ensures
        names_listed(values).contains(name) <==> exists|i: int|
            0 <= i < values.len() && headers::value_text(#[trigger] values[i]) is Some
                && text::listed(headers::value_text(values[i])->0).contains(name),
    decreases values.len(),
{
    if values.len() > 0 {
        let before = values.drop_last();
        lemma_names_listed(before, name);
        let added = match headers::value_text(values.last()) {
            Some(t) => text::listed(t),
            None => Seq::empty(),
        };
        let all = names_listed(before) + added;
        if all.contains(name) {
            let k = choose|k: int| 0 <= k < all.len() && all[k] == name;
            if k < names_listed(before).len() {
                assert(names_listed(before)[k] == name);
                let i = choose|i: int|
                    0 <= i < before.len() && headers::value_text(#[trigger] before[i]) is Some
                        && text::listed(headers::value_text(before[i])->0).contains(name);
                assert(values[i] == before[i]);
            } else {
                assert(added[k - names_listed(before).len()] == name);
                assert(values[values.len() - 1] == values.last());
            }
        }
        if exists|i: int|
            0 <= i < values.len() && headers::value_text(#[trigger] values[i]) is Some
                && text::listed(headers::value_text(values[i])->0).contains(name) {
            let i = choose|i: int|
                0 <= i < values.len() && headers::value_text(#[trigger] values[i]) is Some
                    && text::listed(headers::value_text(values[i])->0).contains(name);
            if i < before.len() {
                assert(before[i] == values[i]);
                let k = choose|k: int|
                    0 <= k < names_listed(before).len() && names_listed(before)[k] == name;
                assert(all[k] == name);
            } else {
                let k = choose|k: int| 0 <= k < added.len() && added[k] == name;
                assert(all[names_listed(before).len() + k] == name);
            }
        }
    }
}

/// The CORS headers are these five and no others, with these values: credentials and the
/// two methods are always allowed, for a day; the origin and the headers are what the
/// request says, where it says something.
pub proof fn law_cors_values(request: HeaderValues, name: Seq<char>)
    ensures
        ({
            let cors = cors_values(request);
            let asked = headers::values_of(request, "access-control-request-headers"@);
            &&& cors.contains_key(name) <==> seq![
                "access-control-allow-origin"@,
                "access-control-allow-credentials"@,
                "access-control-allow-headers"@,
                "access-control-allow-methods"@,
                "access-control-max-age"@,
            ].contains(name)
            &&& cors["access-control-allow-credentials"@] == seq![
                vstd::utf8::encode_utf8("true"@),
            ]
            &&& cors["access-control-allow-methods"@] == seq![
                vstd::utf8::encode_utf8("GET, OPTIONS"@),
            ]
            &&& cors["access-control-max-age"@] == seq![vstd::utf8::encode_utf8("86400"@)]
            &&& asked.len() > 0 && asked[0].len() > 0 ==> cors["access-control-allow-headers"@]
                == seq![asked[0]]
            &&& asked.len() == 0 || asked[0].len() == 0 ==> cors["access-control-allow-headers"@]
                == seq![vstd::utf8::encode_utf8("Authorization"@)]
            &&& request.contains_key("origin"@) && headers::value_text(request["origin"@][0])
                is Some ==> cors["access-control-allow-origin"@] == seq![request["origin"@][0]]
            &&& !request.contains_key("origin"@) || headers::value_text(request["origin"@][0])
                is None ==> cors["access-control-allow-origin"@] == seq![
                vstd::utf8::encode_utf8("*"@),
            ]
        }),
{
    lemma_names_differ();
    reveal_strlit("access-control-allow-origin");
    reveal_strlit("access-control-allow-credentials");
    reveal_strlit("access-control-allow-headers");
    reveal_strlit("access-control-allow-methods");
    reveal_strlit("access-control-max-age");
    let names = seq![
        "access-control-allow-origin"@,
        "access-control-allow-credentials"@,
        "access-control-allow-headers"@,
        "access-control-allow-methods"@,
        "access-control-max-age"@,
    ];
    assert("access-control-allow-headers"@[21] == 'h');
    assert("access-control-allow-methods"@[21] == 'm');
    assert(names[0] == "access-control-allow-origin"@);
    assert(names[1] == "access-control-allow-credentials"@);
    assert(names[2] == "access-control-allow-headers"@);
    assert(names[3] == "access-control-allow-methods"@);
    assert(names[4] == "access-control-max-age"@);
    assert("access-control-allow-headers"@ != "access-control-allow-methods"@);
    assert("access-control-allow-headers"@.len() == 28);
    assert("access-control-allow-methods"@.len() == 28);
    assert("access-control-allow-credentials"@.len() == 32);
    assert("access-control-max-age"@.len() == 22);
    let cors = cors_values(request);
    if names.contains(name) {
        let i = choose|i: int| 0 <= i < names.len() && names[i] == name;
        assert(cors.contains_key(names[i]));
    }
    if cors.contains_key(name) {
        assert(name == names[0] || name == names[1] || name == names[2] || name == names[3] || name
            == names[4]);
    }
}

/// A preflight whose target cannot be read is a bad request; any other is judged by the
/// policy, and answered with the CORS headers where the policy has nothing against it.
pub proof fn law_preflight(
    policy: MatchPolicy,
    uri: RequestTarget,
    request: HeaderMap,
    r: Result<HeaderMap, AppError>,
)
    requires
        call_ensures(preflight_handler, (&policy, &uri, &request), r),
    ensures
        ({
            let origin = extractors::origin_of(header_values(request));
            match proxy::target_of(uri) {
                Ok(url) => {
                    &&& r is Ok <==> proxy::policy_fault(policy@, url, origin) is None
                    &&& r is Err ==> Some(proxy::fault_of(r->Err_0)) == proxy::policy_fault(
                        policy@,
                        url,
                        origin,
                    )
                },
                Err(complaint) => r is Err && proxy::fault_of(r->Err_0) == (Fault {
                    code: 400,
                    detail: complaint,
                }),
            }
        }),
        r is Ok ==> header_values(r->Ok_0) == cors_values(header_values(request)),
{
}

/// The CORS headers take the place of what a response has under their names, and leave the
/// rest of it.
pub proof fn law_cors_layer(request: HeaderMap, response: &mut HeaderMap, name: Seq<char>)
    requires
        call_ensures(cors_layer, (&request, response), ()),
    ensures
        headers::values_of(header_values(*final(response)), name) == if cors_values(
            header_values(request),
        ).contains_key(name) {
            cors_values(header_values(request))[name]
        } else {
            headers::values_of(header_values(*old(response)), name)
        },
{
}

/// What stays on a hop and what a message nominates is what the two functions say.
pub proof fn law_hop_answers(name: &str, r: bool, message: HeaderMap, names: Vec<String>)
    requires
        call_ensures(is_hop_by_hop, (name,), r),
        call_ensures(connection_headers, (&message,), names),
    ensures
        r == hop_by_hop(name@),
        text::texts(names@) == nominated(header_values(message)),
{
}

/// The headers that answer a request are the CORS headers, and no others.
pub proof fn law_cors_answers(request: HeaderMap, r: HeaderMap)
    requires
        call_ensures(cors_headers, (&request,), r),
    ensures
        header_values(r) == cors_values(header_values(request)),
{
}

} // verus!
