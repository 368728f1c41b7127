//! What `Cache-Control` and `Expires` say of a response or a request.

use http::header::HeaderMap;
use vstd::prelude::*;

use crate::clock;
use crate::clock::read_clock;
use crate::headers;
use crate::headers::{
    header_get_all, header_has, header_text, header_values, read_value, HeaderValues,
};
use crate::text;
use crate::text::{
    chars_of, cut_at, list_items, parse_u64, same_ignoring_case, text_between, trim,
};

verus! {

/// Whether a comma-separated list has an item, written in any case.
pub open spec fn has_directive(list: Seq<char>, name: Seq<char>) -> bool {
    exists|i: int|
        0 <= i < text::listed(list).len() && text::lowered(#[trigger] text::listed(list)[i])
            == name
}

fn lists_directive(list: &str, name: &str) -> (r: bool)
    requires
        text::lowered(name@) == name@,
    ensures
        r == has_directive(list@, name@),
{
    let items = list_items(list);
    let mut i: usize = 0;
    while i < items.len()
        invariant
            i <= items@.len(),
            text::texts(items@) == text::listed(list@),
            text::lowered(name@) == name@,
            forall|k: int| 0 <= k < i ==> text::lowered(#[trigger] text::listed(list@)[k]) != name@,
        decreases items@.len() - i,
    {
        proof {
            assert(text::listed(list@)[i as int] == items@[i as int]@);
        }
        if same_ignoring_case(&items[i], name) {
            return true;
        }
        i += 1;
    }
    false
}

/// The directives used here are in small letters.
proof fn lemma_directives()
    ensures
        text::lowered("no-store"@) == "no-store"@,
        text::lowered("private"@) == "private"@,
        text::lowered("no-cache"@) == "no-cache"@,
        text::lowered("max-age"@) == "max-age"@,
{
    reveal_strlit("no-store");
    reveal_strlit("private");
    reveal_strlit("no-cache");
    reveal_strlit("max-age");
    assert(text::lowered("no-store"@) =~= "no-store"@);
    assert(text::lowered("private"@) =~= "private"@);
    assert(text::lowered("no-cache"@) =~= "no-cache"@);
    assert(text::lowered("max-age"@) =~= "max-age"@);
}

/// Whether one of some `Cache-Control` lists has a directive, written in any case. A value
/// that cannot be read has none.
pub open spec fn says(values: Seq<Seq<u8>>, name: Seq<char>) -> bool {
    exists|i: int|
        0 <= i < values.len() && match headers::value_text(#[trigger] values[i]) {
            Some(list) => has_directive(list, name),
            None => false,
        }
}

/// The values of the `Cache-Control` header.
pub open spec fn control_values(m: HeaderValues) -> Seq<Seq<u8>> {
    headers::values_of(m, "cache-control"@)
}

fn control_says(headers: &HeaderMap, name: &str) -> (r: bool)
    requires
        text::lowered(name@) == name@,
    ensures
        r == says(control_values(header_values(*headers)), name@),
{
    proof {
        headers::lemma_known_names();
    }
    let values = header_get_all(headers, "cache-control");
    let ghost views = headers::value_views(values@);
    let mut i: usize = 0;
    while i < values.len()
        invariant
            i <= values@.len(),
            views == headers::value_views(values@),
            views == control_values(header_values(*headers)),
            text::lowered(name@) == name@,
            forall|k: int|
                0 <= k < i ==> !(match headers::value_text(#[trigger] views[k]) {
                    Some(list) => has_directive(list, name@),
                    None => false,
                }),
        decreases values@.len() - i,
    {
        proof {
            assert(views[i as int] == values@[i as int]@);
        }
        if let Some(list) = read_value(&values[i]) {
            if lists_directive(&list, name) {
                return true;
            }
        }
        i += 1;
    }
    false
}

/// Whether a response may be stored: it sets no cookie, and no line of its `Cache-Control`
/// says `no-store` or `private`.
pub open spec fn is_cacheable(response: HeaderValues) -> bool {
    &&& !response.contains_key("set-cookie"@)
    &&& !says(control_values(response), "no-store"@)
    &&& !says(control_values(response), "private"@)
}

/// Whether a response may be stored.
pub fn cacheable_headers(headers: &HeaderMap) -> (r: bool)
    ensures
        r == is_cacheable(header_values(*headers)),
{
    proof {
        headers::lemma_known_names();
        lemma_directives();
    }
    !control_says(headers, "no-store") && !control_says(headers, "private") && !header_has(
        headers,
        "set-cookie",
    )
}

/// Whether a line of the `Cache-Control` of a response says `no-cache`.
pub open spec fn needs_revalidation(response: HeaderValues) -> bool {
    says(control_values(response), "no-cache"@)
}

/// Whether a response has to be revalidated each time it is served from the cache.
pub fn cache_control_requires_revalidation(headers: &HeaderMap) -> (r: bool)
    ensures
        r == needs_revalidation(header_values(*headers)),
{
    proof {
        lemma_directives();
    }
    control_says(headers, "no-cache")
}

/// The name of a directive, without what follows its equals sign.
pub open spec fn directive_name(directive: Seq<char>) -> Seq<char> {
    match text::cut(directive, '=') {
        Some((name, _)) => text::trimmed(name),
        None => directive,
    }
}

/// Whether one of some `Cache-Control` lists asks for `no-cache`, with or without a
/// parameter.
pub open spec fn asks_revalidation(values: Seq<Seq<u8>>) -> bool {
    exists|i: int|
        0 <= i < values.len() && match headers::value_text(#[trigger] values[i]) {
            Some(list) => names_directive(list, "no-cache"@),
            None => false,
        }
}

/// Whether a comma-separated list has a directive of this name, with or without a
/// parameter, written in any case.
pub open spec fn names_directive(list: Seq<char>, name: Seq<char>) -> bool {
    exists|i: int|
        0 <= i < text::listed(list).len() && text::lowered(
            directive_name(#[trigger] text::listed(list)[i]),
        ) == name
}

fn lists_directive_name(list: &str, name: &str) -> (r: bool)
    requires
        text::lowered(name@) == name@,
    ensures
        r == names_directive(list@, name@),
{
    let items = list_items(list);
    let mut i: usize = 0;
    while i < items.len()
        invariant
            i <= items@.len(),
            text::texts(items@) == text::listed(list@),
            text::lowered(name@) == name@,
            forall|k: int|
                0 <= k < i ==> text::lowered(directive_name(#[trigger] text::listed(list@)[k]))
                    != name@,
        decreases items@.len() - i,
    {
        proof {
            assert(text::listed(list@)[i as int] == items@[i as int]@);
        }
        let found = match cut_at(&items[i], '=') {
            Some((before, _)) => same_ignoring_case(&trim(&before), name),
            None => same_ignoring_case(&items[i], name),
        };
        if found {
            return true;
        }
        i += 1;
    }
    false
}

/// Return whether a consumer requested cache revalidation.
pub fn request_requires_revalidation(headers: &HeaderMap) -> (r: bool)
    ensures
        r == asks_revalidation(control_values(header_values(*headers))),
{
    proof {
        headers::lemma_known_names();
        lemma_directives();
    }
    let values = header_get_all(headers, "cache-control");
    let ghost views = headers::value_views(values@);
    let mut i: usize = 0;
    while i < values.len()
        invariant
            i <= values@.len(),
            views == headers::value_views(values@),
            views == control_values(header_values(*headers)),
            text::lowered("no-cache"@) == "no-cache"@,
            forall|k: int|
                0 <= k < i ==> !(match headers::value_text(#[trigger] views[k]) {
                    Some(list) => names_directive(list, "no-cache"@),
                    None => false,
                }),
        decreases values@.len() - i,
    {
        proof {
            assert(views[i as int] == values@[i as int]@);
        }
        if let Some(list) = read_value(&values[i]) {
            if lists_directive_name(&list, "no-cache") {
                return true;
            }
        }
        i += 1;
    }
    false
}

/// A text without the quotes at both of its ends.
pub open spec fn unquoted(s: Seq<char>) -> Seq<char>
    decreases s.len(),
{
    if s.len() == 0 {
        s
    } else if s.first() == '"' {
        unquoted(s.drop_first())
    } else if s.last() == '"' {
        unquoted(s.drop_last())
    } else {
        s
    }
}

fn strip_quotes(s: &str) -> (r: String)
    ensures
        r@ == unquoted(s@),
{
    let chars = chars_of(s);
    let mut from: usize = 0;
    let mut to: usize = chars.len();
    proof {
        assert(chars@.subrange(0, chars@.len() as int) =~= s@);
    }
    while from < to && chars[from] == '"'
        invariant
            from <= to <= chars@.len(),
            unquoted(chars@.subrange(from as int, to as int)) == unquoted(s@),
        decreases to - from,
    {
        proof {
            assert(chars@.subrange(from as int, to as int).drop_first() =~= chars@.subrange(
                from + 1,
                to as int,
            ));
        }
        from += 1;
    }
    while from < to && chars[to - 1] == '"'
        invariant
            from <= to <= chars@.len(),
            from < to ==> chars@[from as int] != '"',
            unquoted(chars@.subrange(from as int, to as int)) == unquoted(s@),
        decreases to - from,
    {
        proof {
            assert(chars@.subrange(from as int, to as int).drop_last() =~= chars@.subrange(
                from as int,
                to - 1,
            ));
        }
        to -= 1;
    }
    text_between(&chars, from, to)
}

/// The age that a directive sets, if it is a readable `max-age`.
pub open spec fn max_age_of(directive: Seq<char>) -> Option<u64> {
    match text::cut(directive, '=') {
        Some((name, value)) => if text::lowered(text::trimmed(name)) == "max-age"@ {
            text::parsed_u64(unquoted(text::trimmed(value)))
        } else {
            None
        },
        None => None,
    }
}

/// The age that the first readable `max-age` among some directives sets.
pub open spec fn first_max_age(directives: Seq<Seq<char>>) -> Option<u64>
    decreases directives.len(),
{
    if directives.len() == 0 {
        None
    } else {
        match first_max_age(directives.drop_last()) {
            Some(age) => Some(age),
            None => max_age_of(directives.last()),
        }
    }
}

/// A readable `max-age` decides, whatever follows it.
proof fn lemma_first_max_age(directives: Seq<Seq<char>>, i: int)
    requires
        0 <= i <= directives.len(),
        first_max_age(directives.take(i)) is Some,
    ensures
        first_max_age(directives) == first_max_age(directives.take(i)),
    decreases directives.len(),
{
    if i == directives.len() {
        assert(directives.take(i) =~= directives);
    } else {
        assert(directives.drop_last().take(i) =~= directives.take(i));
        lemma_first_max_age(directives.drop_last(), i);
    }
}

fn read_max_age(directive: &str) -> (r: Option<u64>)
    ensures
        r == max_age_of(directive@),
{
    proof {
        lemma_directives();
    }
    match cut_at(directive, '=') {
        Some((name, value)) => if same_ignoring_case(&trim(&name), "max-age") {
            parse_u64(&strip_quotes(&trim(&value)))
        } else {
            None
        },
        None => None,
    }
}

fn find_max_age(list: &str) -> (r: Option<u64>)
    ensures
        r == first_max_age(text::listed(list@)),
{
    let items = list_items(list);
    let ghost views = text::listed(list@);
    let mut i: usize = 0;
    proof {
        assert(views.take(0) =~= Seq::empty());
    }
    while i < items.len()
        invariant
            i <= items@.len(),
            text::texts(items@) == views,
            views == text::listed(list@),
            first_max_age(views.take(i as int)) is None,
        decreases items@.len() - i,
    {
        proof {
            assert(views.take(i + 1).drop_last() =~= views.take(i as int));
            assert(views.take(i + 1).last() == items@[i as int]@);
        }
        if let Some(age) = read_max_age(&items[i]) {
            proof {
                lemma_first_max_age(views, i + 1);
            }
            return Some(age);
        }
        i += 1;
    }
    proof {
        assert(views.take(items@.len() as int) =~= views);
    }
    None
}

/// The age that the first readable `max-age` in some `Cache-Control` lists sets.
pub open spec fn control_max_age(values: Seq<Seq<u8>>) -> Option<u64>
    decreases values.len(),
{
    if values.len() == 0 {
        None
    } else {
        match control_max_age(values.drop_last()) {
            Some(age) => Some(age),
            None => match headers::value_text(values.last()) {
                Some(list) => first_max_age(text::listed(list)),
                None => None,
            },
        }
    }
}

/// A list with a readable `max-age` decides, whatever follows it.
proof fn lemma_control_max_age(values: Seq<Seq<u8>>, i: int)
    requires
        0 <= i <= values.len(),
        control_max_age(values.take(i)) is Some,
    ensures
        control_max_age(values) == control_max_age(values.take(i)),
    decreases values.len(),
{
    if i == values.len() {
        assert(values.take(i) =~= values);
    } else {
        assert(values.drop_last().take(i) =~= values.take(i));
        lemma_control_max_age(values.drop_last(), i);
    }
}

fn find_control_max_age(headers: &HeaderMap) -> (r: Option<u64>)
    ensures
        r == control_max_age(control_values(header_values(*headers))),
{
    proof {
        headers::lemma_known_names();
    }
    let values = header_get_all(headers, "cache-control");
    let ghost views = headers::value_views(values@);
    let mut i: usize = 0;
    proof {
        assert(views.take(0) =~= Seq::empty());
    }
    while i < values.len()
        invariant
            i <= values@.len(),
            views == headers::value_views(values@),
            views == control_values(header_values(*headers)),
            control_max_age(views.take(i as int)) is None,
        decreases values@.len() - i,
    {
        proof {
            assert(views.take(i + 1).drop_last() =~= views.take(i as int));
            assert(views.take(i + 1).last() == values@[i as int]@);
        }
        if let Some(list) = read_value(&values[i]) {
            if let Some(age) = find_max_age(&list) {
                proof {
                    lemma_control_max_age(views, i + 1);
                }
                return Some(age);
            }
        }
        i += 1;
    }
    proof {
        assert(views.take(values@.len() as int) =~= views);
    }
    None
}

/// The time that a text writes in one of the formats of HTTP, in seconds since the Unix
/// epoch.
pub uninterp spec fn http_date(s: Seq<char>) -> Option<u64>;

/// `httpdate::parse_http_date`: whether a text is a date, and which, depends on the text
/// alone. It accepts the years from 1970 on and whole seconds only.
#[verifier::external_body]
fn read_http_date(s: &str) -> (r: Option<u64>)
    ensures
        r == http_date(s@),
{
    httpdate::parse_http_date(s)
        .ok()
        .and_then(|date| date.duration_since(std::time::UNIX_EPOCH).ok())
        .map(|since| since.as_secs())
}

/// Whole seconds from a reading of the clock up to a time, 0 where that is past.
pub open spec fn seconds_until(time: u64, now: i128) -> nat {
    if time * clock::NANOS < now {
        0
    } else {
        ((time * clock::NANOS - now) / (clock::NANOS as int)) as nat
    }
}

/// An age bounded by what `Expires` leaves at a reading of the clock.
pub open spec fn bounded_by_expires(configured: u64, response: HeaderValues, now: i128) -> u64 {
    match headers::first_text(response, "expires"@) {
        Some(s) => match http_date(s) {
            Some(time) => expires_bound(configured, time, now),
            None => configured,
        },
        None => configured,
    }
}

/// An age bounded by a time of expiry, at a reading of the clock.
pub open spec fn expires_bound(configured: u64, time: u64, now: i128) -> u64 {
    if seconds_until(time, now) < configured {
        seconds_until(time, now) as u64
    } else {
        configured
    }
}

/// An age bounded by a time of expiry, at a reading of the clock.
pub fn ttl_until(configured: u64, time: u64, now: i128) -> (r: u64)
    requires
        clock::is_reading(now),
    ensures
        r == expires_bound(configured, time, now),
{
    let at: i128 = time as i128 * 1_000_000_000;
    if at < now {
        0
    } else {
        let left: i128 = (at - now) / 1_000_000_000;
        if left < configured as i128 {
            left as u64
        } else {
            configured
        }
    }
}

/// An age bounded by the `Expires` header, at a reading of the clock.
pub fn expires_ttl_at(configured: u64, headers: &HeaderMap, now: i128) -> (r: u64)
    requires
        clock::is_reading(now),
    ensures
        r == bounded_by_expires(configured, header_values(*headers), now),
{
    proof {
        headers::lemma_known_names();
    }
    match header_text(headers, "expires") {
        Some(s) => match read_http_date(&s) {
            Some(time) => ttl_until(configured, time, now),
            None => configured,
        },
        None => configured,
    }
}

/// An age bounded by what the `Cache-Control` of a response says.
pub open spec fn bounded_by_max_age(configured: u64, response: HeaderValues) -> u64 {
    match control_max_age(control_values(response)) {
        Some(age) => if age < configured {
            age
        } else {
            configured
        },
        None => configured,
    }
}

/// The age up to which a response may be served: the configured one, bounded by its
/// `Cache-Control` and by its `Expires`.
pub open spec fn ttl_of(configured: u64, response: HeaderValues, now: i128) -> u64 {
    bounded_by_expires(bounded_by_max_age(configured, response), response, now)
}

/// The age up to which a response may be served, at a reading of the clock.
pub fn effective_ttl_at(configured: u64, headers: &HeaderMap, now: i128) -> (r: u64)
    requires
        clock::is_reading(now),
    ensures
        r == ttl_of(configured, header_values(*headers), now),
        r <= configured,
{
    let mut ttl: u64 = configured;
    if let Some(age) = find_control_max_age(headers) {
        if age < ttl {
            ttl = age;
        }
    }
    expires_ttl_at(ttl, headers, now)
}

/// The age up to which a response may be served.
pub fn effective_ttl(configured: u64, headers: &HeaderMap) -> (r: u64)
    ensures
        exists|now: i128|
            clock::is_reading(now) && r == #[trigger] ttl_of(
                configured,
                header_values(*headers),
                now,
            ),
        r <= configured,
{
    effective_ttl_at(configured, headers, read_clock())
}

/// A response that is marked `no-store` or `private` may not be stored, and one that is
/// marked `no-cache` has to be revalidated each time, whichever line of its
/// `Cache-Control` says so.
pub proof fn law_every_line_counts(response: HeaderValues, i: int)
    requires
        0 <= i < control_values(response).len(),
        headers::value_text(control_values(response)[i]) is Some,
    ensures
        ({
            let list = headers::value_text(control_values(response)[i])->0;
            &&& has_directive(list, "no-store"@) ==> !is_cacheable(response)
            &&& has_directive(list, "private"@) ==> !is_cacheable(response)
            &&& has_directive(list, "no-cache"@) ==> needs_revalidation(response)
        }),
{
}

/// A response is kept no longer than the first readable `max-age` says, on whichever line
/// of its `Cache-Control` that stands.
pub proof fn law_first_age_counts(configured: u64, response: HeaderValues, now: i128, i: int)
    requires
        0 <= i < control_values(response).len(),
        headers::value_text(control_values(response)[i]) is Some,
        first_max_age(text::listed(headers::value_text(control_values(response)[i])->0)) is Some,
        control_max_age(control_values(response).take(i)) is None,
    ensures
        ttl_of(configured, response, now) <= first_max_age(
            text::listed(headers::value_text(control_values(response)[i])->0),
        )->0,
{
    let values = control_values(response);
    assert(values.take(i + 1).drop_last() =~= values.take(i));
    assert(values.take(i + 1).last() == values[i]);
    lemma_control_max_age(values, i + 1);
}

/// A list has a directive exactly when one of its items is it, in any case and with white
/// space around it: of two lists with a comma between them, one has it, and a text without a
/// comma is it.
pub proof fn law_directives(a: Seq<char>, b: Seq<char>, name: Seq<char>)
    requires
        name.len() > 0,
    ensures
        has_directive(a + seq![','] + b, name) <==> has_directive(a, name) || has_directive(
            b,
            name,
        ),
        !a.contains(',') ==> (has_directive(a, name) <==> text::lowered(text::trimmed(a)) == name),
        names_directive(a + seq![','] + b, name) <==> names_directive(a, name) || names_directive(
            b,
            name,
        ),
        !a.contains(',') && text::trimmed(a).len() > 0 ==> (names_directive(a, name)
            <==> text::lowered(directive_name(text::trimmed(a))) == name),
{
    text::law_listed(a, b);
    let (x, y) = (text::listed(a), text::listed(b));
    let all = text::listed(a + seq![','] + b);
    assert(all == x + y);
    if has_directive(a + seq![','] + b, name) {
        let i = choose|i: int| 0 <= i < all.len() && text::lowered(#[trigger] all[i]) == name;
        if i < x.len() {
            assert(text::lowered(x[i]) == name);
        } else {
            assert(text::lowered(y[i - x.len()]) == name);
        }
    }
    if has_directive(a, name) {
        let i = choose|i: int| 0 <= i < x.len() && text::lowered(#[trigger] x[i]) == name;
        assert(text::lowered(all[i]) == name);
    }
    if has_directive(b, name) {
        let i = choose|i: int| 0 <= i < y.len() && text::lowered(#[trigger] y[i]) == name;
        assert(text::lowered(all[x.len() + i]) == name);
    }
    if names_directive(a + seq![','] + b, name) {
        let i = choose|i: int|
            0 <= i < all.len() && text::lowered(directive_name(#[trigger] all[i])) == name;
        if i < x.len() {
            assert(text::lowered(directive_name(x[i])) == name);
        } else {
            assert(text::lowered(directive_name(y[i - x.len()])) == name);
        }
    }
    if names_directive(a, name) {
        let i = choose|i: int|
            0 <= i < x.len() && text::lowered(directive_name(#[trigger] x[i])) == name;
        assert(text::lowered(directive_name(all[i])) == name);
    }
    if names_directive(b, name) {
        let i = choose|i: int|
            0 <= i < y.len() && text::lowered(directive_name(#[trigger] y[i])) == name;
        assert(text::lowered(directive_name(all[x.len() + i])) == name);
    }
    if !a.contains(',') {
        if text::trimmed(a).len() > 0 {
            assert(x[0] == text::trimmed(a));
        } else {
            assert(text::lowered(text::trimmed(a)).len() == 0);
        }
    }
}

/// The name of a directive is what stands before its first equals sign, trimmed, or the whole
/// of it.
pub proof fn law_directive_names(name: Seq<char>, value: Seq<char>)
    requires
        !name.contains('='),
    ensures
        directive_name(name + seq!['='] + value) == text::trimmed(name),
        directive_name(name) == name,
{
    text::law_cut(name, value, '=');
}

/// A response may be stored exactly when it sets no cookie and no readable line of its
/// `Cache-Control` has `no-store` or `private`, and it has to be revalidated exactly when
/// one has `no-cache`.
pub proof fn law_cacheable(headers: HeaderMap, may_store: bool, must_ask: bool)
    requires
        call_ensures(cacheable_headers, (&headers,), may_store),
        call_ensures(cache_control_requires_revalidation, (&headers,), must_ask),
    ensures
        ({
            let lines = headers::values_of(header_values(headers), "cache-control"@);
            &&& may_store <==> !header_values(headers).contains_key("set-cookie"@) && (forall|
                i: int,
            |
                0 <= i < lines.len() && headers::value_text(#[trigger] lines[i]) is Some
                    ==> !has_directive(headers::value_text(lines[i])->0, "no-store"@)
                    && !has_directive(headers::value_text(lines[i])->0, "private"@))
            &&& must_ask <==> exists|i: int|
                0 <= i < lines.len() && headers::value_text(#[trigger] lines[i]) is Some
                    && has_directive(headers::value_text(lines[i])->0, "no-cache"@)
        }),
{
    let m = header_values(headers);
    let lines = headers::values_of(m, "cache-control"@);
    if says(lines, "no-store"@) {
        let i = choose|i: int|
            0 <= i < lines.len() && match headers::value_text(#[trigger] lines[i]) {
                Some(list) => has_directive(list, "no-store"@),
                None => false,
            };
        assert(headers::value_text(lines[i]) is Some);
    }
    if says(lines, "private"@) {
        let i = choose|i: int|
            0 <= i < lines.len() && match headers::value_text(#[trigger] lines[i]) {
                Some(list) => has_directive(list, "private"@),
                None => false,
            };
        assert(headers::value_text(lines[i]) is Some);
    }
    if says(lines, "no-cache"@) {
        let i = choose|i: int|
            0 <= i < lines.len() && match headers::value_text(#[trigger] lines[i]) {
                Some(list) => has_directive(list, "no-cache"@),
                None => false,
            };
        assert(headers::value_text(lines[i]) is Some);
    }
}

/// A client asks for revalidation exactly when a readable line of its `Cache-Control` names
/// `no-cache`, with a parameter or without.
pub proof fn law_revalidation_is_asked_for(headers: HeaderMap, r: bool)
    requires
        call_ensures(request_requires_revalidation, (&headers,), r),
    ensures
        ({
            let lines = headers::values_of(header_values(headers), "cache-control"@);
            r <==> exists|i: int|
                0 <= i < lines.len() && headers::value_text(#[trigger] lines[i]) is Some
                    && names_directive(headers::value_text(lines[i])->0, "no-cache"@)
        }),
{
    let lines = headers::values_of(header_values(headers), "cache-control"@);
    if asks_revalidation(lines) {
        let i = choose|i: int|
            0 <= i < lines.len() && match headers::value_text(#[trigger] lines[i]) {
                Some(list) => names_directive(list, "no-cache"@),
                None => false,
            };
        assert(headers::value_text(lines[i]) is Some);
    }
}

/// Quotes around a text are taken off, all of them, and nothing else is.
pub proof fn law_unquoted(before: nat, middle: Seq<char>, after: nat)
    requires
        middle.len() > 0 ==> middle.first() != '"' && middle.last() != '"',
    ensures
        unquoted(
            Seq::new(before, |i: int| '"') + middle + Seq::new(after, |i: int| '"'),
        ) == middle,
    decreases before + after,
{
    let (front, back) = (Seq::new(before, |i: int| '"'), Seq::new(after, |i: int| '"'));
    let whole = front + middle + back;
    if before > 0 {
        let fewer = (before - 1) as nat;
        assert(whole.first() == '"');
        assert(whole.drop_first() =~= Seq::new(fewer, |i: int| '"') + middle + back);
        law_unquoted(fewer, middle, after);
    } else if after > 0 {
        let fewer = (after - 1) as nat;
        if middle.len() == 0 {
            assert(whole.first() == '"');
            assert(whole.drop_first() =~= front + middle + Seq::new(fewer, |i: int| '"'));
        } else {
            assert(whole.first() == middle.first());
            assert(whole.last() == '"');
            assert(whole.drop_last() =~= front + middle + Seq::new(fewer, |i: int| '"'));
        }
        law_unquoted(before, middle, fewer);
    } else {
        assert(whole =~= middle);
        if middle.len() > 0 {
            assert(whole.first() == middle.first());
            assert(whole.last() == middle.last());
        }
    }
}

/// An age is set by `max-age`, in any case and with white space and quotes around its parts,
/// and by no other directive.
pub proof fn law_ages(name: Seq<char>, value: Seq<char>)
    requires
        !name.contains('='),
    ensures
        ({
            let digits = unquoted(text::trimmed(value));
            let directive = name + seq!['='] + value;
            &&& text::lowered(text::trimmed(name)) == seq!['m', 'a', 'x', '-', 'a', 'g', 'e']
                ==> max_age_of(directive) == text::parsed_u64(digits)
            &&& text::lowered(text::trimmed(name)) != seq!['m', 'a', 'x', '-', 'a', 'g', 'e']
                ==> max_age_of(directive) is None
            &&& max_age_of(name) is None
        }),
{
    reveal_strlit("max-age");
    assert("max-age"@ =~= seq!['m', 'a', 'x', '-', 'a', 'g', 'e']);
    text::law_cut(name, value, '=');
}

/// Of some directives, the first that sets a readable age decides.
pub proof fn law_first_age(directives: Seq<Seq<char>>, i: int)
    ensures
        0 <= i < directives.len() && max_age_of(directives[i]) is Some && (forall|k: int|
            0 <= k < i ==> max_age_of(#[trigger] directives[k]) is None) ==> first_max_age(
            directives,
        ) == max_age_of(directives[i]),
        (forall|k: int| 0 <= k < directives.len() ==> max_age_of(#[trigger] directives[k]) is None)
            ==> first_max_age(directives) is None,
    decreases directives.len(),
{
    if directives.len() > 0 {
        let before = directives.drop_last();
        law_first_age(before, i);
        assert(forall|k: int|
            0 <= k < before.len() ==> directives[k] == #[trigger] before[k]);
        assert(directives.last() == directives[directives.len() - 1]);
        if 0 <= i < directives.len() && (forall|k: int|
            0 <= k < i ==> max_age_of(#[trigger] directives[k]) is None) && i == before.len() {
            assert forall|k: int| 0 <= k < before.len() implies max_age_of(#[trigger] before[k])
                is None by {
                assert(max_age_of(directives[k]) is None);
            }
        }
    }
}

/// Of some lines, the first that sets a readable age decides, and with none the age is the
/// configured one.
pub proof fn law_first_line_with_an_age(lines: Seq<Seq<u8>>, i: int)
    ensures
        ({
            let age = |line: Seq<u8>|
                match headers::value_text(line) {
                    Some(list) => first_max_age(text::listed(list)),
                    None => None,
                };
            &&& 0 <= i < lines.len() && age(lines[i]) is Some && (forall|k: int|
                0 <= k < i ==> age(#[trigger] lines[k]) is None) ==> control_max_age(lines) == age(
                lines[i],
            )
            &&& (forall|k: int| 0 <= k < lines.len() ==> age(#[trigger] lines[k]) is None)
                ==> control_max_age(lines) is None
        }),
    decreases lines.len(),
{
    let age = |line: Seq<u8>|
        match headers::value_text(line) {
            Some(list) => first_max_age(text::listed(list)),
            None => None,
        };
    if lines.len() > 0 {
        let before = lines.drop_last();
        law_first_line_with_an_age(before, i);
        assert(forall|k: int| 0 <= k < before.len() ==> lines[k] == #[trigger] before[k]);
        assert(lines.last() == lines[lines.len() - 1]);
        if forall|k: int| 0 <= k < lines.len() - 1 ==> age(#[trigger] lines[k]) is None {
            assert forall|k: int| 0 <= k < before.len() implies age(#[trigger] before[k])
                is None by {
                assert(age(lines[k]) is None);
            }
        }
    }
}

/// A response is kept for the least of what is configured, what its `max-age` says and the
/// whole seconds until it expires, which are none once it has.
pub proof fn law_time_to_live(configured: u64, response: HeaderValues, now: i128)
    ensures
        ({
            let ttl = ttl_of(configured, response, now);
            let age = control_max_age(headers::values_of(response, "cache-control"@));
            let readable = response.contains_key("expires"@) && headers::value_text(
                response["expires"@][0],
            ) is Some && http_date(headers::value_text(response["expires"@][0])->0) is Some;
            let left = http_date(headers::value_text(response["expires"@][0])->0)->0
                * 1_000_000_000 - now;
            let bound: int = if age is Some && age->0 < configured {
                age->0 as int
            } else {
                configured as int
            };
            &&& !readable ==> ttl == bound
            &&& readable && left < 0 ==> ttl == 0
            &&& readable && left >= bound * 1_000_000_000 ==> ttl == bound
            &&& readable && 0 <= left < bound * 1_000_000_000 ==> ttl * 1_000_000_000 <= left < (ttl
                + 1) * 1_000_000_000
        }),
{
}

/// The seconds until a time are whole ones, and none after it.
pub proof fn law_expiry(configured: u64, time: u64, now: i128, r: u64)
    requires
        clock::is_reading(now),
        call_ensures(ttl_until, (configured, time, now), r),
    ensures
        ({
            let left = time * 1_000_000_000 - now;
            &&& left < 0 ==> r == 0
            &&& left >= configured * 1_000_000_000 ==> r == configured
            &&& 0 <= left < configured * 1_000_000_000 ==> r * 1_000_000_000 <= left < (r + 1)
                * 1_000_000_000
        }),
{
}

/// The time that a response is kept for, and its bound by `Expires` alone, are as stated.
pub proof fn law_keeping(
    configured: u64,
    response: HeaderMap,
    now: i128,
    ttl: u64,
    until: u64,
)
    requires
        call_ensures(effective_ttl_at, (configured, &response, now), ttl),
        call_ensures(expires_ttl_at, (configured, &response, now), until),
    ensures
        ttl == ttl_of(configured, header_values(response), now),
        until == bounded_by_expires(configured, header_values(response), now),
        ttl <= until <= configured,
{
}

/// At the time of the call, whatever that is, a response is kept no longer than configured,
/// and where it does not say when it expires, for just as long as it would be at any other.
pub proof fn law_keeping_now(configured: u64, response: HeaderMap, r: u64)
    requires
        call_ensures(effective_ttl, (configured, &response), r),
    ensures
        r <= configured,
        !header_values(response).contains_key("expires"@) ==> forall|at: i128|
            r == #[trigger] ttl_of(configured, header_values(response), at),
{
}

} // verus!
