//! Header maps as finite maps from header names to lists of values.
//!
//! [`http::HeaderMap`] is opaque here; [`header_values`] names what one holds
//! and the functions of this module say what its methods do to that.

use http::header::{HeaderMap, HeaderName, HeaderValue};
use vstd::prelude::*;

use crate::text;
use crate::text::{chars_of, has_char, lower};

verus! {

/// The outside type of header values.
#[verifier::external_type_specification]
#[verifier::external_body]
pub struct ExHeaderValue(http::header::HeaderValue);

/// The outside multimap from header names to values.
#[verifier::external_type_specification]
#[verifier::external_body]
#[verifier::reject_recursive_types(T)]
pub struct ExHeaderMap<T>(http::header::HeaderMap<T>);

/// Header names, in small letters, each with its values in the order in which
/// they were added.
pub type HeaderValues = Map<Seq<char>, Seq<Seq<u8>>>;

/// What a header map holds.
pub uninterp spec fn header_values(map: HeaderMap) -> Map<Seq<char>, Seq<Seq<u8>>>;

/// With fewer names than this a header map takes a further line whatever its
/// hash table looks like; from here on it may give up.
pub const HEADER_NAME_LIMIT: usize = 6554;

/// The characters of a header name in its stored form.
pub open spec fn is_name_char(c: char) -> bool {
    ||| 'a' <= c <= 'z'
    ||| '0' <= c <= '9'
    ||| c == '!' || c == '"' || c == '#' || c == '$' || c == '%' || c == '&' || c == '\''
    ||| c == '*' || c == '+' || c == '-' || c == '.'
    ||| c == '^' || c == '_' || c == '`' || c == '|' || c == '~'
}

/// A header name in its stored form.
pub open spec fn is_header_name(name: Seq<char>) -> bool {
    &&& 0 < name.len() <= 65535
    &&& forall|i: int| 0 <= i < name.len() ==> is_name_char(#[trigger] name[i])
}

/// The bytes that a header value may hold.
pub open spec fn is_value_byte(b: u8) -> bool {
    b == 9 || (b >= 32 && b != 127)
}

pub open spec fn is_header_value(value: Seq<u8>) -> bool {
    forall|i: int| 0 <= i < value.len() ==> is_value_byte(#[trigger] value[i])
}

/// A header map that surely takes `more` further names.
pub open spec fn has_room(m: HeaderValues, more: nat) -> bool {
    m.dom().finite() && m.dom().len() + more <= HEADER_NAME_LIMIT
}

/// Whether so many names have values.
pub open spec fn has_names(m: HeaderValues, count: nat) -> bool {
    m.dom().finite() && m.dom().len() == count
}

/// The values of a name, none where the name does not occur.
pub open spec fn values_of(m: HeaderValues, name: Seq<char>) -> Seq<Seq<u8>> {
    if m.contains_key(name) {
        m[name]
    } else {
        Seq::empty()
    }
}

/// A further value after those that a name has.
pub open spec fn appended(m: HeaderValues, name: Seq<char>, value: Seq<u8>) -> HeaderValues {
    m.insert(name, values_of(m, name).push(value))
}

/// What a list of header lines adds up to.
pub open spec fn collected(lines: Seq<(Seq<char>, Seq<u8>)>) -> HeaderValues
    decreases lines.len(),
{
    if lines.len() == 0 {
        HeaderValues::empty()
    } else {
        appended(collected(lines.drop_last()), lines.last().0, lines.last().1)
    }
}

/// One name with one of its values.
pub struct HeaderLine {
    pub name: String,
    pub value: Vec<u8>,
}

impl View for HeaderLine {
    type V = (Seq<char>, Seq<u8>);

    open spec fn view(&self) -> (Seq<char>, Seq<u8>) {
        (self.name@, self.value@)
    }
}

pub open spec fn line_views(lines: Seq<HeaderLine>) -> Seq<(Seq<char>, Seq<u8>)> {
    lines.map_values(|l: HeaderLine| l@)
}

pub open spec fn value_views(values: Seq<Vec<u8>>) -> Seq<Seq<u8>> {
    values.map_values(|v: Vec<u8>| v@)
}

/// `HeaderMap::new` makes a map that holds nothing.
#[verifier::external_body]
pub(crate) fn header_map() -> (fresh: HeaderMap)
    ensures
        header_values(fresh) == HeaderValues::empty(),
{
    HeaderMap::new()
}

/// `HeaderMap::append` puts a value behind those that the name has. It panics
/// only where the hash table would have to grow beyond 32768 slots, which takes
/// at least a fifth as many names.
#[verifier::external_body]
pub(crate) fn header_append(headers: &mut HeaderMap, name: &str, value: &[u8])
    requires
        is_header_name(name@),
        is_header_value(value@),
        header_values(*old(headers)).dom().len() < HEADER_NAME_LIMIT,
    ensures
        header_values(*final(headers)) == appended(header_values(*old(headers)), name@, value@),
{
    let name = HeaderName::from_lowercase(name.as_bytes()).unwrap();
    headers.append(name, HeaderValue::from_bytes(value).unwrap());
}

/// `HeaderMap::insert` makes the value the only one of the name. It panics on
/// the same maps as `append`.
#[verifier::external_body]
pub(crate) fn header_insert(headers: &mut HeaderMap, name: &str, value: &[u8])
    requires
        is_header_name(name@),
        is_header_value(value@),
        header_values(*old(headers)).dom().len() < HEADER_NAME_LIMIT,
    ensures
        header_values(*final(headers)) == header_values(*old(headers)).insert(name@, seq![value@]),
{
    let name = HeaderName::from_lowercase(name.as_bytes()).unwrap();
    headers.insert(name, HeaderValue::from_bytes(value).unwrap());
}

/// `HeaderMap::get` gives the first value of the name.
#[verifier::external_body]
pub(crate) fn header_get(headers: &HeaderMap, name: &str) -> (found: Option<Vec<u8>>)
    requires
        is_header_name(name@),
    ensures
        match found {
            Some(value) => {
                &&& header_values(*headers).contains_key(name@)
                &&& header_values(*headers)[name@].len() > 0
                &&& value@ == header_values(*headers)[name@][0]
                &&& is_header_value(value@)
            },
            None => !header_values(*headers).contains_key(name@),
        },
{
    let name = HeaderName::from_lowercase(name.as_bytes()).unwrap();
    headers.get(name).map(|value| value.as_bytes().to_vec())
}

/// `HeaderMap::get_all` gives the values of the name in the order in which they
/// were added.
#[verifier::external_body]
pub(crate) fn header_get_all(headers: &HeaderMap, name: &str) -> (found: Vec<Vec<u8>>)
    requires
        is_header_name(name@),
    ensures
        value_views(found@) == values_of(header_values(*headers), name@),
{
    let name = HeaderName::from_lowercase(name.as_bytes()).unwrap();
    headers.get_all(name).iter().map(|value| value.as_bytes().to_vec()).collect()
}

/// `HeaderMap::contains_key` tells whether the name has a value.
#[verifier::external_body]
pub(crate) fn header_has(headers: &HeaderMap, name: &str) -> (found: bool)
    requires
        is_header_name(name@),
    ensures
        found == header_values(*headers).contains_key(name@),
{
    headers.contains_key(HeaderName::from_lowercase(name.as_bytes()).unwrap())
}

/// `HeaderMap::remove` takes the name out with all its values.
#[verifier::external_body]
pub(crate) fn header_remove(headers: &mut HeaderMap, name: &str)
    requires
        is_header_name(name@),
    ensures
        header_values(*final(headers)) == header_values(*old(headers)).remove(name@),
{
    headers.remove(HeaderName::from_lowercase(name.as_bytes()).unwrap());
}

/// `HeaderMap::iter` gives every name once for each of its values, the values of
/// a name in the order in which they were added. In what order the names come is
/// left open.
#[verifier::external_body]
pub(crate) fn header_lines(headers: &HeaderMap) -> (lines: Vec<HeaderLine>)
    ensures
        collected(line_views(lines@)) == header_values(*headers),
        forall|i: int| 0 <= i < lines@.len() ==> is_header_name((#[trigger] lines@[i]).name@),
        forall|i: int| 0 <= i < lines@.len() ==> is_header_value((#[trigger] lines@[i]).value@),
{
    headers.iter().map(|(name, value)| HeaderLine {
        name: name.as_str().to_string(),
        value: value.as_bytes().to_vec(),
    }).collect()
}

/// `HeaderMap::extend` with another map gives every name of that map the values
/// that it has there and leaves the other names as they are. It panics on the
/// same maps as `append`.
#[verifier::external_body]
pub(crate) fn header_extend(headers: &mut HeaderMap, other: HeaderMap)
    requires
        header_values(*old(headers)).dom().len() + header_values(other).dom().len()
            <= HEADER_NAME_LIMIT,
    ensures
        header_values(*final(headers)) == header_values(*old(headers)).union_prefer_right(
            header_values(other),
        ),
{
    headers.extend(other);
}

/// `HeaderMap::keys_len` counts the names, of which there are finitely many.
#[verifier::external_body]
fn header_count(headers: &HeaderMap) -> (count: usize)
    ensures
        has_names(header_values(*headers), count as nat),
{
    headers.keys_len()
}

/// Whether a header map surely takes `more` further names.
pub fn room_for(headers: &HeaderMap, more: usize) -> (r: bool)
    ensures
        r == has_room(header_values(*headers), more as nat),
{
    let count: usize = header_count(headers);
    count <= HEADER_NAME_LIMIT && more <= HEADER_NAME_LIMIT - count
}

/// The bytes that may be read as text.
pub open spec fn is_visible_byte(b: u8) -> bool {
    b == 9 || 32 <= b < 127
}

/// The text of a header value, for one that holds visible ASCII only.
pub open spec fn value_text(value: Seq<u8>) -> Option<Seq<char>> {
    if forall|i: int| 0 <= i < value.len() ==> is_visible_byte(#[trigger] value[i]) {
        Some(value.map_values(|b: u8| b as char))
    } else {
        None
    }
}

/// The text of the first value of a name.
pub open spec fn first_text(m: HeaderValues, name: Seq<char>) -> Option<Seq<char>> {
    if m.contains_key(name) {
        value_text(m[name][0])
    } else {
        None
    }
}

/// The bytes that write a text as a header value, where it can be one.
pub open spec fn text_value(s: Seq<char>) -> Option<Seq<u8>> {
    if is_header_value(vstd::utf8::encode_utf8(s)) {
        Some(vstd::utf8::encode_utf8(s))
    } else {
        None
    }
}

/// The stored form of a header name that somebody wrote.
pub open spec fn parsed_name(s: Seq<char>) -> Option<Seq<char>> {
    if is_header_name(text::lowered(s)) && !s.contains('"') {
        Some(text::lowered(s))
    } else {
        None
    }
}

pub(crate) fn read_value(value: &Vec<u8>) -> (r: Option<String>)
    ensures
        text::text_option(r) == value_text(value@),
{
    let mut out = String::new();
    let mut i: usize = 0;
    while i < value.len()
        invariant
            i <= value@.len(),
            forall|k: int| 0 <= k < i ==> is_visible_byte(#[trigger] value@[k]),
            out@ == value@.take(i as int).map_values(|b: u8| b as char),
        decreases value@.len() - i,
    {
        let b: u8 = value[i];
        if !(b == 9 || (32 <= b && b < 127)) {
            return None;
        }
        out.push(b as char);
        proof {
            assert(value@.take(i + 1) =~= value@.take(i as int).push(b));
            assert(value@.take(i + 1).map_values(|b: u8| b as char) =~= value@.take(
                i as int,
            ).map_values(|b: u8| b as char).push(b as char));
        }
        i += 1;
    }
    proof {
        assert(value@.take(value@.len() as int) =~= value@);
    }
    Some(out)
}

/// The text of the first value of a name.
pub(crate) fn header_text(headers: &HeaderMap, name: &str) -> (r: Option<String>)
    requires
        is_header_name(name@),
    ensures
        text::text_option(r) == first_text(header_values(*headers), name@),
{
    match header_get(headers, name) {
        Some(value) => read_value(&value),
        None => None,
    }
}

pub(crate) fn write_value(s: &str) -> (r: Option<Vec<u8>>)
    ensures
        match r {
            Some(value) => text_value(s@) == Some(value@),
            None => text_value(s@) is None,
        },
{
    let bytes = s.as_bytes();
    let mut out: Vec<u8> = Vec::new();
    let mut i: usize = 0;
    while i < bytes.len()
        invariant
            i <= bytes@.len(),
            bytes@ == vstd::utf8::encode_utf8(s@),
            forall|k: int| 0 <= k < i ==> is_value_byte(#[trigger] bytes@[k]),
            out@ == bytes@.take(i as int),
        decreases bytes@.len() - i,
    {
        let b: u8 = bytes[i];
        if !(b == 9 || (b >= 32 && b != 127)) {
            return None;
        }
        out.push(b);
        i += 1;
    }
    proof {
        assert(bytes@.take(bytes@.len() as int) =~= bytes@);
    }
    Some(out)
}

pub(crate) fn name_char(c: char) -> (r: bool)
    ensures
        r == is_name_char(c),
{
    ('a' <= c && c <= 'z') || ('0' <= c && c <= '9') || c == '!' || c == '"' || c == '#' || c
        == '$' || c == '%' || c == '&' || c == '\'' || c == '*' || c == '+' || c == '-' || c == '.'
        || c == '^' || c == '_' || c == '`' || c == '|' || c == '~'
}

pub(crate) fn read_name(s: &str) -> (r: Option<String>)
    ensures
        text::text_option(r) == parsed_name(s@),
{
    if has_char(s, '"') {
        return None;
    }
    let name = lower(s);
    let chars = chars_of(&name);
    if chars.len() == 0 || chars.len() > 65535 {
        return None;
    }
    let mut i: usize = 0;
    while i < chars.len()
        invariant
            i <= chars@.len(),
            chars@ == text::lowered(s@),
            forall|k: int| 0 <= k < i ==> is_name_char(#[trigger] chars@[k]),
        decreases chars@.len() - i,
    {
        if !name_char(chars[i]) {
            return None;
        }
        i += 1;
    }
    Some(name)
}

/// A text of visible ASCII can be written as a header value.
pub(crate) proof fn lemma_visible_text(s: Seq<char>)
    requires
        forall|i: int| 0 <= i < s.len() ==> ' ' <= #[trigger] s[i] <= '~',
    ensures
        is_header_value(vstd::utf8::encode_utf8(s)),
        vstd::utf8::encode_utf8(s) == s.map_values(|c: char| c as u8),
        value_text(vstd::utf8::encode_utf8(s)) == Some(s),
{
    assert(vstd::utf8::is_ascii_chars(s));
    vstd::utf8::is_ascii_chars_encode_utf8(s);
    assert(vstd::utf8::encode_utf8(s) =~= s.map_values(|c: char| c as u8));
    assert(vstd::utf8::encode_utf8(s).map_values(|b: u8| b as char) =~= s);
}

/// A header name in its stored form has no capitals.
pub(crate) proof fn lemma_stored_name(name: Seq<char>)
    requires
        is_header_name(name),
    ensures
        text::lowered(name) == name,
{
    assert forall|i: int| 0 <= i < name.len() implies text::lower_char(#[trigger] name[i])
        == name[i] by {
        assert(is_name_char(name[i]));
    }
    assert(text::lowered(name) =~= name);
}

/// A list of header lines adds up to finitely many names.
pub(crate) proof fn lemma_collected_finite(lines: Seq<(Seq<char>, Seq<u8>)>)
    ensures
        collected(lines).dom().finite(),
    decreases lines.len(),
{
    if lines.len() > 0 {
        lemma_collected_finite(lines.drop_last());
    }
}

/// To leave out lines by their name is to leave out those names.
pub(crate) proof fn lemma_collected_filter(
    lines: Seq<(Seq<char>, Seq<u8>)>,
    keep: spec_fn(Seq<char>) -> bool,
)
    ensures
        collected(lines.filter(|l: (Seq<char>, Seq<u8>)| keep(l.0))) == collected(lines).restrict(
            Set::new(keep),
        ),
        collected(lines).dom().finite(),
    decreases lines.len(),
{
    let by_name = |l: (Seq<char>, Seq<u8>)| keep(l.0);
    reveal(Seq::filter);
    if lines.len() == 0 {
        assert(lines.filter(by_name) =~= lines);
        assert(collected(lines).restrict(Set::new(keep)) =~= HeaderValues::empty());
    } else {
        lemma_collected_filter(lines.drop_last(), keep);
        let before = lines.drop_last().filter(by_name);
        if keep(lines.last().0) {
            assert(lines.filter(by_name) =~= before.push(lines.last()));
            assert(before.push(lines.last()).drop_last() =~= before);
        }
        assert(collected(lines.filter(by_name)) =~= collected(lines).restrict(Set::new(keep)));
    }
    lemma_collected_finite(lines);
}

/// The readable text of a value writes that value.
pub(crate) proof fn lemma_readable_value(value: Seq<u8>)
    requires
        value_text(value) is Some,
    ensures
        is_header_value(value),
        vstd::utf8::encode_utf8(value_text(value)->0) == value,
        text_value(value_text(value)->0) == Some(value),
{
    let s = value_text(value)->0;
    assert forall|i: int| 0 <= i < s.len() implies '\0' <= #[trigger] s[i] <= '\u{7f}' by {
        assert(is_visible_byte(value[i]));
    }
    vstd::utf8::is_ascii_chars_encode_utf8(s);
    assert(vstd::utf8::encode_utf8(s) =~= value);
    assert forall|i: int| 0 <= i < value.len() implies is_value_byte(#[trigger] value[i]) by {
        assert(is_visible_byte(value[i]));
    }
}

/// Of some header values, those of the names and with the bytes that are wanted. A name
/// of which no value is left is gone.
pub open spec fn selected(
    m: HeaderValues,
    keep: spec_fn(Seq<char>) -> bool,
    good: spec_fn(Seq<u8>) -> bool,
) -> HeaderValues {
    Map::new(
        |name: Seq<char>| m.contains_key(name) && keep(name) && m[name].filter(good).len() > 0,
        |name: Seq<char>| m[name].filter(good),
    )
}

/// To leave out lines by their name and value is to leave out those values.
pub(crate) proof fn lemma_collected_selected(
    lines: Seq<(Seq<char>, Seq<u8>)>,
    keep: spec_fn(Seq<char>) -> bool,
    good: spec_fn(Seq<u8>) -> bool,
)
    ensures
        collected(lines.filter(|l: (Seq<char>, Seq<u8>)| keep(l.0) && good(l.1))) == selected(
            collected(lines),
            keep,
            good,
        ),
    decreases lines.len(),
{
    let wanted = |l: (Seq<char>, Seq<u8>)| keep(l.0) && good(l.1);
    reveal(Seq::filter);
    if lines.len() == 0 {
        assert(lines.filter(wanted) =~= lines);
        assert(selected(collected(lines), keep, good) =~= HeaderValues::empty());
    } else {
        lemma_collected_selected(lines.drop_last(), keep, good);
        let before = lines.drop_last().filter(wanted);
        let m = collected(lines.drop_last());
        let (name, value) = lines.last();
        let values = values_of(m, name);
        assert(values.push(value).drop_last() =~= values);
        assert(Seq::<Seq<u8>>::empty().filter(good) =~= Seq::empty());
        if wanted(lines.last()) {
            assert(lines.filter(wanted) =~= before.push(lines.last()));
            assert(before.push(lines.last()).drop_last() =~= before);
            assert(values_of(selected(m, keep, good), name) =~= values.filter(good));
        }
        assert(collected(lines.filter(wanted)) =~= selected(collected(lines), keep, good));
    }
}

/// The header names that this crate knows are header names.
pub(crate) proof fn lemma_known_names()
    ensures
        is_header_name("accept"@),
        is_header_name("accept-encoding"@),
        is_header_name("accept-language"@),
        is_header_name("access-control-allow-credentials"@),
        is_header_name("access-control-allow-headers"@),
        is_header_name("access-control-allow-methods"@),
        is_header_name("access-control-allow-origin"@),
        is_header_name("access-control-max-age"@),
        is_header_name("access-control-request-headers"@),
        is_header_name("authorization"@),
        is_header_name("cache-control"@),
        is_header_name("connection"@),
        is_header_name("content-length"@),
        is_header_name("cookie"@),
        is_header_name("etag"@),
        is_header_name("expires"@),
        is_header_name("host"@),
        is_header_name("if-modified-since"@),
        is_header_name("if-none-match"@),
        is_header_name("last-modified"@),
        is_header_name("location"@),
        is_header_name("origin"@),
        is_header_name("range"@),
        is_header_name("referer"@),
        is_header_name("set-cookie"@),
        is_header_name("vary"@),
        is_header_name("x-cache"@),
{
    reveal_strlit("accept");
    reveal_strlit("accept-encoding");
    reveal_strlit("accept-language");
    reveal_strlit("access-control-allow-credentials");
    reveal_strlit("access-control-allow-headers");
    reveal_strlit("access-control-allow-methods");
    reveal_strlit("access-control-allow-origin");
    reveal_strlit("access-control-max-age");
    reveal_strlit("access-control-request-headers");
    reveal_strlit("authorization");
    reveal_strlit("cache-control");
    reveal_strlit("connection");
    reveal_strlit("content-length");
    reveal_strlit("cookie");
    reveal_strlit("etag");
    reveal_strlit("expires");
    reveal_strlit("host");
    reveal_strlit("if-modified-since");
    reveal_strlit("if-none-match");
    reveal_strlit("last-modified");
    reveal_strlit("location");
    reveal_strlit("origin");
    reveal_strlit("range");
    reveal_strlit("referer");
    reveal_strlit("set-cookie");
    reveal_strlit("vary");
    reveal_strlit("x-cache");
}

/// A value can be read exactly when its bytes are tabs and visible ASCII, and its text has
/// the codes of its bytes.
pub proof fn law_readable_values(value: Seq<u8>, i: int)
    ensures
        value_text(value) is Some <==> forall|k: int|
            0 <= k < value.len() ==> (#[trigger] value[k]) == 9 || 32 <= value[k] <= 126,
        value_text(value) is Some ==> value_text(value)->0.len() == value.len(),
        value_text(value) is Some && 0 <= i < value.len() ==> value_text(value)->0[i] as int
            == value[i] as int,
{
    assert((forall|k: int| 0 <= k < value.len() ==> is_visible_byte(#[trigger] value[k])) <==> (
    forall|k: int| 0 <= k < value.len() ==> (#[trigger] value[k]) == 9 || 32 <= value[k] <= 126));
}

/// What a name's text is, is decided by the first of its values alone, and there is none
/// without a value that can be read.
pub proof fn law_first_value_counts(m: HeaderValues, name: Seq<char>)
    ensures
        !m.contains_key(name) ==> first_text(m, name) is None && values_of(m, name).len() == 0,
        m.contains_key(name) ==> first_text(m, name) == value_text(m[name][0]) && values_of(m, name)
            == m[name],
{
}

/// A header value holds tabs and every byte from 32 on but 127.
pub proof fn law_header_values(value: Seq<u8>)
    ensures
        is_header_value(value) <==> forall|k: int|
            0 <= k < value.len() ==> (#[trigger] value[k]) == 9 || (32 <= value[k] && value[k]
                != 127),
{
    assert((forall|k: int| 0 <= k < value.len() ==> is_value_byte(#[trigger] value[k])) <==> (
    forall|k: int|
        0 <= k < value.len() ==> (#[trigger] value[k]) == 9 || (32 <= value[k] && value[k]
            != 127)));
}

/// A header name is read in any case: where it holds token characters only (RFC 7230,
/// section 3.2.6) it stands for itself in small letters, and otherwise it is none.
pub proof fn law_names_are_read(s: Seq<char>)
    ensures
        parsed_name(s) is Some ==> parsed_name(s)->0 == text::lowered(s),
        parsed_name(s) == parsed_name(text::lowered(s)),
        parsed_name(s) is Some <==> 0 < s.len() <= 65535 && (forall|k: int|
            0 <= k < s.len() ==> {
                let c = #[trigger] s[k] as int;
                ||| c == 33
                ||| 35 <= c <= 39
                ||| c == 42 || c == 43 || c == 45 || c == 46
                ||| 48 <= c <= 57
                ||| 65 <= c <= 90
                ||| 94 <= c <= 122
                ||| c == 124 || c == 126
            }),
{
    let small = text::lowered(s);
    assert(text::lowered(small) =~= small);
    assert(s.contains('"') == small.contains('"')) by {
        if s.contains('"') {
            let k = choose|k: int| 0 <= k < s.len() && s[k] == '"';
            assert(small[k] == '"');
        }
        if small.contains('"') {
            let k = choose|k: int| 0 <= k < small.len() && small[k] == '"';
            text::law_lowered(s, k);
            assert(s[k] == '"');
        }
    }
    if parsed_name(s) is Some {
        assert forall|k: int| 0 <= k < s.len() implies {
            let c = #[trigger] s[k] as int;
            ||| c == 33
            ||| 35 <= c <= 39
            ||| c == 42 || c == 43 || c == 45 || c == 46
            ||| 48 <= c <= 57
            ||| 65 <= c <= 90
            ||| 94 <= c <= 122
            ||| c == 124 || c == 126
        } by {
            assert(is_name_char(small[k]));
            text::law_lowered(s, k);
            assert(s.contains(s[k]));
        }
    }
    if 0 < s.len() <= 65535 && (forall|k: int|
        0 <= k < s.len() ==> {
            let c = #[trigger] s[k] as int;
            ||| c == 33
            ||| 35 <= c <= 39
            ||| c == 42 || c == 43 || c == 45 || c == 46
            ||| 48 <= c <= 57
            ||| 65 <= c <= 90
            ||| 94 <= c <= 122
            ||| c == 124 || c == 126
        }) {
        assert forall|k: int| 0 <= k < small.len() implies is_name_char(#[trigger] small[k]) by {
            text::law_lowered(s, k);
        }
        if s.contains('"') {
            let k = choose|k: int| 0 <= k < s.len() && s[k] == '"';
            assert(s[k] as int == 34);
        }
    }
}

/// A further line puts its value behind those that its name has, and leaves the other
/// names as they are.
pub proof fn law_lines_add_up(
    lines: Seq<(Seq<char>, Seq<u8>)>,
    name: Seq<char>,
    value: Seq<u8>,
    other: Seq<char>,
)
    ensures
        collected(Seq::<(Seq<char>, Seq<u8>)>::empty()).dom().len() == 0,
        values_of(collected(lines.push((name, value))), name) == values_of(
            collected(lines),
            name,
        ).push(value),
        other != name ==> values_of(collected(lines.push((name, value))), other) == values_of(
            collected(lines),
            other,
        ),
        collected(lines.push((name, value))).dom() == collected(lines).dom().insert(name),
{
    assert(lines.push((name, value)).drop_last() =~= lines);
    assert(collected(lines.push((name, value))).dom() =~= collected(lines).dom().insert(name));
}

/// Room is for names: a map with as many names as the limit less what is asked for has it,
/// and one with more has not.
pub proof fn law_room(m: HeaderValues, more: nat)
    requires
        m.dom().finite(),
    ensures
        has_room(m, more) <==> m.dom().len() + more <= 6554,
{
}

/// A text is written as its UTF-8 bytes, or not at all.
pub proof fn law_texts_are_written(s: Seq<char>)
    ensures
        text_value(s) is Some ==> text_value(s)->0 == vstd::utf8::encode_utf8(s),
        text_value(s) is Some <==> is_header_value(vstd::utf8::encode_utf8(s)),
        (forall|i: int| 0 <= i < s.len() ==> ' ' <= #[trigger] s[i] <= '~') ==> text_value(s)
            is Some && value_text(text_value(s)->0) == Some(s),
{
    if forall|i: int| 0 <= i < s.len() ==> ' ' <= #[trigger] s[i] <= '~' {
        lemma_visible_text(s);
    }
}

/// Whether there is room is answered as stated.
pub proof fn law_room_answers(headers: HeaderMap, more: usize, r: bool)
    requires
        call_ensures(room_for, (&headers, more), r),
    ensures
        r == has_room(header_values(headers), more as nat),
{
}

} // verus!
