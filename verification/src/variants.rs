//! What a cached response is kept apart by: its target and the request headers that
//! it may vary by.

use http::header::HeaderMap;
use sha2::Digest;
use vstd::prelude::*;

use crate::headers;
use crate::headers::{
    header_get, header_get_all, header_text, header_values, read_value, HeaderValues,
};
use crate::store;
use crate::text;
use crate::text::{among, list_items, lower, same};

verus! {

/// The SHA-256 digest of some bytes.
pub uninterp spec fn sha256(bytes: Seq<u8>) -> Seq<u8>;

/// `Sha256::digest`: 32 bytes that depend on the input alone.
#[verifier::external_body]
fn sha256_digest(bytes: &[u8]) -> (r: Vec<u8>)
    ensures
        r@ == sha256(bytes@),
        r@.len() == 32,
{
    sha2::Sha256::digest(bytes).to_vec()
}

/// The hexadecimal digit of a number below sixteen.
pub open spec fn hex_digit(n: u8) -> char {
    if n < 10 {
        (n + '0' as u8) as char
    } else {
        (n - 10 + 'a' as u8) as char
    }
}

/// Bytes written with two hexadecimal digits each.
pub open spec fn hex(bytes: Seq<u8>) -> Seq<char>
    decreases bytes.len(),
{
    if bytes.len() == 0 {
        Seq::empty()
    } else {
        hex(bytes.drop_last()).push(hex_digit(bytes.last() / 16)).push(
            hex_digit(bytes.last() % 16),
        )
    }
}

fn to_hex_digit(n: u8) -> (r: char)
    requires
        n < 16,
    ensures
        r == hex_digit(n),
        '0' <= r <= '9' || 'a' <= r <= 'f',
{
    if n < 10 {
        (n + 48) as char
    } else {
        (n - 10 + 97) as char
    }
}

/// Bytes written with two hexadecimal digits each.
pub fn to_hex(bytes: &Vec<u8>) -> (r: String)
    ensures
        r@ == hex(bytes@),
        r@.len() == 2 * bytes@.len(),
        bytes@.len() > 0 ==> store::is_key(r@),
{
    let mut out = String::new();
    let mut i: usize = 0;
    proof {
        assert(bytes@.take(0) =~= Seq::empty());
    }
    while i < bytes.len()
        invariant
            i <= bytes@.len(),
            out@ == hex(bytes@.take(i as int)),
            out@.len() == 2 * i,
            forall|k: int|
                0 <= k < out@.len() ==> '0' <= #[trigger] out@[k] <= '9' || 'a' <= out@[k] <= 'f',
        decreases bytes@.len() - i,
    {
        proof {
            assert(bytes@.take(i + 1).drop_last() =~= bytes@.take(i as int));
        }
        let byte: u8 = bytes[i];
        out.push(to_hex_digit(byte / 16));
        out.push(to_hex_digit(byte % 16));
        i += 1;
    }
    proof {
        assert(bytes@.take(bytes@.len() as int) =~= bytes@);
    }
    out
}

/// The request headers that a cached response may vary by, in the order in which they
/// go into the cache key.
pub open spec fn vary_names() -> Seq<Seq<char>> {
    seq!["accept"@, "accept-language"@, "accept-encoding"@, "origin"@, "authorization"@]
}

/// The first value of a header, empty where it has none.
pub open spec fn variant(m: HeaderValues, name: Seq<char>) -> Seq<u8> {
    if m.contains_key(name) {
        m[name][0]
    } else {
        Seq::empty()
    }
}

/// What a header adds to the material of a cache key: its name and its value, each with
/// a zero byte behind it.
pub open spec fn variant_bytes(name: Seq<char>, value: Seq<u8>) -> Seq<u8> {
    vstd::utf8::encode_utf8(name) + seq![0u8] + value + seq![0u8]
}

/// What the first of the vary headers add to the material of a cache key.
pub open spec fn variants_bytes(m: HeaderValues, count: nat) -> Seq<u8>
    decreases count,
{
    if count == 0 {
        Seq::empty()
    } else {
        variants_bytes(m, (count - 1) as nat) + variant_bytes(
            vary_names()[count - 1],
            variant(m, vary_names()[count - 1]),
        )
    }
}

/// What a cache key is made of: the target, then each vary header.
pub open spec fn key_material(subject: Seq<char>, m: HeaderValues) -> Seq<u8> {
    vstd::utf8::encode_utf8(subject) + variants_bytes(m, 5)
}

/// The cache key of a target and a request's headers.
pub open spec fn cache_key_of(subject: Seq<char>, m: HeaderValues) -> Seq<char> {
    hex(sha256(key_material(subject, m)))
}

fn push_bytes(out: &mut Vec<u8>, bytes: &[u8])
    ensures
        final(out)@ == old(out)@ + bytes@,
{
    let mut i: usize = 0;
    proof {
        assert(old(out)@ + bytes@.take(0) =~= old(out)@);
    }
    while i < bytes.len()
        invariant
            i <= bytes@.len(),
            out@ == old(out)@ + bytes@.take(i as int),
        decreases bytes@.len() - i,
    {
        out.push(bytes[i]);
        proof {
            assert(old(out)@ + bytes@.take(i + 1) =~= (old(out)@ + bytes@.take(i as int)).push(
                bytes@[i as int],
            ));
        }
        i += 1;
    }
    proof {
        assert(bytes@.take(bytes@.len() as int) =~= bytes@);
    }
}

fn push_variant(out: &mut Vec<u8>, headers: &HeaderMap, name: &str)
    requires
        headers::is_header_name(name@),
    ensures
        final(out)@ == old(out)@ + variant_bytes(name@, variant(header_values(*headers), name@)),
{
    push_bytes(out, name.as_bytes());
    out.push(0);
    if let Some(value) = header_get(headers, name) {
        push_bytes(out, &value);
    }
    out.push(0);
    proof {
        assert(out@ =~= old(out)@ + variant_bytes(
            name@,
            variant(header_values(*headers), name@),
        ));
    }
}

/// What a cache key is made of: the target, then each header that responses may vary by.
pub fn key_bytes(subject: &str, headers: &HeaderMap) -> (r: Vec<u8>)
    ensures
        r@ == key_material(subject@, header_values(*headers)),
{
    proof {
        headers::lemma_known_names();
        reveal_with_fuel(variants_bytes, 6);
    }
    let ghost m = header_values(*headers);
    let mut material: Vec<u8> = Vec::new();
    push_bytes(&mut material, subject.as_bytes());
    push_variant(&mut material, headers, "accept");
    push_variant(&mut material, headers, "accept-language");
    push_variant(&mut material, headers, "accept-encoding");
    push_variant(&mut material, headers, "origin");
    push_variant(&mut material, headers, "authorization");
    proof {
        assert(material@ =~= key_material(subject@, m));
    }
    material
}

/// The cache key of a target and a request's headers: the SHA-256 digest of what it is
/// made of, in hexadecimal.
pub fn cache_key(subject: &str, headers: &HeaderMap) -> (r: String)
    ensures
        r@ == cache_key_of(subject@, header_values(*headers)),
        r@.len() == 64,
        store::is_key(r@),
{
    let digest = sha256_digest(&key_bytes(subject, headers));
    to_hex(&digest)
}
/// The vary headers, one by one.
pub(crate) proof fn lemma_vary_names(name: Seq<char>)
    ensures
        vary_names().contains(name) <==> name == "accept"@ || name == "accept-language"@ || name
            == "accept-encoding"@ || name == "origin"@ || name == "authorization"@,
{
    assert(vary_names()[0] == "accept"@);
    assert(vary_names()[1] == "accept-language"@);
    assert(vary_names()[2] == "accept-encoding"@);
    assert(vary_names()[3] == "origin"@);
    assert(vary_names()[4] == "authorization"@);
}

fn supported_vary(name: &str) -> (r: bool)
    ensures
        r == vary_names().contains(name@),
{
    proof {
        lemma_vary_names(name@);
    }
    same(name, "accept") || same(name, "accept-language") || same(name, "accept-encoding") || same(
        name,
        "origin",
    ) || same(name, "authorization")
}

/// The names that a response varies by, after some more; `None` once there is one that
/// is not supported. No name is listed twice.
pub open spec fn vary_added(seen: Seq<Seq<char>>, names: Seq<Seq<char>>) -> Option<Seq<Seq<char>>>
    decreases names.len(),
{
    if names.len() == 0 {
        Some(seen)
    } else {
        match vary_added(seen, names.drop_last()) {
            Some(before) => {
                let name = text::lowered(names.last());
                if !vary_names().contains(name) {
                    None
                } else if before.contains(name) {
                    Some(before)
                } else {
                    Some(before.push(name))
                }
            },
            None => None,
        }
    }
}

/// The names that a response varies by, from the values of its `Vary` header; `None`
/// where it varies by something that is not supported or cannot be read.
pub open spec fn vary_of(values: Seq<Seq<u8>>) -> Option<Seq<Seq<char>>>
    decreases values.len(),
{
    if values.len() == 0 {
        Some(Seq::empty())
    } else {
        match vary_of(values.drop_last()) {
            Some(seen) => match headers::value_text(values.last()) {
                Some(list) => vary_added(seen, text::listed(list)),
                None => None,
            },
            None => None,
        }
    }
}

/// A name that is not supported decides, whatever follows it.
proof fn lemma_vary_added_none(seen: Seq<Seq<char>>, names: Seq<Seq<char>>, i: int)
    requires
        0 <= i <= names.len(),
        vary_added(seen, names.take(i)) is None,
    ensures
        vary_added(seen, names) is None,
    decreases names.len(),
{
    if i == names.len() {
        assert(names.take(i) =~= names);
    } else {
        assert(names.drop_last().take(i) =~= names.take(i));
        lemma_vary_added_none(seen, names.drop_last(), i);
    }
}

/// A value with such a name decides, whatever follows it.
proof fn lemma_vary_of_none(values: Seq<Seq<u8>>, i: int)
    requires
        0 <= i <= values.len(),
        vary_of(values.take(i)) is None,
    ensures
        vary_of(values) is None,
    decreases values.len(),
{
    if i == values.len() {
        assert(values.take(i) =~= values);
    } else {
        assert(values.drop_last().take(i) =~= values.take(i));
        lemma_vary_of_none(values.drop_last(), i);
    }
}

/// Whether all names of a list could be added to those seen before.
fn add_vary(vary: &mut Vec<String>, list: &str) -> (r: bool)
    ensures
        match vary_added(text::texts(old(vary)@), text::listed(list@)) {
            Some(after) => r && text::texts(final(vary)@) == after,
            None => !r,
        },
{
    let items = list_items(list);
    let ghost names = text::listed(list@);
    let ghost seen = text::texts(vary@);
    let mut i: usize = 0;
    proof {
        assert(names.take(0) =~= Seq::empty());
    }
    while i < items.len()
        invariant
            i <= items@.len(),
            names == text::listed(list@),
            seen == text::texts(old(vary)@),
            text::texts(items@) == names,
            vary_added(seen, names.take(i as int)) == Some(text::texts(vary@)),
        decreases items@.len() - i,
    {
        let name = lower(&items[i]);
        proof {
            assert(names.take(i + 1).drop_last() =~= names.take(i as int));
            assert(names.take(i + 1).last() == items@[i as int]@);
        }
        if !supported_vary(&name) {
            proof {
                lemma_vary_added_none(seen, names, i + 1);
            }
            return false;
        }
        if !among(vary, &name) {
            proof {
                assert(text::texts(vary@.push(name)) =~= text::texts(vary@).push(name@));
            }
            vary.push(name);
        }
        i += 1;
    }
    proof {
        assert(names.take(items@.len() as int) =~= names);
    }
    true
}

/// The names that a response varies by, in small letters and each once. `None` where it
/// varies by something that is not supported, such as `*`.
pub fn parse_vary(headers: &HeaderMap) -> (r: Option<Vec<String>>)
    ensures
        match r {
            Some(vary) => vary_of(headers::values_of(header_values(*headers), "vary"@)) == Some(
                text::texts(vary@),
            ),
            None => vary_of(headers::values_of(header_values(*headers), "vary"@)) is None,
        },
{
    proof {
        headers::lemma_known_names();
    }
    let values = header_get_all(headers, "vary");
    let ghost views = headers::value_views(values@);
    let mut vary: Vec<String> = Vec::new();
    let mut i: usize = 0;
    proof {
        assert(views.take(0) =~= Seq::empty());
        assert(text::texts(vary@) =~= Seq::empty());
    }
    while i < values.len()
        invariant
            i <= values@.len(),
            views == headers::value_views(values@),
            views == headers::values_of(header_values(*headers), "vary"@),
            vary_of(views.take(i as int)) == Some(text::texts(vary@)),
        decreases values@.len() - i,
    {
        proof {
            assert(views.take(i + 1).drop_last() =~= views.take(i as int));
            assert(views.take(i + 1).last() == values@[i as int]@);
            if vary_of(views.take(i + 1)) is None {
                lemma_vary_of_none(views, i + 1);
            }
        }
        let list = match read_value(&values[i]) {
            Some(list) => list,
            None => {
                return None;
            },
        };
        if !add_vary(&mut vary, &list) {
            return None;
        }
        i += 1;
    }
    proof {
        assert(views.take(values@.len() as int) =~= views);
    }
    Some(vary)
}
/// The views of a list of pairs of texts.
pub open spec fn pair_views(pairs: Seq<(String, String)>) -> Seq<(Seq<char>, Seq<char>)> {
    pairs.map_values(|p: (String, String)| (p.0@, p.1@))
}

/// The values that a request has for the headers that a response varies by.
pub open spec fn variants_of(request: HeaderValues, vary: Seq<Seq<char>>) -> Seq<
    (Seq<char>, Seq<char>),
>
    decreases vary.len(),
{
    if vary.len() == 0 {
        Seq::empty()
    } else {
        let before = variants_of(request, vary.drop_last());
        match headers::first_text(request, vary.last()) {
            Some(value) => before.push((vary.last(), value)),
            None => before,
        }
    }
}

/// What a response varies by is supported.
proof fn lemma_vary_added_supported(seen: Seq<Seq<char>>, names: Seq<Seq<char>>)
    requires
        vary_added(seen, names) is Some,
        forall|i: int| 0 <= i < seen.len() ==> vary_names().contains(#[trigger] seen[i]),
    ensures
        forall|i: int|
            0 <= i < vary_added(seen, names)->0.len() ==> vary_names().contains(
                #[trigger] vary_added(seen, names)->0[i],
            ),
    decreases names.len(),
{
    if names.len() > 0 {
        lemma_vary_added_supported(seen, names.drop_last());
    }
}

/// What a response varies by is supported.
pub(crate) proof fn lemma_vary_supported(values: Seq<Seq<u8>>)
    requires
        vary_of(values) is Some,
    ensures
        forall|i: int|
            0 <= i < vary_of(values)->0.len() ==> vary_names().contains(
                #[trigger] vary_of(values)->0[i],
            ),
    decreases values.len(),
{
    if values.len() > 0 {
        lemma_vary_supported(values.drop_last());
        lemma_vary_added_supported(
            vary_of(values.drop_last())->0,
            text::listed(headers::value_text(values.last())->0),
        );
    }
}

pub(crate) fn read_variants(request: &HeaderMap, vary: &Vec<String>) -> (r: Vec<(String, String)>)
    requires
        forall|i: int| 0 <= i < vary@.len() ==> headers::is_header_name((#[trigger] vary@[i])@),
    ensures
        pair_views(r@) == variants_of(header_values(*request), text::texts(vary@)),
{
    let ghost names = text::texts(vary@);
    let mut pairs: Vec<(String, String)> = Vec::new();
    let mut i: usize = 0;
    proof {
        assert(names.take(0) =~= Seq::empty());
        assert(pair_views(pairs@) =~= Seq::empty());
    }
    while i < vary.len()
        invariant
            i <= vary@.len(),
            names == text::texts(vary@),
            forall|k: int| 0 <= k < vary@.len() ==> headers::is_header_name((#[trigger] vary@[k])@),
            pair_views(pairs@) == variants_of(header_values(*request), names.take(i as int)),
        decreases vary@.len() - i,
    {
        proof {
            assert(names.take(i + 1).drop_last() =~= names.take(i as int));
            assert(names.take(i + 1).last() == vary@[i as int]@);
        }
        if let Some(value) = header_text(request, &vary[i]) {
            let pair = (vary[i].clone(), value);
            proof {
                assert(pair_views(pairs@.push(pair)) =~= pair_views(pairs@).push(
                    (pair.0@, pair.1@),
                ));
            }
            pairs.push(pair);
        }
        i += 1;
    }
    proof {
        assert(names.take(vary@.len() as int) =~= names);
    }
    pairs
}

/// Up to the first zero byte, and from there on, equal bytes are equal.
proof fn lemma_first_zero(a: Seq<u8>, x: Seq<u8>, b: Seq<u8>, y: Seq<u8>)
    requires
        !a.contains(0u8),
        !b.contains(0u8),
        a + seq![0u8] + x == b + seq![0u8] + y,
    ensures
        a == b,
        x == y,
{
    let whole = a + seq![0u8] + x;
    assert(whole[a.len() as int] == 0);
    assert(whole[b.len() as int] == 0);
    if a.len() < b.len() {
        assert(b[a.len() as int] == whole[a.len() as int]);
        assert(b.contains(0u8));
    }
    if b.len() < a.len() {
        assert(a[b.len() as int] == whole[b.len() as int]);
        assert(a.contains(0u8));
    }
    assert(whole.take(a.len() as int) =~= a);
    assert(whole.take(b.len() as int) =~= b);
    assert(whole.skip(a.len() as int + 1) =~= x);
    assert(whole.skip(b.len() as int + 1) =~= y);
}

/// What stands in a header value is never zero.
proof fn lemma_no_zero(value: Seq<u8>)
    requires
        headers::is_header_value(value),
    ensures
        !value.contains(0u8),
{
    if value.contains(0u8) {
        let i = choose|i: int| 0 <= i < value.len() && value[i] == 0u8;
        assert(headers::is_value_byte(value[i]));
    }
}

/// A vary header that stands behind other bytes can be taken off again.
proof fn lemma_variant_off(
    name: Seq<char>,
    v: Seq<u8>,
    x: Seq<u8>,
    w: Seq<u8>,
    y: Seq<u8>,
)
    requires
        headers::is_header_value(vstd::utf8::encode_utf8(name)),
        headers::is_header_value(v),
        headers::is_header_value(w),
        variant_bytes(name, v) + x == variant_bytes(name, w) + y,
    ensures
        v == w,
        x == y,
{
    let n = vstd::utf8::encode_utf8(name);
    lemma_no_zero(n);
    lemma_no_zero(v);
    lemma_no_zero(w);
    assert(variant_bytes(name, v) + x =~= n + seq![0u8] + (v + seq![0u8] + x));
    assert(variant_bytes(name, w) + y =~= n + seq![0u8] + (w + seq![0u8] + y));
    lemma_first_zero(n, v + seq![0u8] + x, n, w + seq![0u8] + y);
    lemma_first_zero(v, x, w, y);
}

/// The names of the vary headers, in bytes.
proof fn lemma_vary_name_bytes(i: int)
    requires
        0 <= i < 5,
    ensures
        headers::is_header_value(vstd::utf8::encode_utf8(vary_names()[i])),
{
    reveal_strlit("accept");
    reveal_strlit("accept-language");
    reveal_strlit("accept-encoding");
    reveal_strlit("origin");
    reveal_strlit("authorization");
    headers::lemma_visible_text("accept"@);
    headers::lemma_visible_text("accept-language"@);
    headers::lemma_visible_text("accept-encoding"@);
    headers::lemma_visible_text("origin"@);
    headers::lemma_visible_text("authorization"@);
}

/// Whether the vary headers of a request have values that can stand in a header.
pub open spec fn has_values(m: HeaderValues) -> bool {
    forall|i: int|
        0 <= i < 5 ==> headers::is_header_value(variant(m, #[trigger] vary_names()[i]))
}

/// What the vary headers from the given one on add to the material of a cache key.
spec fn later_variants(m: HeaderValues, from: nat) -> Seq<u8>
    decreases 5 - from,
{
    if from >= 5 {
        Seq::empty()
    } else {
        variant_bytes(vary_names()[from as int], variant(m, vary_names()[from as int]))
            + later_variants(m, from + 1)
    }
}

/// The material of the vary headers, seen from its front.
proof fn lemma_from_front(m: HeaderValues, count: nat)
    requires
        count <= 5,
    ensures
        variants_bytes(m, count) + later_variants(m, count) == later_variants(m, 0),
    decreases count,
{
    if count == 0 {
        assert(variants_bytes(m, 0) + later_variants(m, 0) =~= later_variants(m, 0));
    } else {
        let before = (count - 1) as nat;
        lemma_from_front(m, before);
        assert(variants_bytes(m, count) + later_variants(m, count) =~= variants_bytes(m, before)
            + later_variants(m, before));
    }
}

/// Where the vary headers add the same bytes, they have the same values.
proof fn lemma_same_variants(m: HeaderValues, other: HeaderValues, from: nat)
    requires
        has_values(m),
        has_values(other),
        later_variants(m, from) == later_variants(other, from),
    ensures
        forall|i: int|
            from <= i < 5 ==> variant(m, #[trigger] vary_names()[i]) == variant(
                other,
                vary_names()[i],
            ),
    decreases 5 - from,
{
    if from < 5 {
        let name = vary_names()[from as int];
        lemma_vary_name_bytes(from as int);
        lemma_variant_off(
            name,
            variant(m, name),
            later_variants(m, from + 1),
            variant(other, name),
            later_variants(other, from + 1),
        );
        lemma_same_variants(m, other, from + 1);
    }
}

/// The material of a cache key up to its first zero byte and from there on.
proof fn lemma_material_front(subject: Seq<char>, m: HeaderValues)
    ensures
        ({
            let name = vary_names()[0];
            key_material(subject, m) == (vstd::utf8::encode_utf8(subject)
                + vstd::utf8::encode_utf8(name)) + seq![0u8] + (variant(m, name) + seq![0u8]
                + later_variants(m, 1))
        }),
        key_material(subject, m) == vstd::utf8::encode_utf8(subject) + later_variants(m, 0),
{
    let name = vary_names()[0];
    lemma_from_front(m, 5);
    assert(variants_bytes(m, 5) =~= later_variants(m, 0));
    let s = vstd::utf8::encode_utf8(subject);
    let n = vstd::utf8::encode_utf8(name);
    let v = variant(m, name);
    let x = later_variants(m, 1);
    assert(later_variants(m, 0) == variant_bytes(name, v) + x);
    assert(s + (n + seq![0u8] + v + seq![0u8] + x) =~= (s + n) + seq![0u8] + (v + seq![0u8] + x));
}

/// Two texts without zero bytes have none together.
proof fn lemma_no_zero_together(a: Seq<u8>, b: Seq<u8>)
    requires
        !a.contains(0u8),
        !b.contains(0u8),
    ensures
        !(a + b).contains(0u8),
{
    if (a + b).contains(0u8) {
        let i = choose|i: int| 0 <= i < (a + b).len() && (a + b)[i] == 0u8;
        if i < a.len() {
            assert(a[i] == 0u8);
        } else {
            assert(b[i - a.len()] == 0u8);
        }
    }
}

/// What follows equal bytes is equal, and what goes before them too.
proof fn lemma_split_off(a: Seq<u8>, x: Seq<u8>, b: Seq<u8>, y: Seq<u8>)
    requires
        a + x == b + y,
        a.len() == b.len(),
    ensures
        a == b,
        x == y,
{
    assert((a + x).take(a.len() as int) =~= a);
    assert((b + y).take(b.len() as int) =~= b);
    assert((a + x).skip(a.len() as int) =~= x);
    assert((b + y).skip(b.len() as int) =~= y);
}

/// Requests for different targets, or with different values for a header that responses
/// may vary by, are kept apart: their keys are made of different bytes. (A header that
/// is missing counts as an empty one.)
pub proof fn law_variants_are_kept_apart(
    subject: Seq<char>,
    m: HeaderValues,
    other_subject: Seq<char>,
    other_m: HeaderValues,
)
    requires
        !vstd::utf8::encode_utf8(subject).contains(0u8),
        !vstd::utf8::encode_utf8(other_subject).contains(0u8),
        has_values(m),
        has_values(other_m),
        key_material(subject, m) == key_material(other_subject, other_m),
    ensures
        subject == other_subject,
        forall|i: int|
            0 <= i < 5 ==> variant(m, #[trigger] vary_names()[i]) == variant(
                other_m,
                vary_names()[i],
            ),
{
    let s = vstd::utf8::encode_utf8(subject);
    let t = vstd::utf8::encode_utf8(other_subject);
    let name = vary_names()[0];
    let n = vstd::utf8::encode_utf8(name);
    lemma_material_front(subject, m);
    lemma_material_front(other_subject, other_m);
    lemma_vary_name_bytes(0);
    lemma_no_zero(n);
    lemma_no_zero_together(s, n);
    lemma_no_zero_together(t, n);
    lemma_first_zero(
        s + n,
        variant(m, name) + seq![0u8] + later_variants(m, 1),
        t + n,
        variant(other_m, name) + seq![0u8] + later_variants(other_m, 1),
    );
    assert(s.len() == (s + n).len() - n.len());
    lemma_split_off(s, later_variants(m, 0), t, later_variants(other_m, 0));
    lemma_same_variants(m, other_m, 0);
    vstd::utf8::encode_utf8_decode_utf8(subject);
    vstd::utf8::encode_utf8_decode_utf8(other_subject);
}

/// Hexadecimal is two digits for each byte, the higher first, in small letters.
pub proof fn law_hexadecimal(bytes: Seq<u8>, i: int)
    requires
        0 <= i < bytes.len(),
    ensures
        hex(bytes).len() == 2 * bytes.len(),
        ({
            let value = |c: char|
                if '0' <= c <= '9' {
                    c as int - 48
                } else {
                    c as int - 87
                };
            let (high, low) = (hex(bytes)[2 * i], hex(bytes)[2 * i + 1]);
            &&& '0' <= high <= '9' || 'a' <= high <= 'f'
            &&& '0' <= low <= '9' || 'a' <= low <= 'f'
            &&& value(high) * 16 + value(low) == bytes[i]
        }),
    decreases bytes.len(),
{
    let before = bytes.drop_last();
    lemma_hex_length(before);
    if i < before.len() {
        law_hexadecimal(before, i);
        assert(bytes[i] == before[i]);
    } else {
        assert(hex(bytes)[2 * i] == hex_digit(bytes[i] / 16));
        assert(hex(bytes)[2 * i + 1] == hex_digit(bytes[i] % 16));
    }
}

proof fn lemma_hex_length(bytes: Seq<u8>)
    ensures
        hex(bytes).len() == 2 * bytes.len(),
    decreases bytes.len(),
{
    if bytes.len() > 0 {
        lemma_hex_length(bytes.drop_last());
    }
}

/// The key of a target is the digest, in hexadecimal, of the target's identity and of five
/// headers of the request, each by its name and its first value, with a zero behind either;
/// a header that is not there counts as empty.
pub proof fn law_keys(subject: Seq<char>, m: HeaderValues, name: Seq<char>)
    ensures
        ({
            let part = |name: Seq<char>|
                vstd::utf8::encode_utf8(name) + seq![0u8] + (if m.contains_key(name) {
                    m[name][0]
                } else {
                    Seq::empty()
                }) + seq![0u8];
            let material = vstd::utf8::encode_utf8(subject) + part("accept"@) + part(
                "accept-language"@,
            ) + part("accept-encoding"@) + part("origin"@) + part("authorization"@);
            &&& key_material(subject, m) == material
            &&& cache_key_of(subject, m) == hex(sha256(material))
        }),
        vary_names().contains(name) <==> name == "accept"@ || name == "accept-language"@ || name
            == "accept-encoding"@ || name == "origin"@ || name == "authorization"@,
{
    let part = |name: Seq<char>|
        vstd::utf8::encode_utf8(name) + seq![0u8] + (if m.contains_key(name) {
            m[name][0]
        } else {
            Seq::empty()
        }) + seq![0u8];
    let names = vary_names();
    assert forall|i: int| 0 <= i < 5 implies variant_bytes(
        #[trigger] names[i],
        variant(m, names[i]),
    ) == part(names[i]) by {}
    reveal_with_fuel(variants_bytes, 6);
    let material = vstd::utf8::encode_utf8(subject) + part("accept"@) + part("accept-language"@)
        + part("accept-encoding"@) + part("origin"@) + part("authorization"@);
    assert(names[0] == "accept"@ && names[1] == "accept-language"@ && names[2]
        == "accept-encoding"@ && names[3] == "origin"@ && names[4] == "authorization"@);
    assert(key_material(subject, m) =~= material);
    if names.contains(name) {
        let i = choose|i: int| 0 <= i < names.len() && names[i] == name;
        assert(names[i] == name);
    }
}

/// A response varies by the headers that its `Vary` lines list, all of them, in any case and
/// each once; by nothing where there are none; and it cannot be cached where a line cannot
/// be read or lists a header that is not one of five, as `*` is not.
pub proof fn law_vary(lines: Seq<Seq<u8>>, name: Seq<char>)
    ensures
        vary_of(lines) is Some <==> forall|i: int|
            0 <= i < lines.len() ==> headers::value_text(#[trigger] lines[i]) is Some && (forall|
                k: int,
            |
                0 <= k < text::listed(headers::value_text(lines[i])->0).len()
                    ==> vary_names().contains(
                    text::lowered(
                        #[trigger] text::listed(headers::value_text(lines[i])->0)[k],
                    ),
                )),
        vary_of(lines) is Some ==> (vary_of(lines)->0.contains(name) <==> exists|i: int, k: int|
            0 <= i < lines.len() && 0 <= k < text::listed(headers::value_text(lines[i])->0).len()
                && text::lowered(
                #[trigger] text::listed(headers::value_text(lines[i])->0)[k],
            ) == name),
        vary_of(lines) is Some ==> vary_of(lines)->0.no_duplicates(),
    decreases lines.len(),
{
    if lines.len() > 0 {
        let before = lines.drop_last();
        law_vary(before, name);
        let last = lines[lines.len() - 1];
        assert(forall|i: int| 0 <= i < before.len() ==> lines[i] == #[trigger] before[i]);
        let listed = text::listed(headers::value_text(last)->0);
        if vary_of(before) is Some && headers::value_text(last) is Some {
            lemma_vary_added(vary_of(before)->0, listed, name);
        }
        if vary_of(lines) is Some {
            assert forall|i: int| 0 <= i < lines.len() implies headers::value_text(
                #[trigger] lines[i],
            ) is Some && (forall|k: int|
                0 <= k < text::listed(headers::value_text(lines[i])->0).len()
                    ==> vary_names().contains(
                    text::lowered(
                        #[trigger] text::listed(headers::value_text(lines[i])->0)[k],
                    ),
                )) by {
                if i < before.len() {
                    assert(before[i] == lines[i]);
                }
            }
            if vary_of(lines)->0.contains(name) {
                if vary_of(before)->0.contains(name) {
                    let (i, k) = choose|i: int, k: int|
                        0 <= i < before.len() && 0 <= k < text::listed(
                            headers::value_text(before[i])->0,
                        ).len() && text::lowered(
                            #[trigger] text::listed(headers::value_text(before[i])->0)[k],
                        ) == name;
                    assert(text::lowered(text::listed(headers::value_text(lines[i])->0)[k])
                        == name);
                } else {
                    let k = choose|k: int|
                        0 <= k < listed.len() && text::lowered(#[trigger] listed[k]) == name;
                    assert(text::lowered(
                        text::listed(headers::value_text(lines[lines.len() - 1])->0)[k],
                    ) == name);
                }
            }
            if exists|i: int, k: int|
                0 <= i < lines.len() && 0 <= k < text::listed(
                    headers::value_text(lines[i])->0,
                ).len() && text::lowered(
                    #[trigger] text::listed(headers::value_text(lines[i])->0)[k],
                ) == name {
                let (i, k) = choose|i: int, k: int|
                    0 <= i < lines.len() && 0 <= k < text::listed(
                        headers::value_text(lines[i])->0,
                    ).len() && text::lowered(
                        #[trigger] text::listed(headers::value_text(lines[i])->0)[k],
                    ) == name;
                if i < before.len() {
                    assert(text::lowered(text::listed(headers::value_text(before[i])->0)[k])
                        == name);
                } else {
                    assert(text::lowered(listed[k]) == name);
                }
            }
        }
    }
}

proof fn lemma_vary_added(seen: Seq<Seq<char>>, names: Seq<Seq<char>>, name: Seq<char>)
    requires
        seen.no_duplicates(),
    ensures
        vary_added(seen, names) is Some <==> forall|k: int|
            0 <= k < names.len() ==> vary_names().contains(text::lowered(#[trigger] names[k])),
        vary_added(seen, names) is Some ==> vary_added(seen, names)->0.no_duplicates(),
        vary_added(seen, names) is Some ==> (vary_added(seen, names)->0.contains(name)
            <==> seen.contains(name) || exists|k: int|
            0 <= k < names.len() && text::lowered(#[trigger] names[k]) == name),
    decreases names.len(),
{
    if names.len() > 0 {
        let before = names.drop_last();
        lemma_vary_added(seen, before, name);
        let last = names[names.len() - 1];
        assert(forall|k: int| 0 <= k < before.len() ==> names[k] == #[trigger] before[k]);
        if vary_added(seen, names) is Some {
            let (old_list, new_list) = (
                vary_added(seen, before)->0,
                vary_added(seen, names)->0,
            );
            assert forall|k: int| 0 <= k < names.len() implies vary_names().contains(
                text::lowered(#[trigger] names[k]),
            ) by {
                if k < before.len() {
                    assert(vary_names().contains(text::lowered(before[k])));
                }
            }
            if new_list.contains(name) && !old_list.contains(name) {
                let j = choose|j: int| 0 <= j < new_list.len() && new_list[j] == name;
                if j < old_list.len() {
                    assert(old_list[j] == name);
                }
                assert(text::lowered(names[names.len() - 1]) == name);
            }
            if old_list.contains(name) {
                let j = choose|j: int| 0 <= j < old_list.len() && old_list[j] == name;
                assert(new_list[j] == name);
                if !seen.contains(name) {
                    let k = choose|k: int|
                        0 <= k < before.len() && text::lowered(#[trigger] before[k]) == name;
                    assert(text::lowered(names[k]) == name);
                }
            }
            if text::lowered(last) == name {
                if !old_list.contains(name) {
                    assert(new_list[old_list.len() as int] == name);
                }
            }
            if exists|k: int| 0 <= k < names.len() && text::lowered(#[trigger] names[k]) == name {
                let k = choose|k: int|
                    0 <= k < names.len() && text::lowered(#[trigger] names[k]) == name;
                if k < before.len() {
                    assert(text::lowered(before[k]) == name);
                }
            }
            if !old_list.contains(text::lowered(last)) {
                assert forall|i: int, j: int|
                    0 <= i < new_list.len() && 0 <= j < new_list.len() && i != j implies new_list[i]
                    != new_list[j] by {
                    if i < old_list.len() {
                        assert(old_list.contains(old_list[i]));
                    }
                    if j < old_list.len() {
                        assert(old_list.contains(old_list[j]));
                    }
                }
            }
        }
    }
}

/// Of what a response varies by, the request's values are noted, those that can be read, in
/// the same order.
pub proof fn law_noted_variants(request: HeaderValues, vary: Seq<Seq<char>>, name: Seq<char>)
    ensures
        variants_of(request, Seq::empty()).len() == 0,
        request.contains_key(name) && headers::value_text(request[name][0]) is Some
            ==> variants_of(request, vary.push(name)) == variants_of(request, vary).push(
            (name, headers::value_text(request[name][0])->0),
        ),
        !request.contains_key(name) || headers::value_text(request[name][0]) is None
            ==> variants_of(request, vary.push(name)) == variants_of(request, vary),
{
    assert(vary.push(name).drop_last() =~= vary);
}

/// Keys, their material, hexadecimal and what a response varies by are answered as stated.
pub proof fn law_key_answers(
    subject: &str,
    request: HeaderMap,
    material: Vec<u8>,
    key: String,
    bytes: Vec<u8>,
    digits: String,
    response: HeaderMap,
    vary: Option<Vec<String>>,
)
    requires
        call_ensures(key_bytes, (subject, &request), material),
        call_ensures(cache_key, (subject, &request), key),
        call_ensures(to_hex, (&bytes,), digits),
        call_ensures(parse_vary, (&response,), vary),
    ensures
        material@ == key_material(subject@, header_values(request)),
        key@ == cache_key_of(subject@, header_values(request)),
        digits@ == hex(bytes@),
        ({
            let listed = vary_of(headers::values_of(header_values(response), "vary"@));
            &&& vary is Some <==> listed is Some
            &&& vary is Some ==> text::texts(vary->0@) == listed->0
        }),
{
}

} // verus!
