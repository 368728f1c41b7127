//! Text handled as sequences of characters: trimming, splitting, ASCII case
//! folding and decimal numbers.
//!
//! Every function here states its result over the character view of its
//! argument, so that the rest of the crate can speak of texts without naming
//! how they are stored.

use vstd::prelude::*;

verus! {

/// `String::push` appends the given character to the end of the string.
pub assume_specification[ String::push ](s: &mut String, c: char)
    ensures
        final(s)@ == old(s)@.push(c),
;

/// What a text becomes when Unicode makes its letters small.
pub uninterp spec fn unicode_lowered(s: Seq<char>) -> Seq<char>;

/// `str::to_lowercase` makes letters small as Unicode defines it, which depends
/// on the text alone. On ASCII that is the ASCII mapping.
pub assume_specification[ str::to_lowercase ](s: &str) -> (r: String)
    ensures
        r@ == unicode_lowered(s@),
        vstd::utf8::is_ascii_chars(s@) ==> r@ == lowered(s@),
;

/// The views of a list of texts.
pub open spec fn texts(list: Seq<String>) -> Seq<Seq<char>> {
    list.map_values(|s: String| s@)
}

/// The view of an optional text.
pub open spec fn text_option(o: Option<String>) -> Option<Seq<char>> {
    match o {
        Some(s) => Some(s@),
        None => None,
    }
}

/// The characters that Unicode lists under `White_Space`.
pub open spec fn is_space(c: char) -> bool {
    ||| '\u{9}' <= c <= '\u{d}'
    ||| c == '\u{20}'
    ||| c == '\u{85}'
    ||| c == '\u{a0}'
    ||| c == '\u{1680}'
    ||| '\u{2000}' <= c <= '\u{200a}'
    ||| c == '\u{2028}'
    ||| c == '\u{2029}'
    ||| c == '\u{202f}'
    ||| c == '\u{205f}'
    ||| c == '\u{3000}'
}

/// A text without the white space at both of its ends.
pub open spec fn trimmed(s: Seq<char>) -> Seq<char>
    decreases s.len(),
{
    if s.len() == 0 {
        s
    } else if is_space(s.first()) {
        trimmed(s.drop_first())
    } else if is_space(s.last()) {
        trimmed(s.drop_last())
    } else {
        s
    }
}

/// An ASCII capital becomes its small letter; other characters stay.
pub open spec fn lower_char(c: char) -> char {
    if 'A' <= c <= 'Z' {
        ((c as u32) + 32) as char
    } else {
        c
    }
}

/// A text with its ASCII capitals made small.
pub open spec fn lowered(s: Seq<char>) -> Seq<char> {
    s.map_values(|c: char| lower_char(c))
}

/// The parts of a text between the occurrences of `sep`. A text without `sep`
/// has one part, itself.
pub open spec fn split(s: Seq<char>, sep: char) -> Seq<Seq<char>>
    decreases s.len(),
{
    if s.len() == 0 {
        seq![s]
    } else {
        let before = split(s.drop_last(), sep);
        if s.last() == sep {
            before.push(Seq::empty())
        } else {
            before.drop_last().push(before.last().push(s.last()))
        }
    }
}

/// The parts of a list, each without the white space around it, the empty ones
/// left out.
pub open spec fn trimmed_parts(parts: Seq<Seq<char>>) -> Seq<Seq<char>>
    decreases parts.len(),
{
    if parts.len() == 0 {
        parts
    } else {
        let before = trimmed_parts(parts.drop_last());
        let part = trimmed(parts.last());
        if part.len() == 0 {
            before
        } else {
            before.push(part)
        }
    }
}

/// The items of a comma-separated list.
pub open spec fn listed(s: Seq<char>) -> Seq<Seq<char>> {
    trimmed_parts(split(s, ','))
}

/// What stands before and after the first occurrence of `sep`.
pub open spec fn cut(s: Seq<char>, sep: char) -> Option<(Seq<char>, Seq<char>)> {
    match s.index_of_first(sep) {
        Some(i) => Some((s.take(i), s.skip(i + 1))),
        None => None,
    }
}

/// Whether `s` begins with `prefix`.
pub open spec fn begins(s: Seq<char>, prefix: Seq<char>) -> bool {
    prefix.len() <= s.len() && s.take(prefix.len() as int) == prefix
}

/// Whether `s` ends with `suffix`.
pub open spec fn ends(s: Seq<char>, suffix: Seq<char>) -> bool {
    suffix.len() <= s.len() && s.skip(s.len() - suffix.len()) == suffix
}

/// What follows `prefix` in a text that begins with it.
pub open spec fn without_prefix(s: Seq<char>, prefix: Seq<char>) -> Option<Seq<char>> {
    if begins(s, prefix) {
        Some(s.skip(prefix.len() as int))
    } else {
        None
    }
}

pub open spec fn is_digit(c: char) -> bool {
    '0' <= c <= '9'
}

/// The number that a row of decimal digits writes.
pub open spec fn digits_value(s: Seq<char>) -> nat
    decreases s.len(),
{
    if s.len() == 0 {
        0
    } else {
        (digits_value(s.drop_last()) * 10 + (s.last() as int - '0' as int)) as nat
    }
}

pub open spec fn all_digits(s: Seq<char>) -> bool {
    forall|i: int| 0 <= i < s.len() ==> is_digit(#[trigger] s[i])
}

/// A text without a plus sign in front.
pub open spec fn unsigned_part(s: Seq<char>) -> Seq<char> {
    if s.len() > 0 && s.first() == '+' {
        s.drop_first()
    } else {
        s
    }
}

/// The unsigned number that a text writes: decimal digits, at least one, with
/// an optional plus sign in front, of a value that 64 bits can hold.
pub open spec fn parsed_u64(s: Seq<char>) -> Option<u64> {
    let digits = unsigned_part(s);
    if digits.len() > 0 && all_digits(digits) && digits_value(digits) <= u64::MAX {
        Some(digits_value(digits) as u64)
    } else {
        None
    }
}

/// The decimal digits of a number.
pub open spec fn decimal(n: nat) -> Seq<char>
    decreases n,
{
    if n < 10 {
        seq![digit_char(n)]
    } else {
        decimal(n / 10).push(digit_char(n % 10))
    }
}

/// The character of a digit below ten.
pub open spec fn digit_char(d: nat) -> char {
    (('0' as int) + d) as char
}

/// Trimming takes nothing in.
pub(crate) proof fn lemma_trimmed_ascii(s: Seq<char>)
    requires
        vstd::utf8::is_ascii_chars(s),
    ensures
        vstd::utf8::is_ascii_chars(trimmed(s)),
    decreases s.len(),
{
    if s.len() > 0 {
        if is_space(s.first()) {
            lemma_trimmed_ascii(s.drop_first());
        } else if is_space(s.last()) {
            lemma_trimmed_ascii(s.drop_last());
        }
    }
}

/// The value of a row of digits does not shrink when digits follow.
proof fn lemma_digits_value_grows(s: Seq<char>, i: int)
    requires
        0 <= i <= s.len(),
        all_digits(s),
    ensures
        digits_value(s.take(i)) <= digits_value(s),
    decreases s.len() - i,
{
    if i < s.len() {
        lemma_digits_value_grows(s, i + 1);
        assert(s.take(i + 1).drop_last() =~= s.take(i));
    } else {
        assert(s.take(i) =~= s);
    }
}

pub(crate) fn chars_of(s: &str) -> (r: Vec<char>)
    ensures
        r@ == s@,
{
    let mut out: Vec<char> = Vec::new();
    for c in it: s.chars()
        invariant
            out@ == it.seq().take(it.index() as int),
            it.seq() == s@,
    {
        out.push(c);
    }
    out
}

/// The text of the characters from `from` up to `to`.
pub(crate) fn text_between(chars: &Vec<char>, from: usize, to: usize) -> (r: String)
    requires
        from <= to <= chars@.len(),
    ensures
        r@ == chars@.subrange(from as int, to as int),
{
    let mut out = String::new();
    let mut i: usize = from;
    while i < to
        invariant
            from <= i <= to <= chars@.len(),
            out@ == chars@.subrange(from as int, i as int),
        decreases to - i,
    {
        out.push(chars[i]);
        i += 1;
    }
    out
}

pub(crate) fn same(a: &str, b: &str) -> (r: bool)
    ensures
        r == (a@ == b@),
{
    a.to_owned() == b.to_owned()
}

pub(crate) fn white_space(c: char) -> (r: bool)
    ensures
        r == is_space(c),
{
    ('\u{9}' <= c && c <= '\u{d}') || c == '\u{20}' || c == '\u{85}' || c == '\u{a0}' || c
        == '\u{1680}' || ('\u{2000}' <= c && c <= '\u{200a}') || c == '\u{2028}' || c == '\u{2029}'
        || c == '\u{202f}' || c == '\u{205f}' || c == '\u{3000}'
}

pub(crate) fn trim(s: &str) -> (r: String)
    ensures
        r@ == trimmed(s@),
{
    let chars = chars_of(s);
    let mut from: usize = 0;
    let mut to: usize = chars.len();
    proof {
        assert(chars@.subrange(0, chars@.len() as int) =~= s@);
    }
    while from < to && white_space(chars[from])
        invariant
            from <= to <= chars@.len(),
            trimmed(chars@.subrange(from as int, to as int)) == trimmed(s@),
        decreases to - from,
    {
        proof {
            assert(chars@.subrange(from as int, to as int).drop_first() =~= chars@.subrange(
                from + 1,
                to as int,
            ));
        }
        from += 1;
    }
    while from < to && white_space(chars[to - 1])
        invariant
            from <= to <= chars@.len(),
            from < to ==> !is_space(chars@[from as int]),
            trimmed(chars@.subrange(from as int, to as int)) == trimmed(s@),
        decreases to - from,
    {
        proof {
            assert(chars@.subrange(from as int, to as int).drop_last() =~= chars@.subrange(
                from as int,
                to - 1,
            ));
        }
        to -= 1;
    }
    text_between(&chars, from, to)
}

pub(crate) fn to_lower_char(c: char) -> (r: char)
    ensures
        r == lower_char(c),
{
    if 'A' <= c && c <= 'Z' {
        ((c as u8) + 32) as char
    } else {
        c
    }
}

pub(crate) fn lower(s: &str) -> (r: String)
    ensures
        r@ == lowered(s@),
{
    let mut out = String::new();
    for c in it: s.chars()
        invariant
            out@ == lowered(it.seq().take(it.index() as int)),
            it.seq() == s@,
    {
        out.push(to_lower_char(c));
        proof {
            let done = it.seq().take(it.index() as int);
            assert(it.seq().take(it.index() + 1) =~= done.push(c));
            assert(lowered(done.push(c)) =~= lowered(done).push(lower_char(c)));
        }
    }
    out
}

/// Whether two texts are equal but for ASCII case.
pub(crate) fn same_ignoring_case(a: &str, b: &str) -> (r: bool)
    ensures
        r == (lowered(a@) == lowered(b@)),
{
    lower(a) == lower(b)
}

pub(crate) fn split_on(s: &str, sep: char) -> (r: Vec<String>)
    ensures
        texts(r@) == split(s@, sep),
        r@.len() > 0,
{
    let mut parts: Vec<String> = Vec::new();
    let mut part = String::new();
    proof {
        assert(s@.take(0) =~= part@);
        assert(split(s@.take(0), sep) =~= seq![part@]);
        assert(texts(parts@).push(part@) =~= seq![part@]);
    }
    for c in it: s.chars()
        invariant
            texts(parts@).push(part@) == split(it.seq().take(it.index() as int), sep),
            it.seq() == s@,
    {
        proof {
            let done = it.seq().take(it.index() as int);
            assert(it.seq().take(it.index() + 1).drop_last() =~= done);
            assert(texts(parts@).push(part@).drop_last() =~= texts(parts@));
        }
        if c == sep {
            let ghost before = parts@;
            let ghost last = part;
            parts.push(part);
            part = String::new();
            proof {
                assert(texts(before.push(last)) =~= texts(before).push(last@));
            }
        } else {
            part.push(c);
        }
    }
    let ghost before = parts@;
    let ghost last = part;
    parts.push(part);
    proof {
        assert(texts(before.push(last)) =~= texts(before).push(last@));
        assert(s@.take(s@.len() as int) =~= s@);
    }
    parts
}

pub(crate) fn list_items(s: &str) -> (r: Vec<String>)
    ensures
        texts(r@) == listed(s@),
{
    let parts = split_on(s, ',');
    let mut items: Vec<String> = Vec::new();
    let mut i: usize = 0;
    proof {
        assert(texts(parts@).take(0) =~= Seq::empty());
        assert(texts(items@) =~= Seq::empty());
    }
    while i < parts.len()
        invariant
            i <= parts@.len(),
            texts(items@) == trimmed_parts(texts(parts@).take(i as int)),
        decreases parts@.len() - i,
    {
        let item = trim(&parts[i]);
        proof {
            let seen = texts(parts@).take(i + 1);
            assert(seen.drop_last() =~= texts(parts@).take(i as int));
            assert(seen.last() == parts@[i as int]@);
        }
        if !item.as_str().is_empty() {
            proof {
                assert(texts(items@.push(item)) =~= texts(items@).push(item@));
            }
            items.push(item);
        }
        i += 1;
    }
    proof {
        assert(texts(parts@).take(parts@.len() as int) =~= texts(parts@));
    }
    items
}

/// Whether a text stands in a list of texts.
pub(crate) fn among(list: &Vec<String>, s: &str) -> (r: bool)
    ensures
        r == texts(list@).contains(s@),
{
    let mut i: usize = 0;
    while i < list.len()
        invariant
            i <= list@.len(),
            forall|k: int| 0 <= k < i ==> (#[trigger] list@[k])@ != s@,
        decreases list@.len() - i,
    {
        if same(&list[i], s) {
            proof {
                assert(texts(list@)[i as int] == s@);
            }
            return true;
        }
        i += 1;
    }
    proof {
        if texts(list@).contains(s@) {
            let k = choose|k: int| 0 <= k < texts(list@).len() && texts(list@)[k] == s@;
            assert(list@[k]@ == s@);
        }
    }
    false
}

/// The position of the first `sep`, or the length where there is none.
pub(crate) fn position(chars: &Vec<char>, sep: char) -> (r: usize)
    ensures
        match chars@.index_of_first(sep) {
            Some(i) => r == i && r < chars@.len(),
            None => r == chars@.len(),
        },
{
    proof {
        chars@.index_of_first_ensures(sep);
    }
    let mut i: usize = 0;
    while i < chars.len()
        invariant
            i <= chars@.len(),
            forall|k: int| 0 <= k < i ==> chars@[k] != sep,
        decreases chars@.len() - i,
    {
        if chars[i] == sep {
            proof {
                chars@.index_of_first_ensures(sep);
            }
            return i;
        }
        i += 1;
    }
    i
}

/// The position of the last `sep`, if there is one.
pub(crate) fn last_position(chars: &Vec<char>, sep: char) -> (r: Option<usize>)
    ensures
        match chars@.index_of_last(sep) {
            Some(i) => r is Some && r->0 == i && r->0 < chars@.len(),
            None => r is None,
        },
{
    proof {
        chars@.index_of_last_ensures(sep);
    }
    let mut i: usize = chars.len();
    while i > 0
        invariant
            i <= chars@.len(),
            forall|k: int| i <= k < chars@.len() ==> chars@[k] != sep,
        decreases i,
    {
        if chars[i - 1] == sep {
            proof {
                chars@.index_of_last_ensures(sep);
            }
            return Some(i - 1);
        }
        i -= 1;
    }
    None
}

pub(crate) fn cut_at(s: &str, sep: char) -> (r: Option<(String, String)>)
    ensures
        match r {
            Some((a, b)) => cut(s@, sep) == Some((a@, b@)),
            None => cut(s@, sep) is None,
        },
{
    let chars = chars_of(s);
    let at = position(&chars, sep);
    proof {
        s@.index_of_first_ensures(sep);
    }
    if at < chars.len() {
        proof {
            assert(s@.subrange(0, at as int) =~= s@.take(at as int));
            assert(s@.subrange(at + 1, s@.len() as int) =~= s@.skip(at + 1));
        }
        Some((text_between(&chars, 0, at), text_between(&chars, at + 1, chars.len())))
    } else {
        None
    }
}

pub(crate) fn has_char(s: &str, c: char) -> (r: bool)
    ensures
        r == s@.contains(c),
{
    let chars = chars_of(s);
    proof {
        s@.index_of_first_ensures(c);
    }
    position(&chars, c) < chars.len()
}

pub(crate) fn strip_prefix(s: &str, prefix: &str) -> (r: Option<String>)
    ensures
        text_option(r) == without_prefix(s@, prefix@),
{
    let chars = chars_of(s);
    let wanted = chars_of(prefix);
    if wanted.len() > chars.len() {
        return None;
    }
    let mut i: usize = 0;
    while i < wanted.len()
        invariant
            i <= wanted@.len() <= chars@.len(),
            chars@ == s@,
            wanted@ == prefix@,
            forall|k: int| 0 <= k < i ==> chars@[k] == wanted@[k],
        decreases wanted@.len() - i,
    {
        if chars[i] != wanted[i] {
            proof {
                assert(s@.take(prefix@.len() as int)[i as int] != prefix@[i as int]);
            }
            return None;
        }
        i += 1;
    }
    proof {
        assert(s@.take(prefix@.len() as int) =~= prefix@);
        assert(s@.subrange(i as int, s@.len() as int) =~= s@.skip(prefix@.len() as int));
    }
    Some(text_between(&chars, i, chars.len()))
}

pub(crate) fn starts_with(s: &str, prefix: &str) -> (r: bool)
    ensures
        r == begins(s@, prefix@),
{
    strip_prefix(s, prefix).is_some()
}

pub(crate) fn parse_u64(s: &str) -> (r: Option<u64>)
    ensures
        r == parsed_u64(s@),
{
    let chars = chars_of(s);
    let start: usize = if chars.len() > 0 && chars[0] == '+' {
        1
    } else {
        0
    };
    let ghost digits = s@.skip(start as int);
    proof {
        assert(s@.skip(0) =~= s@);
        if s@.len() > 0 {
            assert(s@.skip(1) =~= s@.drop_first());
        }
    }
    if start == chars.len() {
        return None;
    }
    let mut value: u64 = 0;
    let mut i: usize = start;
    proof {
        assert(digits.take(0) =~= Seq::empty());
    }
    while i < chars.len()
        invariant
            start <= i <= chars@.len(),
            start <= 1,
            chars@ == s@,
            start < chars@.len(),
            digits == s@.skip(start as int),
            digits == unsigned_part(s@),
            all_digits(digits.take(i - start)),
            value == digits_value(digits.take(i - start)),
        decreases chars@.len() - i,
    {
        let c = chars[i];
        proof {
            assert(c == digits[i - start]);
            if all_digits(digits) {
                assert(is_digit(c));
            }
            assert(digits.take(i - start + 1) =~= digits.take(i - start).push(c));
        }
        if !('0' <= c && c <= '9') {
            return None;
        }
        let digit: u64 = (c as u64) - ('0' as u64);
        proof {
            assert(digits.take(i - start + 1).drop_last() =~= digits.take(i - start));
            assert(digits_value(digits.take(i - start + 1)) == digits_value(
                digits.take(i - start),
            ) * 10 + (c as int - '0' as int));
            if all_digits(digits) {
                lemma_digits_value_grows(digits, i - start + 1);
            }
        }
        match value.checked_mul(10) {
            Some(tens) => match tens.checked_add(digit) {
                Some(next) => {
                    value = next;
                },
                None => {
                    return None;
                },
            },
            None => {
                return None;
            },
        }
        i += 1;
    }
    proof {
        assert(digits.take(digits.len() as int) =~= digits);
    }
    Some(value)
}

pub(crate) fn to_decimal(n: u64) -> (r: String)
    ensures
        r@ == decimal(n as nat),
    decreases n,
{
    let digit = ((n % 10) as u8 + '0' as u8) as char;
    let mut out = if n < 10 {
        String::new()
    } else {
        to_decimal(n / 10)
    };
    out.push(digit);
    proof {
        if n < 10 {
            assert(Seq::<char>::empty().push(digit) =~= seq![digit]);
        }
    }
    out
}

/// The views of a list are those of its texts, one for one.
pub proof fn law_views_of_texts(list: Seq<String>, some: String)
    ensures
        texts(list).len() == list.len(),
        forall|i: int| 0 <= i < list.len() ==> #[trigger] texts(list)[i] == list[i]@,
        text_option(Some(some)) == Some(some@),
        text_option(None) is None,
{
}

/// White space is what Unicode lists as such: the controls from 9 to 13, the blank, the
/// next-line control, and the spaces and separators of other scripts.
pub proof fn law_white_space(c: char)
    ensures
        is_space(c) <==> {
            let code = c as int;
            ||| 9 <= code <= 13
            ||| code == 32 || code == 133 || code == 160 || code == 5760
            ||| 8192 <= code <= 8202
            ||| code == 8232 || code == 8233 || code == 8239 || code == 8287 || code == 12288
        },
{
}

/// Trimming takes off the white space at both ends, all of it, and nothing else.
pub proof fn law_trimmed(before: Seq<char>, middle: Seq<char>, after: Seq<char>)
    requires
        forall|i: int| 0 <= i < before.len() ==> is_space(#[trigger] before[i]),
        forall|i: int| 0 <= i < after.len() ==> is_space(#[trigger] after[i]),
        middle.len() > 0 ==> !is_space(middle.first()) && !is_space(middle.last()),
    ensures
        trimmed(before + middle + after) == middle,
    decreases before.len() + after.len(),
{
    let whole = before + middle + after;
    if before.len() > 0 {
        assert(whole.first() == before[0]);
        assert(whole.drop_first() =~= before.drop_first() + middle + after);
        law_trimmed(before.drop_first(), middle, after);
    } else if after.len() > 0 {
        if middle.len() == 0 {
            assert(whole.first() == after[0]);
            assert(whole.drop_first() =~= before + middle + after.drop_first());
            law_trimmed(before, middle, after.drop_first());
        } else {
            assert(whole.first() == middle.first());
            assert(whole.last() == after.last());
            assert(is_space(after[after.len() - 1]));
            assert(whole.drop_last() =~= before + middle + after.drop_last());
            law_trimmed(before, middle, after.drop_last());
        }
    } else {
        assert(whole =~= middle);
        if middle.len() > 0 {
            assert(whole.first() == middle.first());
            assert(whole.last() == middle.last());
        }
    }
}

/// What is left after trimming has no white space at its ends.
pub proof fn law_trimmed_ends(s: Seq<char>)
    ensures
        trimmed(s).len() > 0 ==> !is_space(trimmed(s).first()) && !is_space(trimmed(s).last()),
        trimmed(trimmed(s)) == trimmed(s),
    decreases s.len(),
{
    if s.len() > 0 {
        if is_space(s.first()) {
            law_trimmed_ends(s.drop_first());
        } else if is_space(s.last()) {
            law_trimmed_ends(s.drop_last());
        }
    }
}

/// Of a text made small, the capitals from `A` to `Z` are 32 places further on, and every
/// other character is where it was.
pub proof fn law_lowered(s: Seq<char>, i: int)
    requires
        0 <= i < s.len(),
    ensures
        lowered(s).len() == s.len(),
        65 <= s[i] as int <= 90 ==> lowered(s)[i] as int == s[i] as int + 32,
        !(65 <= s[i] as int <= 90) ==> lowered(s)[i] == s[i],
        lowered(lowered(s)) == lowered(s),
{
    assert(lowered(lowered(s)) =~= lowered(s));
}

/// A text without the separator is its only part, and the parts of two texts with the
/// separator between them are the parts of the one and then those of the other.
pub proof fn law_split(a: Seq<char>, b: Seq<char>, sep: char)
    ensures
        !a.contains(sep) ==> split(a, sep) == seq![a],
        split(a + seq![sep] + b, sep) == split(a, sep) + split(b, sep),
        split(a, sep).len() > 0,
    decreases b.len(),
{
    lemma_split_parts(a, sep);
    lemma_split_parts(b, sep);
    let whole = a + seq![sep] + b;
    if b.len() == 0 {
        assert(whole.drop_last() =~= a);
        assert(whole.last() == sep);
        assert(split(whole, sep) =~= split(a, sep).push(Seq::empty()));
        assert(b =~= Seq::<char>::empty());
        assert(split(b, sep) =~= seq![Seq::<char>::empty()]);
        assert(split(a, sep).push(Seq::empty()) =~= split(a, sep) + split(b, sep));
    } else {
        let shorter = b.drop_last();
        law_split(a, shorter, sep);
        lemma_split_parts(shorter, sep);
        assert(whole.drop_last() =~= a + seq![sep] + shorter);
        assert(whole.last() == b.last());
        assert(split(whole, sep) =~= split(a, sep) + split(b, sep));
    }
}

proof fn lemma_split_parts(s: Seq<char>, sep: char)
    ensures
        split(s, sep).len() > 0,
        !s.contains(sep) ==> split(s, sep) == seq![s],
    decreases s.len(),
{
    if s.len() > 0 {
        lemma_split_parts(s.drop_last(), sep);
        if !s.contains(sep) {
            assert(s.last() == s[s.len() - 1]);
            assert(!s.drop_last().contains(sep)) by {
                if s.drop_last().contains(sep) {
                    let i = choose|i: int| 0 <= i < s.drop_last().len() && s.drop_last()[i] == sep;
                    assert(s[i] == sep);
                }
            }
            assert(s.drop_last().push(s.last()) =~= s);
            assert(split(s, sep) =~= seq![s]);
        }
    }
}

/// The items of two lists with a comma between them are the items of the one and then those
/// of the other; a text without a comma is one item, trimmed, or none where nothing is left.
pub proof fn law_listed(a: Seq<char>, b: Seq<char>)
    ensures
        listed(a + seq![','] + b) == listed(a) + listed(b),
        !a.contains(',') && trimmed(a).len() > 0 ==> listed(a) == seq![trimmed(a)],
        !a.contains(',') && trimmed(a).len() == 0 ==> listed(a).len() == 0,
{
    law_split(a, b, ',');
    lemma_trimmed_parts(split(a, ','), split(b, ','));
    if !a.contains(',') {
        assert(seq![a].drop_last() =~= Seq::empty());
        assert(trimmed_parts(Seq::empty()) =~= Seq::empty());
        if trimmed(a).len() > 0 {
            assert(listed(a) =~= seq![trimmed(a)]);
        }
    }
}

proof fn lemma_trimmed_parts(a: Seq<Seq<char>>, b: Seq<Seq<char>>)
    ensures
        trimmed_parts(a + b) == trimmed_parts(a) + trimmed_parts(b),
    decreases b.len(),
{
    if b.len() == 0 {
        assert(a + b =~= a);
        assert(trimmed_parts(a) + trimmed_parts(b) =~= trimmed_parts(a));
    } else {
        lemma_trimmed_parts(a, b.drop_last());
        assert((a + b).drop_last() =~= a + b.drop_last());
        assert((a + b).last() == b.last());
        assert(trimmed_parts(a + b) =~= trimmed_parts(a) + trimmed_parts(b));
    }
}

/// A text is cut at the first occurrence of the separator, which is in neither half's
/// front; a text without it is not cut.
pub proof fn law_cut(a: Seq<char>, b: Seq<char>, sep: char)
    requires
        !a.contains(sep),
    ensures
        cut(a + seq![sep] + b, sep) == Some((a, b)),
        cut(a, sep) is None,
{
    let whole = a + seq![sep] + b;
    let at = a.len() as int;
    assert(whole[at] == sep);
    assert forall|i: int| 0 <= i < at implies #[trigger] whole[i] != sep by {
        assert(a.contains(a[i]));
    }
    whole.index_of_first_ensures(sep);
    assert(whole.contains(whole[at]));
    assert(whole.take(at) =~= a);
    assert(whole.skip(at + 1) =~= b);
    a.index_of_first_ensures(sep);
}

/// A text begins with a prefix exactly when it is the prefix and something behind it, and
/// that is what is left without the prefix. In the same way a text ends with a suffix.
pub proof fn law_prefix_and_suffix(s: Seq<char>, part: Seq<char>, rest: Seq<char>)
    ensures
        s == part + rest ==> begins(s, part) && without_prefix(s, part) == Some(rest),
        begins(s, part) ==> s == part + s.skip(part.len() as int),
        !begins(s, part) ==> without_prefix(s, part) is None,
        s == rest + part ==> ends(s, part),
        ends(s, part) ==> s == s.take(s.len() - part.len()) + part,
{
    if s == part + rest {
        assert(s.take(part.len() as int) =~= part);
        assert(s.skip(part.len() as int) =~= rest);
    }
    if begins(s, part) {
        assert(s =~= part + s.skip(part.len() as int));
    }
    if s == rest + part {
        assert(s.skip(s.len() - part.len()) =~= part);
    }
    if ends(s, part) {
        assert(s =~= s.take(s.len() - part.len()) + part);
    }
}

/// A number is read digit by digit: a digit behind a number makes it ten times as large and
/// the digit more, as far as 64 bits can hold that.
pub proof fn law_numbers_are_read(s: Seq<char>, digit: char)
    requires
        '0' <= digit <= '9',
    ensures
        parsed_u64(seq![digit]) == Some((digit as int - 48) as u64),
        parsed_u64(seq!['+', digit]) == Some((digit as int - 48) as u64),
        parsed_u64(s) is Some ==> parsed_u64(s.push(digit)) == (if parsed_u64(s)->0 * 10 + (
        digit as int - 48) <= 0xffff_ffff_ffff_ffff {
            Some((parsed_u64(s)->0 * 10 + (digit as int - 48)) as u64)
        } else {
            None::<u64>
        }),
{
    let one = seq![digit];
    assert(one.drop_last() =~= Seq::empty());
    assert(digits_value(one) == digit as int - 48) by {
        assert(digits_value(Seq::<char>::empty()) == 0);
    }
    assert(seq!['+', digit].drop_first() =~= one);
    if parsed_u64(s) is Some {
        let digits = unsigned_part(s);
        assert(unsigned_part(s.push(digit)) =~= digits.push(digit));
        assert(digits.push(digit).drop_last() =~= digits);
        assert forall|i: int| 0 <= i < digits.push(digit).len() implies is_digit(
            #[trigger] digits.push(digit)[i],
        ) by {
            if i < digits.len() {
                assert(is_digit(digits[i]));
            }
        }
    }
}

/// What holds no digit, or anything but digits behind a plus sign, or more than 64 bits can
/// hold, is no number; further digits do not make it one that can be held.
pub proof fn law_other_texts_are_no_numbers(s: Seq<char>, i: int, digit: char)
    ensures
        parsed_u64(Seq::empty()) is None,
        parsed_u64(seq!['+']) is None,
        0 <= i < s.len() && !('0' <= s[i] <= '9') && !(i == 0 && s[i] == '+')
            ==> parsed_u64(s) is None,
        s.len() > 0 && parsed_u64(s) is None && (forall|k: int|
            0 <= k < s.len() ==> '0' <= #[trigger] s[k] <= '9') && '0' <= digit <= '9'
            ==> parsed_u64(s.push(digit)) is None,
{
    assert(seq!['+'].drop_first() =~= Seq::empty());
    if 0 <= i < s.len() && !('0' <= s[i] <= '9') && !(i == 0 && s[i] == '+') {
        let digits = unsigned_part(s);
        if s.first() == '+' {
            assert(digits[i - 1] == s[i]);
        } else {
            assert(digits[i] == s[i]);
        }
    }
    if s.len() > 0 && parsed_u64(s) is None && (forall|k: int|
        0 <= k < s.len() ==> '0' <= #[trigger] s[k] <= '9') && '0' <= digit <= '9' {
        assert('0' <= s[0] <= '9');
        assert(unsigned_part(s) == s);
        assert(all_digits(s));
        assert(s.push(digit).drop_last() =~= s);
        assert(s.push(digit)[0] == s[0]);
    }
}

/// A number is written in decimal digits, without a zero in front unless it is zero, and
/// what is written is read as the same number.
pub proof fn law_numbers_are_written(n: u64, i: int)
    ensures
        parsed_u64(decimal(n as nat)) == Some(n),
        0 <= i < decimal(n as nat).len() ==> '0' <= decimal(n as nat)[i] <= '9',
        decimal(n as nat).len() > 1 ==> decimal(n as nat).first() != '0',
{
    lemma_decimal(n as nat);
    let digits = decimal(n as nat);
    assert(is_digit(digits[0]));
    if 0 <= i < digits.len() {
        assert(is_digit(digits[i]));
    }
}

pub(crate) proof fn lemma_decimal(n: nat)
    ensures
        decimal(n).len() > 0,
        all_digits(decimal(n)),
        digits_value(decimal(n)) == n,
        n > 0 ==> decimal(n).first() != '0',
        n >= 10 <==> decimal(n).len() > 1,
    decreases n,
{
    if n < 10 {
        assert(decimal(n).drop_last() =~= Seq::empty());
        assert(digits_value(Seq::<char>::empty()) == 0);
        assert(decimal(n)[0] == digit_char(n));
    } else {
        lemma_decimal(n / 10);
        let before = decimal(n / 10);
        assert(decimal(n).drop_last() =~= before);
        assert forall|i: int| 0 <= i < decimal(n).len() implies is_digit(
            #[trigger] decimal(n)[i],
        ) by {
            if i < before.len() {
                assert(is_digit(before[i]));
            }
        }
        assert(decimal(n).first() == before.first());
    }
}

} // verus!
