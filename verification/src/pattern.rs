//! Regular expressions and wildcard patterns.
//!
//! A [`Program`] is a regular expression compiled by the [`regex`] crate,
//! together with the text and the options that it was compiled from. It can
//! only be made by [`Program::compile`].

use vstd::prelude::*;

use crate::text;
use crate::text::{chars_of, last_position, split_on, text_between};

verus! {

/// The outside type of compiled regular expressions.
#[verifier::external_type_specification]
#[verifier::external_body]
pub struct ExRegex(regex::Regex);

/// How a regular expression is to be read.
#[derive(Clone, Copy, Debug, PartialEq, Eq, Structural)]
pub struct RegexOptions {
    /// Letters match in either case.
    pub case_insensitive: bool,
    /// `^` and `$` match at line ends too.
    pub multi_line: bool,
    /// `.` matches a line feed too.
    pub dot_matches_new_line: bool,
    /// White space in the expression is skipped.
    pub ignore_whitespace: bool,
}

/// All options off.
pub open spec fn plain_options() -> RegexOptions {
    RegexOptions {
        case_insensitive: false,
        multi_line: false,
        dot_matches_new_line: false,
        ignore_whitespace: false,
    }
}

impl RegexOptions {
    /// All options off.
    pub fn plain() -> (r: RegexOptions)
        ensures
            r == plain_options(),
    {
        RegexOptions {
            case_insensitive: false,
            multi_line: false,
            dot_matches_new_line: false,
            ignore_whitespace: false,
        }
    }
}

/// A compiled regular expression.
#[derive(Debug)]
pub struct Program {
    source: String,
    options: RegexOptions,
    compiled: regex::Regex,
}

/// What a compiled regular expression was compiled from.
pub struct ProgramView {
    pub source: Seq<char>,
    pub options: RegexOptions,
}

impl View for Program {
    type V = ProgramView;

    closed spec fn view(&self) -> ProgramView {
        ProgramView { source: self.source@, options: self.options }
    }
}

/// What the compiler has to say against a regular expression: nothing, where it
/// compiles.
pub uninterp spec fn regex_complaint(source: Seq<char>, options: RegexOptions) -> Option<Seq<char>>;

/// Whether a regular expression matches somewhere in a text.
pub uninterp spec fn regex_matches(
    source: Seq<char>,
    options: RegexOptions,
    subject: Seq<char>,
) -> bool;

/// The characters that mean something in a regular expression.
pub open spec fn is_meta(c: char) -> bool {
    ||| c == '\\' || c == '.' || c == '+' || c == '*' || c == '?' || c == '(' || c == ')'
    ||| c == '|' || c == '[' || c == ']' || c == '{' || c == '}' || c == '^' || c == '$'
    ||| c == '#' || c == '&' || c == '-' || c == '~'
}

/// A text with a backslash in front of each character that means something in a
/// regular expression.
pub open spec fn escaped(s: Seq<char>) -> Seq<char>
    decreases s.len(),
{
    if s.len() == 0 {
        s
    } else if is_meta(s.last()) {
        escaped(s.drop_last()).push('\\').push(s.last())
    } else {
        escaped(s.drop_last()).push(s.last())
    }
}

/// Escaped parts with `.*` between them.
pub open spec fn escaped_parts(parts: Seq<Seq<char>>) -> Seq<char>
    decreases parts.len(),
{
    if parts.len() == 0 {
        Seq::empty()
    } else if parts.len() == 1 {
        escaped(parts[0])
    } else {
        escaped_parts(parts.drop_last()) + ".*"@ + escaped(parts.last())
    }
}

/// The regular expression of a wildcard pattern: anchored at both ends, `.*` for
/// each `*`, everything else to be taken literally.
pub open spec fn glob_source(pattern: Seq<char>) -> Seq<char> {
    "^"@ + escaped_parts(text::split(pattern, '*')) + "$"@
}

/// Whether a text fits a wildcard pattern, in which `*` stands for any sequence
/// of characters, none included, and every other character for itself.
pub open spec fn glob_matches(pattern: Seq<char>, subject: Seq<char>) -> bool
    decreases pattern.len(), subject.len(),
{
    if pattern.len() == 0 {
        subject.len() == 0
    } else if pattern.first() == '*' {
        ||| glob_matches(pattern.drop_first(), subject)
        ||| subject.len() > 0 && glob_matches(pattern, subject.drop_first())
    } else {
        subject.len() > 0 && subject.first() == pattern.first() && glob_matches(
            pattern.drop_first(),
            subject.drop_first(),
        )
    }
}

/// Whether a text is within ASCII and has no line feed.
pub open spec fn is_ascii_line(s: Seq<char>) -> bool {
    forall|i: int| 0 <= i < s.len() ==> #[trigger] s[i] <= '\u{7f}' && s[i] != '\n'
}

/// `regex::escape` puts a backslash in front of each meta character.
#[verifier::external_body]
pub(crate) fn escape(s: &str) -> (r: String)
    ensures
        r@ == escaped(s@),
{
    regex::escape(s)
}

impl Program {
    /// `RegexBuilder::build`, with the four options set as given. Whether it
    /// fails, and with what error text, depends on the expression and the
    /// options alone.
    #[verifier::external_body]
    pub(crate) fn compile(source: &str, options: RegexOptions) -> (r: Result<Program, String>)
        ensures
            match r {
                Ok(program) => {
                    &&& regex_complaint(source@, options) is None
                    &&& program@ == (ProgramView { source: source@, options })
                },
                Err(complaint) => regex_complaint(source@, options) == Some(complaint@),
            },
    {
        regex::RegexBuilder::new(source)
            .case_insensitive(options.case_insensitive)
            .multi_line(options.multi_line)
            .dot_matches_new_line(options.dot_matches_new_line)
            .ignore_whitespace(options.ignore_whitespace)
            .build()
            .map(|compiled| Program { source: source.to_string(), options, compiled })
            .map_err(|error| error.to_string())
    }

    /// `Regex::is_match`, whose answer depends on what was compiled and on the
    /// text alone.
    ///
    /// Of the expression of a wildcard pattern the syntax of the crate says more:
    /// `^` and `$` hold at the two ends, `.*` takes any characters but line
    /// feeds, an escaped character takes itself; where case is ignored, an ASCII
    /// letter takes no other ASCII character than itself in either case.
    #[verifier::external_body]
    pub(crate) fn is_match(&self, subject: &str) -> (r: bool)
        ensures
            r == regex_matches(self@.source, self@.options, subject@),
            forall|pattern: Seq<char>|
                self@.source == #[trigger] glob_source(pattern) && self@.options == plain_options()
                    && is_ascii_line(subject@) ==> r == glob_matches(pattern, subject@),
            forall|pattern: Seq<char>|
                self@.source == #[trigger] glob_source(pattern) && self@.options == (RegexOptions {
                    case_insensitive: true,
                    ..plain_options()
                }) && vstd::utf8::is_ascii_chars(pattern) && is_ascii_line(subject@) ==> r
                    == glob_matches(text::lowered(pattern), text::lowered(subject@)),
    {
        self.compiled.is_match(subject)
    }
}

/// The body and the flags of a text between slashes, such as `/body/flags`. The
/// last slash ends the body.
pub open spec fn slashed(s: Seq<char>) -> Option<(Seq<char>, Seq<char>)> {
    if s.len() == 0 || s.first() != '/' {
        None
    } else {
        match s.index_of_last('/') {
            Some(close) => if close > 0 {
                Some((s.subrange(1, close), s.skip(close + 1)))
            } else {
                None
            },
            None => None,
        }
    }
}

/// What a flag adds to the options, if it is one.
pub open spec fn with_flag(options: RegexOptions, flag: char) -> Option<RegexOptions> {
    if flag == 'i' {
        Some(RegexOptions { case_insensitive: true, ..options })
    } else if flag == 'm' {
        Some(RegexOptions { multi_line: true, ..options })
    } else if flag == 's' {
        Some(RegexOptions { dot_matches_new_line: true, ..options })
    } else if flag == 'x' {
        Some(RegexOptions { ignore_whitespace: true, ..options })
    } else {
        None
    }
}

/// The options that a row of flags sets, or the first character in it that is no
/// flag.
pub open spec fn flagged(flags: Seq<char>) -> Result<RegexOptions, char>
    decreases flags.len(),
{
    if flags.len() == 0 {
        Ok(plain_options())
    } else {
        match flagged(flags.drop_last()) {
            Ok(options) => match with_flag(options, flags.last()) {
                Some(more) => Ok(more),
                None => Err(flags.last()),
            },
            Err(unknown) => Err(unknown),
        }
    }
}

/// The complaint about a character that is no flag.
pub open spec fn flag_complaint(unknown: char) -> Seq<char> {
    "unknown regex flag `"@ + seq![unknown] + "`"@
}

pub(crate) fn split_slashed(s: &str) -> (r: Option<(String, String)>)
    ensures
        match r {
            Some((body, flags)) => slashed(s@) == Some((body@, flags@)),
            None => slashed(s@) is None,
        },
{
    let chars = chars_of(s);
    let len: usize = chars.len();
    proof {
        s@.index_of_last_ensures('/');
    }
    match last_position(&chars, '/') {
        Some(close) => if close > 0 && chars[0] == '/' {
            proof {
                assert(s@.subrange(close + 1, s@.len() as int) =~= s@.skip(close + 1));
            }
            Some((text_between(&chars, 1, close), text_between(&chars, close + 1, len)))
        } else {
            None
        },
        None => None,
    }
}

pub(crate) fn read_flags(flags: &str) -> (r: Result<RegexOptions, char>)
    ensures
        r == flagged(flags@),
{
    let chars = chars_of(flags);
    let mut options = RegexOptions::plain();
    let mut i: usize = 0;
    proof {
        assert(chars@.take(0) =~= Seq::empty());
    }
    while i < chars.len()
        invariant
            i <= chars@.len(),
            chars@ == flags@,
            flagged(chars@.take(i as int)) == Ok::<RegexOptions, char>(options),
        decreases chars@.len() - i,
    {
        let flag = chars[i];
        proof {
            assert(chars@.take(i + 1).drop_last() =~= chars@.take(i as int));
        }
        if flag == 'i' {
            options.case_insensitive = true;
        } else if flag == 'm' {
            options.multi_line = true;
        } else if flag == 's' {
            options.dot_matches_new_line = true;
        } else if flag == 'x' {
            options.ignore_whitespace = true;
        } else {
            proof {
                lemma_unknown_flag(chars@, i as int);
            }
            return Err(flag);
        }
        i += 1;
    }
    proof {
        assert(chars@.take(chars@.len() as int) =~= chars@);
    }
    Ok(options)
}

/// The first character that is no flag decides, whatever follows it.
proof fn lemma_unknown_flag(flags: Seq<char>, i: int)
    requires
        0 <= i < flags.len(),
        flagged(flags.take(i + 1)) is Err,
    ensures
        flagged(flags) == flagged(flags.take(i + 1)),
    decreases flags.len(),
{
    if i + 1 == flags.len() {
        assert(flags.take(i + 1) =~= flags);
    } else {
        assert(flags.drop_last().take(i + 1) =~= flags.take(i + 1));
        lemma_unknown_flag(flags.drop_last(), i);
    }
}

pub(crate) fn complain_of_flag(unknown: char) -> (r: String)
    ensures
        r@ == flag_complaint(unknown),
{
    let mut out = String::new();
    out.append("unknown regex flag `");
    out.push(unknown);
    out.append("`");
    proof {
        assert(out@ =~= flag_complaint(unknown));
    }
    out
}

/// Convert a wildcard pattern into the source of an anchored regular expression.
///
/// `*` becomes `.*`; all other characters are escaped so that those which mean
/// something in a regular expression are taken literally.
pub(crate) fn wildcard_to_regex(pattern: &str) -> (r: String)
    ensures
        r@ == glob_source(pattern@),
{
    let parts = split_on(pattern, '*');
    let ghost views = text::texts(parts@);
    let mut out = String::new();
    out.append("^");
    out.append(&escape(&parts[0]));
    let mut i: usize = 1;
    proof {
        assert(views.take(1).len() == 1);
        assert(out@ =~= "^"@ + escaped_parts(views.take(1)));
    }
    while i < parts.len()
        invariant
            1 <= i <= parts@.len(),
            views == text::texts(parts@),
            out@ == "^"@ + escaped_parts(views.take(i as int)),
        decreases parts@.len() - i,
    {
        out.append(".*");
        out.append(&escape(&parts[i]));
        proof {
            assert(views.take(i + 1).drop_last() =~= views.take(i as int));
            assert(views.take(i + 1).last() == parts@[i as int]@);
            assert(out@ =~= "^"@ + escaped_parts(views.take(i + 1)));
        }
        i += 1;
    }
    out.append("$");
    proof {
        assert(views.take(parts@.len() as int) =~= views);
    }
    out
}

/// A text without stars fits only itself.
pub(crate) proof fn lemma_literal(literal: Seq<char>, subject: Seq<char>)
    requires
        !literal.contains('*'),
    ensures
        glob_matches(literal, subject) <==> subject == literal,
    decreases literal.len(),
{
    if literal.len() == 0 {
        if subject.len() == 0 {
            assert(subject =~= literal);
        }
    } else {
        assert(literal.contains(literal[0]));
        assert forall|i: int| 0 <= i < literal.drop_first().len() implies
            #[trigger] literal.drop_first()[i] != '*' by {
            assert(literal.contains(literal[i + 1]));
        }
        if subject.len() > 0 {
            lemma_literal(literal.drop_first(), subject.drop_first());
            if subject.first() == literal.first() && subject.drop_first() == literal.drop_first() {
                assert(subject =~= seq![subject.first()] + subject.drop_first());
                assert(literal =~= seq![literal.first()] + literal.drop_first());
            }
        }
    }
}

/// A pattern that begins with its only star fits the texts that end with what follows the
/// star: `*.example.com` fits every subdomain of `example.com`, at any depth, and nothing
/// else.
pub proof fn law_leading_star(literal: Seq<char>, subject: Seq<char>)
    requires
        !literal.contains('*'),
    ensures
        glob_matches(seq!['*'] + literal, subject) <==> text::ends(subject, literal),
    decreases subject.len(),
{
    let pattern = seq!['*'] + literal;
    assert(pattern.drop_first() =~= literal);
    lemma_literal(literal, subject);
    if subject.len() == 0 {
        assert(subject.skip(0) =~= subject);
    } else {
        law_leading_star(literal, subject.drop_first());
        if subject == literal {
            assert(subject.skip(0) =~= subject);
        }
        if literal.len() < subject.len() {
            let at = subject.len() - literal.len();
            assert(subject.skip(at) =~= subject.drop_first().skip(at - 1));
        } else if literal.len() == subject.len() {
            assert(subject.skip(0) =~= subject);
        }
    }
}

/// A star stands for any sequence of characters: a text fits two patterns with a star
/// between them exactly when its front fits the one and its end the other, whatever stands
/// between these.
pub proof fn law_star(a: Seq<char>, b: Seq<char>, subject: Seq<char>)
    ensures
        glob_matches(a + seq!['*'] + b, subject) <==> exists|i: int, j: int|
            0 <= i <= j <= subject.len() && #[trigger] glob_matches(a, subject.take(i))
                && #[trigger] glob_matches(b, subject.skip(j)),
{
    let starred = seq!['*'] + b;
    let whole = a + seq!['*'] + b;
    assert(whole =~= a + starred);
    assert(starred.drop_first() =~= b);
    if glob_matches(whole, subject) {
        let i = lemma_glob_parts(a, starred, subject);
        let rest = subject.skip(i);
        let k = lemma_star_part(b, rest);
        assert(rest.skip(k) =~= subject.skip(i + k));
        assert(glob_matches(a, subject.take(i)) && glob_matches(b, subject.skip(i + k)));
    }
    if exists|i: int, j: int|
        0 <= i <= j <= subject.len() && #[trigger] glob_matches(a, subject.take(i))
            && #[trigger] glob_matches(b, subject.skip(j)) {
        let (i, j) = choose|i: int, j: int|
            0 <= i <= j <= subject.len() && #[trigger] glob_matches(a, subject.take(i))
                && #[trigger] glob_matches(b, subject.skip(j));
        let middle = subject.subrange(i, j);
        lemma_star_takes(b, middle, subject.skip(j));
        lemma_globs_together(a, starred, subject.take(i), middle + subject.skip(j));
        assert(subject.take(i) + (middle + subject.skip(j)) =~= subject);
    }
}

proof fn lemma_star_takes(b: Seq<char>, middle: Seq<char>, end: Seq<char>)
    requires
        glob_matches(b, end),
    ensures
        glob_matches(seq!['*'] + b, middle + end),
    decreases middle.len(),
{
    let starred = seq!['*'] + b;
    assert(starred.drop_first() =~= b);
    if middle.len() == 0 {
        assert(middle + end =~= end);
    } else {
        lemma_star_takes(b, middle.drop_first(), end);
        assert((middle + end).drop_first() =~= middle.drop_first() + end);
    }
}

proof fn lemma_globs_together(a: Seq<char>, c: Seq<char>, x: Seq<char>, y: Seq<char>)
    requires
        glob_matches(a, x),
        glob_matches(c, y),
    ensures
        glob_matches(a + c, x + y),
    decreases a.len(), x.len(),
{
    if a.len() == 0 {
        assert(a + c =~= c);
        assert(x + y =~= y);
    } else {
        assert((a + c).first() == a.first());
        assert((a + c).drop_first() =~= a.drop_first() + c);
        if x.len() > 0 {
            assert((x + y).drop_first() =~= x.drop_first() + y);
        }
        if a.first() == '*' {
            if glob_matches(a.drop_first(), x) {
                lemma_globs_together(a.drop_first(), c, x, y);
            } else {
                lemma_globs_together(a, c, x.drop_first(), y);
            }
        } else {
            lemma_globs_together(a.drop_first(), c, x.drop_first(), y);
        }
    }
}

proof fn lemma_glob_parts(a: Seq<char>, c: Seq<char>, s: Seq<char>) -> (i: int)
    requires
        glob_matches(a + c, s),
    ensures
        0 <= i <= s.len(),
        glob_matches(a, s.take(i)),
        glob_matches(c, s.skip(i)),
    decreases a.len(), s.len(),
{
    if a.len() == 0 {
        assert(a + c =~= c);
        assert(s.skip(0) =~= s);
        0
    } else {
        assert((a + c).first() == a.first());
        assert((a + c).drop_first() =~= a.drop_first() + c);
        if a.first() == '*' && glob_matches(a.drop_first() + c, s) {
            let i = lemma_glob_parts(a.drop_first(), c, s);
            i
        } else {
            let rest = s.drop_first();
            let k = if a.first() == '*' {
                lemma_glob_parts(a, c, rest)
            } else {
                lemma_glob_parts(a.drop_first(), c, rest)
            };
            assert(s.take(k + 1).drop_first() =~= rest.take(k));
            assert(s.take(k + 1).first() == s.first());
            assert(s.skip(k + 1) =~= rest.skip(k));
            k + 1
        }
    }
}

proof fn lemma_star_part(b: Seq<char>, s: Seq<char>) -> (k: int)
    requires
        glob_matches(seq!['*'] + b, s),
    ensures
        0 <= k <= s.len(),
        glob_matches(b, s.skip(k)),
    decreases s.len(),
{
    let starred = seq!['*'] + b;
    assert(starred.drop_first() =~= b);
    if glob_matches(b, s) {
        assert(s.skip(0) =~= s);
        0
    } else {
        let k = lemma_star_part(b, s.drop_first());
        assert(s.skip(k + 1) =~= s.drop_first().skip(k));
        k + 1
    }
}

/// A pattern without stars fits itself and nothing else.
pub proof fn law_literals(literal: Seq<char>, subject: Seq<char>)
    requires
        !literal.contains('*'),
    ensures
        glob_matches(literal, subject) <==> subject == literal,
{
    lemma_literal(literal, subject);
}

/// The expression of a wildcard is anchored at both ends; a star between two wildcards
/// becomes `.*` between theirs; and of a wildcard without stars every character is there,
/// with a backslash before each that would mean something.
pub proof fn law_wildcard_expression(a: Seq<char>, b: Seq<char>, c: char)
    ensures
        ({
            let inner = |w: Seq<char>| glob_source(w).subrange(1, glob_source(w).len() - 1);
            let meta = seq![
                '\\',
                '.',
                '+',
                '*',
                '?',
                '(',
                ')',
                '|',
                '[',
                ']',
                '{',
                '}',
                '^',
                '$',
                '#',
                '&',
                '-',
                '~',
            ];
            &&& glob_source(a).len() >= 2
            &&& glob_source(a).first() == '^'
            &&& glob_source(a).last() == '$'
            &&& inner(a + seq!['*'] + b) == inner(a) + seq!['.', '*'] + inner(b)
            &&& inner(Seq::empty()).len() == 0
            &&& !a.contains('*') && c != '*' ==> inner(a.push(c)) == inner(a) + (if meta.contains(
                c,
            ) {
                seq!['\\', c]
            } else {
                seq![c]
            })
        }),
{
    reveal_strlit("^");
    reveal_strlit("$");
    reveal_strlit(".*");
    assert(".*"@ =~= seq!['.', '*']);
    let inner = |w: Seq<char>| glob_source(w).subrange(1, glob_source(w).len() - 1);
    assert forall|w: Seq<char>| #[trigger] inner(w) == escaped_parts(text::split(w, '*')) by {
        assert(glob_source(w).subrange(1, glob_source(w).len() - 1) =~= escaped_parts(
            text::split(w, '*'),
        ));
    }
    text::law_split(a, b, '*');
    text::law_split(b, b, '*');
    lemma_escaped_parts(text::split(a, '*'), text::split(b, '*'));
    let none = Seq::<char>::empty();
    text::law_split(none, none, '*');
    assert(text::split(none, '*') =~= seq![none]);
    assert(inner(none) == escaped(none));
    assert(inner(a + seq!['*'] + b) =~= inner(a) + seq!['.', '*'] + inner(b));
    if !a.contains('*') && c != '*' {
        let more = a.push(c);
        assert(!more.contains('*')) by {
            if more.contains('*') {
                let i = choose|i: int| 0 <= i < more.len() && more[i] == '*';
                if i < a.len() {
                    assert(a[i] == '*');
                }
            }
        }
        text::law_split(more, b, '*');
        assert(inner(a) == escaped(a));
        assert(inner(more) == escaped(more));
        assert(more.drop_last() =~= a);
        let meta = seq![
            '\\',
            '.',
            '+',
            '*',
            '?',
            '(',
            ')',
            '|',
            '[',
            ']',
            '{',
            '}',
            '^',
            '$',
            '#',
            '&',
            '-',
            '~',
        ];
        assert(meta.contains(c) == is_meta(c)) by {
            if is_meta(c) {
                assert(c == meta[0] || c == meta[1] || c == meta[2] || c == meta[3] || c == meta[4]
                    || c == meta[5] || c == meta[6] || c == meta[7] || c == meta[8] || c == meta[9]
                    || c == meta[10] || c == meta[11] || c == meta[12] || c == meta[13] || c
                    == meta[14] || c == meta[15] || c == meta[16] || c == meta[17]);
            }
        }
        assert(escaped(more) =~= escaped(a) + (if meta.contains(c) {
            seq!['\\', c]
        } else {
            seq![c]
        }));
    }
}

proof fn lemma_escaped_parts(a: Seq<Seq<char>>, b: Seq<Seq<char>>)
    requires
        a.len() > 0,
        b.len() > 0,
    ensures
        escaped_parts(a + b) == escaped_parts(a) + ".*"@ + escaped_parts(b),
    decreases b.len(),
{
    let all = a + b;
    assert(all.drop_last() =~= a + b.drop_last());
    assert(all.last() == b.last());
    if b.len() == 1 {
        assert(a + b.drop_last() =~= a);
        assert(b.last() == b[0]);
    } else {
        lemma_escaped_parts(a, b.drop_last());
        assert(escaped_parts(all) =~= escaped_parts(a) + ".*"@ + escaped_parts(b));
    }
}

/// Flags are read in any order and any number: each sets the option that it stands for and
/// no other, and a row with anything else in it is refused for the first thing that is no
/// flag.
pub proof fn law_flags(flags: Seq<char>, i: int)
    ensures
        flagged(flags) is Ok <==> forall|k: int|
            0 <= k < flags.len() ==> (#[trigger] flags[k]) == 'i' || flags[k] == 'm' || flags[k]
                == 's' || flags[k] == 'x',
        flagged(flags) is Ok ==> flagged(flags)->Ok_0 == (RegexOptions {
            case_insensitive: flags.contains('i'),
            multi_line: flags.contains('m'),
            dot_matches_new_line: flags.contains('s'),
            ignore_whitespace: flags.contains('x'),
        }),
        0 <= i < flags.len() && flags[i] != 'i' && flags[i] != 'm' && flags[i] != 's' && flags[i]
            != 'x' && (forall|k: int|
            0 <= k < i ==> (#[trigger] flags[k]) == 'i' || flags[k] == 'm' || flags[k] == 's'
                || flags[k] == 'x') ==> flagged(flags) == Err::<RegexOptions, char>(flags[i]),
    decreases flags.len(),
{
    if flags.len() > 0 {
        let before = flags.drop_last();
        law_flags(before, i);
        let last = flags[flags.len() - 1];
        assert(forall|k: int| 0 <= k < before.len() ==> flags[k] == #[trigger] before[k]);
        if flagged(flags) is Ok {
            assert forall|k: int| 0 <= k < flags.len() implies (#[trigger] flags[k]) == 'i'
                || flags[k] == 'm' || flags[k] == 's' || flags[k] == 'x' by {
                if k < before.len() {
                    assert(before[k] == flags[k]);
                }
            }
        }
        assert forall|c: char| #[trigger]
            flags.contains(c) == (before.contains(c) || last == c) by {
            if flags.contains(c) {
                let k = choose|k: int| 0 <= k < flags.len() && flags[k] == c;
                if k < before.len() {
                    assert(before[k] == c);
                }
            }
            if before.contains(c) {
                let k = choose|k: int| 0 <= k < before.len() && before[k] == c;
                assert(flags[k] == c);
            }
        }
    }
}

/// The text between the first slash and the last is the expression, and the flags follow; a
/// text that does not begin with a slash, or has no other, is none.
pub proof fn law_slashes(body: Seq<char>, flags: Seq<char>)
    requires
        !flags.contains('/'),
    ensures
        slashed(seq!['/'] + body + seq!['/'] + flags) == Some((body, flags)),
        slashed(seq!['/'] + flags) is None,
        body.len() == 0 || body.first() != '/' ==> slashed(body) is None,
{
    let whole = seq!['/'] + body + seq!['/'] + flags;
    let close = body.len() as int + 1;
    whole.index_of_last_ensures('/');
    assert(whole[close] == '/');
    assert(whole.contains(whole[close]));
    assert forall|j: int| close < j < whole.len() implies #[trigger] whole[j] != '/' by {
        assert(flags.contains(flags[j - close - 1]));
    }
    assert(whole.index_of_last('/') == Some(close));
    assert(whole.subrange(1, close) =~= body);
    assert(whole.skip(close + 1) =~= flags);
    let lone = seq!['/'] + flags;
    lone.index_of_last_ensures('/');
    assert forall|j: int| 0 < j < lone.len() implies #[trigger] lone[j] != '/' by {
        assert(flags.contains(flags[j - 1]));
    }
}

/// The complaint about a character that is no flag names it.
pub proof fn law_flag_complaint(unknown: char)
    ensures
        flag_complaint(unknown) == "unknown regex flag `"@ + seq![unknown] + "`"@,
{
}

} // verus!
