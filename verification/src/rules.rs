//! Rules that say which targets are cached.
//!
//! A rule is matched against the normalized `host/path?query` of a target. It is
//! exact, a wildcard pattern or a regular expression.

use vstd::prelude::*;

use crate::config::CacheRule;
use crate::pattern;
use crate::pattern::{
    complain_of_flag, read_flags, split_slashed, wildcard_to_regex, Program, ProgramView,
    RegexOptions,
};
use crate::text;
use crate::text::{cut_at, has_char, lower, same, strip_prefix, trim};

verus! {

/// What a cache rule matches.
#[derive(Debug)]
pub enum CachePattern {
    /// One host with one path and query.
    Exact { host: String, suffix: String },
    /// Hosts and paths with `*` in them.
    Wildcard { hosts: Program, paths: Program },
    /// A regular expression on the whole of `host/path?query`.
    Regex(Program),
}

/// What a cache pattern stands for.
pub enum PatternView {
    Exact { host: Seq<char>, suffix: Seq<char> },
    Wildcard { hosts: ProgramView, paths: ProgramView },
    Regex(ProgramView),
}

impl View for CachePattern {
    type V = PatternView;

    open spec fn view(&self) -> PatternView {
        match self {
            CachePattern::Exact { host, suffix } => PatternView::Exact {
                host: host@,
                suffix: suffix@,
            },
            CachePattern::Wildcard { hosts, paths } => PatternView::Wildcard {
                hosts: hosts@,
                paths: paths@,
            },
            CachePattern::Regex(program) => PatternView::Regex(program@),
        }
    }
}

/// A compiled pattern and the age up to which what it matches is served.
#[derive(Debug)]
pub struct CompiledRule {
    pub pattern: CachePattern,
    pub max_age: u64,
}

/// What a compiled rule stands for.
pub struct RuleView {
    pub pattern: PatternView,
    pub max_age: u64,
}

impl View for CompiledRule {
    type V = RuleView;

    open spec fn view(&self) -> RuleView {
        RuleView { pattern: self.pattern@, max_age: self.max_age }
    }
}

/// A rule without the scheme in front of it.
pub open spec fn schemeless(s: Seq<char>) -> Seq<char> {
    match text::without_prefix(s, "http://"@) {
        Some(rest) => rest,
        None => match text::without_prefix(s, "https://"@) {
            Some(rest) => rest,
            None => s,
        },
    }
}

/// The host of a rule, in small letters, and what follows it, which begins with a
/// slash. A lone `*` stands for every host and every path.
pub open spec fn rule_parts(bare: Seq<char>) -> (Seq<char>, Seq<char>) {
    if bare == seq!['*'] {
        (seq!['*'], seq!['/', '*'])
    } else {
        match text::cut(bare, '/') {
            Some((host, suffix)) => (text::lowered(host), seq!['/'] + suffix),
            None => (text::lowered(bare), seq!['/']),
        }
    }
}

/// The expression of a wildcard, with all options off.
pub open spec fn glob_program(wildcard: Seq<char>) -> ProgramView {
    ProgramView { source: pattern::glob_source(wildcard), options: pattern::plain_options() }
}

/// What a cache rule stands for, or what is wrong with it.
pub open spec fn rule_read(raw: Seq<char>) -> Result<PatternView, Seq<char>> {
    let trimmed = text::trimmed(raw);
    let bare = schemeless(trimmed);
    let (host, suffix) = rule_parts(bare);
    if trimmed.len() == 0 {
        Err("empty cache rule"@)
    } else if let Some((body, flags)) = pattern::slashed(trimmed) {
        match pattern::flagged(flags) {
            Ok(options) => match pattern::regex_complaint(body, options) {
                None => Ok(PatternView::Regex(ProgramView { source: body, options })),
                Some(complaint) => Err(complaint),
            },
            Err(unknown) => Err(pattern::flag_complaint(unknown)),
        }
    } else if bare.contains('*') {
        match pattern::regex_complaint(pattern::glob_source(host), pattern::plain_options()) {
            Some(complaint) => Err(complaint),
            None => match pattern::regex_complaint(
                pattern::glob_source(suffix),
                pattern::plain_options(),
            ) {
                Some(complaint) => Err(complaint),
                None => Ok(
                    PatternView::Wildcard {
                        hosts: glob_program(host),
                        paths: glob_program(suffix),
                    },
                ),
            },
        }
    } else {
        Ok(PatternView::Exact { host, suffix })
    }
}

fn strip_scheme(value: &str) -> (r: String)
    ensures
        r@ == schemeless(value@),
{
    match strip_prefix(value, "http://") {
        Some(rest) => rest,
        None => match strip_prefix(value, "https://") {
            Some(rest) => rest,
            None => value.to_owned(),
        },
    }
}

fn split_rule(bare: &str) -> (r: (String, String))
    ensures
        (r.0@, r.1@) == rule_parts(bare@),
{
    if same(bare, "*") {
        proof {
            reveal_strlit("*");
            reveal_strlit("/*");
            assert("*"@ =~= seq!['*']);
            assert("/*"@ =~= seq!['/', '*']);
        }
        return ("*".to_owned(), "/*".to_owned());
    }
    proof {
        reveal_strlit("*");
        assert("*"@ =~= seq!['*']);
    }
    let mut path = String::new();
    path.push('/');
    proof {
        assert(path@ =~= seq!['/']);
    }
    match cut_at(bare, '/') {
        Some((host, suffix)) => {
            path.append(&suffix);
            (lower(&host), path)
        },
        None => (lower(bare), path),
    }
}

impl CompiledRule {
    /// Compile a rule of the cache whitelist.
    ///
    /// `/.../flags` is a regular expression. Otherwise the scheme is left out of
    /// account, and `*` makes the host and the path wildcards.
    pub fn new(rule: &CacheRule) -> (r: Result<CompiledRule, String>)
        ensures
            match r {
                Ok(compiled) => {
                    &&& rule_read(rule.pattern@) == Ok::<PatternView, Seq<char>>(compiled.pattern@)
                    &&& compiled.max_age == rule.max_age
                },
                Err(complaint) => rule_read(rule.pattern@) == Err::<PatternView, Seq<char>>(
                    complaint@,
                ),
            },
    {
        let raw = trim(&rule.pattern);
        if raw.as_str().is_empty() {
            return Err("empty cache rule".to_owned());
        }
        if let Some((body, flags)) = split_slashed(&raw) {
            let options = match read_flags(&flags) {
                Ok(options) => options,
                Err(unknown) => {
                    return Err(complain_of_flag(unknown));
                },
            };
            return match Program::compile(&body, options) {
                Ok(program) => Ok(
                    CompiledRule { pattern: CachePattern::Regex(program), max_age: rule.max_age },
                ),
                Err(complaint) => Err(complaint),
            };
        }
        let bare = strip_scheme(&raw);
        let (host, suffix) = split_rule(&bare);
        if has_char(&bare, '*') {
            let hosts = match Program::compile(&wildcard_to_regex(&host), RegexOptions::plain()) {
                Ok(program) => program,
                Err(complaint) => {
                    return Err(complaint);
                },
            };
            let paths = match Program::compile(&wildcard_to_regex(&suffix), RegexOptions::plain()) {
                Ok(program) => program,
                Err(complaint) => {
                    return Err(complaint);
                },
            };
            return Ok(
                CompiledRule {
                    pattern: CachePattern::Wildcard { hosts, paths },
                    max_age: rule.max_age,
                },
            );
        }
        Ok(CompiledRule { pattern: CachePattern::Exact { host, suffix }, max_age: rule.max_age })
    }
}

/// Whether `host/path?query` fits a pattern.
pub open spec fn pattern_matches(pattern: PatternView, subject: Seq<char>) -> bool {
    match pattern {
        PatternView::Exact { host, suffix } => subject == host + suffix,
        PatternView::Wildcard { hosts, paths } => match text::cut(subject, '/') {
            Some((actual_host, actual_path)) => pattern::regex_matches(
                hosts.source,
                hosts.options,
                actual_host,
            ) && pattern::regex_matches(paths.source, paths.options, seq!['/'] + actual_path),
            None => false,
        },
        PatternView::Regex(program) => pattern::regex_matches(
            program.source,
            program.options,
            subject,
        ),
    }
}

/// Whether the host and the path of a subject fit two wildcards.
pub open spec fn globs_match(host: Seq<char>, path: Seq<char>, subject: Seq<char>) -> bool {
    match text::cut(subject, '/') {
        Some((actual_host, actual_path)) => pattern::glob_matches(host, actual_host)
            && pattern::glob_matches(path, seq!['/'] + actual_path),
        None => false,
    }
}

impl CachePattern {
    /// Whether a normalized `host/path?query` fits the pattern.
    ///
    /// In a wildcard pattern `*` stands for any sequence of characters, on either side
    /// of the first slash.
    pub fn is_match(&self, subject: &str) -> (r: bool)
        ensures
            r == pattern_matches(self@, subject@),
            forall|host: Seq<char>, path: Seq<char>|
                self@ == (PatternView::Wildcard {
                    hosts: #[trigger] glob_program(host),
                    paths: #[trigger] glob_program(path),
                }) && pattern::is_ascii_line(subject@) ==> r == globs_match(host, path, subject@),
    {
        match self {
            CachePattern::Regex(program) => program.is_match(subject),
            CachePattern::Exact { host, suffix } => match strip_prefix(subject, host) {
                Some(rest) => {
                    proof {
                        assert(subject@ =~= host@ + rest@);
                        if subject@ == host@ + suffix@ {
                            assert(rest@ =~= suffix@);
                        }
                    }
                    same(&rest, suffix)
                },
                None => {
                    proof {
                        if subject@ == host@ + suffix@ {
                            assert(subject@.take(host@.len() as int) =~= host@);
                        }
                    }
                    false
                },
            },
            CachePattern::Wildcard { hosts, paths } => match cut_at(subject, '/') {
                Some((actual_host, actual_path)) => {
                    let mut whole_path = String::new();
                    whole_path.push('/');
                    whole_path.append(&actual_path);
                    proof {
                        assert(whole_path@ =~= seq!['/'] + actual_path@);
                        subject@.index_of_first_ensures('/');
                        if pattern::is_ascii_line(subject@) {
                            assert(pattern::is_ascii_line(actual_host@));
                            assert(pattern::is_ascii_line(whole_path@));
                        }
                    }
                    hosts.is_match(&actual_host) && paths.is_match(&whole_path)
                },
                None => false,
            },
        }
    }
}

/// `/*` fits every path.
proof fn lemma_every_path(path: Seq<char>)
    ensures
        pattern::glob_matches(seq!['/', '*'], seq!['/'] + path),
{
    let wildcard = seq!['/', '*'];
    let star = seq!['*'] + Seq::<char>::empty();
    assert(wildcard.drop_first() =~= star);
    assert((seq!['/'] + path).drop_first() =~= path);
    pattern::law_leading_star(Seq::empty(), path);
    assert(path.skip(path.len() as int) =~= Seq::empty());
}

/// A lone `*` stands for every host and every path.
pub proof fn law_star_matches_everything(subject: Seq<char>)
    requires
        subject.contains('/'),
    ensures
        rule_parts(seq!['*']) == (seq!['*'], seq!['/', '*']),
        globs_match(seq!['*'], seq!['/', '*'], subject),
{
    subject.index_of_first_ensures('/');
    let (host, path) = text::cut(subject, '/')->0;
    assert(seq!['*'] =~= seq!['*'] + Seq::<char>::empty());
    pattern::law_leading_star(Seq::empty(), host);
    assert(host.skip(host.len() as int) =~= Seq::empty());
    lemma_every_path(path);
}

/// A rule for a host with `/*` behind it fits every path of that host and nothing else.
pub proof fn law_host_rule(host: Seq<char>, subject: Seq<char>)
    requires
        !host.contains('*'),
    ensures
        globs_match(host, seq!['/', '*'], subject) <==> (match text::cut(subject, '/') {
            Some((actual_host, _)) => actual_host == host,
            None => false,
        }),
{
    if text::cut(subject, '/') is Some {
        let (actual_host, path) = text::cut(subject, '/')->0;
        pattern::lemma_literal(host, actual_host);
        lemma_every_path(path);
    }
}

/// A scheme in front of a rule makes no difference, and nor does white space around it.
pub proof fn law_schemes_are_dropped(rest: Seq<char>)
    ensures
        schemeless("http://"@ + rest) == rest,
        schemeless("https://"@ + rest) == rest,
        !text::begins(rest, "http://"@) && !text::begins(rest, "https://"@) ==> schemeless(rest)
            == rest,
        rule_read(rest) == rule_read(text::trimmed(rest)),
{
    reveal_strlit("http://");
    reveal_strlit("https://");
    assert(("http://"@ + rest).take(7) =~= "http://"@);
    assert(("http://"@ + rest).skip(7) =~= rest);
    assert(("https://"@ + rest).take(8) =~= "https://"@);
    assert(("https://"@ + rest).skip(8) =~= rest);
    if text::begins("https://"@ + rest, "http://"@) {
        assert(("https://"@ + rest).take(7)[4] == 's');
    }
    text::law_trimmed_ends(rest);
}

/// A rule is a host and a path: the host counts in small letters, the path as it is written,
/// and without a path it is the root's. A lone star is any host and any path.
pub proof fn law_parts_of_rules(host: Seq<char>, path: Seq<char>)
    requires
        !host.contains('/'),
    ensures
        rule_parts(host + seq!['/'] + path) == (text::lowered(host), seq!['/'] + path),
        host != seq!['*'] ==> rule_parts(host) == (text::lowered(host), seq!['/']),
        rule_parts(seq!['*']) == (seq!['*'], seq!['/', '*']),
{
    text::law_cut(host, path, '/');
    let whole = host + seq!['/'] + path;
    assert(whole[host.len() as int] == '/');
    if whole == seq!['*'] {
        assert(whole[host.len() as int] == '*');
    }
}

/// A rule that is no expression and has no star stands for one target exactly, one with a
/// star for those that fit its two wildcards; one between slashes is an expression with the
/// options that its flags set; and an empty one is refused.
pub proof fn law_kinds_of_rules(raw: Seq<char>)
    requires
        text::trimmed(raw) == raw,
    ensures
        raw.len() == 0 ==> rule_read(raw) == Err::<PatternView, Seq<char>>("empty cache rule"@),
        raw.len() > 0 && pattern::slashed(raw) is None && !schemeless(raw).contains('*')
            ==> rule_read(raw) == Ok::<PatternView, Seq<char>>(
            PatternView::Exact {
                host: rule_parts(schemeless(raw)).0,
                suffix: rule_parts(schemeless(raw)).1,
            },
        ),
        raw.len() > 0 && pattern::slashed(raw) is None && schemeless(raw).contains('*')
            && rule_read(raw) is Ok ==> rule_read(raw)->Ok_0 == (PatternView::Wildcard {
            hosts: ProgramView {
                source: pattern::glob_source(rule_parts(schemeless(raw)).0),
                options: pattern::plain_options(),
            },
            paths: ProgramView {
                source: pattern::glob_source(rule_parts(schemeless(raw)).1),
                options: pattern::plain_options(),
            },
        }),
        raw.len() > 0 && pattern::slashed(raw) is Some ==> {
            let (body, flags) = pattern::slashed(raw)->0;
            &&& pattern::flagged(flags) is Err ==> rule_read(raw) == Err::<PatternView, Seq<char>>(
                pattern::flag_complaint(pattern::flagged(flags)->Err_0),
            )
            &&& pattern::flagged(flags) is Ok ==> {
                let options = pattern::flagged(flags)->Ok_0;
                match pattern::regex_complaint(body, options) {
                    None => rule_read(raw) == Ok::<PatternView, Seq<char>>(
                        PatternView::Regex(ProgramView { source: body, options }),
                    ),
                    Some(complaint) => rule_read(raw) == Err::<PatternView, Seq<char>>(complaint),
                }
            }
        },
        pattern::plain_options() == (pattern::RegexOptions {
            case_insensitive: false,
            multi_line: false,
            dot_matches_new_line: false,
            ignore_whitespace: false,
        }),
{
}

/// An exact rule fits the one target that it writes; a rule of two wildcards fits a target
/// whose host fits the one and whose path, from its first slash on, fits the other; an
/// expression is held against the whole target.
pub proof fn law_rules_match(
    host: Seq<char>,
    path: Seq<char>,
    actual_host: Seq<char>,
    actual_path: Seq<char>,
    hosts: ProgramView,
    paths: ProgramView,
)
    requires
        !actual_host.contains('/'),
    ensures
        ({
            let subject = actual_host + seq!['/'] + actual_path;
            &&& pattern_matches(PatternView::Exact { host, suffix: path }, subject) <==> subject
                == host + path
            &&& globs_match(host, path, subject) <==> pattern::glob_matches(host, actual_host)
                && pattern::glob_matches(path, seq!['/'] + actual_path)
            &&& pattern_matches(PatternView::Wildcard { hosts, paths }, subject)
                <==> pattern::regex_matches(hosts.source, hosts.options, actual_host)
                && pattern::regex_matches(paths.source, paths.options, seq!['/'] + actual_path)
            &&& pattern_matches(PatternView::Regex(hosts), subject) <==> pattern::regex_matches(
                hosts.source,
                hosts.options,
                subject,
            )
            &&& !globs_match(host, path, actual_host)
        }),
{
    text::law_cut(actual_host, actual_path, '/');
}

/// A compiled rule keeps the age that was written with it.
pub proof fn law_rules_keep_their_age(rule: CacheRule, r: Result<CompiledRule, String>)
    requires
        call_ensures(CompiledRule::new, (&rule,), r),
    ensures
        r is Ok <==> rule_read(rule.pattern@) is Ok,
        r is Ok ==> r->Ok_0.max_age == rule.max_age && r->Ok_0.pattern@ == rule_read(
            rule.pattern@,
        )->Ok_0,
        r is Err ==> r->Err_0@ == rule_read(rule.pattern@)->Err_0,
{
}

/// A rule answers as stated.
pub proof fn law_rules_answer(rule: CachePattern, subject: &str, r: bool)
    requires
        call_ensures(CachePattern::is_match, (&rule, subject), r),
    ensures
        r == pattern_matches(rule@, subject@),
{
}

} // verus!
