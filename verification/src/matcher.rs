//! Allow/deny list matching for target hosts and requesting origins.
//!
//! Each list entry is auto-detected as one of three kinds:
//!
//! - **Regex**: delimited by `/.../` with optional trailing flags, such as
//!   `/^api\d+\.example\.com$/i`.
//! - **Wildcard**: contains `*`, which matches any sequence of characters, none
//!   included. `*.example.com` matches `a.example.com`, `a.b.example.com` and
//!   `.example.com`.
//! - **Exact**: anything else. Compared without regard to ASCII case against the
//!   full host.
//!
//! A [`TargetList`] holds a blacklist and a whitelist. A subject that matches a
//! blacklist entry is denied. If the whitelist is not empty, a subject must also
//! match at least one of its entries. If both lists are empty, everything is
//! allowed.

use std::sync::Arc;
use vstd::prelude::*;

use crate::pattern;
use crate::pattern::{
    complain_of_flag, read_flags, split_slashed, wildcard_to_regex, Program, ProgramView,
    RegexOptions,
};
use crate::text;
use crate::text::{has_char, same_ignoring_case, trim};

verus! {

/// A single compiled match entry.
#[derive(Debug)]
pub enum MatchEntry {
    /// Exact host string, without regard to case.
    Exact(String),
    /// Wildcard pattern compiled to a regular expression.
    Wildcard(Program),
    /// User-supplied regular expression.
    Regex(Program),
}

/// What a match entry stands for.
pub enum EntryView {
    Exact(Seq<char>),
    Wildcard(ProgramView),
    Regex(ProgramView),
}

impl View for MatchEntry {
    type V = EntryView;

    open spec fn view(&self) -> EntryView {
        match self {
            MatchEntry::Exact(host) => EntryView::Exact(host@),
            MatchEntry::Wildcard(program) => EntryView::Wildcard(program@),
            MatchEntry::Regex(program) => EntryView::Regex(program@),
        }
    }
}

/// Error compiling a match entry.
#[derive(Debug)]
pub enum MatchError {
    /// Invalid regular expression.
    InvalidRegex {
        /// The entry as it was written.
        pattern: String,
        /// What is wrong with it.
        source: String,
    },
}

impl MatchError {
    /// The entry as it was written and what is wrong with it.
    pub open spec fn parts(self) -> (Seq<char>, Seq<char>) {
        match self {
            MatchError::InvalidRegex { pattern, source } => (pattern@, source@),
        }
    }

    /// The error in words.
    pub fn message(&self) -> (r: String)
        ensures
            r@ == "invalid regex `"@ + self.parts().0 + "`: "@ + self.parts().1,
    {
        match self {
            MatchError::InvalidRegex { pattern, source } => {
                let mut out = String::new();
                out.append("invalid regex `");
                out.append(pattern);
                out.append("`: ");
                out.append(source);
                proof {
                    assert(Seq::<char>::empty() + "invalid regex `"@ =~= "invalid regex `"@);
                }
                out
            },
        }
    }
}

/// The options of the regular expression behind a wildcard entry.
pub open spec fn wildcard_options() -> RegexOptions {
    RegexOptions { case_insensitive: true, ..pattern::plain_options() }
}

/// What an entry stands for, or what is wrong with it.
pub open spec fn entry_read(raw: Seq<char>) -> Result<EntryView, Seq<char>> {
    let trimmed = text::trimmed(raw);
    match pattern::slashed(trimmed) {
        Some((body, flags)) => match pattern::flagged(flags) {
            Ok(options) => match pattern::regex_complaint(body, options) {
                None => Ok(EntryView::Regex(ProgramView { source: body, options })),
                Some(complaint) => Err(complaint),
            },
            Err(unknown) => Err(pattern::flag_complaint(unknown)),
        },
        None => if trimmed.contains('*') {
            let source = pattern::glob_source(trimmed);
            match pattern::regex_complaint(source, wildcard_options()) {
                None => Ok(
                    EntryView::Wildcard(ProgramView { source, options: wildcard_options() }),
                ),
                Some(complaint) => Err(complaint),
            }
        } else {
            Ok(EntryView::Exact(text::unicode_lowered(trimmed)))
        },
    }
}

/// The entry of a wildcard pattern within ASCII, which may have no star.
pub open spec fn entry_for(wildcard: Seq<char>) -> EntryView {
    if wildcard.contains('*') {
        EntryView::Wildcard(
            ProgramView { source: pattern::glob_source(wildcard), options: wildcard_options() },
        )
    } else {
        EntryView::Exact(text::lowered(wildcard))
    }
}

/// Whether a subject matches an entry.
pub open spec fn entry_matches(entry: EntryView, subject: Seq<char>) -> bool {
    match entry {
        EntryView::Exact(host) => text::lowered(host) == text::lowered(subject),
        EntryView::Wildcard(program) => pattern::regex_matches(
            program.source,
            program.options,
            subject,
        ),
        EntryView::Regex(program) => pattern::regex_matches(
            program.source,
            program.options,
            subject,
        ),
    }
}

impl MatchEntry {
    /// Detect and compile an entry from its raw string form.
    pub fn parse(raw: &str) -> (r: Result<MatchEntry, MatchError>)
        ensures
            match r {
                Ok(entry) => entry_read(raw@) == Ok::<EntryView, Seq<char>>(entry@),
                Err(error) => {
                    &&& entry_read(raw@) == Err::<EntryView, Seq<char>>(error.parts().1)
                    &&& error.parts().0 == raw@
                },
            },
            vstd::utf8::is_ascii_chars(raw@) && pattern::slashed(text::trimmed(raw@)) is None ==> {
                &&& r is Ok ==> r->Ok_0@ == entry_for(text::trimmed(raw@))
                &&& !text::trimmed(raw@).contains('*') ==> r is Ok
            },
    {
        let trimmed = trim(raw);
        if let Some((body, flags)) = split_slashed(&trimmed) {
            let options = match read_flags(&flags) {
                Ok(options) => options,
                Err(unknown) => {
                    return Err(
                        MatchError::InvalidRegex {
                            pattern: raw.to_owned(),
                            source: complain_of_flag(unknown),
                        },
                    );
                },
            };
            return match Program::compile(&body, options) {
                Ok(program) => Ok(MatchEntry::Regex(program)),
                Err(source) => Err(MatchError::InvalidRegex { pattern: raw.to_owned(), source }),
            };
        }
        if has_char(&trimmed, '*') {
            let source = wildcard_to_regex(&trimmed);
            let mut options = RegexOptions::plain();
            options.case_insensitive = true;
            return match Program::compile(&source, options) {
                Ok(program) => Ok(MatchEntry::Wildcard(program)),
                Err(source) => Err(MatchError::InvalidRegex { pattern: raw.to_owned(), source }),
            };
        }
        proof {
            if vstd::utf8::is_ascii_chars(raw@) {
                text::lemma_trimmed_ascii(raw@);
            }
        }
        Ok(MatchEntry::Exact(trimmed.as_str().to_lowercase()))
    }

    /// Test whether `subject` (a host string) matches this entry.
    ///
    /// An entry that is no regular expression matches the hosts that fit it, with `*` for
    /// any sequence of characters and without regard to case.
    pub fn is_match(&self, subject: &str) -> (r: bool)
        ensures
            r == entry_matches(self@, subject@),
            forall|wildcard: Seq<char>|
                self@ == #[trigger] entry_for(wildcard) && vstd::utf8::is_ascii_chars(wildcard)
                    && pattern::is_ascii_line(subject@) ==> r == pattern::glob_matches(
                    text::lowered(wildcard),
                    text::lowered(subject@),
                ),
    {
        match self {
            MatchEntry::Exact(host) => {
                proof {
                    assert forall|wildcard: Seq<char>|
                        self@ == #[trigger] entry_for(wildcard) implies entry_matches(
                        self@,
                        subject@,
                    ) == pattern::glob_matches(
                        text::lowered(wildcard),
                        text::lowered(subject@),
                    ) by {
                        lemma_starless(wildcard);
                        pattern::lemma_literal(text::lowered(wildcard), text::lowered(subject@));
                        assert(text::lowered(host@) =~= host@);
                    }
                }
                same_ignoring_case(host, subject)
            },
            MatchEntry::Wildcard(program) => program.is_match(subject),
            MatchEntry::Regex(program) => program.is_match(subject),
        }
    }
}

/// Small letters for capitals make no star.
proof fn lemma_starless(wildcard: Seq<char>)
    requires
        !wildcard.contains('*'),
    ensures
        !text::lowered(wildcard).contains('*'),
{
    assert forall|i: int| 0 <= i < wildcard.len() implies #[trigger] text::lowered(wildcard)[i]
        != '*' by {
        assert(wildcard.contains(wildcard[i]));
    }
}

/// What a list of entries stands for, or the first entry that is wrong, with what
/// is wrong with it.
pub open spec fn entries_read(raw: Seq<Seq<char>>) -> Result<
    Seq<EntryView>,
    (Seq<char>, Seq<char>),
>
    decreases raw.len(),
{
    if raw.len() == 0 {
        Ok(Seq::empty())
    } else {
        match entries_read(raw.drop_last()) {
            Ok(before) => match entry_read(raw.last()) {
                Ok(entry) => Ok(before.push(entry)),
                Err(complaint) => Err((raw.last(), complaint)),
            },
            Err(error) => Err(error),
        }
    }
}

pub open spec fn entry_views(entries: Seq<MatchEntry>) -> Seq<EntryView> {
    entries.map_values(|e: MatchEntry| e@)
}

/// Whether a subject matches some entry of a list.
pub open spec fn matches_any(entries: Seq<EntryView>, subject: Seq<char>) -> bool {
    exists|i: int| 0 <= i < entries.len() && entry_matches(#[trigger] entries[i], subject)
}

/// A compiled blacklist + whitelist pair.
#[derive(Debug)]
pub struct TargetList {
    /// Denied entries.
    blacklist: Vec<MatchEntry>,
    /// Allowed entries; where there are any, only what they match is allowed.
    whitelist: Vec<MatchEntry>,
}

/// What a blacklist + whitelist pair stands for.
pub struct ListView {
    pub blacklist: Seq<EntryView>,
    pub whitelist: Seq<EntryView>,
}

impl View for TargetList {
    type V = ListView;

    closed spec fn view(&self) -> ListView {
        ListView {
            blacklist: entry_views(self.blacklist@),
            whitelist: entry_views(self.whitelist@),
        }
    }
}

/// What a pair of raw lists stands for, or the first entry that is wrong, the
/// blacklist coming first.
pub open spec fn list_read(blacklist: Seq<Seq<char>>, whitelist: Seq<Seq<char>>) -> Result<
    ListView,
    (Seq<char>, Seq<char>),
> {
    match entries_read(blacklist) {
        Ok(black) => match entries_read(whitelist) {
            Ok(white) => Ok(ListView { blacklist: black, whitelist: white }),
            Err(error) => Err(error),
        },
        Err(error) => Err(error),
    }
}

/// Whether a subject is allowed by a pair of lists.
pub open spec fn allowed(list: ListView, subject: Seq<char>) -> bool {
    &&& !matches_any(list.blacklist, subject)
    &&& list.whitelist.len() == 0 || matches_any(list.whitelist, subject)
}

/// An entry that is wrong decides, whatever follows it.
proof fn lemma_wrong_entry(raw: Seq<Seq<char>>, i: int)
    requires
        0 <= i <= raw.len(),
        entries_read(raw.take(i)) is Err,
    ensures
        entries_read(raw) == entries_read(raw.take(i)),
    decreases raw.len(),
{
    if i == raw.len() {
        assert(raw.take(i) =~= raw);
    } else {
        assert(raw.drop_last().take(i) =~= raw.take(i));
        lemma_wrong_entry(raw.drop_last(), i);
    }
}

fn compile_entries(raw: &[String]) -> (r: Result<Vec<MatchEntry>, MatchError>)
    ensures
        match r {
            Ok(entries) => entries_read(text::texts(raw@)) == Ok::<
                Seq<EntryView>,
                (Seq<char>, Seq<char>),
            >(entry_views(entries@)),
            Err(error) => entries_read(text::texts(raw@)) == Err::<
                Seq<EntryView>,
                (Seq<char>, Seq<char>),
            >(error.parts()),
        },
{
    let mut entries: Vec<MatchEntry> = Vec::new();
    let ghost all = text::texts(raw@);
    let mut i: usize = 0;
    proof {
        assert(all.take(0) =~= Seq::empty());
        assert(entry_views(entries@) =~= Seq::empty());
    }
    while i < raw.len()
        invariant
            i <= raw@.len(),
            all == text::texts(raw@),
            entries_read(all.take(i as int)) == Ok::<Seq<EntryView>, (Seq<char>, Seq<char>)>(
                entry_views(entries@),
            ),
        decreases raw@.len() - i,
    {
        proof {
            assert(all.take(i + 1).drop_last() =~= all.take(i as int));
            assert(all.take(i + 1).last() == raw@[i as int]@);
        }
        match MatchEntry::parse(&raw[i]) {
            Ok(entry) => {
                proof {
                    assert(entry_views(entries@.push(entry)) =~= entry_views(entries@).push(
                        entry@,
                    ));
                }
                entries.push(entry);
            },
            Err(error) => {
                proof {
                    lemma_wrong_entry(all, i + 1);
                }
                return Err(error);
            },
        }
        i += 1;
    }
    proof {
        assert(all.take(raw@.len() as int) =~= all);
    }
    Ok(entries)
}

fn any_match(entries: &Vec<MatchEntry>, subject: &str) -> (r: bool)
    ensures
        r == matches_any(entry_views(entries@), subject@),
{
    let mut i: usize = 0;
    let ghost views = entry_views(entries@);
    while i < entries.len()
        invariant
            i <= entries@.len(),
            views == entry_views(entries@),
            forall|k: int| 0 <= k < i ==> !entry_matches(#[trigger] views[k], subject@),
        decreases entries@.len() - i,
    {
        if entries[i].is_match(subject) {
            proof {
                assert(entry_matches(views[i as int], subject@));
            }
            return true;
        }
        i += 1;
    }
    false
}

impl TargetList {
    /// Build from raw string lists, compiling each entry.
    pub fn new(blacklist: &[String], whitelist: &[String]) -> (r: Result<TargetList, MatchError>)
        ensures
            match r {
                Ok(list) => list_read(text::texts(blacklist@), text::texts(whitelist@)) == Ok::<
                    ListView,
                    (Seq<char>, Seq<char>),
                >(list@),
                Err(error) => list_read(text::texts(blacklist@), text::texts(whitelist@)) == Err::<
                    ListView,
                    (Seq<char>, Seq<char>),
                >(error.parts()),
            },
    {
        let blacklist = match compile_entries(blacklist) {
            Ok(entries) => entries,
            Err(error) => {
                return Err(error);
            },
        };
        let whitelist = match compile_entries(whitelist) {
            Ok(entries) => entries,
            Err(error) => {
                return Err(error);
            },
        };
        Ok(TargetList { blacklist, whitelist })
    }

    /// Returns `true` if `subject` is allowed by this list.
    pub fn is_allowed(&self, subject: &str) -> (r: bool)
        ensures
            r == allowed(self@, subject@),
    {
        let blacklisted = any_match(&self.blacklist, subject);
        let whitelisted = any_match(&self.whitelist, subject);
        TargetList::decide(blacklisted, self.whitelist.len() > 0, whitelisted)
    }

    /// Whether a subject is allowed, once it is known which lists it matches.
    pub fn decide(blacklisted: bool, has_whitelist: bool, whitelisted: bool) -> (r: bool)
        ensures
            r == (!blacklisted && (!has_whitelist || whitelisted)),
    {
        if has_whitelist {
            whitelisted && !blacklisted
        } else {
            !blacklisted
        }
    }

    /// Whether the list allows only what its whitelist names.
    pub fn has_whitelist(&self) -> (r: bool)
        ensures
            r == (self@.whitelist.len() > 0),
    {
        self.whitelist.len() > 0
    }
}

/// Pre-compiled connection policy: target + origin lists.
///
/// Wrapped in [`Arc`] for cheap sharing with request state.
#[derive(Debug)]
pub struct MatchPolicy {
    /// Target URL host allow/deny.
    pub target: Arc<TargetList>,
    /// Requesting-origin allow/deny.
    pub origin: Arc<TargetList>,
}

/// What a connection policy stands for.
pub struct PolicyView {
    pub target: ListView,
    pub origin: ListView,
}

impl View for MatchPolicy {
    type V = PolicyView;

    open spec fn view(&self) -> PolicyView {
        PolicyView { target: (*self.target)@, origin: (*self.origin)@ }
    }
}

/// What four raw lists stand for, or the first entry that is wrong, the lists for
/// targets coming first.
pub open spec fn policy_read(
    target_blacklist: Seq<Seq<char>>,
    target_whitelist: Seq<Seq<char>>,
    origin_blacklist: Seq<Seq<char>>,
    origin_whitelist: Seq<Seq<char>>,
) -> Result<PolicyView, (Seq<char>, Seq<char>)> {
    match list_read(target_blacklist, target_whitelist) {
        Ok(target) => match list_read(origin_blacklist, origin_whitelist) {
            Ok(origin) => Ok(PolicyView { target, origin }),
            Err(error) => Err(error),
        },
        Err(error) => Err(error),
    }
}

impl MatchPolicy {
    /// Build from raw config strings, compiling each entry.
    ///
    /// Returns an error if any entry fails to compile.
    pub fn new(
        target_blacklist: &[String],
        target_whitelist: &[String],
        origin_blacklist: &[String],
        origin_whitelist: &[String],
    ) -> (r: Result<MatchPolicy, MatchError>)
        ensures
            match r {
                Ok(policy) => policy_read(
                    text::texts(target_blacklist@),
                    text::texts(target_whitelist@),
                    text::texts(origin_blacklist@),
                    text::texts(origin_whitelist@),
                ) == Ok::<PolicyView, (Seq<char>, Seq<char>)>(policy@),
                Err(error) => policy_read(
                    text::texts(target_blacklist@),
                    text::texts(target_whitelist@),
                    text::texts(origin_blacklist@),
                    text::texts(origin_whitelist@),
                ) == Err::<PolicyView, (Seq<char>, Seq<char>)>(error.parts()),
            },
    {
        let target = match TargetList::new(target_blacklist, target_whitelist) {
            Ok(list) => list,
            Err(error) => {
                return Err(error);
            },
        };
        let origin = match TargetList::new(origin_blacklist, origin_whitelist) {
            Ok(list) => list,
            Err(error) => {
                return Err(error);
            },
        };
        Ok(MatchPolicy { target: Arc::new(target), origin: Arc::new(origin) })
    }
}

/// If both lists are empty, everything is allowed.
pub proof fn law_empty_lists_allow_all(subject: Seq<char>)
    ensures
        allowed(ListView { blacklist: Seq::empty(), whitelist: Seq::empty() }, subject),
{
}

/// What a blacklist entry matches is denied, whatever the whitelist says.
pub proof fn law_blacklist_denies(list: ListView, subject: Seq<char>, i: int)
    requires
        0 <= i < list.blacklist.len(),
        entry_matches(list.blacklist[i], subject),
    ensures
        !allowed(list, subject),
{
}

/// If the whitelist is not empty, what is allowed matches one of its entries.
pub proof fn law_whitelist_decides(list: ListView, subject: Seq<char>)
    requires
        list.whitelist.len() > 0,
    ensures
        allowed(list, subject) <==> matches_any(list.whitelist, subject) && !matches_any(
            list.blacklist,
            subject,
        ),
{
}

/// If the whitelist is empty, only the blacklist decides.
pub proof fn law_blacklist_alone_decides(list: ListView, subject: Seq<char>)
    requires
        list.whitelist.len() == 0,
    ensures
        allowed(list, subject) <==> !matches_any(list.blacklist, subject),
{
}

/// An exact entry matches a host exactly when the two differ in ASCII case only.
pub proof fn law_exact_entries_ignore_case(raw: Seq<char>, subject: Seq<char>)
    requires
        entry_read(raw) == Ok::<EntryView, Seq<char>>(
            EntryView::Exact(text::lowered(text::trimmed(raw))),
        ),
    ensures
        entry_matches(entry_read(raw)->Ok_0, subject) <==> text::lowered(text::trimmed(raw))
            == text::lowered(subject),
{
    let host = text::lowered(text::trimmed(raw));
    assert(text::lowered(host) =~= host);
}

/// An entry between slashes is an expression with the options that its flags set, one with a
/// star is a wildcard, in either case, and any other is exact. White space around an entry
/// does not count, and one that does not compile is refused for what the compiler says.
pub proof fn law_kinds_of_entries(raw: Seq<char>)
    requires
        text::trimmed(raw) == raw,
    ensures
        pattern::slashed(raw) is Some ==> {
            let (body, flags) = pattern::slashed(raw)->0;
            &&& pattern::flagged(flags) is Err ==> entry_read(raw) == Err::<EntryView, Seq<char>>(
                "unknown regex flag `"@ + seq![pattern::flagged(flags)->Err_0] + "`"@,
            )
            &&& pattern::flagged(flags) is Ok ==> {
                let options = pattern::flagged(flags)->Ok_0;
                match pattern::regex_complaint(body, options) {
                    None => entry_read(raw) == Ok::<EntryView, Seq<char>>(
                        EntryView::Regex(ProgramView { source: body, options }),
                    ),
                    Some(complaint) => entry_read(raw) == Err::<EntryView, Seq<char>>(complaint),
                }
            }
        },
        pattern::slashed(raw) is None && !raw.contains('*') ==> entry_read(raw) == Ok::<
            EntryView,
            Seq<char>,
        >(EntryView::Exact(text::unicode_lowered(raw))),
        pattern::slashed(raw) is None && raw.contains('*') ==> {
            let options = RegexOptions {
                case_insensitive: true,
                multi_line: false,
                dot_matches_new_line: false,
                ignore_whitespace: false,
            };
            let source = pattern::glob_source(raw);
            match pattern::regex_complaint(source, options) {
                None => entry_read(raw) == Ok::<EntryView, Seq<char>>(
                    EntryView::Wildcard(ProgramView { source, options }),
                ),
                Some(complaint) => entry_read(raw) == Err::<EntryView, Seq<char>>(complaint),
            }
        },
{
}

/// White space around an entry does not count.
pub proof fn law_entries_are_trimmed(raw: Seq<char>)
    ensures
        entry_read(raw) == entry_read(text::trimmed(raw)),
{
    text::law_trimmed_ends(raw);
}

/// An exact entry matches a host that is the same but for ASCII case, the whole of it; an
/// expression, that of a wildcard included, is held against the host as it is.
pub proof fn law_entries_match(host: Seq<char>, program: ProgramView, subject: Seq<char>)
    ensures
        entry_matches(EntryView::Exact(host), subject) <==> host.len() == subject.len() && (forall|
            i: int,
        |
            0 <= i < host.len() ==> {
                let (x, y) = (#[trigger] host[i] as int, subject[i] as int);
                ||| x == y
                ||| 65 <= x <= 90 && y == x + 32
                ||| 65 <= y <= 90 && x == y + 32
            }),
        entry_matches(EntryView::Wildcard(program), subject) <==> pattern::regex_matches(
            program.source,
            program.options,
            subject,
        ),
        entry_matches(EntryView::Regex(program), subject) <==> pattern::regex_matches(
            program.source,
            program.options,
            subject,
        ),
{
    let (a, b) = (text::lowered(host), text::lowered(subject));
    if a == b {
        assert(host.len() == a.len() && subject.len() == b.len());
        assert forall|i: int| 0 <= i < host.len() implies {
            let (x, y) = (#[trigger] host[i] as int, subject[i] as int);
            ||| x == y
            ||| 65 <= x <= 90 && y == x + 32
            ||| 65 <= y <= 90 && x == y + 32
        } by {
            assert(a[i] == b[i]);
            text::law_lowered(host, i);
            text::law_lowered(subject, i);
        }
    }
    if host.len() == subject.len() && (forall|i: int|
        0 <= i < host.len() ==> {
            let (x, y) = (#[trigger] host[i] as int, subject[i] as int);
            ||| x == y
            ||| 65 <= x <= 90 && y == x + 32
            ||| 65 <= y <= 90 && x == y + 32
        }) {
        assert forall|i: int| 0 <= i < a.len() implies #[trigger] a[i] == b[i] by {
            let (x, y) = (host[i] as int, subject[i] as int);
            text::law_lowered(host, i);
            text::law_lowered(subject, i);
        }
        assert(a =~= b);
    }
}

/// A list is read entry by entry, in order: it is read exactly when all its entries are, each
/// entry is what it would be alone, and otherwise the first that cannot be read is named,
/// with what is wrong with it.
pub proof fn law_lists_are_read(raw: Seq<Seq<char>>, i: int)
    ensures
        entries_read(raw) is Ok <==> forall|k: int|
            0 <= k < raw.len() ==> entry_read(#[trigger] raw[k]) is Ok,
        entries_read(raw) is Ok ==> entries_read(raw)->Ok_0.len() == raw.len(),
        entries_read(raw) is Ok && 0 <= i < raw.len() ==> entry_read(raw[i]) == Ok::<
            EntryView,
            Seq<char>,
        >(entries_read(raw)->Ok_0[i]),
        0 <= i < raw.len() && entry_read(raw[i]) is Err && (forall|k: int|
            0 <= k < i ==> entry_read(#[trigger] raw[k]) is Ok) ==> entries_read(raw) == Err::<
            Seq<EntryView>,
            (Seq<char>, Seq<char>),
        >((raw[i], entry_read(raw[i])->Err_0)),
    decreases raw.len(),
{
    if raw.len() > 0 {
        let before = raw.drop_last();
        law_lists_are_read(before, i);
        assert(raw.last() == raw[raw.len() - 1]);
        assert(forall|k: int| 0 <= k < before.len() ==> raw[k] == #[trigger] before[k]);
        if entries_read(raw) is Ok {
            assert forall|k: int| 0 <= k < raw.len() implies entry_read(#[trigger] raw[k])
                is Ok by {
                if k < before.len() {
                    assert(entry_read(before[k]) is Ok);
                }
            }
        }
    }
}

/// Each list is what was written for it: the four of a policy do not change places.
pub proof fn law_policies_are_read(
    target_blacklist: Seq<Seq<char>>,
    target_whitelist: Seq<Seq<char>>,
    origin_blacklist: Seq<Seq<char>>,
    origin_whitelist: Seq<Seq<char>>,
)
    ensures
        ({
            let read = policy_read(
                target_blacklist,
                target_whitelist,
                origin_blacklist,
                origin_whitelist,
            );
            &&& read is Ok <==> entries_read(target_blacklist) is Ok && entries_read(
                target_whitelist,
            ) is Ok && entries_read(origin_blacklist) is Ok && entries_read(origin_whitelist)
                is Ok
            &&& read is Ok ==> {
                &&& Ok::<Seq<EntryView>, (Seq<char>, Seq<char>)>(read->Ok_0.target.blacklist)
                    == entries_read(target_blacklist)
                &&& Ok::<Seq<EntryView>, (Seq<char>, Seq<char>)>(read->Ok_0.target.whitelist)
                    == entries_read(target_whitelist)
                &&& Ok::<Seq<EntryView>, (Seq<char>, Seq<char>)>(read->Ok_0.origin.blacklist)
                    == entries_read(origin_blacklist)
                &&& Ok::<Seq<EntryView>, (Seq<char>, Seq<char>)>(read->Ok_0.origin.whitelist)
                    == entries_read(origin_whitelist)
            }
            &&& read is Err ==> {
                ||| entries_read(target_blacklist) is Err && read->Err_0 == entries_read(
                    target_blacklist,
                )->Err_0
                ||| entries_read(target_whitelist) is Err && read->Err_0 == entries_read(
                    target_whitelist,
                )->Err_0
                ||| entries_read(origin_blacklist) is Err && read->Err_0 == entries_read(
                    origin_blacklist,
                )->Err_0
                ||| entries_read(origin_whitelist) is Err && read->Err_0 == entries_read(
                    origin_whitelist,
                )->Err_0
            }
        }),
{
}

/// A subject matches a list exactly when it matches one of its entries, wherever that
/// stands; so the order of a list does not matter, and a longer list matches more.
pub proof fn law_any_entry_counts(
    before: Seq<EntryView>,
    entry: EntryView,
    after: Seq<EntryView>,
    subject: Seq<char>,
)
    ensures
        !matches_any(Seq::empty(), subject),
        matches_any(before + seq![entry] + after, subject) <==> entry_matches(entry, subject)
            || matches_any(before + after, subject),
{
    let all = before + seq![entry] + after;
    let others = before + after;
    if matches_any(all, subject) {
        let i = choose|i: int| 0 <= i < all.len() && entry_matches(#[trigger] all[i], subject);
        if i < before.len() {
            assert(others[i] == all[i]);
        } else if i > before.len() {
            assert(others[i - 1] == all[i]);
        }
    }
    if entry_matches(entry, subject) {
        assert(all[before.len() as int] == entry);
    }
    if matches_any(others, subject) {
        let i = choose|i: int|
            0 <= i < others.len() && entry_matches(#[trigger] others[i], subject);
        if i < before.len() {
            assert(all[i] == others[i]);
        } else {
            assert(all[i + 1] == others[i]);
        }
    }
}

/// A pair of lists allows what no blacklist entry matches and, where there is a whitelist,
/// one of its entries does; this is what the list answers.
pub proof fn law_lists_answer(list: TargetList, subject: &str, r: bool)
    requires
        call_ensures(TargetList::is_allowed, (&list, subject), r),
    ensures
        r <==> (forall|i: int|
            0 <= i < list@.blacklist.len() ==> !entry_matches(
                #[trigger] list@.blacklist[i],
                subject@,
            )) && (list@.whitelist.len() == 0 || exists|i: int|
            0 <= i < list@.whitelist.len() && entry_matches(
                #[trigger] list@.whitelist[i],
                subject@,
            )),
{
}

/// The verdict of two lists, once it is known what they match.
pub proof fn law_verdicts(blacklisted: bool, has_whitelist: bool, whitelisted: bool, r: bool)
    requires
        call_ensures(TargetList::decide, (blacklisted, has_whitelist, whitelisted), r),
    ensures
        blacklisted ==> !r,
        !blacklisted && has_whitelist ==> r == whitelisted,
        !blacklisted && !has_whitelist ==> r,
{
}

/// An entry that cannot be read is reported as it was written.
pub proof fn law_wrong_entries_are_reported(
    raw: &str,
    r: Result<MatchEntry, MatchError>,
    words: String,
)
    requires
        call_ensures(MatchEntry::parse, (raw,), r),
        r is Err,
        call_ensures(MatchError::message, (&r->Err_0,), words),
    ensures
        entry_read(raw@) is Err,
        words@ == "invalid regex `"@ + raw@ + "`: "@ + entry_read(raw@)->Err_0,
{
}

/// An entry and a list answer as stated, and so does what is built from them.
pub proof fn law_matching(
    raw: &str,
    parsed: Result<MatchEntry, MatchError>,
    entry: MatchEntry,
    subject: &str,
    r: bool,
    list: TargetList,
    has_whitelist: bool,
)
    requires
        call_ensures(MatchEntry::parse, (raw,), parsed),
        call_ensures(MatchEntry::is_match, (&entry, subject), r),
        call_ensures(TargetList::has_whitelist, (&list,), has_whitelist),
    ensures
        parsed is Ok <==> entry_read(raw@) is Ok,
        parsed is Ok ==> parsed->Ok_0@ == entry_read(raw@)->Ok_0,
        r == entry_matches(entry@, subject@),
        has_whitelist == (list@.whitelist.len() > 0),
{
}

/// A pair of lists is built from its blacklist and its whitelist, and a policy from its four
/// lists, in these places.
pub proof fn law_building(
    black: &[String],
    white: &[String],
    origin_black: &[String],
    origin_white: &[String],
    list: Result<TargetList, MatchError>,
    policy: Result<MatchPolicy, MatchError>,
)
    requires
        call_ensures(TargetList::new, (black, white), list),
        call_ensures(MatchPolicy::new, (black, white, origin_black, origin_white), policy),
    ensures
        list is Ok <==> entries_read(text::texts(black@)) is Ok && entries_read(text::texts(white@))
            is Ok,
        list is Ok ==> list->Ok_0@.blacklist == entries_read(text::texts(black@))->Ok_0
            && list->Ok_0@.whitelist == entries_read(text::texts(white@))->Ok_0,
        policy is Ok ==> policy->Ok_0@.target.blacklist == entries_read(text::texts(black@))->Ok_0
            && policy->Ok_0@.target.whitelist == entries_read(text::texts(white@))->Ok_0
            && policy->Ok_0@.origin.blacklist == entries_read(text::texts(origin_black@))->Ok_0
            && policy->Ok_0@.origin.whitelist == entries_read(text::texts(origin_white@))->Ok_0,
        policy is Ok <==> list is Ok && entries_read(text::texts(origin_black@)) is Ok
            && entries_read(text::texts(origin_white@)) is Ok,
        policy is Err ==> policy_read(
            text::texts(black@),
            text::texts(white@),
            text::texts(origin_black@),
            text::texts(origin_white@),
        ) == Err::<PolicyView, (Seq<char>, Seq<char>)>(policy->Err_0.parts()),
{
}

} // verus!
