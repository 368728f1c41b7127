use corsget::matcher::{MatchEntry, MatchError, MatchPolicy, TargetList};

fn strings(list: &[&str]) -> Vec<String> {
    list.iter().map(|s| s.to_string()).collect()
}

fn list(black: &[&str], white: &[&str]) -> TargetList {
    TargetList::new(&strings(black), &strings(white)).unwrap()
}

#[test]
fn exact_match_case_insensitive() {
    let e = MatchEntry::parse("Example.COM").unwrap();
    assert!(e.is_match("example.com"));
    assert!(e.is_match("EXAMPLE.COM"));
    assert!(!e.is_match("sub.example.com"));
}

#[test]
fn wildcard_matches_subdomains() {
    let e = MatchEntry::parse("*.example.com").unwrap();
    assert!(e.is_match("a.example.com"));
    assert!(e.is_match("a.b.example.com"));
    assert!(e.is_match(".example.com"));
    assert!(!e.is_match("example.com"));
    assert!(!e.is_match("evil.com"));
}

#[test]
fn wildcard_escapes_metachars() {
    // `+` means something in a regular expression; in an entry it is literal.
    let e = MatchEntry::parse("a+b.example.com").unwrap();
    assert!(e.is_match("a+b.example.com"));
    assert!(!e.is_match("aab.example.com"));
}

#[test]
fn regex_with_flags() {
    let e = MatchEntry::parse(r"/^api\d+\.example\.com$/i").unwrap();
    assert!(e.is_match("API1.example.com"));
    assert!(e.is_match("api2.example.com"));
    assert!(!e.is_match("api.example.com"));
    assert!(!e.is_match("xapi1.example.com"));
}

#[test]
fn regex_without_flags() {
    let e = MatchEntry::parse(r"/evil\.com$/").unwrap();
    assert!(e.is_match("sub.evil.com"));
    assert!(e.is_match("evil.com"));
    assert!(!e.is_match("evil.community"));
}

#[test]
fn both_empty_allows_all() {
    let l = list(&[], &[]);
    assert!(l.is_allowed("anything.com"));
    assert!(l.is_allowed(""));
}

#[test]
fn blacklist_denies() {
    let l = list(&["evil.com"], &[]);
    assert!(!l.is_allowed("evil.com"));
    assert!(l.is_allowed("good.com"));
}

#[test]
fn whitelist_only_allows_listed() {
    let l = list(&[], &["good.com"]);
    assert!(l.is_allowed("good.com"));
    assert!(!l.is_allowed("evil.com"));
}

#[test]
fn whitelist_precedence_over_blacklist() {
    // whitelist not empty: must be whitelisted AND not blacklisted
    let l = list(&["bad.good.com"], &["*.good.com"]);
    assert!(l.is_allowed("ok.good.com"));
    assert!(!l.is_allowed("bad.good.com")); // blacklisted
    assert!(!l.is_allowed("evil.com")); // not whitelisted
}

#[test]
fn wildcard_blacklist_denies_pattern() {
    let l = list(&["*.evil.com"], &[]);
    assert!(!l.is_allowed("a.evil.com"));
    assert!(l.is_allowed("evil.com"));
}

#[test]
fn invalid_regex_flag_rejected() {
    let err = MatchEntry::parse(r"/foo/z").unwrap_err();
    assert!(err.message().contains("unknown regex flag"));
}

#[test]
fn invalid_regex_pattern_rejected() {
    let err = MatchEntry::parse(r"/[/").unwrap_err();
    assert!(matches!(err, MatchError::InvalidRegex { .. }));
}

#[test]
fn error_names_the_entry_as_written() {
    let err = MatchEntry::parse("  /foo/z").unwrap_err();
    assert_eq!(err.message(), "invalid regex `  /foo/z`: unknown regex flag `z`");
}

#[test]
fn wildcard_ignores_case_and_escapes() {
    let e = MatchEntry::parse("*.Ex+mple.com").unwrap();
    assert!(e.is_match("A.EX+MPLE.COM"));
    assert!(!e.is_match("a.exxmple.com"));
    assert!(!e.is_match("a.ex+mple.com.evil"));
}

#[test]
fn every_flag_is_read() {
    assert!(MatchEntry::parse("/A B/ix").unwrap().is_match("xaby"));
    assert!(MatchEntry::parse("/^b$/m").unwrap().is_match("a\nb\nc"));
    assert!(!MatchEntry::parse("/^b$/").unwrap().is_match("a\nb\nc"));
    assert!(MatchEntry::parse("/a.c/s").unwrap().is_match("a\nc"));
    assert!(!MatchEntry::parse("/a.c/").unwrap().is_match("a\nc"));
}

#[test]
fn entries_are_trimmed() {
    let e = MatchEntry::parse("\t example.com \n").unwrap();
    assert!(e.is_match("example.com"));
    assert!(!e.is_match(" example.com"));
}

#[test]
fn a_lone_slash_is_an_exact_entry() {
    let e = MatchEntry::parse("/").unwrap();
    assert!(matches!(e, MatchEntry::Exact(_)));
    assert!(e.is_match("/"));
}

#[test]
fn first_wrong_entry_is_reported() {
    let err = TargetList::new(&strings(&["ok", "/a/q"]), &strings(&["/b/w"])).unwrap_err();
    assert_eq!(err.message(), "invalid regex `/a/q`: unknown regex flag `q`");
    let err = MatchPolicy::new(&[], &[], &[], &strings(&["/b/w"])).unwrap_err();
    assert_eq!(err.message(), "invalid regex `/b/w`: unknown regex flag `w`");
}

#[test]
fn policy_keeps_lists_apart() {
    let policy = MatchPolicy::new(
        &strings(&["bad.target"]),
        &[],
        &strings(&["bad.origin"]),
        &strings(&["*.origin"]),
    )
    .unwrap();
    assert!(!policy.target.is_allowed("bad.target"));
    assert!(policy.target.is_allowed("bad.origin"));
    assert!(!policy.origin.is_allowed("bad.origin"));
    assert!(policy.origin.is_allowed("good.origin"));
    assert!(policy.origin.has_whitelist());
    assert!(!policy.target.has_whitelist());
}

#[test]
fn lists_decide_together() {
    assert!(TargetList::decide(false, false, false));
    assert!(TargetList::decide(false, true, true));
    assert!(!TargetList::decide(false, true, false));
    assert!(!TargetList::decide(true, true, true));
    assert!(!TargetList::decide(true, false, false));
}

#[test]
fn line_feeds_in_a_wildcard_are_literal() {
    let e = MatchEntry::parse("a\n*b").unwrap();
    assert!(!e.is_match("ab"));
    assert!(!e.is_match("a*b"));
    assert!(!e.is_match("axb"));
    assert!(e.is_match("A\nxB"));
}
