use nimbusdns::blocking::hosts::{domains_to_import, parse_hosts_file};
use nimbusdns::blocking::lists::{BlockingDecision, BlockingEngine, BlockingLists, GravityRows};
use nimbusdns::blocking::wildcard::WildcardMatcher;
use nimbusdns::config::BlockingMode;

fn strings(list: &[&str]) -> Vec<String> {
    list.iter().map(|d| d.to_string()).collect()
}

#[test]
fn test_parse_hosts_file() {
    let content = "\
# This is a comment
0.0.0.0 example.com
127.0.0.1 trackertest.com
0.0.0.0 doubleclick.net # tracker
127.0.0.1 localhost
0.0.0.0 255.255.255.255
# another comment
0.0.0.0 Example.COM

some bad line
";
    let domains = parse_hosts_file(content);
    assert_eq!(domains.len(), 3);
    assert!(domains.contains(&"example.com".to_string()));
    assert!(domains.contains(&"trackertest.com".to_string()));
    assert!(domains.contains(&"doubleclick.net".to_string()));
    assert!(!domains.contains(&"localhost".to_string()));
}

#[test]
fn test_parse_empty() {
    assert!(parse_hosts_file("").is_empty());
    assert!(parse_hosts_file("# only comment").is_empty());
}

#[test]
fn test_deduplication() {
    let content = "\
0.0.0.0 example.com
0.0.0.0 Example.com
0.0.0.0 example.COM
";
    let domains = parse_hosts_file(content);
    assert_eq!(domains.len(), 1);
    assert_eq!(domains[0], "example.com");
}

#[test]
fn local_names_are_passed_over() {
    let content = "0.0.0.0 localnet\n0.0.0.0 broadcasthost\n127.0.0.1 ::1\n1.2.3.4 a.com\n0.0.0.0\n0.0.0.0\tb.com\r\n";
    assert_eq!(parse_hosts_file(content), strings(&["b.com"]));
    assert!(parse_hosts_file("0.0.0.0 LOCALHOST\n").is_empty());
    assert!(parse_hosts_file("127.0.0.1 LocalHost.LocalDomain\n0.0.0.0 localads.com\n").is_empty());
    // Only the names of the machine count in any case.
    assert_eq!(
        parse_hosts_file("0.0.0.0 BroadcastHost\n0.0.0.0 LocalAds.com\n0.0.0.0 Example.COM"),
        strings(&["broadcasthost", "localads.com", "example.com"])
    );
}

#[test]
fn short_files_are_not_imported() {
    assert_eq!(domains_to_import("0.0.0.0 a.com\n0.0.0.0 b.com\n"), Err(2));
    let long: String = (0..1000).map(|i| format!("0.0.0.0 d{i}.com\n")).collect();
    assert_eq!(domains_to_import(&long).unwrap().len(), 1000);
}

#[test]
fn test_blocking_decision() {
    assert!(BlockingDecision::Blocked("test".into()).is_blocked());
    assert!(BlockingDecision::BlockedByRegex.is_blocked());
    assert!(!BlockingDecision::NotBlocked.is_blocked());
    assert!(!BlockingDecision::Allowlisted.is_blocked());
}

#[test]
fn test_compile_regex_wildcard_domain_boundary() {
    let re = BlockingLists::compile_regex("*.example.com").unwrap();
    assert!(re.is_match("sub.example.com"), "sub.example.com should match *.example.com");
    assert!(re.is_match("example.com"), "example.com should match *.example.com");
    assert!(!re.is_match("notexample.com"), "notexample.com should NOT match *.example.com");
    assert!(!re.is_match("test.notexample.com"), "test.notexample.com should NOT match *.example.com");
}

#[test]
fn test_compile_regex_exact() {
    let re = BlockingLists::compile_regex("example.com").unwrap();
    assert!(re.is_match("example.com"), "exact match");
    assert!(re.is_match("Example.COM"), "case insensitive");
    assert!(!re.is_match("notexample.com"), "domain boundary");
    assert!(!re.is_match("sub.example.com"), "subdomain not exact");
}

#[test]
fn test_compile_regex_raw_regex() {
    let re = BlockingLists::compile_regex("/^tracker\\..*\\.example\\.com$/").unwrap();
    assert!(re.is_match("tracker.sub.example.com"));
    assert!(!re.is_match("safe.example.com"));
    assert!(!re.is_match("tracker.example.com.evil.com"));
}

#[test]
fn test_compile_regex_invalid() {
    assert!(BlockingLists::compile_regex("").is_none());
    assert!(BlockingLists::compile_regex("  ").is_none());
    assert!(BlockingLists::compile_regex("//").is_none());
}

#[test]
fn test_compile_regex_wildcard_boundary() {
    let re = BlockingLists::compile_regex("*.example.com").unwrap();
    assert!(re.is_match("sub.example.com"), "subdomain should match");
    assert!(re.is_match("example.com"), "apex should match");
    assert!(!re.is_match("notexample.com"), "should NOT match substring");
}

#[test]
fn test_exact_match() {
    let re = BlockingLists::compile_regex("example.com").unwrap();
    assert!(re.is_match("example.com"));
    assert!(!re.is_match("test.example.com"));
}

#[test]
fn test_wildcard_match() {
    let re = BlockingLists::compile_regex("*.example.com").unwrap();
    assert!(re.is_match("sub.example.com"));
    assert!(re.is_match("example.com"));
    assert!(!re.is_match("other.com"));
}

#[test]
fn test_regex_match() {
    let re = BlockingLists::compile_regex("/^tracker\\..*\\.example\\.com$/").unwrap();
    assert!(re.is_match("tracker.sub.example.com"));
    assert!(!re.is_match("safe.example.com"));
}

#[test]
fn test_wildcard_matcher_basics() {
    let mut m = WildcardMatcher::default();
    m.insert("*.example.com");
    assert!(m.is_match("sub.example.com"));
    assert!(m.is_match("example.com"));
    assert!(!m.is_match("notexample.com"));
    assert!(!m.is_match("x.notexample.com"));
}

#[test]
fn test_wildcard_matcher_multiple() {
    let mut m = WildcardMatcher::default();
    m.insert("*.tracker.io");
    m.insert("*.ads.cn");
    assert!(m.is_match("a.b.tracker.io"));
    assert!(m.is_match("deep.ads.cn"));
    assert!(!m.is_match("tracker.io.evil.com"));
    assert!(!m.is_match("safe.io"));
}

#[test]
fn test_wildcard_matcher_bare_star() {
    let mut m = WildcardMatcher::default();
    m.insert("*foo.com");
    assert!(m.is_match("foo.com"), "apex should match *foo.com");
    assert!(m.is_match("sub.foo.com"), "subdomain should match *foo.com");
    assert!(!m.is_match("xfoo.com"), "should NOT match *foo.com");
    assert!(!m.is_match("other.foo.com.evil.com"), "should NOT match *foo.com");
}

#[test]
fn test_wildcard_matcher_mixed_case() {
    let mut m = WildcardMatcher::default();
    m.insert("*.Example.COM");
    assert!(m.is_match("sub.example.com"), "mixed-case pattern should match lowercased query");
}

#[test]
fn test_wildcard_matcher_bare_star_mixed_case() {
    let mut m = WildcardMatcher::default();
    m.insert("*Foo.COM");
    assert!(m.is_match("foo.com"), "apex should match *Foo.COM");
    assert!(m.is_match("sub.foo.com"), "subdomain should match *Foo.COM");
    assert!(!m.is_match("xfoo.com"), "should NOT match *Foo.COM");
    assert!(!m.is_match("foo.com.evil.net"), "should NOT match *Foo.COM");
}

#[test]
fn test_wildcard_matcher_multi_label_suffix() {
    let mut m = WildcardMatcher::default();
    m.insert("*.deep.example.co.uk");
    assert!(m.is_match("a.deep.example.co.uk"));
    assert!(m.is_match("deep.example.co.uk"), "apex of the pattern suffix matches");
    assert!(!m.is_match("example.co.uk"));
    assert!(!m.is_match("deep.example.co"));
}

fn lists_with(
    allow_exact: &[&str],
    deny_exact: &[&str],
    gravity_domains: &[&str],
    wildcard: &[&str],
) -> BlockingLists {
    let mut gravity = strings(gravity_domains);
    gravity.extend(strings(wildcard));
    BlockingLists::load(&GravityRows {
        allow: strings(allow_exact),
        deny: strings(deny_exact),
        allow_patterns: vec![],
        deny_patterns: vec![],
        gravity,
        adlist_count: 0,
    })
}

#[test]
fn test_check_blocked_wildcard_blocks_subdomains() {
    let lists = lists_with(&[], &[], &[], &["*.ads.example.com"]);
    assert_eq!(lists.check_blocked("ads.example.com"), BlockingDecision::Blocked("wildcard".into()));
    assert_eq!(lists.check_blocked("banner.ads.example.com"), BlockingDecision::Blocked("wildcard".into()));
    assert_eq!(lists.check_blocked("safe.example.com"), BlockingDecision::NotBlocked);
    assert_eq!(lists.total_blocked(), 1);
}

#[test]
fn test_total_blocked_counts_wildcards() {
    let lists = lists_with(
        &[],
        &["d1.com", "d2.com"],
        &["g1.com", "g2.com"],
        &["*.w1.com", "*.w2.com", "*.w3.com"],
    );
    assert_eq!(lists.total_blocked(), 7);
}

#[test]
fn test_delta_deny_add_remove() {
    let mut lists = lists_with(&[], &[], &[], &[]);
    lists.add_deny_domain("ads.example.com");
    assert_eq!(lists.check_blocked("ads.example.com"), BlockingDecision::Blocked("exact".into()));
    assert_eq!(lists.total_blocked(), 1);
    lists.remove_deny_domain("ads.example.com");
    assert_eq!(lists.check_blocked("ads.example.com"), BlockingDecision::NotBlocked);
    assert_eq!(lists.total_blocked(), 0);
}

#[test]
fn test_delta_gravity_add_remove() {
    let mut lists = lists_with(&[], &[], &[], &[]);
    lists.add_gravity_domain("tracker.example.com");
    assert_eq!(lists.check_blocked("tracker.example.com"), BlockingDecision::Blocked("gravity".into()));
    assert_eq!(lists.total_blocked(), 1);
    lists.remove_gravity_domain("tracker.example.com");
    assert_eq!(lists.check_blocked("tracker.example.com"), BlockingDecision::NotBlocked);
    assert_eq!(lists.total_blocked(), 0);
}

#[test]
fn test_delta_allowlist_wins() {
    let mut lists = lists_with(&[], &[], &["blocked.example.com"], &[]);
    lists.add_deny_domain("blocked.example.com");
    lists.add_allow_domain("blocked.example.com");
    assert_eq!(lists.check_blocked("blocked.example.com"), BlockingDecision::Allowlisted);
    lists.remove_allow_domain("blocked.example.com");
    assert_eq!(lists.check_blocked("blocked.example.com"), BlockingDecision::Blocked("exact".into()));
}

#[test]
fn test_check_blocked_allowlist_wins_over_wildcard_and_gravity() {
    let lists = lists_with(&["safe.example.com"], &[], &["safe.example.com"], &["*.example.com"]);
    assert_eq!(lists.check_blocked("safe.example.com"), BlockingDecision::Allowlisted);
}

#[test]
fn test_check_blocked_gravity_exact_blocks_before_deny_regex() {
    let lists = lists_with(&[], &[], &["tracker.example.com"], &[]);
    assert_eq!(lists.check_blocked("tracker.example.com"), BlockingDecision::Blocked("gravity".into()));
    assert_eq!(lists.check_blocked("tracker.example.net"), BlockingDecision::NotBlocked);
}

#[test]
fn test_check_blocked_order_deny_exact_before_gravity() {
    let lists = lists_with(&[], &["both.example.com"], &["both.example.com"], &[]);
    assert_eq!(lists.check_blocked("both.example.com"), BlockingDecision::Blocked("exact".into()));
}

#[test]
fn test_reload_picks_up_new_gravity_domains() {
    let rows = |gravity: &[&str]| GravityRows {
        allow: vec![],
        deny: vec![],
        allow_patterns: vec![],
        deny_patterns: vec![],
        gravity: strings(gravity),
        adlist_count: 3,
    };
    let mut engine = BlockingEngine::load(&rows(&["before.example.com"]), BlockingMode::Null);
    assert!(engine.is_blocked("before.example.com"));
    assert!(!engine.is_blocked("after.example.com"));
    engine.reload::<String>(Ok(rows(&["before.example.com", "after.example.com"]))).unwrap();
    assert!(engine.is_blocked("after.example.com"), "reload must pick up new domains");
    assert!(engine.is_blocked("before.example.com"), "existing domains must survive reload");
    let stats = engine.stats();
    assert_eq!((stats.total_blocked, stats.adlist_count), (2, 3));
    engine.set_mode(BlockingMode::Nxdomain);
    assert_eq!(engine.mode(), BlockingMode::Nxdomain);
    engine.lists().add_deny_domain("x.com");
    assert!(engine.is_blocked("x.com"));
    // Rows that cannot be read change nothing.
    assert_eq!(engine.reload(Err("locked")), Err("locked"));
    assert!(engine.is_blocked("x.com") && engine.is_blocked("after.example.com"));
    assert_eq!(engine.stats().total_blocked, 3);
    // Rows that went do not block any more; the mode stays.
    engine.reload::<String>(Ok(rows(&["*.Other.com"]))).unwrap();
    assert!(!engine.is_blocked("x.com") && !engine.is_blocked("after.example.com"));
    assert!(engine.is_blocked("other.com") && engine.is_blocked("a.OTHER.com"));
    assert!(!engine.is_blocked("another.com"));
    assert_eq!(engine.mode(), BlockingMode::Nxdomain);
}

#[test]
fn patterns_decide_after_the_exact_lists() {
    let lists = BlockingLists::load(&GravityRows {
        allow: vec![],
        deny: vec![],
        allow_patterns: strings(&["/^good/"]),
        deny_patterns: strings(&["/ads/", "*.bad.com"]),
        gravity: strings(&["exact.com"]),
        adlist_count: 0,
    });
    assert_eq!(lists.check_blocked("good.ads.com"), BlockingDecision::Allowlisted);
    assert_eq!(lists.check_blocked("my.ads.com"), BlockingDecision::BlockedByRegex);
    assert_eq!(lists.check_blocked("a.bad.com"), BlockingDecision::BlockedByRegex);
    // A dot at the end and the case do not matter.
    assert_eq!(lists.check_blocked("EXACT.com."), BlockingDecision::Blocked("gravity".into()));
}

#[test]
fn dots_of_a_pattern_stand_for_themselves() {
    let re = BlockingLists::compile_regex("a.b").unwrap();
    assert!(re.is_match("a.b"));
    assert!(!re.is_match("axb"));
    let re = BlockingLists::compile_regex("*.a.b").unwrap();
    assert!(!re.is_match("x.axb"));
}

#[test]
fn removing_undoes_adding_and_leaves_the_rest() {
    let mut lists = lists_with(&[], &["keep.com"], &["g.com"], &[]);
    lists.add_deny_domain("Gone.com");
    lists.add_gravity_domain("also.com");
    assert_eq!(lists.total_blocked(), 4);
    lists.remove_deny_domain("gone.com");
    lists.remove_gravity_domain("also.com");
    assert_eq!(lists.total_blocked(), 2);
    assert!(lists.check_blocked("keep.com").is_blocked());
    assert!(lists.check_blocked("g.com").is_blocked());
    assert!(!lists.check_blocked("gone.com").is_blocked());
    // What is not there is not removed, and not counted.
    lists.remove_deny_domain("nowhere.com");
    assert_eq!(lists.total_blocked(), 2);
}

#[test]
fn wildcards_of_a_list_match_at_or_below() {
    let mut m = WildcardMatcher::default();
    for entry in ["*Foo.COM", " *.bar.net ", "plain.org", "*.\u{c9}t\u{e9}.fr"] {
        m.insert(entry);
    }
    for yes in [
        "foo.com", "sub.foo.com", "bar.net", "a.b.bar.net", "plain.org", "x.plain.org",
        "\u{e9}t\u{e9}.fr", "www.\u{e9}t\u{e9}.fr",
    ] {
        assert!(m.is_match(yes), "{yes}");
    }
    for no in ["xfoo.com", "foo.com.evil.net", "net", "com", "splain.org", "t\u{e9}.fr", ""] {
        assert!(!m.is_match(no), "{no}");
    }
}
