use idm_engine::engine::rules::{normalized_pattern_matches, RuleEngine, SiteRule};

fn rule(pattern: &str, save: Option<&str>, conns: usize, enabled: bool) -> SiteRule {
    let mut r = SiteRule::new(pattern);
    r.save_path = save.map(|s| s.to_string());
    r.max_connections = conns;
    r.enabled = enabled;
    r
}

#[test]
fn test_exact_match() {
    let rule = SiteRule::new("example.com");
    assert!(rule.matches("example.com"));
    assert!(!rule.matches("www.example.com"));
    assert!(!rule.matches("other.com"));
}

#[test]
fn test_wildcard_match() {
    let rule = SiteRule::new("*.example.com");
    assert!(rule.matches("www.example.com"));
    assert!(rule.matches("video.example.com"));
    assert!(rule.matches("a.b.example.com"));
    assert!(!rule.matches("example.com"));
    assert!(!rule.matches("other.com"));
}

#[test]
fn test_engine_match_url() {
    let mut engine = RuleEngine::new();
    let mut rule = SiteRule::new("*.example.com");
    rule.enabled = true;
    rule.save_path = Some("D:\\Downloads\\Example".to_string());
    engine.add(rule);

    let result = engine.find_match("https://video.example.com/path/file.mp4");
    assert!(result.is_some());
    assert_eq!(result.unwrap().save_path.as_deref(), Some("D:\\Downloads\\Example"));
}

#[test]
fn test_engine_no_match() {
    let engine = RuleEngine::new();
    assert!(engine.find_match("https://other.com/file.zip").is_none());
}

#[test]
fn test_resolve_save_dir_default() {
    let engine = RuleEngine::new();
    let default = String::from("C:\\Downloads");
    let result = engine.resolve_save_dir("https://example.com/file.zip", default.clone(), false);
    assert_eq!(result, default);
}

#[test]
fn new_rule_is_enabled_with_defaults() {
    let r = SiteRule::new("example.com");
    assert_eq!(r.domain_pattern, "example.com");
    assert!(r.enabled);
    assert_eq!(r.max_connections, 0);
    assert!(r.save_path.is_none());
    assert_eq!(r.id.len(), 36);
    for (i, c) in r.id.chars().enumerate() {
        if i == 8 || i == 13 || i == 18 || i == 23 {
            assert_eq!(c, '-');
        } else {
            assert!(c.is_ascii_digit() || ('a'..='f').contains(&c));
        }
    }
    assert_ne!(r.id, SiteRule::new("example.com").id);
}

#[test]
fn matching_trims_and_ignores_case() {
    let r = SiteRule::new("  *.Example.COM ");
    assert!(r.matches(" WWW.example.com\t"));
    assert!(!r.matches("EXAMPLE.com"));
    let exact = SiteRule::new("Host.Org");
    assert!(exact.matches("host.org  "));
}

#[test]
fn wildcard_needs_a_dot_before_the_domain() {
    let r = SiteRule::new("*.example.com");
    assert!(!r.matches("badexample.com"));
    assert!(r.matches(".example.com"));
}

#[test]
fn first_enabled_matching_rule_wins() {
    let mut engine = RuleEngine::new();
    engine.add(rule("*.example.com", Some("/off"), 2, false));
    engine.add(rule("*.example.com", Some("/first"), 4, true));
    engine.add(rule("www.example.com", Some("/second"), 8, true));
    let hit = engine.find_match("http://www.example.com/a").unwrap();
    assert_eq!(hit.save_path.as_deref(), Some("/first"));
    assert_eq!(engine.resolve_max_conns("http://www.example.com/a", 32), 4);
    assert_eq!(engine.find_match_host("www.example.com").unwrap().max_connections, 4);
}

#[test]
fn max_conns_falls_back_to_default() {
    let mut engine = RuleEngine::new();
    engine.add(rule("files.net", None, 0, true));
    assert_eq!(engine.resolve_max_conns("https://files.net/x", 32), 32);
    assert_eq!(engine.resolve_max_conns("https://other.net/x", 16), 16);
    assert_eq!(engine.resolve_max_conns("not a url", 7), 7);
    engine.add(rule("*.files.net", None, 3, true));
    assert_eq!(engine.resolve_max_conns("https://cdn.files.net/x", 32), 3);
}

#[test]
fn unparsable_url_matches_nothing() {
    let mut engine = RuleEngine::new();
    engine.add(rule("example.com", Some("/x"), 1, true));
    assert!(engine.find_match("example.com/file").is_none());
    assert!(engine.find_match("https://example.com/file").is_some());
}

#[test]
fn save_dir_uses_rule_folder_only_when_usable() {
    let mut engine = RuleEngine::new();
    engine.add(rule("example.com", Some("/data/example"), 0, true));
    let url = "https://example.com/f.zip";
    assert_eq!(engine.rule_save_path(url).as_deref(), Some("/data/example"));
    assert_eq!(engine.resolve_save_dir(url, "/base".to_string(), true), "/data/example");
    assert_eq!(engine.resolve_save_dir(url, "/base".to_string(), false), "/base");
    assert_eq!(engine.resolve_save_dir("https://other.com/f", "/base".to_string(), true), "/base");
}

#[test]
fn remove_drops_only_that_id_and_keeps_order() {
    let mut engine = RuleEngine::new();
    let a = rule("a.com", None, 0, true);
    let b = rule("b.com", None, 0, true);
    let c = rule("c.com", None, 0, true);
    let b_id = b.id.clone();
    engine.add(a);
    engine.add(b);
    engine.add(c);
    engine.remove(&b_id);
    let left: Vec<&str> = engine.list().iter().map(|r| r.domain_pattern.as_str()).collect();
    assert_eq!(left, vec!["a.com", "c.com"]);
    engine.remove("no-such-id");
    assert_eq!(engine.list().len(), 2);
}

#[test]
fn load_replaces_rules_and_default_is_empty() {
    let mut engine = RuleEngine::default();
    assert!(engine.list().is_empty());
    engine.add(rule("x.com", None, 0, true));
    engine.load(vec![rule("y.com", None, 0, true), rule("z.com", None, 0, true)]);
    let left: Vec<&str> = engine.list().iter().map(|r| r.domain_pattern.as_str()).collect();
    assert_eq!(left, vec!["y.com", "z.com"]);
}

#[test]
fn normalized_matching_takes_its_input_as_is() {
    assert!(normalized_pattern_matches("*.example.com", "www.example.com"));
    assert!(!normalized_pattern_matches("*.Example.com", "www.example.com"));
    assert!(!normalized_pattern_matches("*.example.com", "example.com"));
    assert!(normalized_pattern_matches("a.org", "a.org"));
    assert!(!normalized_pattern_matches(" a.org", "a.org"));
    assert!(normalized_pattern_matches("*.", "x."));
    assert!(!normalized_pattern_matches("*.", ""));
}
