//! Per-site rules: custom save folders and connection limits chosen by host name.
use vstd::prelude::*;
use crate::engine::task::new_uuid;
use crate::text::{
    is_prefix_of, is_suffix_of, lowercase, str_eq, str_ends_with, str_starts_with,
    to_lowercase, trim_white_space, trim_ws,
};
use uuid::Uuid;

verus! {

/// A lowercase hexadecimal digit.
pub open spec fn is_lower_hex_digit(c: char) -> bool {
    ('0' <= c && c <= '9') || ('a' <= c && c <= 'f')
}

/// The hyphenated text of a UUID: 36 characters, `-` at positions 8, 13, 18
/// and 23, lowercase hexadecimal digits everywhere else.
pub open spec fn is_hyphenated_uuid_text(s: Seq<char>) -> bool {
    &&& s.len() == 36
    &&& forall|i: int| 0 <= i < 36 ==> if i == 8 || i == 13 || i == 18 || i == 23 {
        s[i] == '-'
    } else {
        is_lower_hex_digit(#[trigger] s[i])
    }
}

/// Calls `uuid::Uuid`'s `Display` (through `to_string`), which writes the
/// hyphenated lowercase form: 32 hexadecimal digits in groups of 8, 4, 4, 4
/// and 12, joined by `-`.
#[verifier::external_body]
pub(crate) fn uuid_text(id: &Uuid) -> (r: String)
    ensures
        is_hyphenated_uuid_text(r@),
{
    id.to_string()
}

/// The host of an absolute URL, as `url::Url::parse` and `Url::host_str`
/// give it; `None` when the text does not parse or has no host.
pub uninterp spec fn url_host(url: Seq<char>) -> Option<Seq<char>>;

/// Calls `url::Url::parse` and, on success, `Url::host_str`. The result
/// depends on the text alone and is named `url_host`.
#[verifier::external_body]
pub(crate) fn parse_url_host(url_str: &str) -> (r: Option<String>)
    ensures
        match r {
            Some(h) => url_host(url_str@) == Some(h@),
            None => url_host(url_str@) is None,
        },
{
    match url::Url::parse(url_str) {
        Ok(u) => u.host_str().map(|h| h.to_string()),
        Err(_) => None,
    }
}

/// Whether a normalized pattern matches a normalized host: they are equal,
/// or the pattern is `*.` followed by a domain `d` and the host ends with `.d`
/// and is not `d` itself.
pub open spec fn normalized_matches(p: Seq<char>, h: Seq<char>) -> bool {
    ||| p == h
    ||| is_prefix_of("*."@, p) && is_suffix_of(p.skip(1), h) && h != p.skip(2)
}

/// Whether a domain pattern matches a host, both compared without surrounding
/// white space and in lowercase.
pub open spec fn pattern_matches(pattern: Seq<char>, host: Seq<char>) -> bool {
    normalized_matches(lowercase(trim_ws(pattern)), lowercase(trim_ws(host)))
}

/// Whether a pattern matches a host, both already trimmed and lowercased.
pub fn normalized_pattern_matches(p: &str, h: &str) -> (r: bool)
    ensures
        r == normalized_matches(p@, h@),
{
    if str_eq(p, h) {
        return true;
    }
    if str_starts_with(p, "*.") {
        proof {
            reveal_strlit("*.");
        }
        let n = p.unicode_len();
        let suffix = p.substring_char(1, n);
        let bare = suffix.substring_char(1, n - 1);
        proof {
            assert(suffix@ =~= p@.skip(1));
            assert(bare@ =~= p@.skip(2));
        }
        return str_ends_with(h, suffix) && !str_eq(h, bare);
    }
    false
}

/// One site rule.
#[derive(Debug, Clone)]
pub struct SiteRule {
    pub id: String,
    /// The domain pattern, such as `*.example.com` or `video.example.com`.
    pub domain_pattern: String,
    /// A custom save folder (an absolute path), if any.
    pub save_path: Option<String>,
    /// The connection limit; 0 means the default.
    pub max_connections: usize,
    /// Whether the rule is in force.
    pub enabled: bool,
}

/// The rule applies to the host: it is enabled and its pattern matches.
pub open spec fn rule_hits(rule: SiteRule, host: Seq<char>) -> bool {
    rule.enabled && pattern_matches(rule.domain_pattern@, host)
}

/// The first rule, in order, that applies to the host.
pub open spec fn first_hit(rules: Seq<SiteRule>, host: Seq<char>) -> Option<SiteRule>
    decreases rules.len(),
{
    if rules.len() == 0 {
        None
    } else if rule_hits(rules[0], host) {
        Some(rules[0])
    } else {
        first_hit(rules.drop_first(), host)
    }
}

/// The rule chosen for a URL: the first that applies to its host, none when
/// the URL has no host.
pub open spec fn rule_for_url(rules: Seq<SiteRule>, url: Seq<char>) -> Option<SiteRule> {
    match url_host(url) {
        Some(h) => first_hit(rules, h),
        None => None,
    }
}

/// The rule an optional reference points to.
pub open spec fn deref_rule(r: Option<&SiteRule>) -> Option<SiteRule> {
    match r {
        Some(x) => Some(*x),
        None => None,
    }
}

/// The custom save folder of the rule chosen for a URL, if any.
pub open spec fn rule_save_path_for(rules: Seq<SiteRule>, url: Seq<char>) -> Option<Seq<char>> {
    match rule_for_url(rules, url) {
        Some(rule) => match rule.save_path {
            Some(p) => Some(p@),
            None => None,
        },
        None => None,
    }
}

/// The rules except those with the given id, in their order.
pub open spec fn without_id(rules: Seq<SiteRule>, id: Seq<char>) -> Seq<SiteRule> {
    rules.filter(other_id(id))
}

/// Holds of the rules whose id differs from `id`.
pub open spec fn other_id(id: Seq<char>) -> spec_fn(SiteRule) -> bool {
    |r: SiteRule| r.id@ != id
}

/// A wildcard pattern `*.d` matches every host that is a proper subdomain
/// `x.d` of `d` (compared trimmed and in lowercase).
pub proof fn lemma_wildcard_matches_subdomain(pattern: Seq<char>, host: Seq<char>, d: Seq<char>, x: Seq<char>)
    requires
        lowercase(trim_ws(pattern)) == "*."@ + d,
        lowercase(trim_ws(host)) == x + "."@ + d,
        x.len() > 0,
    ensures
        pattern_matches(pattern, host),
{
    reveal_strlit("*.");
    reveal_strlit(".");
    let p = lowercase(trim_ws(pattern));
    let h = lowercase(trim_ws(host));
    assert(p.subrange(0, 2) =~= "*."@);
    assert(p.skip(1) =~= "."@ + d);
    assert(h.subrange(h.len() - p.skip(1).len(), h.len() as int) =~= p.skip(1));
    assert(p.skip(2) =~= d);
}

/// A wildcard pattern `*.d` never matches the bare domain `d`.
pub proof fn lemma_wildcard_excludes_bare_domain(pattern: Seq<char>, host: Seq<char>, d: Seq<char>)
    requires
        lowercase(trim_ws(pattern)) == "*."@ + d,
        lowercase(trim_ws(host)) == d,
    ensures
        !pattern_matches(pattern, host),
{
    reveal_strlit("*.");
    let p = lowercase(trim_ws(pattern));
    assert(p.len() == d.len() + 2);
    assert(p.skip(2) =~= d);
}

/// A pattern that does not start with `*.` matches exactly the hosts equal
/// to it (compared trimmed and in lowercase).
pub proof fn lemma_exact_pattern(pattern: Seq<char>, host: Seq<char>)
    requires
        !is_prefix_of("*."@, lowercase(trim_ws(pattern))),
    ensures
        pattern_matches(pattern, host) <==> lowercase(trim_ws(pattern)) == lowercase(trim_ws(host)),
{
}

/// The chosen rule is the earliest applicable one: when some rule applies,
/// the first one that does is chosen; when none does, none is.
pub proof fn lemma_first_hit_is_earliest(rules: Seq<SiteRule>, host: Seq<char>)
    ensures
        first_hit(rules, host) is None <==> forall|i: int| 0 <= i < rules.len() ==> !rule_hits(#[trigger] rules[i], host),
        forall|i: int| 0 <= i < rules.len() && rule_hits(#[trigger] rules[i], host)
            && (forall|j: int| 0 <= j < i ==> !rule_hits(#[trigger] rules[j], host))
            ==> first_hit(rules, host) == Some(rules[i]),
    decreases rules.len(),
{
    if rules.len() > 0 {
        lemma_first_hit_is_earliest(rules.drop_first(), host);
        assert forall|i: int| 0 <= i < rules.len() && rule_hits(#[trigger] rules[i], host)
            && (forall|j: int| 0 <= j < i ==> !rule_hits(#[trigger] rules[j], host))
            implies first_hit(rules, host) == Some(rules[i]) by {
            if i > 0 {
                assert(!rule_hits(rules[0], host));
                assert(rules.drop_first()[i - 1] == rules[i]);
                assert forall|j: int| 0 <= j < i - 1 implies !rule_hits(#[trigger] rules.drop_first()[j], host) by {
                    assert(rules.drop_first()[j] == rules[j + 1]);
                }
            }
        }
        if first_hit(rules, host) is None {
            assert forall|i: int| 0 <= i < rules.len() implies !rule_hits(#[trigger] rules[i], host) by {
                if i > 0 {
                    assert(rules.drop_first()[i - 1] == rules[i]);
                }
            }
        }
        if forall|i: int| 0 <= i < rules.len() ==> !rule_hits(#[trigger] rules[i], host) {
            assert(!rule_hits(rules[0], host));
            assert forall|i: int| 0 <= i < rules.drop_first().len() implies !rule_hits(#[trigger] rules.drop_first()[i], host) by {
                assert(rules.drop_first()[i] == rules[i + 1]);
            }
        }
    }
}

/// Adding a rule never changes the choice for a host that an earlier rule
/// applies to; for any other host the new rule is chosen when it applies.
pub proof fn lemma_add_keeps_precedence(rules: Seq<SiteRule>, rule: SiteRule, host: Seq<char>)
    ensures
        first_hit(rules, host) is Some ==> first_hit(rules.push(rule), host) == first_hit(rules, host),
        first_hit(rules, host) is None ==> first_hit(rules.push(rule), host) == (if rule_hits(rule, host) {
            Some(rule)
        } else {
            None
        }),
    decreases rules.len(),
{
    if rules.len() == 0 {
        assert(rules.push(rule).drop_first() =~= Seq::<SiteRule>::empty());
    } else {
        assert(rules.push(rule).drop_first() =~= rules.drop_first().push(rule));
        assert(rules.push(rule)[0] == rules[0]);
        lemma_add_keeps_precedence(rules.drop_first(), rule, host);
    }
}

/// After removing an id, no rule with that id is left, and every rule with
/// another id is still there.
pub proof fn lemma_remove_drops_only_id(rules: Seq<SiteRule>, id: Seq<char>)
    ensures
        forall|i: int| 0 <= i < without_id(rules, id).len() ==> (#[trigger] without_id(rules, id)[i]).id@ != id,
        forall|i: int| 0 <= i < rules.len() && (#[trigger] rules[i]).id@ != id ==> without_id(rules, id).contains(rules[i]),
        without_id(rules, id).len() <= rules.len(),
{
    let pred = other_id(id);
    assert forall|i: int| 0 <= i < without_id(rules, id).len() implies (#[trigger] without_id(rules, id)[i]).id@ != id by {
        rules.lemma_filter_pred(pred, i);
    }
    assert forall|i: int| 0 <= i < rules.len() && (#[trigger] rules[i]).id@ != id implies without_id(rules, id).contains(rules[i]) by {
        rules.lemma_filter_contains(pred, i);
    }
    rules.lemma_filter_len(pred);
}

/// The chosen rule is an enabled rule that matches the host, with no earlier
/// enabled matching rule.
proof fn lemma_first_hit_some(rules: Seq<SiteRule>, host: Seq<char>)
    ensures
        first_hit(rules, host) matches Some(r) ==> exists|i: int| 0 <= i < rules.len() && rules[i] == r
            && #[trigger] rule_hits(rules[i], host)
            && forall|j: int| 0 <= j < i ==> !rule_hits(#[trigger] rules[j], host),
    decreases rules.len(),
{
    if rules.len() > 0 && !rule_hits(rules[0], host) {
        lemma_first_hit_some(rules.drop_first(), host);
        if let Some(r) = first_hit(rules, host) {
            let k = choose|k: int| 0 <= k < rules.drop_first().len() && rules.drop_first()[k] == r
                && #[trigger] rule_hits(rules.drop_first()[k], host)
                && forall|j: int| 0 <= j < k ==> !rule_hits(#[trigger] rules.drop_first()[j], host);
            assert(rules[k + 1] == rules.drop_first()[k]);
            assert forall|j: int| 0 <= j < k + 1 implies !rule_hits(#[trigger] rules[j], host) by {
                if j > 0 {
                    assert(rules.drop_first()[j - 1] == rules[j]);
                }
            }
            assert(rule_hits(rules[k + 1], host));
        }
    } else if rules.len() > 0 {
        assert(rule_hits(rules[0], host));
    }
}

/// Where a download's custom folder comes from: a URL gets a folder `p`
/// exactly when it has a host `h` and the first rule that is enabled and
/// whose pattern matches `h` has the save path `p`. A disabled rule never
/// supplies a folder, and with every rule disabled no URL gets one.
pub proof fn lemma_save_path_from_chosen_rule(rules: Seq<SiteRule>, url: Seq<char>)
    ensures
        rule_save_path_for(rules, url) matches Some(p) ==> url_host(url) matches Some(h) && exists|i: int|
            0 <= i < rules.len() && (#[trigger] rules[i]).enabled
            && pattern_matches(rules[i].domain_pattern@, h)
            && rules[i].save_path is Some && rules[i].save_path->0@ == p
            && forall|j: int| 0 <= j < i ==> !((#[trigger] rules[j]).enabled && pattern_matches(rules[j].domain_pattern@, h)),
        forall|i: int| url_host(url) is Some && 0 <= i < rules.len()
            && (#[trigger] rules[i]).enabled && pattern_matches(rules[i].domain_pattern@, url_host(url)->0)
            && (forall|j: int| 0 <= j < i ==> !((#[trigger] rules[j]).enabled && pattern_matches(rules[j].domain_pattern@, url_host(url)->0)))
            ==> rule_save_path_for(rules, url) == match rules[i].save_path {
                Some(q) => Some(q@),
                None => None,
            },
        (forall|i: int| 0 <= i < rules.len() ==> !(#[trigger] rules[i]).enabled) ==> rule_save_path_for(rules, url) is None
            && rule_for_url(rules, url) is None,
        rule_for_url(rules, url) is Some ==> url_host(url) is Some
            && (rule_for_url(rules, url)->0).enabled
            && pattern_matches((rule_for_url(rules, url)->0).domain_pattern@, url_host(url)->0)
            && rules.contains(rule_for_url(rules, url)->0),
{
    if let Some(h) = url_host(url) {
        lemma_first_hit_some(rules, h);
        lemma_first_hit_is_earliest(rules, h);
        if let Some(r) = first_hit(rules, h) {
            let i = choose|i: int| 0 <= i < rules.len() && rules[i] == r
                && #[trigger] rule_hits(rules[i], h)
                && forall|j: int| 0 <= j < i ==> !rule_hits(#[trigger] rules[j], h);
            assert(rules.contains(r));
        }
        if let Some(p) = rule_save_path_for(rules, url) {
            let r = first_hit(rules, h)->0;
            let i = choose|i: int| 0 <= i < rules.len() && rules[i] == r
                && #[trigger] rule_hits(rules[i], h)
                && forall|j: int| 0 <= j < i ==> !rule_hits(#[trigger] rules[j], h);
            assert(rules[i].enabled && pattern_matches(rules[i].domain_pattern@, h));
            assert forall|j: int| 0 <= j < i implies !((#[trigger] rules[j]).enabled && pattern_matches(rules[j].domain_pattern@, h)) by {
                assert(!rule_hits(rules[j], h));
            }
        }
        assert forall|i: int| url_host(url) is Some && 0 <= i < rules.len()
            && (#[trigger] rules[i]).enabled && pattern_matches(rules[i].domain_pattern@, url_host(url)->0)
            && (forall|j: int| 0 <= j < i ==> !((#[trigger] rules[j]).enabled && pattern_matches(rules[j].domain_pattern@, url_host(url)->0)))
            implies rule_save_path_for(rules, url) == match rules[i].save_path {
                Some(q) => Some(q@),
                None => None,
            } by {
            assert(rule_hits(rules[i], h));
            assert forall|j: int| 0 <= j < i implies !rule_hits(#[trigger] rules[j], h) by {
                assert(!((rules[j]).enabled && pattern_matches(rules[j].domain_pattern@, h)));
            }
        }
        if forall|i: int| 0 <= i < rules.len() ==> !(#[trigger] rules[i]).enabled {
            assert forall|i: int| 0 <= i < rules.len() implies !rule_hits(#[trigger] rules[i], h) by {
                assert(!rules[i].enabled);
            }
        }
    }
}

impl SiteRule {
    /// An enabled rule for the pattern, with a fresh random id, no save folder
    /// and the default connection limit.
    pub fn new(domain_pattern: &str) -> (r: Self)
        ensures
            r.domain_pattern@ == domain_pattern@,
            r.save_path is None,
            r.max_connections == 0,
            r.enabled,
            is_hyphenated_uuid_text(r.id@),
    {
        let id = new_uuid();
        SiteRule {
            id: uuid_text(&id),
            domain_pattern: domain_pattern.to_owned(),
            save_path: None,
            max_connections: 0,
            enabled: true,
        }
    }

    /// Whether the rule's pattern matches the host.
    pub fn matches(&self, host: &str) -> (r: bool)
        ensures
            r == pattern_matches(self.domain_pattern@, host@),
    {
        let pattern = to_lowercase(trim_white_space(self.domain_pattern.as_str()));
        let host = to_lowercase(trim_white_space(host));
        normalized_pattern_matches(pattern.as_str(), host.as_str())
    }
}

/// Stores the site rules, in order, and picks the one that applies to a URL.
pub struct RuleEngine {
    rules: Vec<SiteRule>,
}

impl View for RuleEngine {
    type V = Seq<SiteRule>;

    closed spec fn view(&self) -> Seq<SiteRule> {
        self.rules@
    }
}

impl RuleEngine {
    /// An engine with no rules.
    pub fn new() -> (r: Self)
        ensures
            r@ == Seq::<SiteRule>::empty(),
    {
        RuleEngine { rules: Vec::new() }
    }

    /// Replaces all rules.
    pub fn load(&mut self, rules: Vec<SiteRule>)
        ensures
            final(self)@ == rules@,
    {
        self.rules = rules;
    }

    /// Appends a rule; earlier rules keep precedence.
    pub fn add(&mut self, rule: SiteRule)
        ensures
            final(self)@ == old(self)@.push(rule),
    {
        self.rules.push(rule);
    }

    /// Drops every rule with the given id; the others keep their order.
    pub fn remove(&mut self, id: &str)
        ensures
            final(self)@ == without_id(old(self)@, id@),
    {
        let ghost orig = self.rules@;
        let ghost pred = other_id(id@);
        let mut rest: Vec<SiteRule> = Vec::new();
        std::mem::swap(&mut rest, &mut self.rules);
        let mut kept: Vec<SiteRule> = Vec::new();
        let ghost mut i: int = 0;
        while rest.len() > 0
            invariant
                0 <= i <= orig.len(),
                rest@ == orig.skip(i),
                kept@ == orig.take(i).filter(pred),
                pred == other_id(id@),
            decreases rest@.len(),
        {
            let r = rest.remove(0);
            proof {
                assert(orig.take(i + 1).drop_last() =~= orig.take(i));
                assert(orig.take(i + 1).last() == r);
                reveal(Seq::filter);
                assert(orig.skip(i).remove(0) =~= orig.skip(i + 1));
            }
            if !str_eq(r.id.as_str(), id) {
                kept.push(r);
            }
            proof {
                i = i + 1;
            }
        }
        proof {
            assert(orig.take(i) =~= orig);
        }
        self.rules = kept;
    }

    /// All rules, in order.
    pub fn list(&self) -> (r: &[SiteRule])
        ensures
            r@ == self@,
    {
        self.rules.as_slice()
    }

    /// The first enabled rule whose pattern matches the host.
    pub fn find_match_host(&self, host: &str) -> (r: Option<&SiteRule>)
        ensures
            deref_rule(r) == first_hit(self@, host@),
    {
        let mut i: usize = 0;
        proof {
            assert(self.rules@.skip(0) =~= self.rules@);
        }
        while i < self.rules.len()
            invariant
                i <= self.rules@.len(),
                first_hit(self.rules@, host@) == first_hit(self.rules@.skip(i as int), host@),
            decreases self.rules@.len() - i,
        {
            proof {
                assert(self.rules@.skip(i as int)[0] == self.rules@[i as int]);
                assert(self.rules@.skip(i as int).drop_first() =~= self.rules@.skip(i + 1));
            }
            let rule = &self.rules[i];
            if rule.enabled && rule.matches(host) {
                return Some(rule);
            }
            i += 1;
        }
        proof {
            assert(self.rules@.skip(i as int) =~= Seq::<SiteRule>::empty());
        }
        None
    }

    /// The first enabled rule that matches the host of the URL; none when the
    /// URL does not parse or has no host.
    pub fn find_match(&self, url_str: &str) -> (r: Option<&SiteRule>)
        ensures
            deref_rule(r) == rule_for_url(self@, url_str@),
    {
        match parse_url_host(url_str) {
            Some(host) => self.find_match_host(host.as_str()),
            None => None,
        }
    }

    /// The custom save folder of the rule that applies to the URL, if any.
    pub fn rule_save_path(&self, url_str: &str) -> (r: Option<String>)
        ensures
            match r {
                Some(p) => rule_save_path_for(self@, url_str@) == Some(p@),
                None => rule_save_path_for(self@, url_str@) is None,
            },
    {
        match self.find_match(url_str) {
            Some(rule) => match &rule.save_path {
                Some(p) => Some(p.as_str().to_owned()),
                None => None,
            },
            None => None,
        }
    }

    /// The folder to save a download from the URL in: the custom folder of the
    /// rule that applies, when there is one and `save_path_usable` says that it
    /// is an existing absolute path; otherwise `default_dir`.
    pub fn resolve_save_dir(&self, url_str: &str, default_dir: String, save_path_usable: bool) -> (r: String)
        ensures
            match rule_save_path_for(self@, url_str@) {
                Some(p) => if save_path_usable { r@ == p } else { r == default_dir },
                None => r == default_dir,
            },
    {
        if let Some(p) = self.rule_save_path(url_str) {
            if save_path_usable {
                return p;
            }
        }
        default_dir
    }

    /// The connection limit for the URL: that of the rule that applies, when
    /// there is one and its limit is not 0; otherwise `default_conns`.
    pub fn resolve_max_conns(&self, url_str: &str, default_conns: usize) -> (r: usize)
        ensures
            r == match rule_for_url(self@, url_str@) {
                Some(rule) => if rule.max_connections > 0 { rule.max_connections } else { default_conns },
                None => default_conns,
            },
    {
        match self.find_match(url_str) {
            Some(rule) => if rule.max_connections > 0 {
                rule.max_connections
            } else {
                default_conns
            },
            None => default_conns,
        }
    }
}

impl Default for RuleEngine {
    fn default() -> (r: Self)
        ensures
            r@ == Seq::<SiteRule>::empty(),
    {
        RuleEngine::new()
    }
}

} // verus!
