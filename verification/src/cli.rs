//! What the command-line tool works out before it prints: the protocol mix
//! of a profile, the subscription settings of a `subscribe` run, the API
//! paths it asks, and the lines of a test report.
use vstd::prelude::*;

use crate::config::{Config, ProxyConfig, SubscriptionConfig};
use crate::testing::{ascending, insert_sorted, lex_lt, lemma_lex_lt_total, text_lt, ProxyTestItem, ProxyTestStatus};
use crate::text::{
    before_first, before_first_chars, chars_contain, chars_eq_ignore_case, contains, chars_of, decimal, decimal_string, eq_ignore_case,
    lower, lower_chars, opt_view, piece_views, push_chars, push_str, split_chars, split_on, string_of, trim,
    trim_chars, upper_char, views,
};

verus! {

/// `s` in ASCII upper case.
pub open spec fn upper(s: Seq<char>) -> Seq<char> {
    s.map_values(|c: char| upper_char(c))
}

/// How many proxies have a type whose upper case is `t`.
pub open spec fn type_count(ps: Seq<ProxyConfig>, t: Seq<char>) -> nat
    decreases ps.len(),
{
    if ps.len() == 0 {
        0
    } else {
        type_count(ps.drop_last(), t) + if upper(ps.last().proxy_type@) == t {
            1nat
        } else {
            0nat
        }
    }
}

proof fn lemma_type_count_bound(ps: Seq<ProxyConfig>, t: Seq<char>)
    ensures
        type_count(ps, t) <= ps.len(),
    decreases ps.len(),
{
    if ps.len() > 0 {
        lemma_type_count_bound(ps.drop_last(), t);
    }
}

/// The protocol types in a list of counts.
pub open spec fn stat_keys(stats: Seq<(String, usize)>) -> Seq<Seq<char>> {
    stats.map_values(|e: (String, usize)| e.0@)
}

fn upper_text(s: &str) -> (r: Vec<char>)
    ensures
        r@ == upper(s@),
{
    let c = chars_of(s);
    let mut r: Vec<char> = Vec::new();
    let mut i: usize = 0;
    while i < c.len()
        invariant
            i <= c@.len(),
            r@ == upper(c@.take(i as int)),
        decreases c.len() - i,
    {
        r.push(crate::text::ascii_upper(c[i]));
        i += 1;
        assert(r@ =~= upper(c@.take(i as int)));
    }
    assert(c@.take(c@.len() as int) =~= c@);
    r
}

/// Counts one more proxy of type `t` in an ascending list of counts.
fn count_type(stats: &mut Vec<(String, usize)>, t: &Vec<char>, Ghost(ps): Ghost<Seq<ProxyConfig>>)
    requires
        ascending(stat_keys(old(stats)@)),
        forall|k: int| 0 <= k < old(stats)@.len() ==> #[trigger] old(stats)@[k].1 == type_count(ps.drop_last(), old(stats)@[k].0@),
        forall|x: Seq<char>| !stat_keys(old(stats)@).contains(x) ==> type_count(ps.drop_last(), x) == 0,
        forall|k: int| 0 <= k < old(stats)@.len() ==> #[trigger] old(stats)@[k].1 > 0,
        ps.len() > 0,
        upper(ps.last().proxy_type@) == t@,
        ps.len() <= usize::MAX,
    ensures
        ascending(stat_keys(final(stats)@)),
        forall|k: int| 0 <= k < final(stats)@.len() ==> #[trigger] final(stats)@[k].1 == type_count(ps, final(stats)@[k].0@),
        forall|x: Seq<char>| !stat_keys(final(stats)@).contains(x) ==> type_count(ps, x) == 0,
        forall|k: int| 0 <= k < final(stats)@.len() ==> #[trigger] final(stats)@[k].1 > 0,
{
    let ghost old_keys = stat_keys(stats@);
    proof {
        lemma_type_count_bound(ps.drop_last(), t@);
    }
    let mut i: usize = 0;
    while i < stats.len()
        invariant
            i <= stats@.len(),
            stats@ == old(stats)@,
            old_keys == stat_keys(stats@),
            forall|j: int| 0 <= j < i ==> lex_lt(#[trigger] old_keys[j], t@),
        ensures
            i <= stats@.len(),
            stats@ == old(stats)@,
            forall|j: int| 0 <= j < i ==> lex_lt(#[trigger] old_keys[j], t@),
            i < stats@.len() ==> !lex_lt(old_keys[i as int], t@),
        decreases stats.len() - i,
    {
        let c = chars_of(stats[i].0.as_str());
        if !text_lt(c.as_slice(), t.as_slice()) {
            break;
        }
        i += 1;
    }
    if i < stats.len() && crate::text::chars_eq(chars_of(stats[i].0.as_str()).as_slice(), t.as_slice()) {
        let (name, n) = stats.remove(i);
        proof {
            lemma_type_count_bound(ps.drop_last(), name@);
        }
        stats.insert(i, (name, n + 1));
        proof {
            assert(stat_keys(stats@) =~= old_keys);
            assert forall|k: int| 0 <= k < stats@.len() implies #[trigger] stats@[k].1 == type_count(ps, stats@[k].0@) by {
                if k != i {
                    assert(stats@[k] == old(stats)@[k]);
                    lemma_lex_lt_total(old_keys[k], t@);
                    if old_keys[k] == t@ {
                        assert(lex_lt(old_keys[k], old_keys[i as int]) || lex_lt(old_keys[i as int], old_keys[k]));
                    }
                }
            }
            assert forall|k: int| 0 <= k < stats@.len() implies #[trigger] stats@[k].1 > 0 by {
                if k != i {
                    assert(stats@[k] == old(stats)@[k]);
                }
            }
            assert forall|x: Seq<char>| !stat_keys(stats@).contains(x) implies type_count(ps, x) == 0 by {
                assert(old_keys[i as int] == t@);
                if x == t@ {
                    assert(stat_keys(stats@)[i as int] == x);
                }
                assert(x != t@);
                assert(!stat_keys(old(stats)@).contains(x));
                assert(type_count(ps.drop_last(), x) == 0);
                assert(type_count(ps, x) == type_count(ps.drop_last(), x));
            }
        }
        return;
    }
    proof {
        if i < stats@.len() {
            lemma_lex_lt_total(old_keys[i as int], t@);
        }
        assert(!old_keys.contains(t@)) by {
            if old_keys.contains(t@) {
                let k = choose|k: int| 0 <= k < old_keys.len() && old_keys[k] == t@;
                if k < i {
                    lemma_lex_lt_total(t@, t@);
                } else if k > i {
                    lemma_lex_lt_total(old_keys[i as int], t@);
                    crate::testing::lemma_lex_lt_transitive(t@, old_keys[i as int], old_keys[k]);
                    lemma_lex_lt_total(t@, t@);
                }
            }
        }
    }
    let s = string_of(t.as_slice());
    stats.insert(i, (s, 1));
    proof {
        let nk = stat_keys(stats@);
        assert(nk =~= old_keys.take(i as int).push(t@) + old_keys.skip(i as int));
        assert forall|a: int, b: int| 0 <= a < b < nk.len() implies lex_lt(#[trigger] nk[a], #[trigger] nk[b]) by {
            if b == i {
                assert(nk[a] == old_keys[a]);
            } else if a == i {
                assert(nk[b] == old_keys[b - 1]);
                if b - 1 > i {
                    crate::testing::lemma_lex_lt_transitive(t@, old_keys[i as int], old_keys[b - 1]);
                }
            } else {
                let oa = if a < i { a } else { a - 1 };
                let ob = if b < i { b } else { b - 1 };
                assert(nk[a] == old_keys[oa]);
                assert(nk[b] == old_keys[ob]);
            }
        }
        assert forall|k: int| 0 <= k < stats@.len() implies #[trigger] stats@[k].1 == type_count(ps, stats@[k].0@) by {
            if k < i {
                assert(stats@[k] == old(stats)@[k]);
                lemma_lex_lt_total(old_keys[k], t@);
            } else if k > i {
                assert(stats@[k] == old(stats)@[k - 1]);
                lemma_lex_lt_total(old_keys[k - 1], t@);
            }
        }
        assert forall|k: int| 0 <= k < stats@.len() implies #[trigger] stats@[k].1 > 0 by {
            if k < i {
                assert(stats@[k] == old(stats)@[k]);
            } else if k > i {
                assert(stats@[k] == old(stats)@[k - 1]);
            }
        }
        assert forall|x: Seq<char>| !nk.contains(x) implies type_count(ps, x) == 0 by {
            if old_keys.contains(x) {
                let k = choose|k: int| 0 <= k < old_keys.len() && old_keys[k] == x;
                if k < i {
                    assert(nk[k] == x);
                } else {
                    assert(nk[k + 1] == x);
                }
            }
            if x == t@ {
                assert(nk[i as int] == x);
            }
            assert(x != t@);
            assert(!stat_keys(old(stats)@).contains(x));
            assert(type_count(ps.drop_last(), x) == 0);
            assert(type_count(ps, x) == type_count(ps.drop_last(), x));
        }
    }
}

/// The protocol mix of a profile: each proxy type in upper case with the
/// number of proxies of that type, in ascending order of the types.
pub fn protocol_stats(config: &Config) -> (r: Vec<(String, usize)>)
    ensures
        ascending(stat_keys(r@)),
        forall|k: int| 0 <= k < r@.len() ==> #[trigger] r@[k].1 == type_count(config.proxies@, r@[k].0@) && r@[k].1 > 0,
        forall|x: Seq<char>| !stat_keys(r@).contains(x) ==> type_count(config.proxies@, x) == 0,
{
    let mut stats: Vec<(String, usize)> = Vec::new();
    let mut i: usize = 0;
    while i < config.proxies.len()
        invariant
            i <= config.proxies@.len(),
            ascending(stat_keys(stats@)),
            forall|k: int| 0 <= k < stats@.len() ==> #[trigger] stats@[k].1 == type_count(config.proxies@.take(i as int), stats@[k].0@),
            forall|k: int| 0 <= k < stats@.len() ==> #[trigger] stats@[k].1 > 0,
            forall|x: Seq<char>| !stat_keys(stats@).contains(x) ==> type_count(config.proxies@.take(i as int), x) == 0,
        decreases config.proxies.len() - i,
    {
        let ghost ps = config.proxies@.take(i + 1);
        assert(ps.drop_last() =~= config.proxies@.take(i as int));
        let t = upper_text(config.proxies[i].proxy_type.as_str());
        count_type(&mut stats, &t, Ghost(ps));
        i += 1;
    }
    assert(config.proxies@.take(config.proxies@.len() as int) =~= config.proxies@);
    stats
}

/// The API's base URL without trailing slashes.
pub open spec fn without_trailing_slashes(s: Seq<char>) -> Seq<char>
    decreases s.len(),
{
    if s.len() > 0 && s.last() == '/' {
        without_trailing_slashes(s.drop_last())
    } else {
        s
    }
}

/// Drops the slashes at the end of the API's base URL.
pub fn trim_api_base(base: &str) -> (r: String)
    ensures
        r@ == without_trailing_slashes(base@),
{
    let c = chars_of(base);
    let mut n: usize = c.len();
    assert(c@.take(n as int) =~= c@);
    while n > 0 && c[n - 1] == '/'
        invariant
            n <= c@.len(),
            without_trailing_slashes(c@) == without_trailing_slashes(c@.take(n as int)),
        decreases n,
    {
        assert(c@.take(n as int).drop_last() =~= c@.take(n - 1));
        n -= 1;
    }
    let t = crate::text::slice_range(c.as_slice(), 0, n);
    assert(t@ =~= c@.take(n as int));
    string_of(t.as_slice())
}

/// The path of a session listing: `/sessions?state=…&limit=…`, the state
/// `active` when none is given.
pub fn sessions_path(state: Option<&str>, limit: usize) -> (r: String)
    ensures
        r@ == "/sessions?state="@ + match state {
            Some(s) => s@,
            None => "active"@,
        } + "&limit="@ + decimal(limit as nat),
{
    let mut r = String::new();
    push_str(&mut r, "/sessions?state=");
    match state {
        Some(s) => push_str(&mut r, s),
        None => push_str(&mut r, "active"),
    }
    push_str(&mut r, "&limit=");
    let l = decimal_string(limit as u64);
    push_str(&mut r, l.as_str());
    r
}

/// A subscription URL without its query, which may hold a token.
pub fn redact_url(url: &str) -> (r: String)
    ensures
        r@ == before_first(url@, '?'),
{
    let c = chars_of(url);
    string_of(before_first_chars(c.as_slice(), '?').as_slice())
}

/// Why `subscribe` cannot run.
#[derive(Debug, PartialEq, Eq, Structural)]
pub enum SubscribeError {
    /// No URL was given and the profile records none.
    MissingUrl,
}

/// The subscription settings of a `subscribe` run: the given URL or the one
/// the profile records, the given refresh interval or the recorded one,
/// and enabled.
pub fn subscribe_settings(url: Option<&str>, existing: Option<&SubscriptionConfig>, interval_hours: Option<u64>) -> (r: Result<SubscriptionConfig, SubscribeError>)
    ensures
        match url {
            Some(u) => r is Ok && r->Ok_0.url@ == u@,
            None => match existing {
                Some(s) => r is Ok && r->Ok_0.url@ == s.url@,
                None => r == Err::<SubscriptionConfig, SubscribeError>(SubscribeError::MissingUrl),
            },
        },
        r is Ok ==> r->Ok_0.enabled && r->Ok_0.interval_hours == match interval_hours {
            Some(h) => Some(h),
            None => match existing {
                Some(s) => s.interval_hours,
                None => None,
            },
        },
{
    let resolved = match url {
        Some(u) => string_of(chars_of(u).as_slice()),
        None => match existing {
            Some(s) => s.url.clone(),
            None => {
                return Err(SubscribeError::MissingUrl);
            },
        },
    };
    let interval = match interval_hours {
        Some(h) => Some(h),
        None => match existing {
            Some(s) => s.interval_hours,
            None => None,
        },
    };
    Ok(SubscriptionConfig { url: resolved, interval_hours: interval, enabled: true })
}

/// The tag of a test result line.
pub open spec fn status_tag(s: ProxyTestStatus) -> Seq<char> {
    match s {
        ProxyTestStatus::Passed => "[ok]"@,
        ProxyTestStatus::Failed => "[fail]"@,
        ProxyTestStatus::Skipped => "[skip]"@,
    }
}

/// The line of a test result: the tag, the requested name, ` -> ` and the
/// resolved name when there is one, and the message.
pub fn test_item_line(item: &ProxyTestItem) -> (r: String)
    ensures
        r@ == status_tag(item.status) + " "@ + item.requested_name@ + match item.resolved_name {
            Some(n) => " -> "@ + n@,
            None => Seq::<char>::empty(),
        } + " "@ + match item.message {
            Some(m) => m@,
            None => Seq::<char>::empty(),
        },
{
    let mut r = String::new();
    match item.status {
        ProxyTestStatus::Passed => push_str(&mut r, "[ok]"),
        ProxyTestStatus::Failed => push_str(&mut r, "[fail]"),
        ProxyTestStatus::Skipped => push_str(&mut r, "[skip]"),
    }
    push_str(&mut r, " ");
    push_str(&mut r, item.requested_name.as_str());
    match &item.resolved_name {
        Some(n) => {
            push_str(&mut r, " -> ");
            push_str(&mut r, n.as_str());
        },
        None => {},
    }
    push_str(&mut r, " ");
    match &item.message {
        Some(m) => push_str(&mut r, m.as_str()),
        None => {},
    }
    r
}

/// The GEOSITE category that a rule names: its second comma-separated
/// field, trimmed and in lower case, when its first field is `GEOSITE` in
/// any case.
pub open spec fn geosite_category(rule: Seq<char>) -> Option<Seq<char>> {
    let parts = split_on(rule, ',');
    if parts.len() >= 2 && eq_ignore_case(parts[0], "GEOSITE"@) {
        Some(lower(trim(parts[1])))
    } else {
        None
    }
}

/// A category that some rule names.
pub open spec fn named_category(rules: Seq<String>, x: Seq<char>) -> bool {
    exists|i: int| 0 <= i < rules.len() && geosite_category(#[trigger] rules[i]@) == Some(x)
}

fn rule_category(rule: &str) -> (r: Option<Vec<char>>)
    ensures
        match r {
            Some(c) => geosite_category(rule@) == Some(c@),
            None => geosite_category(rule@) is None,
        },
{
    let c = chars_of(rule);
    let parts = split_chars(c.as_slice(), ',');
    proof {
        assert(piece_views(parts@).len() == parts@.len());
    }
    if parts.len() >= 2 {
        let g = chars_of("GEOSITE");
        proof {
            assert(piece_views(parts@)[0] == parts@[0]@);
            assert(piece_views(parts@)[1] == parts@[1]@);
        }
        if chars_eq_ignore_case(parts[0].as_slice(), g.as_slice()) {
            let t = trim_chars(parts[1].as_slice());
            return Some(lower_chars(t.as_slice()));
        }
    }
    None
}

/// The GEOSITE categories to download: the one given (trimmed, in lower
/// case), else every category the rules name, in ascending order without
/// repeats.
pub fn resolve_categories(rules: &Vec<String>, category: Option<&str>) -> (r: Vec<String>)
    ensures
        category matches Some(c) ==> views(r@) == seq![lower(trim(c@))],
        category is None ==> ascending(views(r@)) && forall|x: Seq<char>| #[trigger] views(r@).contains(x) <==> named_category(rules@, x),
{
    if let Some(c) = category {
        let t = trim_chars(chars_of(c).as_slice());
        let l = lower_chars(t.as_slice());
        let mut r: Vec<String> = Vec::new();
        r.push(string_of(l.as_slice()));
        assert(views(r@) =~= seq![lower(trim(c@))]);
        return r;
    }
    let mut r: Vec<String> = Vec::new();
    let mut i: usize = 0;
    while i < rules.len()
        invariant
            i <= rules@.len(),
            ascending(views(r@)),
            forall|x: Seq<char>| #[trigger] views(r@).contains(x) <==> named_category(rules@.take(i as int), x),
        decreases rules.len() - i,
    {
        let ghost before = views(r@);
        match rule_category(rules[i].as_str()) {
            Some(cat) => {
                let name = string_of(cat.as_slice());
                insert_sorted(&mut r, name.as_str());
                assert forall|x: Seq<char>| #[trigger] views(r@).contains(x) <==> named_category(rules@.take(i + 1), x) by {
                    if named_category(rules@.take(i + 1), x) {
                        let k = choose|k: int| 0 <= k < i + 1 && geosite_category(#[trigger] rules@.take(i + 1)[k]@) == Some(x);
                        if k < i {
                            assert(rules@.take(i as int)[k] == rules@.take(i + 1)[k]);
                        }
                    }
                    if before.contains(x) {
                        let k = choose|k: int| 0 <= k < i && geosite_category(#[trigger] rules@.take(i as int)[k]@) == Some(x);
                        assert(rules@.take(i + 1)[k] == rules@.take(i as int)[k]);
                    }
                    if x == name@ {
                        assert(rules@.take(i + 1)[i as int] == rules@[i as int]);
                    }
                }
            },
            None => {
                assert forall|x: Seq<char>| #[trigger] views(r@).contains(x) <==> named_category(rules@.take(i + 1), x) by {
                    if named_category(rules@.take(i + 1), x) {
                        let k = choose|k: int| 0 <= k < i + 1 && geosite_category(#[trigger] rules@.take(i + 1)[k]@) == Some(x);
                        assert(rules@.take(i + 1)[k] == rules@[k]);
                        if k < i {
                            assert(rules@.take(i as int)[k] == rules@.take(i + 1)[k]);
                        }
                    }
                    if before.contains(x) {
                        let k = choose|k: int| 0 <= k < i && geosite_category(#[trigger] rules@.take(i as int)[k]@) == Some(x);
                        assert(rules@.take(i + 1)[k] == rules@.take(i as int)[k]);
                    }
                }
            },
        }
        i += 1;
    }
    assert(rules@.take(rules@.len() as int) =~= rules@);
    r
}

/// Whether downloaded GeoIP data looks like APNIC's delegation list: it
/// has a `|CN|` or a `|US|` record.
pub fn looks_like_apnic(body: &str) -> (r: bool)
    ensures
        r == (contains(body@, "|CN|"@) || contains(body@, "|US|"@)),
{
    let b = chars_of(body);
    let cn = chars_of("|CN|");
    let us = chars_of("|US|");
    chars_contain(b.as_slice(), cn.as_slice()) || chars_contain(b.as_slice(), us.as_slice())
}

} // verus!
