//! Proxy delay tests: which proxies a test covers (a single proxy, the
//! proxies a group reaches through nested groups, or all of them), the
//! item each test gives, and the counts of a report.
use vstd::prelude::*;

use crate::config::{Config, ProxyConfig, ProxyGroupConfig};
use crate::text::{
    chars_of, decimal, decimal_string, eq_ignore_ascii_case, eq_ignore_case, index_of_name, lemma_index_of_name,
    opt_view, position_of, push_str, str_eq, string_of, views,
};

verus! {

/// How one proxy's test went.
#[derive(Debug, Clone, Copy, PartialEq, Eq, Structural)]
pub enum ProxyTestStatus {
    /// The proxy answered.
    Passed,
    Failed,
    /// The name did not resolve to a usable proxy.
    Skipped,
}

/// The test of one requested name.
pub struct ProxyTestItem {
    pub requested_name: String,
    pub resolved_name: Option<String>,
    pub status: ProxyTestStatus,
    pub latency_ms: Option<u128>,
    pub message: Option<String>,
}

/// A run of tests.
pub struct ProxyTestReport {
    pub mode_label: String,
    pub scope_label: String,
    pub test_url: String,
    pub timeout_ms: u64,
    pub elapsed_ms: u128,
    pub ok: usize,
    pub failed: usize,
    pub skipped: usize,
    pub items: Vec<ProxyTestItem>,
}

/// Why no test could be run.
#[derive(Debug, PartialEq, Eq, Structural)]
pub enum TestError {
    /// The group to test is not configured.
    GroupNotFound,
    /// The test would cover no proxy.
    NoTargets,
}

// ---------------------------------------------------------------------------
// Text order
// ---------------------------------------------------------------------------

/// `a` sorts before `b`: the order of `String`, character by character.
pub open spec fn lex_lt(a: Seq<char>, b: Seq<char>) -> bool
    decreases a.len(),
{
    if b.len() == 0 {
        false
    } else if a.len() == 0 {
        true
    } else if a[0] != b[0] {
        a[0] < b[0]
    } else {
        lex_lt(a.drop_first(), b.drop_first())
    }
}

/// The order is transitive.
pub proof fn lemma_lex_lt_transitive(a: Seq<char>, b: Seq<char>, c: Seq<char>)
    requires
        lex_lt(a, b),
        lex_lt(b, c),
    ensures
        lex_lt(a, c),
    decreases a.len(),
{
    if a.len() > 0 && b.len() > 0 && c.len() > 0 && a[0] == b[0] && b[0] == c[0] {
        lemma_lex_lt_transitive(a.drop_first(), b.drop_first(), c.drop_first());
    }
}

/// Two different texts are ordered one way or the other, and never both.
pub proof fn lemma_lex_lt_total(a: Seq<char>, b: Seq<char>)
    ensures
        a != b ==> lex_lt(a, b) || lex_lt(b, a),
        !(lex_lt(a, b) && lex_lt(b, a)),
        !lex_lt(a, a),
    decreases a.len(),
{
    if a.len() == 0 && b.len() == 0 {
        assert(a =~= b);
    } else if a.len() > 0 && b.len() > 0 {
        lemma_lex_lt_total(a.drop_first(), b.drop_first());
        lemma_lex_lt_total(a.drop_first(), a.drop_first());
        if a[0] == b[0] {
            if a.drop_first() == b.drop_first() {
                assert(a =~= b) by {
                    assert forall|i: int| 0 <= i < a.len() implies a[i] == b[i] by {
                        if i > 0 {
                            assert(a[i] == a.drop_first()[i - 1]);
                            assert(b[i] == b.drop_first()[i - 1]);
                        }
                    }
                }
            }
        }
    } else if a.len() > 0 {
        lemma_lex_lt_total(a.drop_first(), a.drop_first());
    }
}

/// Whether `a` sorts before `b`.
pub fn text_lt(a: &[char], b: &[char]) -> (r: bool)
    ensures
        r == lex_lt(a@, b@),
{
    let mut i: usize = 0;
    assert(a@.skip(0) =~= a@);
    assert(b@.skip(0) =~= b@);
    while i < a.len() && i < b.len() && a[i] == b[i]
        invariant
            i <= a.len(),
            i <= b.len(),
            lex_lt(a@, b@) == lex_lt(a@.skip(i as int), b@.skip(i as int)),
        decreases a.len() - i,
    {
        assert(a@.skip(i as int).drop_first() =~= a@.skip(i + 1));
        assert(b@.skip(i as int).drop_first() =~= b@.skip(i + 1));
        i += 1;
    }
    if i == b.len() {
        false
    } else if i == a.len() {
        true
    } else {
        a[i] < b[i]
    }
}

/// Strictly ascending: sorted and without repeats.
pub open spec fn ascending(v: Seq<Seq<char>>) -> bool {
    forall|i: int, j: int| 0 <= i < j < v.len() ==> lex_lt(#[trigger] v[i], #[trigger] v[j])
}

/// Adds a name to an ascending list, where it is not yet.
pub(crate) fn insert_sorted(list: &mut Vec<String>, name: &str)
    requires
        ascending(views(old(list)@)),
    ensures
        ascending(views(final(list)@)),
        forall|x: Seq<char>| #[trigger] views(final(list)@).contains(x) <==> views(old(list)@).contains(x) || x == name@,
{
    let n = chars_of(name);
    let ghost old_v = views(list@);
    let mut i: usize = 0;
    while i < list.len()
        invariant
            i <= list@.len(),
            list@ == old(list)@,
            old_v == views(list@),
            n@ == name@,
            ascending(old_v),
            forall|j: int| 0 <= j < i ==> lex_lt(#[trigger] old_v[j], name@),
        ensures
            i <= list@.len(),
            list@ == old(list)@,
            forall|j: int| 0 <= j < i ==> lex_lt(#[trigger] old_v[j], name@),
            i < list@.len() ==> !lex_lt(old_v[i as int], name@),
        decreases list.len() - i,
    {
        let c = chars_of(list[i].as_str());
        if !text_lt(c.as_slice(), n.as_slice()) {
            break;
        }
        i += 1;
    }
    if i < list.len() {
        let c = chars_of(list[i].as_str());
        if crate::text::chars_eq(c.as_slice(), n.as_slice()) {
            assert(old_v[i as int] == name@);
            return;
        }
        proof {
            lemma_lex_lt_total(old_v[i as int], name@);
        }
    }
    let s = string_of(n.as_slice());
    list.insert(i, s);
    proof {
        let nv = views(list@);
        assert(nv =~= old_v.take(i as int).push(name@) + old_v.skip(i as int));
        assert forall|a: int, b: int| 0 <= a < b < nv.len() implies lex_lt(#[trigger] nv[a], #[trigger] nv[b]) by {
            if b == i {
                assert(nv[a] == old_v[a]);
            } else if a == i {
                assert(nv[b] == old_v[b - 1]);
                if b - 1 > i {
                    lemma_lex_lt_transitive(name@, old_v[i as int], old_v[b - 1]);
                }
            } else {
                let oa = if a < i { a } else { a - 1 };
                let ob = if b < i { b } else { b - 1 };
                assert(nv[a] == old_v[oa]);
                assert(nv[b] == old_v[ob]);
            }
        }
        assert forall|x: Seq<char>| #[trigger] nv.contains(x) <==> old_v.contains(x) || x == name@ by {
            if nv.contains(x) {
                let k = choose|k: int| 0 <= k < nv.len() && nv[k] == x;
                if k < i {
                    assert(old_v[k] == x);
                } else if k > i {
                    assert(old_v[k - 1] == x);
                }
            }
            if old_v.contains(x) {
                let k = choose|k: int| 0 <= k < old_v.len() && old_v[k] == x;
                if k < i {
                    assert(nv[k] == x);
                } else {
                    assert(nv[k + 1] == x);
                }
            }
            if x == name@ {
                assert(nv[i as int] == x);
            }
        }
    }
}

// ---------------------------------------------------------------------------
// Proxies that a group reaches
// ---------------------------------------------------------------------------

pub open spec fn proxy_names(cfg: Config) -> Seq<Seq<char>> {
    cfg.proxies@.map_values(|p: ProxyConfig| p.name@)
}

pub open spec fn group_names(cfg: Config) -> Seq<Seq<char>> {
    cfg.proxy_groups@.map_values(|g: ProxyGroupConfig| g.name@)
}

/// The members of the first group named `g`.
pub open spec fn members_of(cfg: Config, g: Seq<char>) -> Seq<Seq<char>> {
    views(cfg.proxy_groups@[index_of_name(group_names(cfg), g)].proxies@)
}

/// `DIRECT` and `REJECT`, in any case, are not tested.
pub open spec fn builtin(m: Seq<char>) -> bool {
    eq_ignore_case(m, "DIRECT"@) || eq_ignore_case(m, "REJECT"@)
}

/// Group `b` is a member of group `a` that is neither built in nor a proxy.
pub open spec fn nested(cfg: Config, a: Seq<char>, b: Seq<char>) -> bool {
    &&& group_names(cfg).contains(a)
    &&& members_of(cfg, a).contains(b)
    &&& !builtin(b)
    &&& !proxy_names(cfg).contains(b)
    &&& group_names(cfg).contains(b)
}

/// A chain of nested groups from `g` to `h`.
pub open spec fn chain(cfg: Config, path: Seq<Seq<char>>, g: Seq<char>, h: Seq<char>) -> bool {
    &&& path.len() >= 1
    &&& path[0] == g
    &&& path.last() == h
    &&& forall|i: int| 0 <= i < path.len() - 1 ==> nested(cfg, #[trigger] path[i], path[i + 1])
}

/// Group `h` is `g` or nested in it, at any depth.
pub open spec fn reaches(cfg: Config, g: Seq<char>, h: Seq<char>) -> bool {
    exists|path: Seq<Seq<char>>| #[trigger] chain(cfg, path, g, h)
}

/// `m` is a proxy that is a member of `g` or of a group nested in it.
pub open spec fn collected(cfg: Config, g: Seq<char>, m: Seq<char>) -> bool {
    &&& !builtin(m)
    &&& proxy_names(cfg).contains(m)
    &&& exists|h: Seq<char>| #[trigger] reaches(cfg, g, h) && group_names(cfg).contains(h) && members_of(cfg, h).contains(m)
}

proof fn lemma_chain_extend(cfg: Config, path: Seq<Seq<char>>, g: Seq<char>, h: Seq<char>, k: Seq<char>)
    requires
        chain(cfg, path, g, h),
        nested(cfg, h, k),
    ensures
        chain(cfg, path.push(k), g, k),
{
    let p = path.push(k);
    assert forall|i: int| 0 <= i < p.len() - 1 implies nested(cfg, #[trigger] p[i], p[i + 1]) by {
        if i < path.len() - 1 {
            assert(p[i] == path[i] && p[i + 1] == path[i + 1]);
        } else {
            assert(p[i] == h && p[i + 1] == k);
        }
    }
}

/// Every group on a chain from a member of a closed set is in the set.
proof fn lemma_closed_chain(cfg: Config, visited: Seq<Seq<char>>, path: Seq<Seq<char>>, g: Seq<char>, h: Seq<char>)
    requires
        chain(cfg, path, g, h),
        visited.contains(g),
        forall|a: Seq<char>, b: Seq<char>| visited.contains(a) && #[trigger] nested(cfg, a, b) ==> visited.contains(b),
    ensures
        visited.contains(h),
    decreases path.len(),
{
    if path.len() > 1 {
        let prev = path.drop_last();
        assert(chain(cfg, prev, g, path[path.len() - 2])) by {
            assert forall|i: int| 0 <= i < prev.len() - 1 implies nested(cfg, #[trigger] prev[i], prev[i + 1]) by {
                assert(prev[i] == path[i] && prev[i + 1] == path[i + 1]);
            }
        }
        lemma_closed_chain(cfg, visited, prev, g, path[path.len() - 2]);
        assert(nested(cfg, path[path.len() - 2], path[path.len() - 1]));
    }
}

/// Whether some entry of a list of names is `name`.
fn contains_text(names: &Vec<String>, name: &str) -> (r: bool)
    ensures
        r == views(names@).contains(name@),
{
    match position_of(names.as_slice(), name) {
        Some(_) => {
            proof {
                lemma_index_of_name(views(names@), name@);
            }
            true
        },
        None => {
            proof {
                lemma_index_of_name(views(names@), name@);
            }
            false
        },
    }
}

fn proxy_name_list(config: &Config) -> (r: Vec<String>)
    ensures
        views(r@) == proxy_names(*config),
{
    let mut r: Vec<String> = Vec::new();
    let mut i: usize = 0;
    while i < config.proxies.len()
        invariant
            i <= config.proxies@.len(),
            views(r@) == proxy_names(*config).take(i as int),
        decreases config.proxies.len() - i,
    {
        let ghost before = views(r@);
        r.push(config.proxies[i].name.clone());
        assert(before.len() == i);
        assert(r@.len() == i + 1);
        assert(views(r@).len() == i + 1);
        assert forall|j: int| 0 <= j <= i implies #[trigger] views(r@)[j] == proxy_names(*config).take(i + 1)[j] by {
            if j < i {
                assert(views(r@)[j] == before[j]);
            }
        }
        assert(views(r@) =~= proxy_names(*config).take(i + 1));
        i += 1;
    }
    assert(proxy_names(*config).take(config.proxies@.len() as int) =~= proxy_names(*config));
    r
}

fn group_name_list(config: &Config) -> (r: Vec<String>)
    ensures
        views(r@) == group_names(*config),
{
    let mut r: Vec<String> = Vec::new();
    let mut i: usize = 0;
    while i < config.proxy_groups.len()
        invariant
            i <= config.proxy_groups@.len(),
            views(r@) == group_names(*config).take(i as int),
        decreases config.proxy_groups.len() - i,
    {
        let ghost before = views(r@);
        r.push(config.proxy_groups[i].name.clone());
        assert(before.len() == i);
        assert(r@.len() == i + 1);
        assert(views(r@).len() == i + 1);
        assert forall|j: int| 0 <= j <= i implies #[trigger] views(r@)[j] == group_names(*config).take(i + 1)[j] by {
            if j < i {
                assert(views(r@)[j] == before[j]);
            }
        }
        assert(views(r@) =~= group_names(*config).take(i + 1));
        i += 1;
    }
    assert(group_names(*config).take(config.proxy_groups@.len() as int) =~= group_names(*config));
    r
}

fn is_builtin(m: &str) -> (r: bool)
    ensures
        r == builtin(m@),
{
    eq_ignore_ascii_case(m, "DIRECT") || eq_ignore_ascii_case(m, "REJECT")
}

/// What holds of the groups visited so far and the proxies collected.
pub open spec fn walk_inv(cfg: Config, g: Seq<char>, visited: Seq<Seq<char>>, result: Seq<Seq<char>>) -> bool {
    &&& visited.len() >= 1
    &&& visited[0] == g
    &&& visited.no_duplicates()
    &&& forall|v: Seq<char>| #[trigger] visited.contains(v) ==> group_names(cfg).contains(v) && reaches(cfg, g, v)
    &&& ascending(result)
    &&& forall|m: Seq<char>| #[trigger] result.contains(m) ==> collected(cfg, g, m)
}

/// The first `q` visited groups are done: their nested groups are visited
/// and their proxies collected.
pub open spec fn done_upto(cfg: Config, visited: Seq<Seq<char>>, result: Seq<Seq<char>>, q: int) -> bool {
    &&& forall|j: int, b: Seq<char>| 0 <= j < q && #[trigger] nested(cfg, visited[j], b) ==> visited.contains(b)
    &&& forall|j: int, m: Seq<char>|
        0 <= j < q && #[trigger] members_of(cfg, visited[j]).contains(m) && !builtin(m) && proxy_names(cfg).contains(m)
            ==> result.contains(m)
}

proof fn lemma_done_grows(cfg: Config, v1: Seq<Seq<char>>, r1: Seq<Seq<char>>, v2: Seq<Seq<char>>, r2: Seq<Seq<char>>, q: int)
    requires
        done_upto(cfg, v1, r1, q),
        q <= v1.len() <= v2.len(),
        forall|j: int| 0 <= j < v1.len() ==> v2[j] == v1[j],
        forall|m: Seq<char>| r1.contains(m) ==> #[trigger] r2.contains(m),
    ensures
        done_upto(cfg, v2, r2, q),
{
    assert forall|j: int, b: Seq<char>| 0 <= j < q && #[trigger] nested(cfg, v2[j], b) implies v2.contains(b) by {
        assert(v2[j] == v1[j]);
        assert(v1.contains(b));
        let t = choose|t: int| 0 <= t < v1.len() && v1[t] == b;
        assert(v2[t] == b);
    }
    assert forall|j: int, m: Seq<char>|
        0 <= j < q && #[trigger] members_of(cfg, v2[j]).contains(m) && !builtin(m) && proxy_names(cfg).contains(m) implies r2.contains(m) by {
        assert(v2[j] == v1[j]);
        assert(r1.contains(m));
    }
}

/// Visits the members of group `cur`: collects its proxies and queues its
/// nested groups that are not yet visited.
fn visit_members(
    config: &Config,
    proxies: &Vec<String>,
    groups: &Vec<String>,
    members: &Vec<String>,
    Ghost(g): Ghost<Seq<char>>,
    Ghost(cur): Ghost<Seq<char>>,
    visited: &mut Vec<String>,
    result: &mut Vec<String>,
)
    requires
        walk_inv(*config, g, views(old(visited)@), views(old(result)@)),
        views(proxies@) == proxy_names(*config),
        views(groups@) == group_names(*config),
        views(members@) == members_of(*config, cur),
        group_names(*config).contains(cur),
        reaches(*config, g, cur),
    ensures
        walk_inv(*config, g, views(final(visited)@), views(final(result)@)),
        views(old(visited)@).len() <= views(final(visited)@).len(),
        forall|j: int| 0 <= j < views(old(visited)@).len() ==> views(final(visited)@)[j] == views(old(visited)@)[j],
        forall|m: Seq<char>| views(old(result)@).contains(m) ==> #[trigger] views(final(result)@).contains(m),
        forall|b: Seq<char>| #[trigger] nested(*config, cur, b) ==> views(final(visited)@).contains(b),
        forall|m: Seq<char>| #[trigger] members_of(*config, cur).contains(m) && !builtin(m) && proxy_names(*config).contains(m)
            ==> views(final(result)@).contains(m),
{
    let ghost pn = proxy_names(*config);
    let ghost gn = group_names(*config);
    let ghost mv = views(members@);
    let mut k: usize = 0;
    while k < members.len()
        invariant
            k <= members@.len(),
            mv == views(members@),
            mv == members_of(*config, cur),
            pn == proxy_names(*config),
            gn == group_names(*config),
            views(proxies@) == pn,
            views(groups@) == gn,
            gn.contains(cur),
            reaches(*config, g, cur),
            walk_inv(*config, g, views(visited@), views(result@)),
            views(old(visited)@).len() <= views(visited@).len(),
            forall|j: int| 0 <= j < views(old(visited)@).len() ==> views(visited@)[j] == views(old(visited)@)[j],
            forall|m: Seq<char>| views(old(result)@).contains(m) ==> #[trigger] views(result@).contains(m),
            forall|i: int| 0 <= i < k && #[trigger] nested(*config, cur, mv[i]) ==> views(visited@).contains(mv[i]),
            forall|i: int| 0 <= i < k && !builtin(#[trigger] mv[i]) && pn.contains(mv[i]) ==> views(result@).contains(mv[i]),
        decreases members.len() - k,
    {
        let m = &members[k];
        assert(mv[k as int] == m@);
        let ghost vb = views(visited@);
        let ghost rb = views(result@);
        if !is_builtin(m.as_str()) {
            if contains_text(proxies, m.as_str()) {
                insert_sorted(result, m.as_str());
                proof {
                    assert(members_of(*config, cur).contains(m@));
                    assert(collected(*config, g, m@));
                }
            } else if contains_text(groups, m.as_str()) && !contains_text(visited, m.as_str()) {
                visited.push(m.clone());
                proof {
                    assert(views(visited@) =~= vb.push(m@));
                    assert(members_of(*config, cur).contains(m@));
                    assert(nested(*config, cur, m@));
                    let path = choose|path: Seq<Seq<char>>| chain(*config, path, g, cur);
                    lemma_chain_extend(*config, path, g, cur, m@);
                    assert(reaches(*config, g, m@));
                    assert forall|x: Seq<char>| #[trigger] views(visited@).contains(x) implies vb.contains(x) || x == m@ by {
                        let t = choose|t: int| 0 <= t < views(visited@).len() && views(visited@)[t] == x;
                        if t < vb.len() {
                            assert(vb[t] == x);
                        }
                    }
                    assert forall|x: Seq<char>| vb.contains(x) implies #[trigger] views(visited@).contains(x) by {
                        let t = choose|t: int| 0 <= t < vb.len() && vb[t] == x;
                        assert(views(visited@)[t] == x);
                    }
                    assert(views(visited@)[vb.len() as int] == m@);
                }
            }
        }
        k += 1;
    }
}

/// The proxies that a group reaches, directly or through nested groups, in
/// ascending order without repeats; `DIRECT` and `REJECT` are left out.
pub fn collect_group_proxies(config: &Config, group_name: &str) -> (r: Result<Vec<String>, TestError>)
    ensures
        !group_names(*config).contains(group_name@) ==> r == Err::<Vec<String>, TestError>(TestError::GroupNotFound),
        group_names(*config).contains(group_name@) ==> r is Ok && ascending(views(r->Ok_0@))
            && forall|m: Seq<char>| #[trigger] views(r->Ok_0@).contains(m) <==> collected(*config, group_name@, m),
{
    let proxies = proxy_name_list(config);
    let groups = group_name_list(config);
    let ghost gn = group_names(*config);
    if !contains_text(&groups, group_name) {
        return Err(TestError::GroupNotFound);
    }
    let ghost g = group_name@;
    let mut visited: Vec<String> = Vec::new();
    visited.push(string_of(chars_of(group_name).as_slice()));
    let mut result: Vec<String> = Vec::new();
    proof {
        assert(chain(*config, seq![g], g, g));
        assert(views(visited@) =~= seq![g]);
        assert forall|v: Seq<char>| #[trigger] views(visited@).contains(v) implies gn.contains(v) && reaches(*config, g, v) by {
            assert(views(visited@)[0] == v);
        }
        assert(views(result@) =~= Seq::<Seq<char>>::empty());
    }
    let mut q: usize = 0;
    while q < visited.len()
        invariant
            views(proxies@) == proxy_names(*config),
            views(groups@) == gn,
            gn == group_names(*config),
            g == group_name@,
            q <= visited@.len(),
            walk_inv(*config, g, views(visited@), views(result@)),
            done_upto(*config, views(visited@), views(result@), q as int),
        decreases gn.len() - q, gn.len() + 1 - visited@.len(),
    {
        proof {
            views(visited@).unique_seq_to_set();
            gn.lemma_cardinality_of_set();
            assert(views(visited@).to_set().subset_of(gn.to_set()));
            vstd::set_lib::lemma_len_subset(views(visited@).to_set(), gn.to_set());
        }
        let current = visited[q].clone();
        let ghost cur = current@;
        assert(views(visited@)[q as int] == cur);
        assert(views(visited@).contains(cur));
        let gi = match position_of(groups.as_slice(), current.as_str()) {
            Some(i) => i,
            None => {
                proof {
                    lemma_index_of_name(gn, cur);
                }
                return Err(TestError::GroupNotFound);
            },
        };
        proof {
            lemma_index_of_name(gn, cur);
        }
        let ghost v0 = views(visited@);
        let ghost r0 = views(result@);
        visit_members(config, &proxies, &groups, &config.proxy_groups[gi].proxies, Ghost(g), Ghost(cur), &mut visited, &mut result);
        proof {
            lemma_done_grows(*config, v0, r0, views(visited@), views(result@), q as int);
            let vv = views(visited@);
            assert(vv[q as int] == cur);
            assert forall|j: int, b: Seq<char>| 0 <= j < q + 1 && #[trigger] nested(*config, vv[j], b) implies vv.contains(b) by {
            }
            assert forall|j: int, m: Seq<char>|
                0 <= j < q + 1 && #[trigger] members_of(*config, vv[j]).contains(m) && !builtin(m) && proxy_names(*config).contains(m)
                implies views(result@).contains(m) by {
            }
        }
        q += 1;
    }
    proof {
        let vv = views(visited@);
        assert forall|m: Seq<char>| collected(*config, g, m) implies #[trigger] views(result@).contains(m) by {
            let h = choose|h: Seq<char>| #[trigger] reaches(*config, g, h) && gn.contains(h) && members_of(*config, h).contains(m);
            let path = choose|path: Seq<Seq<char>>| chain(*config, path, g, h);
            assert(vv.contains(g)) by {
                assert(vv[0] == g);
            }
            assert forall|a: Seq<char>, b: Seq<char>| vv.contains(a) && #[trigger] nested(*config, a, b) implies vv.contains(b) by {
                let t = choose|t: int| 0 <= t < vv.len() && vv[t] == a;
                assert(nested(*config, vv[t], b));
            }
            lemma_closed_chain(*config, vv, path, g, h);
            let t = choose|t: int| 0 <= t < vv.len() && vv[t] == h;
            assert(members_of(*config, vv[t]).contains(m));
        }
    }
    Ok(result)
}


// ---------------------------------------------------------------------------
// Items and reports
// ---------------------------------------------------------------------------

/// The message of a test that passed.
pub open spec fn passed_message(latency_ms: u128) -> Seq<char> {
    "ok "@ + decimal(latency_ms as nat) + " ms"@
}

/// `r` is the item of a requested name and of what resolving and testing it
/// gave: skipped when it did not resolve, else passed with its latency or
/// failed with the error's message.
pub open spec fn item_of(r: ProxyTestItem, requested: Seq<char>, resolved: Option<(String, Result<u128, String>)>) -> bool {
    &&& r.requested_name@ == requested
    &&& match resolved {
        None => r.resolved_name is None && r.status == ProxyTestStatus::Skipped && r.latency_ms is None && opt_view(
            r.message,
        ) == Some("unsupported or unresolved"@),
        Some((name, Ok(ms))) => opt_view(r.resolved_name) == Some(name@) && r.status == ProxyTestStatus::Passed
            && r.latency_ms == Some(ms) && opt_view(r.message) == Some(passed_message(ms)),
        Some((name, Err(e))) => opt_view(r.resolved_name) == Some(name@) && r.status == ProxyTestStatus::Failed
            && r.latency_ms is None && opt_view(r.message) == Some(e@),
    }
}

/// The item of one requested name: skipped when it did not resolve, else
/// passed with its latency or failed with the error's message.
pub fn test_item(requested_name: String, resolved: Option<(String, Result<u128, String>)>) -> (r: ProxyTestItem)
    ensures
        item_of(r, requested_name@, resolved),
{
    match resolved {
        None => ProxyTestItem {
            requested_name,
            resolved_name: None,
            status: ProxyTestStatus::Skipped,
            latency_ms: None,
            message: Some(string_of(chars_of("unsupported or unresolved").as_slice())),
        },
        Some((name, Ok(ms))) => {
            let mut m = String::new();
            push_str(&mut m, "ok ");
            let d = crate::text::decimal_chars_u128(ms);
            crate::text::push_chars(&mut m, d.as_slice());
            push_str(&mut m, " ms");
            proof {
                reveal_strlit("ok ");
                reveal_strlit(" ms");
                assert(m@ =~= passed_message(ms));
            }
            ProxyTestItem {
                requested_name,
                resolved_name: Some(name),
                status: ProxyTestStatus::Passed,
                latency_ms: Some(ms),
                message: Some(m),
            }
        },
        Some((name, Err(e))) => ProxyTestItem {
            requested_name,
            resolved_name: Some(name),
            status: ProxyTestStatus::Failed,
            latency_ms: None,
            message: Some(e),
        },
    }
}

/// The items of a run: one per target, in order, from what resolving and
/// testing each target gave.
pub fn test_items(targets: Vec<String>, outcomes: Vec<Option<(String, Result<u128, String>)>>) -> (r: Vec<
    ProxyTestItem,
>)
    requires
        targets@.len() == outcomes@.len(),
    ensures
        r@.len() == targets@.len(),
        forall|i: int| 0 <= i < r@.len() ==> item_of(#[trigger] r@[i], targets@[i]@, outcomes@[i]),
{
    let ghost ts = targets@;
    let ghost os = outcomes@;
    let mut names = targets;
    let mut results = outcomes;
    let mut r: Vec<ProxyTestItem> = Vec::new();
    while names.len() > 0
        invariant
            names@.len() == results@.len(),
            r@.len() + names@.len() == ts.len(),
            ts.len() == os.len(),
            names@ == ts.skip(r@.len() as int),
            results@ == os.skip(r@.len() as int),
            forall|i: int| 0 <= i < r@.len() ==> item_of(#[trigger] r@[i], ts[i]@, os[i]),
        decreases names.len(),
    {
        let ghost k = r@.len() as int;
        let n = names.remove(0);
        let o = results.remove(0);
        assert(n == ts[k]);
        assert(o == os[k]);
        assert(names@ =~= ts.skip(k + 1));
        assert(results@ =~= os.skip(k + 1));
        let item = test_item(n, o);
        r.push(item);
    }
    r
}

/// The number of items with a status.
pub open spec fn status_count(items: Seq<ProxyTestItem>, s: ProxyTestStatus) -> nat
    decreases items.len(),
{
    if items.len() == 0 {
        0
    } else {
        status_count(items.drop_last(), s) + if items.last().status == s {
            1nat
        } else {
            0nat
        }
    }
}

proof fn lemma_status_count_bound(items: Seq<ProxyTestItem>, s: ProxyTestStatus)
    ensures
        status_count(items, s) <= items.len(),
    decreases items.len(),
{
    if items.len() > 0 {
        lemma_status_count_bound(items.drop_last(), s);
    }
}

/// The numbers of items that passed, failed and were skipped.
pub fn count_statuses(items: &[ProxyTestItem]) -> (r: (usize, usize, usize))
    ensures
        r.0 == status_count(items@, ProxyTestStatus::Passed),
        r.1 == status_count(items@, ProxyTestStatus::Failed),
        r.2 == status_count(items@, ProxyTestStatus::Skipped),
{
    let mut ok: usize = 0;
    let mut failed: usize = 0;
    let mut skipped: usize = 0;
    let mut i: usize = 0;
    while i < items.len()
        invariant
            i <= items.len(),
            ok == status_count(items@.take(i as int), ProxyTestStatus::Passed),
            failed == status_count(items@.take(i as int), ProxyTestStatus::Failed),
            skipped == status_count(items@.take(i as int), ProxyTestStatus::Skipped),
        decreases items.len() - i,
    {
        assert(items@.take(i + 1).drop_last() =~= items@.take(i as int));
        proof {
            lemma_status_count_bound(items@.take(i as int), ProxyTestStatus::Passed);
            lemma_status_count_bound(items@.take(i as int), ProxyTestStatus::Failed);
            lemma_status_count_bound(items@.take(i as int), ProxyTestStatus::Skipped);
        }
        match items[i].status {
            ProxyTestStatus::Passed => ok += 1,
            ProxyTestStatus::Failed => failed += 1,
            ProxyTestStatus::Skipped => skipped += 1,
        }
        i += 1;
    }
    assert(items@.take(items.len() as int) =~= items@);
    (ok, failed, skipped)
}

/// A report of items, with their counts.
pub fn build_report(mode_label: String, scope_label: String, test_url: String, timeout_ms: u64, elapsed_ms: u128, items: Vec<ProxyTestItem>) -> (r: ProxyTestReport)
    ensures
        r.mode_label == mode_label,
        r.scope_label == scope_label,
        r.test_url == test_url,
        r.timeout_ms == timeout_ms,
        r.elapsed_ms == elapsed_ms,
        r.items == items,
        r.ok == status_count(items@, ProxyTestStatus::Passed),
        r.failed == status_count(items@, ProxyTestStatus::Failed),
        r.skipped == status_count(items@, ProxyTestStatus::Skipped),
{
    let (ok, failed, skipped) = count_statuses(items.as_slice());
    ProxyTestReport { mode_label, scope_label, test_url, timeout_ms, elapsed_ms, ok, failed, skipped, items }
}

/// The counts of a report by name, in the order of the names: `failed`,
/// `ok`, `skipped`.
pub fn summarize_report(report: &ProxyTestReport) -> (r: Vec<(String, usize)>)
    ensures
        r@.len() == 3,
        r@[0].0@ == "failed"@ && r@[0].1 == report.failed,
        r@[1].0@ == "ok"@ && r@[1].1 == report.ok,
        r@[2].0@ == "skipped"@ && r@[2].1 == report.skipped,
{
    let mut r: Vec<(String, usize)> = Vec::new();
    r.push((string_of(chars_of("failed").as_slice()), report.failed));
    r.push((string_of(chars_of("ok").as_slice()), report.ok));
    r.push((string_of(chars_of("skipped").as_slice()), report.skipped));
    r
}

/// What a test covers: one proxy by name, the proxies a group reaches, or
/// every configured proxy; with the labels that describe it.
pub fn test_plan(config: &Config, proxy_name: Option<&str>, group_name: Option<&str>) -> (r: Result<(String, String, Vec<String>), TestError>)
    ensures
        match (proxy_name, group_name) {
            (Some(p), _) => r is Ok && r->Ok_0.0@ == "single proxy"@ && r->Ok_0.1@ == p@ && views(r->Ok_0.2@) == seq![p@],
            (None, Some(g)) => if !group_names(*config).contains(g@) {
                r == Err::<(String, String, Vec<String>), TestError>(TestError::GroupNotFound)
            } else if exists|m: Seq<char>| collected(*config, g@, m) {
                r is Ok && r->Ok_0.0@ == "group"@ && r->Ok_0.1@ == g@ && ascending(views(r->Ok_0.2@))
                    && forall|m: Seq<char>| #[trigger] views(r->Ok_0.2@).contains(m) <==> collected(*config, g@, m)
            } else {
                r == Err::<(String, String, Vec<String>), TestError>(TestError::NoTargets)
            },
            (None, None) => if config.proxies@.len() == 0 {
                r == Err::<(String, String, Vec<String>), TestError>(TestError::NoTargets)
            } else {
                r is Ok && r->Ok_0.0@ == "all proxies"@
                    && r->Ok_0.1@ == decimal(config.proxies@.len() as nat) + " configured proxies"@
                    && views(r->Ok_0.2@) == proxy_names(*config)
            },
        },
{
    match proxy_name {
        Some(p) => {
            let mut targets: Vec<String> = Vec::new();
            targets.push(string_of(chars_of(p).as_slice()));
            assert(views(targets@) =~= seq![p@]);
            return Ok((string_of(chars_of("single proxy").as_slice()), string_of(chars_of(p).as_slice()), targets));
        },
        None => {},
    }
    match group_name {
        Some(g) => {
            let targets = match collect_group_proxies(config, g) {
                Ok(t) => t,
                Err(e) => {
                    return Err(e);
                },
            };
            if targets.len() == 0 {
                proof {
                    assert forall|m: Seq<char>| !collected(*config, g@, m) by {
                        if collected(*config, g@, m) {
                            assert(views(targets@).contains(m));
                        }
                    }
                }
                return Err(TestError::NoTargets);
            }
            proof {
                assert(views(targets@).contains(views(targets@)[0]));
            }
            Ok((string_of(chars_of("group").as_slice()), string_of(chars_of(g).as_slice()), targets))
        },
        None => {
            let names = proxy_name_list(config);
            assert(proxy_names(*config).len() == config.proxies@.len());
            assert(views(names@).len() == names@.len());
            if names.len() == 0 {
                return Err(TestError::NoTargets);
            }
            let mut scope = decimal_string(config.proxies.len() as u64);
            push_str(&mut scope, " configured proxies");
            let label = string_of(chars_of("all proxies").as_slice());
            assert(label@ == "all proxies"@);
            assert(scope@ == decimal(config.proxies@.len() as nat) + " configured proxies"@);
            Ok((label, scope, names))
        },
    }
}


/// Every item of a report is counted once: the items that passed, failed
/// and were skipped add up to all of them.
pub proof fn law_counts_cover_items(items: Seq<ProxyTestItem>)
    ensures
        status_count(items, ProxyTestStatus::Passed) + status_count(items, ProxyTestStatus::Failed)
            + status_count(items, ProxyTestStatus::Skipped) == items.len(),
    decreases items.len(),
{
    if items.len() > 0 {
        law_counts_cover_items(items.drop_last());
    }
}

/// The number of targets that did not resolve.
pub open spec fn unresolved_count(outcomes: Seq<Option<(String, Result<u128, String>)>>) -> nat
    decreases outcomes.len(),
{
    if outcomes.len() == 0 {
        0
    } else {
        unresolved_count(outcomes.drop_last()) + if outcomes.last() is None {
            1nat
        } else {
            0nat
        }
    }
}

/// In the items of a run, an item is skipped exactly when its target did
/// not resolve, so the skipped count is the number of unresolved targets.
pub proof fn law_skipped_iff_unresolved(
    items: Seq<ProxyTestItem>,
    targets: Seq<Seq<char>>,
    outcomes: Seq<Option<(String, Result<u128, String>)>>,
)
    requires
        items.len() == targets.len(),
        targets.len() == outcomes.len(),
        forall|i: int| 0 <= i < items.len() ==> item_of(#[trigger] items[i], targets[i], outcomes[i]),
    ensures
        forall|i: int|
            0 <= i < items.len() ==> (#[trigger] items[i].status == ProxyTestStatus::Skipped <==> outcomes[i] is None),
        status_count(items, ProxyTestStatus::Skipped) == unresolved_count(outcomes),
    decreases items.len(),
{
    assert forall|i: int| 0 <= i < items.len() implies (#[trigger] items[i].status == ProxyTestStatus::Skipped
        <==> outcomes[i] is None) by {
        assert(item_of(items[i], targets[i], outcomes[i]));
    }
    if items.len() > 0 {
        let n = items.len() - 1;
        let pi = items.drop_last();
        let pt = targets.drop_last();
        let po = outcomes.drop_last();
        assert forall|i: int| 0 <= i < pi.len() implies item_of(#[trigger] pi[i], pt[i], po[i]) by {
            assert(pi[i] == items[i]);
            assert(item_of(items[i], targets[i], outcomes[i]));
        }
        law_skipped_iff_unresolved(pi, pt, po);
        assert(item_of(items[n], targets[n], outcomes[n]));
    }
}

} // verus!
