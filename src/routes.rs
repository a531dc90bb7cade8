use vstd::prelude::*;
use vstd::string::{StrSliceExecFns, StringExecFns};

use crate::router::{
    all_plain, catch_all_param, deepest_catch_all, is_catch_all_route, is_plain_route,
    is_static_path, route_lookup, router_at, router_contents, router_insert, router_new,
};

verus! {

// A plugin mounted at `m` owns three routes: `m` itself (unless `m` is the
// root mount, which is empty), `m/`, and `m/{*path}`.

/// A mount: empty for the root, or a static path that does not end in `/`.
pub open spec fn is_mount(m: Seq<char>) -> bool {
    m.len() == 0 || (is_static_path(m) && m.last() != '/')
}

pub open spec fn valid_mounts(mounts: Map<Seq<char>, Seq<char>>) -> bool {
    forall|m: Seq<char>| #[trigger] mounts.contains_key(m) ==> is_mount(m)
}

pub open spec fn slash_route(m: Seq<char>) -> Seq<char> {
    m.push('/')
}

pub open spec fn wildcard_route(m: Seq<char>) -> Seq<char> {
    m.push('/') + catch_all_param()
}

/// The mount that owns route `r`, read back from its shape.
pub open spec fn route_mount(r: Seq<char>) -> Seq<char> {
    let n = catch_all_param().len() + 1;
    if r.len() >= n && r.skip(r.len() - n) == seq!['/'] + catch_all_param() {
        r.take(r.len() - n)
    } else if r.len() >= 1 && r.last() == '/' {
        r.drop_last()
    } else {
        r
    }
}

pub open spec fn is_route_of(r: Seq<char>, m: Seq<char>) -> bool {
    (m.len() > 0 && r == m) || r == slash_route(m) || r == wildcard_route(m)
}

/// The routes that a set of mounts puts in the router, each to its mount's id.
pub open spec fn routes_of(mounts: Map<Seq<char>, Seq<char>>) -> Map<Seq<char>, Seq<char>> {
    Map::new(
        |r: Seq<char>| mounts.contains_key(route_mount(r)) && is_route_of(r, route_mount(r)),
        |r: Seq<char>| mounts[route_mount(r)],
    )
}

/// Mount `m` serves path `p`: `p` is `m` itself, or `p` continues `m` with `/`.
pub open spec fn covers(m: Seq<char>, p: Seq<char>) -> bool {
    (m.len() > 0 && p == m) || (m.len() < p.len() && p.take(m.len() as int + 1) == m.push('/'))
}

/// The longest mount shorter than `n` that covers `p`.
pub open spec fn longest_mount_below(mounts: Map<Seq<char>, Seq<char>>, p: Seq<char>, n: nat) -> Option<Seq<char>>
    decreases n,
{
    if n == 0 {
        None
    } else {
        let m = p.take(n - 1);
        if mounts.contains_key(m) && covers(m, p) {
            Some(m)
        } else {
            longest_mount_below(mounts, p, (n - 1) as nat)
        }
    }
}

/// The mount that serves `p`: the longest registered mount covering it.
pub open spec fn mount_for(mounts: Map<Seq<char>, Seq<char>>, p: Seq<char>) -> Option<Seq<char>> {
    longest_mount_below(mounts, p, p.len() + 1)
}

/// The id of the plugin that serves `p`.
pub open spec fn plugin_for(mounts: Map<Seq<char>, Seq<char>>, p: Seq<char>) -> Option<Seq<char>> {
    match mount_for(mounts, p) {
        Some(m) => Some(mounts[m]),
        None => None,
    }
}

/// An endpoint with every trailing `/` removed.
pub open spec fn strip_trailing_slashes(s: Seq<char>) -> Seq<char>
    decreases s.len(),
{
    if s.len() > 0 && s.last() == '/' {
        strip_trailing_slashes(s.drop_last())
    } else {
        s
    }
}

proof fn lemma_no_brace_in_mount(m: Seq<char>, i: int)
    requires
        is_mount(m),
        0 <= i < m.len(),
    ensures
        m[i] != '{' && m[i] != '}',
{
}

proof fn lemma_route_shapes(m: Seq<char>)
    requires
        is_mount(m),
    ensures
        is_static_path(slash_route(m)),
        is_catch_all_route(wildcard_route(m)),
        route_mount(slash_route(m)) == m,
        route_mount(wildcard_route(m)) == m,
        m.len() > 0 ==> route_mount(m) == m,
        m.len() > 0 ==> is_static_path(m),
{
    let s = slash_route(m);
    let w = wildcard_route(m);
    let tail = seq!['/'] + catch_all_param();
    assert forall|i: int| 0 <= i < s.len() implies #[trigger] s[i] != '{' && s[i] != '}' by {
        if i < m.len() {
            lemma_no_brace_in_mount(m, i);
        }
    }
    assert(s[0] == '/');
    assert(w.skip(w.len() - 7) =~= catch_all_param());
    assert(w.take(w.len() - 7) =~= s);
    assert(w.skip(w.len() - 8) =~= tail);
    assert(w.take(w.len() - 8) =~= m);
    assert(s.drop_last() =~= m);
    if s.len() >= 8 {
        assert(s.skip(s.len() - 8).last() == '/');
        assert(tail.last() == '}');
    }
    if m.len() > 0 {
        if m.len() >= 8 && m.skip(m.len() - 8) == tail {
            assert(m.skip(m.len() - 8)[1] == m[m.len() - 7]);
            lemma_no_brace_in_mount(m, m.len() - 7);
        }
    }
}

proof fn lemma_routes_plain(mounts: Map<Seq<char>, Seq<char>>)
    requires
        valid_mounts(mounts),
    ensures
        all_plain(routes_of(mounts)),
{
    assert forall|r: Seq<char>| #[trigger] routes_of(mounts).contains_key(r) implies is_plain_route(r) by {
        lemma_route_shapes(route_mount(r));
    }
}

proof fn lemma_plain_insert(t: Map<Seq<char>, Seq<char>>, r: Seq<char>, v: Seq<char>)
    requires
        all_plain(t),
        is_plain_route(r),
    ensures
        all_plain(t.insert(r, v)),
{
    assert forall|q: Seq<char>| #[trigger] t.insert(r, v).contains_key(q) implies is_plain_route(q) by {
        if q != r {
            assert(t.contains_key(q));
        }
    }
}

proof fn lemma_routes_insert(mounts: Map<Seq<char>, Seq<char>>, m: Seq<char>, id: Seq<char>)
    requires
        valid_mounts(mounts),
        is_mount(m),
        !mounts.contains_key(m),
    ensures
        m.len() > 0 ==> routes_of(mounts.insert(m, id)) == routes_of(mounts).insert(slash_route(m), id).insert(
            m,
            id,
        ).insert(wildcard_route(m), id),
        m.len() == 0 ==> routes_of(mounts.insert(m, id)) == routes_of(mounts).insert(slash_route(m), id).insert(
            wildcard_route(m),
            id,
        ),
        !routes_of(mounts).contains_key(slash_route(m)),
        !routes_of(mounts).contains_key(wildcard_route(m)),
        m.len() > 0 ==> !routes_of(mounts).contains_key(m),
{
    lemma_route_shapes(m);
    let a = routes_of(mounts.insert(m, id));
    if m.len() > 0 {
        let b = routes_of(mounts).insert(slash_route(m), id).insert(m, id).insert(wildcard_route(m), id);
        assert(a =~= b);
    } else {
        let b = routes_of(mounts).insert(slash_route(m), id).insert(wildcard_route(m), id);
        assert(a =~= b);
    }
}

/// Which wildcard routes of a table exist, in terms of mounts.
proof fn lemma_wildcard_at(mounts: Map<Seq<char>, Seq<char>>, p: Seq<char>, k: int)
    requires
        valid_mounts(mounts),
        0 <= k <= p.len(),
    ensures
        routes_of(mounts).contains_key(p.take(k) + catch_all_param()) <==> (k >= 1 && p[k - 1] == '/'
            && mounts.contains_key(p.take(k - 1))),
        routes_of(mounts).contains_key(p.take(k) + catch_all_param()) ==> routes_of(mounts)[p.take(k)
            + catch_all_param()] == mounts[p.take(k - 1)],
{
    let r = p.take(k) + catch_all_param();
    let tail = seq!['/'] + catch_all_param();
    if k >= 1 && p[k - 1] == '/' {
        assert(p.take(k) =~= p.take(k - 1).push('/'));
        assert(r =~= wildcard_route(p.take(k - 1)));
        if mounts.contains_key(p.take(k - 1)) {
            lemma_route_shapes(p.take(k - 1));
        } else {
            assert(r.skip(r.len() - 8) =~= tail);
            assert(r.take(r.len() - 8) =~= p.take(k - 1));
        }
    } else {
        assert(r.last() == '}');
        if r.len() >= 8 && r.skip(r.len() - 8) == tail {
            assert(r.skip(r.len() - 8)[0] == r[r.len() - 8]);
            assert(r[r.len() - 8] == p[k - 1]);
        }
        assert(route_mount(r) == r);
        if mounts.contains_key(r) {
            assert(r[r.len() - 1] == '}');
        }
    }
}

proof fn lemma_deepest_is_longest(mounts: Map<Seq<char>, Seq<char>>, p: Seq<char>, n: nat)
    requires
        valid_mounts(mounts),
        1 <= n <= p.len(),
    ensures
        deepest_catch_all(routes_of(mounts), p, n) == match longest_mount_below(mounts, p, (n - 1) as nat) {
            Some(m) => Some(mounts[m]),
            None => None,
        },
    decreases n,
{
    let k = n - 1;
    lemma_wildcard_at(mounts, p, k);
    if n == 1 {
        assert(p.take(0) + catch_all_param() =~= catch_all_param());
    } else {
        let m = p.take(k - 1);
        assert(p.take(k) =~= p.take(k - 1).push(p[k - 1]));
        if covers(m, p) {
            assert(p.take(m.len() as int + 1) =~= p.take(k));
            assert(p.take(k)[k - 1] == p[k - 1]);
        }
        lemma_deepest_is_longest(mounts, p, (n - 1) as nat);
    }
}

/// The router's answer on the routes of valid mounts is the longest covering mount.
proof fn lemma_lookup_is_longest_mount(mounts: Map<Seq<char>, Seq<char>>, p: Seq<char>)
    requires
        valid_mounts(mounts),
    ensures
        route_lookup(routes_of(mounts), p) == plugin_for(mounts, p),
{
    let t = routes_of(mounts);
    if p.len() > 0 && mounts.contains_key(p) {
        lemma_route_shapes(p);
        assert(p.take(p.len() as int) =~= p);
    } else if p.len() > 0 && p.last() == '/' && mounts.contains_key(p.drop_last()) {
        let m = p.drop_last();
        lemma_route_shapes(m);
        assert(p =~= slash_route(m));
        assert(p.take(p.len() as int) =~= p);
        assert(p.take(p.len() - 1) =~= m);
        assert(p.take(m.len() as int + 1) =~= p);
        if mounts.contains_key(p) {
            assert(p.last() == '/');
        }
        assert(covers(m, p));
        assert(longest_mount_below(mounts, p, p.len()) == Some(m));
        assert(mount_for(mounts, p) == Some(m));
    } else if p.len() == 0 {
        assert(p.take(0) =~= p);
    } else {
        assert(p.take(p.len() as int) =~= p);
        assert(p.take(p.len() - 1) =~= p.drop_last());
        let m = p.drop_last();
        if covers(m, p) {
            assert(p.take(m.len() as int + 1) =~= p);
            assert(p =~= m.push('/'));
        }
        if is_static_path(p) && t.contains_key(p) {
            let m0 = route_mount(p);
            lemma_route_shapes(m0);
            if p == slash_route(m0) {
                assert(p.drop_last() =~= m0);
            }
        }
        lemma_deepest_is_longest(mounts, p, p.len());
        assert(longest_mount_below(mounts, p, p.len()) == longest_mount_below(mounts, p, (p.len() - 1) as nat));
        assert(mount_for(mounts, p) == longest_mount_below(mounts, p, p.len()));
    }
}

/// Route determinism: among valid mounts, a path is served by the plugin of
/// the longest registered mount that covers it (the path is that mount, or
/// continues it with `/`).
pub proof fn lemma_longest_mount_wins(mounts: Map<Seq<char>, Seq<char>>, p: Seq<char>, m: Seq<char>)
    requires
        valid_mounts(mounts),
        mounts.contains_key(m),
        covers(m, p),
        forall|m2: Seq<char>| #[trigger] mounts.contains_key(m2) && covers(m2, p) ==> m2.len() <= m.len(),
    ensures
        mount_for(mounts, p) == Some(m),
        plugin_for(mounts, p) == Some(mounts[m]),
{
    lemma_longest_below(mounts, p, m, p.len() + 1);
}

proof fn lemma_longest_below(mounts: Map<Seq<char>, Seq<char>>, p: Seq<char>, m: Seq<char>, n: nat)
    requires
        mounts.contains_key(m),
        covers(m, p),
        forall|m2: Seq<char>| #[trigger] mounts.contains_key(m2) && covers(m2, p) ==> m2.len() <= m.len(),
        m.len() < n <= p.len() + 1,
    ensures
        longest_mount_below(mounts, p, n) == Some(m),
    decreases n,
{
    if p != m {
        assert(p.take(m.len() as int + 1).take(m.len() as int) =~= p.take(m.len() as int));
        assert(m.push('/').take(m.len() as int) =~= m);
    } else {
        assert(p.take(m.len() as int) =~= p);
    }
    if n > m.len() + 1 {
        let m2 = p.take(n - 1);
        if mounts.contains_key(m2) && covers(m2, p) {
            assert(m2.len() == n - 1);
        }
        lemma_longest_below(mounts, p, m, (n - 1) as nat);
    }
}

/// No route: a path that no registered mount covers is served by no plugin.
pub proof fn lemma_uncovered_path(mounts: Map<Seq<char>, Seq<char>>, p: Seq<char>)
    requires
        forall|m: Seq<char>| #[trigger] mounts.contains_key(m) ==> !covers(m, p),
    ensures
        mount_for(mounts, p) is None,
        plugin_for(mounts, p) is None,
{
    lemma_uncovered_below(mounts, p, p.len() + 1);
}

proof fn lemma_uncovered_below(mounts: Map<Seq<char>, Seq<char>>, p: Seq<char>, n: nat)
    requires
        forall|m: Seq<char>| #[trigger] mounts.contains_key(m) ==> !covers(m, p),
    ensures
        longest_mount_below(mounts, p, n) is None,
    decreases n,
{
    if n > 0 {
        lemma_uncovered_below(mounts, p, (n - 1) as nat);
    }
}

/// Why an endpoint cannot be mounted.
#[derive(PartialEq, Eq, Structural, Debug, Clone, Copy)]
pub enum EndpointError {
    /// The endpoint is empty or does not start with `/`.
    MissingLeadingSlash,
    /// The endpoint holds `{` or `}`, which the router reserves for parameters.
    ReservedCharacter,
}

/// The mount of a valid endpoint: the endpoint without its trailing slashes.
pub open spec fn endpoint_mount(e: Seq<char>) -> Option<Seq<char>> {
    if is_static_path(e) {
        Some(strip_trailing_slashes(e))
    } else {
        None
    }
}

pub(crate) proof fn lemma_strip_prefix(s: Seq<char>, end: int)
    requires
        0 < end <= s.len(),
        s[end - 1] == '/',
    ensures
        strip_trailing_slashes(s.take(end)) == strip_trailing_slashes(s.take(end - 1)),
{
    assert(s.take(end).drop_last() =~= s.take(end - 1));
}

/// The mount of `endpoint`: it must start with `/` and hold no brace; its
/// trailing slashes are removed, so `/` gives the root mount (empty).
pub fn mount_of(endpoint: &str) -> (r: Result<String, EndpointError>)
    ensures
        (r matches Err(EndpointError::MissingLeadingSlash)) <==> (endpoint@.len() == 0 || endpoint@[0] != '/'),
        r is Ok <==> endpoint_mount(endpoint@) is Some,
        r is Ok ==> r->Ok_0@ == endpoint_mount(endpoint@)->Some_0 && is_mount(r->Ok_0@),
{
    let n = endpoint.unicode_len();
    if n == 0 || endpoint.get_char(0) != '/' {
        return Err(EndpointError::MissingLeadingSlash);
    }
    let mut i: usize = 0;
    while i < n
        invariant
            n == endpoint@.len(),
            n > 0,
            endpoint@[0] == '/',
            i <= n,
            forall|j: int| 0 <= j < i ==> #[trigger] endpoint@[j] != '{' && endpoint@[j] != '}',
        decreases n - i,
    {
        let c = endpoint.get_char(i);
        if c == '{' || c == '}' {
            return Err(EndpointError::ReservedCharacter);
        }
        i = i + 1;
    }
    assert(endpoint@.take(n as int) =~= endpoint@);
    let mut end: usize = n;
    loop
        invariant
            n == endpoint@.len(),
            end <= n,
            strip_trailing_slashes(endpoint@) == strip_trailing_slashes(endpoint@.take(end as int)),
        ensures
            end <= n,
            end == 0 || endpoint@[end - 1] != '/',
            strip_trailing_slashes(endpoint@) == strip_trailing_slashes(endpoint@.take(end as int)),
        decreases end,
    {
        if end == 0 || endpoint.get_char(end - 1) != '/' {
            break;
        }
        proof {
            lemma_strip_prefix(endpoint@, end as int);
        }
        end = end - 1;
    }
    let mount = endpoint.substring_char(0, end).to_owned();
    proof {
        let t = endpoint@.take(end as int);
        assert(mount@ =~= t);
        if end > 0 {
            assert(t.last() == endpoint@[end - 1]);
        }
        assert(strip_trailing_slashes(t) == t);
        if t.len() > 0 {
            assert(t[0] == endpoint@[0]);
            assert forall|j: int| 0 <= j < t.len() implies #[trigger] t[j] != '{' && t[j] != '}' by {
                assert(t[j] == endpoint@[j]);
            }
        }
    }
    Ok(mount)
}

/// The router of a stack, from the routes of each mount to its plugin id.
pub struct RouteTable {
    router: matchit::Router<String>,
    mounts: Ghost<Map<Seq<char>, Seq<char>>>,
}

impl RouteTable {
    /// The registered mounts, each with its plugin id.
    pub closed spec fn mounts(&self) -> Map<Seq<char>, Seq<char>> {
        self.mounts@
    }

    pub closed spec fn wf(&self) -> bool {
        &&& valid_mounts(self.mounts@)
        &&& router_contents(self.router) == routes_of(self.mounts@)
    }

    /// A table with no mount.
    pub fn new() -> (r: RouteTable)
        ensures
            r.wf(),
            r.mounts() =~= Map::empty(),
    {
        let r = RouteTable { router: router_new(), mounts: Ghost(Map::empty()) };
        assert(routes_of(r.mounts@) =~= router_contents(r.router));
        r
    }

    /// Registers `mount` for plugin `id`, unless that mount is already
    /// registered; returns whether it was registered now.
    pub fn insert_mount(&mut self, mount: String, id: String) -> (r: bool)
        requires
            old(self).wf(),
            is_mount(mount@),
        ensures
            final(self).wf(),
            r == !old(self).mounts().contains_key(mount@),
            r ==> final(self).mounts() == old(self).mounts().insert(mount@, id@),
            !r ==> final(self).mounts() == old(self).mounts(),
    {
        let ghost m = mount@;
        let ghost before = self.mounts@;
        proof {
            lemma_routes_plain(before);
            lemma_route_shapes(m);
            if !before.contains_key(m) {
                lemma_routes_insert(before, m, id@);
            }
        }
        let mut slash = mount.clone();
        slash.append("/");
        proof {
            reveal_strlit("/");
            reveal_strlit("/{*path}");
        }
        assert(slash@ =~= slash_route(m));
        if router_insert(&mut self.router, slash, id.clone()).is_err() {
            return false;
        }
        proof {
            lemma_plain_insert(routes_of(before), slash_route(m), id@);
        }
        if mount.unicode_len() > 0 {
            proof {
                lemma_plain_insert(routes_of(before).insert(slash_route(m), id@), m, id@);
            }
            let _ = router_insert(&mut self.router, mount.clone(), id.clone());
        }
        proof {
            if m.len() > 0 {
                lemma_plain_insert(routes_of(before).insert(slash_route(m), id@), m, id@);
            }
        }
        let mut wildcard = mount;
        wildcard.append("/{*path}");
        assert(wildcard@ =~= wildcard_route(m));
        let _ = router_insert(&mut self.router, wildcard, id);
        self.mounts = Ghost(before.insert(m, id@));
        proof {
            assert(valid_mounts(self.mounts@));
        }
        true
    }

    /// The id of the plugin that serves `path`: that of the longest
    /// registered mount covering it, or none.
    pub fn resolve(&self, path: &str) -> (r: Option<String>)
        requires
            self.wf(),
        ensures
            r is Some <==> plugin_for(self.mounts(), path@) is Some,
            r is Some ==> r->Some_0@ == plugin_for(self.mounts(), path@)->Some_0,
    {
        proof {
            lemma_routes_plain(self.mounts@);
            lemma_lookup_is_longest_mount(self.mounts@, path@);
        }
        router_at(&self.router, path)
    }
}

} // verus!
