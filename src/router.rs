use vstd::prelude::*;

verus! {

// The route table is a `matchit::Router<String>` from route patterns to plugin
// ids. Only "plain" patterns are ever inserted: a static path, or a static
// path ending in `/` followed by the catch-all parameter `{*path}`.

#[verifier::external_type_specification]
#[verifier::external_body]
#[verifier::reject_recursive_types(T)]
pub struct ExRouter<T>(matchit::Router<T>);

#[verifier::external_type_specification]
#[verifier::external_body]
pub struct ExInsertError(matchit::InsertError);

/// The patterns held by a router, each with the value it was inserted with.
pub uninterp spec fn router_contents(r: matchit::Router<String>) -> Map<Seq<char>, Seq<char>>;

/// The text of the catch-all parameter that ends a wildcard route.
pub open spec fn catch_all_param() -> Seq<char> {
    seq!['{', '*', 'p', 'a', 't', 'h', '}']
}

/// A static path: starts with `/` and holds no brace, which the router
/// would read as a parameter.
pub open spec fn is_static_path(s: Seq<char>) -> bool {
    &&& s.len() > 0
    &&& s[0] == '/'
    &&& forall|i: int| 0 <= i < s.len() ==> #[trigger] s[i] != '{' && s[i] != '}'
}

/// A wildcard pattern: a static path ending in `/`, then `{*path}`.
pub open spec fn is_catch_all_route(r: Seq<char>) -> bool {
    let n = catch_all_param().len();
    &&& r.len() > n
    &&& r.skip(r.len() - n) == catch_all_param()
    &&& is_static_path(r.take(r.len() - n))
    &&& r[r.len() - n - 1] == '/'
}

pub open spec fn is_plain_route(r: Seq<char>) -> bool {
    is_static_path(r) || is_catch_all_route(r)
}

pub open spec fn all_plain(t: Map<Seq<char>, Seq<char>>) -> bool {
    forall|r: Seq<char>| #[trigger] t.contains_key(r) ==> is_plain_route(r)
}

/// What the router answers for `p` among wildcard patterns: the value of the
/// pattern `s + "{*path}"` with the longest `s` shorter than `n` that is a
/// prefix of `p`.
pub open spec fn deepest_catch_all(t: Map<Seq<char>, Seq<char>>, p: Seq<char>, n: nat) -> Option<Seq<char>>
    decreases n,
{
    if n == 0 {
        None
    } else {
        let r = p.take(n - 1) + catch_all_param();
        if t.contains_key(r) {
            Some(t[r])
        } else {
            deepest_catch_all(t, p, (n - 1) as nat)
        }
    }
}

/// What the router answers for path `p`: an exact static pattern first, else
/// the wildcard pattern with the longest static part that is a proper prefix
/// of `p` (a catch-all never matches an empty remainder).
pub open spec fn route_lookup(t: Map<Seq<char>, Seq<char>>, p: Seq<char>) -> Option<Seq<char>> {
    if is_static_path(p) && t.contains_key(p) {
        Some(t[p])
    } else {
        deepest_catch_all(t, p, p.len())
    }
}

/// Relies on `matchit::Router::new`: a router with no route.
#[verifier::external_body]
pub(crate) fn router_new() -> (r: matchit::Router<String>)
    ensures
        router_contents(r) =~= Map::empty(),
{
    matchit::Router::new()
}

/// Relies on `matchit::Router::insert`: when every pattern is plain (no
/// parameter but a final `{*path}` after a `/`), inserting a pattern that is
/// not present adds it with its value, and inserting one that is present is
/// a conflict that leaves the routes as they were.
#[verifier::external_body]
pub(crate) fn router_insert(router: &mut matchit::Router<String>, route: String, value: String) -> (r: Result<(), matchit::InsertError>)
    requires
        all_plain(router_contents(*old(router))),
        is_plain_route(route@),
    ensures
        r is Ok <==> !router_contents(*old(router)).contains_key(route@),
        r is Ok ==> router_contents(*final(router)) == router_contents(*old(router)).insert(route@, value@),
        r is Err ==> router_contents(*final(router)) == router_contents(*old(router)),
{
    router.insert(route, value)
}

/// Relies on `matchit::Router::at`: on plain patterns, a static pattern equal
/// to the path wins; otherwise the search backtracks to the deepest catch-all
/// whose static part is a proper prefix of the path (a catch-all never binds
/// an empty remainder); with neither, the lookup fails.
#[verifier::external_body]
pub(crate) fn router_at(router: &matchit::Router<String>, path: &str) -> (r: Option<String>)
    requires
        all_plain(router_contents(*router)),
    ensures
        r is Some <==> route_lookup(router_contents(*router), path@) is Some,
        r is Some ==> r->Some_0@ == route_lookup(router_contents(*router), path@)->Some_0,
{
    router.at(path).ok().map(|m| m.value.clone())
}

} // verus!
