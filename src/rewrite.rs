use vstd::prelude::*;
use vstd::string::{StrSliceExecFns, StringExecFns};

use crate::routes::{lemma_strip_prefix, strip_trailing_slashes};

verus! {

/// The path-and-query a guest sees for `p` when `prefix` is stripped: `/`
/// followed by what comes after the prefix.
pub open spec fn guest_path_of(prefix: Seq<char>, p: Seq<char>) -> Seq<char> {
    seq!['/'] + p.skip(prefix.len() as int)
}

/// `e` starts `p`.
pub open spec fn starts_with(p: Seq<char>, e: Seq<char>) -> bool {
    e.len() <= p.len() && p.take(e.len() as int) == e
}

/// Strips `prefix` from the front of a request's path-and-query and
/// prepends `/`, so that the guest sees paths relative to its own root.
pub fn guest_path(prefix: &str, path_and_query: &str) -> (r: String)
    requires
        starts_with(path_and_query@, prefix@),
    ensures
        r@ == guest_path_of(prefix@, path_and_query@),
{
    let n = path_and_query.unicode_len();
    let start = prefix.unicode_len();
    let rest = path_and_query.substring_char(start, n);
    let mut r = "/".to_owned();
    r.append(rest);
    proof {
        reveal_strlit("/");
    }
    assert(r@ =~= seq!['/'] + path_and_query@.skip(prefix@.len() as int));
    r
}

fn starts_with_str(p: &str, e: &str) -> (r: bool)
    ensures
        r == starts_with(p@, e@),
{
    let ne = e.unicode_len();
    let np = p.unicode_len();
    if ne > np {
        return false;
    }
    let mut i: usize = 0;
    while i < ne
        invariant
            ne == e@.len(),
            np == p@.len(),
            ne <= np,
            i <= ne,
            forall|j: int| 0 <= j < i ==> #[trigger] e@[j] == p@[j],
        decreases ne - i,
    {
        if e.get_char(i) != p.get_char(i) {
            assert(p@.take(ne as int)[i as int] != e@[i as int]);
            return false;
        }
        i = i + 1;
    }
    assert(p@.take(ne as int) =~= e@);
    true
}

/// The prefix to strip from a request routed to a plugin declared at
/// `endpoint`: the endpoint itself when the request starts with it, else
/// the endpoint without its trailing slashes (a request for the bare mount
/// of an endpoint declared as `/a/` is `/a`).
pub fn prefix_to_strip(endpoint: &str, path_and_query: &str) -> (r: String)
    ensures
        starts_with(path_and_query@, endpoint@) ==> r@ == endpoint@,
        !starts_with(path_and_query@, endpoint@) ==> r@ == strip_trailing_slashes(endpoint@),
{
    let ne = endpoint.unicode_len();
    if starts_with_str(path_and_query, endpoint) {
        return endpoint.to_owned();
    }
    assert(endpoint@.take(ne as int) =~= endpoint@);
    let mut end: usize = ne;
    loop
        invariant
            ne == endpoint@.len(),
            end <= ne,
            strip_trailing_slashes(endpoint@) == strip_trailing_slashes(endpoint@.take(end as int)),
        ensures
            end <= ne,
            end == 0 || endpoint@[end - 1] != '/',
            strip_trailing_slashes(endpoint@) == strip_trailing_slashes(endpoint@.take(end as int)),
        decreases end,
    {
        if end == 0 || endpoint.get_char(end - 1) != '/' {
            break;
        }
        proof {
            lemma_strip_prefix(endpoint@, end as int);
        }
        end = end - 1;
    }
    let r = endpoint.substring_char(0, end).to_owned();
    proof {
        let t = endpoint@.take(end as int);
        assert(r@ =~= t);
        if end > 0 {
            assert(t.last() == endpoint@[end - 1]);
        }
        assert(strip_trailing_slashes(t) == t);
    }
    r
}

/// Prefix stripping: a request for `endpoint + suffix` reaches the guest as
/// `"/" + suffix`, so the endpoint itself reaches it as `"/"`.
pub proof fn lemma_prefix_stripping(endpoint: Seq<char>, suffix: Seq<char>)
    ensures
        starts_with(endpoint + suffix, endpoint),
        guest_path_of(endpoint, endpoint + suffix) == seq!['/'] + suffix,
        guest_path_of(endpoint, endpoint) == seq!['/'],
{
    assert((endpoint + suffix).take(endpoint.len() as int) =~= endpoint);
    assert((endpoint + suffix).skip(endpoint.len() as int) =~= suffix);
    assert(endpoint.skip(endpoint.len() as int) =~= Seq::<char>::empty());
    assert(seq!['/'] + Seq::<char>::empty() =~= seq!['/']);
}

} // verus!
