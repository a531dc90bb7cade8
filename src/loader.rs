use vstd::prelude::*;

use crate::routes::{endpoint_mount, mount_of, RouteTable};

verus! {

/// One plugin of a stack, as the loader sees it.
pub struct LoadCandidate {
    pub id: String,
    /// The endpoint its manifest declares.
    pub endpoint: String,
    /// Whether its component compiled, linked and exports the handler.
    pub compiled: bool,
}

/// How many plugins of a stack came up, and how many were skipped.
#[derive(PartialEq, Eq, Structural, Debug, Clone, Copy)]
pub struct LoadReport {
    pub successes: usize,
    pub errors: usize,
}

/// The result of loading a stack: its routes, which candidates came up, and
/// the counts.
pub struct LoadedStack {
    pub routes: RouteTable,
    pub accepted: Vec<bool>,
    pub report: LoadReport,
}

/// A candidate as (id, endpoint, compiled).
pub type CandidateView = (Seq<char>, Seq<char>, bool);

pub open spec fn candidates_view(cs: Seq<LoadCandidate>) -> Seq<CandidateView> {
    cs.map_values(|c: LoadCandidate| (c.id@, c.endpoint@, c.compiled))
}

/// Whether a candidate comes up once `mounts` are registered: its endpoint
/// is valid, its component loaded, and its mount is still free.
pub open spec fn admits(mounts: Map<Seq<char>, Seq<char>>, c: CandidateView) -> bool {
    &&& endpoint_mount(c.1) is Some
    &&& c.2
    &&& !mounts.contains_key(endpoint_mount(c.1)->Some_0)
}

/// Mounts registered, successes and errors after the candidates in order.
pub open spec fn load_outcome(cs: Seq<CandidateView>) -> (Map<Seq<char>, Seq<char>>, nat, nat)
    decreases cs.len(),
{
    if cs.len() == 0 {
        (Map::empty(), 0, 0)
    } else {
        let prev = load_outcome(cs.drop_last());
        let c = cs.last();
        if admits(prev.0, c) {
            (prev.0.insert(endpoint_mount(c.1)->Some_0, c.0), prev.1 + 1, prev.2)
        } else {
            (prev.0, prev.1, prev.2 + 1)
        }
    }
}

/// Registers the candidates in order. A candidate whose endpoint is invalid,
/// whose component did not load, or whose mount is taken by an earlier one
/// is skipped and counted as an error; the others are mounted and counted as
/// successes.
pub fn assemble(candidates: &Vec<LoadCandidate>) -> (r: LoadedStack)
    ensures
        r.routes.wf(),
        r.routes.mounts() == load_outcome(candidates_view(candidates@)).0,
        r.report.successes == load_outcome(candidates_view(candidates@)).1,
        r.report.errors == load_outcome(candidates_view(candidates@)).2,
        r.accepted@.len() == candidates@.len(),
        forall|i: int|
            0 <= i < candidates@.len() ==> #[trigger] r.accepted@[i] == admits(
                load_outcome(candidates_view(candidates@).take(i)).0,
                candidates_view(candidates@)[i],
            ),
{
    let ghost cv = candidates_view(candidates@);
    let mut routes = RouteTable::new();
    let mut accepted: Vec<bool> = Vec::new();
    let mut successes: usize = 0;
    let mut errors: usize = 0;
    let mut i: usize = 0;
    assert(cv.take(0) =~= Seq::<CandidateView>::empty());
    while i < candidates.len()
        invariant
            cv == candidates_view(candidates@),
            i <= candidates@.len(),
            routes.wf(),
            accepted@.len() == i,
            routes.mounts() == load_outcome(cv.take(i as int)).0,
            successes == load_outcome(cv.take(i as int)).1,
            errors == load_outcome(cv.take(i as int)).2,
            successes + errors == i,
            forall|j: int|
                0 <= j < i ==> #[trigger] accepted@[j] == admits(load_outcome(cv.take(j)).0, cv[j]),
        decreases candidates@.len() - i,
    {
        let c = &candidates[i];
        proof {
            assert(cv.take(i + 1).drop_last() =~= cv.take(i as int));
            assert(cv.take(i + 1).last() == cv[i as int]);
        }
        let came_up = match mount_of(c.endpoint.as_str()) {
            Err(_) => false,
            Ok(mount) => {
                if c.compiled {
                    routes.insert_mount(mount, c.id.clone())
                } else {
                    false
                }
            },
        };
        if came_up {
            successes = successes + 1;
        } else {
            errors = errors + 1;
        }
        accepted.push(came_up);
        i = i + 1;
    }
    assert(cv.take(i as int) =~= cv);
    LoadedStack { routes, accepted, report: LoadReport { successes, errors } }
}

/// The number of candidates whose component loaded.
pub open spec fn compiled_count(cs: Seq<CandidateView>) -> nat
    decreases cs.len(),
{
    if cs.len() == 0 {
        0
    } else {
        compiled_count(cs.drop_last()) + if cs.last().2 {
            1nat
        } else {
            0nat
        }
    }
}

/// Every endpoint is valid, and no two candidates share a mount.
pub open spec fn distinct_valid_mounts(cs: Seq<CandidateView>) -> bool {
    &&& forall|i: int| 0 <= i < cs.len() ==> (#[trigger] endpoint_mount(cs[i].1)) is Some
    &&& forall|i: int, j: int|
        0 <= i < cs.len() && 0 <= j < cs.len() && i != j ==> endpoint_mount(#[trigger] cs[i].1)
            != endpoint_mount(#[trigger] cs[j].1)
}

proof fn lemma_outcome_mounts_from(cs: Seq<CandidateView>, m: Seq<char>) -> (j: int)
    requires
        load_outcome(cs).0.contains_key(m),
    ensures
        0 <= j < cs.len(),
        endpoint_mount(cs[j].1) == Some(m),
    decreases cs.len(),
{
    let prev = load_outcome(cs.drop_last());
    let c = cs.last();
    if admits(prev.0, c) && endpoint_mount(c.1)->Some_0 == m {
        (cs.len() - 1) as int
    } else {
        let j = lemma_outcome_mounts_from(cs.drop_last(), m);
        j
    }
}

/// Load tolerance: when every endpoint is valid and no two share a mount,
/// the stack comes up with one success per component that loaded and one
/// error per component that did not; exactly the candidates whose component
/// loaded come up, each mounted under its own id.
pub proof fn lemma_load_tolerance(cs: Seq<CandidateView>)
    requires
        distinct_valid_mounts(cs),
    ensures
        load_outcome(cs).1 == compiled_count(cs),
        load_outcome(cs).2 == cs.len() - compiled_count(cs),
        forall|i: int|
            0 <= i < cs.len() ==> admits(load_outcome(cs.take(i)).0, #[trigger] cs[i]) == cs[i].2,
        forall|i: int|
            0 <= i < cs.len() && (#[trigger] cs[i]).2 ==> load_outcome(cs).0.contains_key(
                endpoint_mount(cs[i].1)->Some_0,
            ) && load_outcome(cs).0[endpoint_mount(cs[i].1)->Some_0] == cs[i].0,
        forall|m: Seq<char>|
            #[trigger] load_outcome(cs).0.contains_key(m) ==> exists|i: int|
                0 <= i < cs.len() && (#[trigger] cs[i]).2 && endpoint_mount(cs[i].1) == Some(m)
                    && load_outcome(cs).0[m] == cs[i].0,
    decreases cs.len(),
{
    if cs.len() > 0 {
        let init = cs.drop_last();
        assert forall|i: int| 0 <= i < init.len() implies (#[trigger] endpoint_mount(init[i].1)) is Some by {
            assert(init[i] == cs[i]);
        }
        assert forall|i: int, j: int|
            0 <= i < init.len() && 0 <= j < init.len() && i != j implies endpoint_mount(
                #[trigger] init[i].1,
            ) != endpoint_mount(#[trigger] init[j].1) by {
            assert(init[i] == cs[i]);
            assert(init[j] == cs[j]);
        }
        lemma_load_tolerance(init);
        let prev = load_outcome(init);
        let out = load_outcome(cs);
        let c = cs.last();
        let last = cs.len() - 1;
        assert(cs[last] == c);
        assert(endpoint_mount(cs[last].1) is Some);
        let mc = endpoint_mount(c.1)->Some_0;
        if prev.0.contains_key(mc) {
            let j = lemma_outcome_mounts_from(init, mc);
            assert(init[j] == cs[j]);
            assert(endpoint_mount(cs[j].1) != endpoint_mount(cs[last].1));
        }
        assert(compiled_count(init) <= init.len()) by {
            lemma_compiled_count_bound(init);
        }
        assert forall|i: int| 0 <= i < cs.len() implies admits(load_outcome(cs.take(i)).0, #[trigger] cs[i])
            == cs[i].2 by {
            if i < last {
                assert(cs.take(i) =~= init.take(i));
                assert(init[i] == cs[i]);
            } else {
                assert(cs.take(i) =~= init);
            }
        }
        assert forall|i: int|
            0 <= i < cs.len() && (#[trigger] cs[i]).2 implies out.0.contains_key(endpoint_mount(cs[i].1)->Some_0)
            && out.0[endpoint_mount(cs[i].1)->Some_0] == cs[i].0 by {
            if i < last {
                assert(init[i] == cs[i]);
                assert(endpoint_mount(cs[i].1) != endpoint_mount(cs[last].1));
            }
        }
        assert forall|m: Seq<char>| #[trigger] out.0.contains_key(m) implies exists|i: int|
            0 <= i < cs.len() && (#[trigger] cs[i]).2 && endpoint_mount(cs[i].1) == Some(m) && out.0[m]
                == cs[i].0 by {
            if c.2 && m == mc {
                assert(cs[last].2 && endpoint_mount(cs[last].1) == Some(m) && out.0[m] == cs[last].0);
            } else {
                assert(prev.0.contains_key(m));
                let i = choose|i: int|
                    0 <= i < init.len() && (#[trigger] init[i]).2 && endpoint_mount(init[i].1) == Some(m)
                        && prev.0[m] == init[i].0;
                assert(init[i] == cs[i]);
                assert(out.0[m] == prev.0[m]);
            }
        }
    }
}

proof fn lemma_compiled_count_bound(cs: Seq<CandidateView>)
    ensures
        compiled_count(cs) <= cs.len(),
    decreases cs.len(),
{
    if cs.len() > 0 {
        lemma_compiled_count_bound(cs.drop_last());
    }
}

} // verus!
