use vstd::prelude::*;

use crate::routes::{plugin_for, RouteTable};

verus! {

/// How the handling of one request ended.
#[derive(PartialEq, Eq, Structural, Debug, Clone, Copy)]
pub enum DispatchOutcome {
    /// No mount covers the path.
    NoRoute,
    /// A plugin was found but could not be instantiated.
    InstantiateFailed,
    /// The plugin instance failed: resource creation, guest trap, no
    /// response, or an error code from the guest.
    HandleFailed,
    /// The guest answered with this status.
    Responded(u16),
}

/// The status line of the reply, and whether its body is empty (otherwise
/// the guest's body is forwarded).
#[derive(PartialEq, Eq, Structural, Debug, Clone, Copy)]
pub struct Reply {
    pub status: u16,
    pub empty_body: bool,
}

/// The reply for an outcome: `404` with an empty body when no route matches,
/// `500` with an empty body on any failure, the guest's own response
/// otherwise.
pub fn reply_for(outcome: DispatchOutcome) -> (r: Reply)
    ensures
        outcome == DispatchOutcome::NoRoute ==> r == (Reply { status: 404, empty_body: true }),
        outcome == DispatchOutcome::InstantiateFailed ==> r == (Reply { status: 500, empty_body: true }),
        outcome == DispatchOutcome::HandleFailed ==> r == (Reply { status: 500, empty_body: true }),
        outcome is Responded ==> r == (Reply { status: outcome->Responded_0, empty_body: false }),
{
    match outcome {
        DispatchOutcome::NoRoute => Reply { status: 404, empty_body: true },
        DispatchOutcome::InstantiateFailed => Reply { status: 500, empty_body: true },
        DispatchOutcome::HandleFailed => Reply { status: 500, empty_body: true },
        DispatchOutcome::Responded(status) => Reply { status, empty_body: false },
    }
}

/// The plugin id that serves `path`, or the reply when no mount covers it:
/// `404` with an empty body.
pub fn route_or_reply(routes: &RouteTable, path: &str) -> (r: Result<String, Reply>)
    requires
        routes.wf(),
    ensures
        r is Err <==> plugin_for(routes.mounts(), path@) is None,
        r is Err ==> r->Err_0 == (Reply { status: 404, empty_body: true }),
        r is Ok ==> r->Ok_0@ == plugin_for(routes.mounts(), path@)->Some_0,
{
    match routes.resolve(path) {
        Some(id) => Ok(id),
        None => Err(reply_for(DispatchOutcome::NoRoute)),
    }
}

} // verus!
