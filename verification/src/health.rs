//! Health, readiness and metrics answers.

use vstd::prelude::*;

use crate::http;
use crate::http::HttpResponse;
use crate::metrics;
use crate::metrics::Metrics;
use crate::text;

verus! {

// ---------------------------------------------------------------------------
// Readiness
// ---------------------------------------------------------------------------

/// What the server knows of the service: the one flag that all handles set.
#[derive(Debug, PartialEq, Eq, Structural)]
pub struct HealthServer {
    pub ready: bool,
}

/// A handle for marking the service as ready or not. It has no flag of its own:
/// every copy of it sets the flag of the server.
#[derive(Debug, Clone, Copy, PartialEq, Eq, Structural)]
pub struct ReadyHandle;

/// A call of a handle.
pub ghost enum ReadyCall {
    SetReady(ReadyHandle),
    SetNotReady(ReadyHandle),
}

/// The server after a call of a handle, whichever handle it is.
pub open spec fn after(server: HealthServer, call: ReadyCall) -> HealthServer {
    HealthServer { ready: call is SetReady }
}

/// The server after a row of calls.
pub open spec fn after_all(server: HealthServer, calls: Seq<ReadyCall>) -> HealthServer
    decreases calls.len(),
{
    if calls.len() == 0 {
        server
    } else {
        after(after_all(server, calls.drop_last()), calls.last())
    }
}

impl HealthServer {
    /// The server of a service that is not ready yet, and a handle for marking it.
    pub fn new() -> (r: (Self, ReadyHandle))
        ensures
            !r.0.ready,
    {
        (HealthServer { ready: false }, ReadyHandle)
    }
}

impl ReadyHandle {
    /// The service accepts traffic from now on.
    pub fn set_ready(&self, server: &mut HealthServer)
        ensures
            *final(server) == after(*old(server), ReadyCall::SetReady(*self)),
    {
        server.ready = true;
    }

    /// The service accepts no traffic from now on.
    pub fn set_not_ready(&self, server: &mut HealthServer)
        ensures
            *final(server) == after(*old(server), ReadyCall::SetNotReady(*self)),
    {
        server.ready = false;
    }
}

/// The answer to a question for readiness.
pub open spec fn readiness(server: HealthServer) -> http::ResponseView {
    if server.ready {
        http::bare(200, "ready\n"@)
    } else {
        http::bare(503, "not ready\n"@)
    }
}

/// From a call of `set_ready` on any handle the service is ready, however often
/// that is called again, until `set_not_ready` is called on any handle.
pub proof fn law_ready_until_not_ready(
    server: HealthServer,
    handle: ReadyHandle,
    calls: Seq<ReadyCall>,
)
    requires
        forall|i: int| 0 <= i < calls.len() ==> #[trigger] calls[i] is SetReady,
    ensures
        readiness(after_all(after(server, ReadyCall::SetReady(handle)), calls)) == http::bare(
            200,
            "ready\n"@,
        ),
    decreases calls.len(),
{
    if calls.len() > 0 {
        law_ready_until_not_ready(server, handle, calls.drop_last());
    }
}

/// Before the first call of `set_ready` on any handle, and from a call of
/// `set_not_ready` on any handle until the next one, the service is not ready.
pub proof fn law_not_ready_until_ready(
    server: HealthServer,
    handle: ReadyHandle,
    calls: Seq<ReadyCall>,
)
    requires
        forall|i: int| 0 <= i < calls.len() ==> #[trigger] calls[i] is SetNotReady,
    ensures
        !server.ready ==> readiness(after_all(server, calls)) == http::bare(503, "not ready\n"@),
        readiness(after_all(after(server, ReadyCall::SetNotReady(handle)), calls)) == http::bare(
            503,
            "not ready\n"@,
        ),
    decreases calls.len(),
{
    if calls.len() > 0 {
        law_not_ready_until_ready(server, handle, calls.drop_last());
    }
}

/// It does not matter which of its handles a call goes through, nor whether it is
/// made once or twice.
pub proof fn law_handles_share_one_flag(server: HealthServer, g: ReadyHandle, h: ReadyHandle)
    ensures
        after(server, ReadyCall::SetReady(g)) == after(server, ReadyCall::SetReady(h)),
        after(server, ReadyCall::SetNotReady(g)) == after(server, ReadyCall::SetNotReady(h)),
        after(after(server, ReadyCall::SetReady(g)), ReadyCall::SetReady(h)) == after(
            server,
            ReadyCall::SetReady(g),
        ),
        after(after(server, ReadyCall::SetReady(g)), ReadyCall::SetNotReady(h)) == after(
            server,
            ReadyCall::SetNotReady(g),
        ),
{
}

// ---------------------------------------------------------------------------
// Answers
// ---------------------------------------------------------------------------

/// The answer to a request for a path.
pub fn handle_request(path: &str, server: &HealthServer, metrics: &Metrics) -> (r: HttpResponse)
    ensures
        if path@ == "/healthz"@ {
            r@ == http::bare(200, "ok\n"@)
        } else if path@ == "/readyz"@ {
            r@ == readiness(*server)
        } else if path@ == "/metrics"@ {
            r@ == http::headed(
                200,
                "Content-Type"@,
                "text/plain; version=0.0.4"@,
                metrics::exposition(metrics@),
            )
        } else {
            r@ == http::not_found_view()
        },
{
    if text::same(path, "/healthz") {
        http::respond(200, "ok\n")
    } else if text::same(path, "/readyz") {
        if server.ready {
            http::respond(200, "ready\n")
        } else {
            http::respond(503, "not ready\n")
        }
    } else if text::same(path, "/metrics") {
        http::respond_with(200, "Content-Type", "text/plain; version=0.0.4", metrics.render())
    } else {
        http::not_found()
    }
}

} // verus!
