//! The pipeline composer.  The stage order is fixed once, at composition:
//! resource injection, then the timeout guard, then body interception, then
//! router dispatch; on the way out body interception again, then the error
//! normalizer, then the not-found rewriter.  The binary performs the
//! handler invocation and the waiting; this module decides, for every
//! request, what is invoked and exactly which response leaves.

use crate::envelope::{
    internal_error_body, normalize, not_found_body, not_found_response, rewrite_not_found,
    timeout_body, PipelineError, Response,
};
use crate::router::{
    any_route_matches, pairs_view, pat_matches, resolves_to, route_matches, route_pat, Method,
    Resolution, Router,
};
use vstd::prelude::*;

verus! {

/// The default deadline for one request, in milliseconds.
pub const DEFAULT_TIMEOUT_MILLIS: u64 = 15000;

/// The per-request context: the absolute deadline and the shared resource
/// pool handle attached by the resource injector.  It is created when a
/// request arrives and dropped when its response has been written.
pub struct Context {
    pub deadline_millis: u64,
    pub pool_handle: u64,
}

/// How one handler invocation ended: with a response, or with a failure the
/// normalizer must shape (a timeout, a body-read failure, or an opaque
/// handler error).
pub enum HandlerOutcome {
    Completed(Response),
    Failed(PipelineError),
}

/// What the pipeline decides for an arriving request: answer it directly,
/// or invoke a handler under a context.
pub enum Action {
    Respond(Response),
    Invoke { handler: u64, params: Vec<(Vec<u8>, Vec<u8>)>, context: Context },
}

/// The composed pipeline: the router, the timeout bound, and the shared
/// pool handle, fixed for the process lifetime.
pub struct Pipeline {
    pub router: Router,
    pub timeout_millis: u64,
    pub pool_handle: u64,
}

impl Pipeline {
    /// A pipeline is usable when its router is.
    pub open spec fn wf(&self) -> bool {
        self.router.wf()
    }

    /// Compose the pipeline once at startup.  There is no way to reorder or
    /// amend the stages afterwards.
    pub fn compose(router: Router, timeout_millis: u64, pool_handle: u64) -> (p: Pipeline)
        requires
            router.wf(),
        ensures
            p.wf(),
            p.router == router,
            p.timeout_millis == timeout_millis,
            p.pool_handle == pool_handle,
    {
        Pipeline { router, timeout_millis, pool_handle }
    }

    /// The resource injector and the start of the timeout guard: a fresh
    /// context carrying the shared pool handle and the absolute deadline.
    pub fn make_context(&self, now_millis: u64) -> (c: Context)
        requires
            now_millis + self.timeout_millis <= u64::MAX,
        ensures
            c.deadline_millis == now_millis + self.timeout_millis,
            c.pool_handle == self.pool_handle,
    {
        Context {
            deadline_millis: now_millis + self.timeout_millis,
            pool_handle: self.pool_handle,
        }
    }

    /// The inbound half of the pipeline.  A request that resolves is turned
    /// into an invocation of exactly the registered handler, with its path
    /// parameters and a fresh context; a request that does not resolve —
    /// unknown path or known path with the wrong method alike — is answered
    /// directly with the canonical 404 envelope.
    pub fn dispatch(&self, method: Method, path: &Vec<Vec<u8>>, now_millis: u64) -> (a: Action)
        requires
            self.wf(),
            now_millis + self.timeout_millis <= u64::MAX,
        ensures
            match a {
                Action::Invoke { handler, params, context } => resolves_to(
                    self.router.routes@,
                    method,
                    path@,
                    handler,
                    pairs_view(params@),
                ) && context.deadline_millis == now_millis + self.timeout_millis
                    && context.pool_handle == self.pool_handle,
                Action::Respond(resp) => !any_route_matches(self.router.routes@, method, path@)
                    && resp.status == 404 && resp.body@ == not_found_body(),
            },
    {
        match self.router.resolve(method, path) {
            Resolution::Found { handler, params } => {
                let context = self.make_context(now_millis);
                Action::Invoke { handler, params, context }
            },
            Resolution::MethodNotAllowed => Action::Respond(not_found_response()),
            Resolution::NotFound => {
                proof {
                    if any_route_matches(self.router.routes@, method, path@) {
                        let i = choose|i: int|
                            route_matches(self.router.routes@, i, method, path@);
                        assert(0 <= i < self.router.routes@.len() && pat_matches(
                            route_pat(self.router.routes@[i]),
                            path@,
                        ));
                    }
                }
                Action::Respond(not_found_response())
            },
        }
    }

    /// The outbound half of the pipeline: the handler outcome passes through
    /// the error normalizer and then the not-found rewriter, and exactly one
    /// response leaves.  A timeout becomes 408 with its fixed envelope; any
    /// other failure becomes 500; a handler's 404 or 405 is folded into the
    /// canonical 404 envelope; everything else passes through unchanged.
    pub fn complete(outcome: HandlerOutcome) -> (r: Response)
        ensures
            match outcome {
                HandlerOutcome::Completed(resp) => ((resp.status == 404 || resp.status == 405)
                    ==> r.status == 404 && r.body@ == not_found_body()) && (!(resp.status == 404
                    || resp.status == 405) ==> r == resp),
                HandlerOutcome::Failed(e) => (e is Timeout ==> r.status == 408 && r.body@
                    == timeout_body()) && (!(e is Timeout) ==> r.status == 500 && r.body@
                    == internal_error_body()),
            },
    {
        match outcome {
            HandlerOutcome::Completed(resp) => rewrite_not_found(resp),
            HandlerOutcome::Failed(e) => rewrite_not_found(normalize(&e)),
        }
    }
}

} // verus!
