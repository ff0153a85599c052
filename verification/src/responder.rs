//! The responder capability: a predicate (`matches`) and an action
//! (`respond`), exposed by every concrete responder variant.
//!
//! The chain is a closed set of variants, so dispatch stays a plain match
//! and both operations have exact contracts.

use crate::application::Application;
use crate::error;
use crate::request::Request;
use crate::request::RequestView;
use crate::response::Response;
use crate::response::ResponseView;
use crate::socket::SocketAddress;
use vstd::prelude::*;

verus! {

/// Why a matched responder's `respond` failed.  Failure of a matched
/// responder is terminal for the request; the dispatch loop never retries
/// with a later entry.
#[derive(Clone, Debug)]
pub struct ResponderFailure {
    pub reason: String,
}

impl View for ResponderFailure {
    type V = Seq<char>;

    open spec fn view(&self) -> Seq<char> {
        self.reason@
    }
}

/// One entry of the dispatch chain.
#[derive(Clone, Debug)]
pub enum ResponderKind {
    /// The terminal catch-all: matches unconditionally and reports an
    /// internal server error.
    CatchAllError(error::Responder),
}

/// What a responder's `respond` returned, seen abstractly.
pub open spec fn respond_result_view(r: Result<Response, ResponderFailure>) -> Result<
    ResponseView,
    Seq<char>,
> {
    match r {
        Ok(resp) => Ok(resp@),
        Err(f) => Err(f@),
    }
}

impl ResponderKind {
    /// Whether this responder elects to handle the request.  A pure
    /// function of the responder and its arguments: repeated calls agree.
    pub open spec fn spec_matches(self, request: RequestView, overflow_bytes: u64) -> bool {
        match self {
            ResponderKind::CatchAllError(_) => true,
        }
    }

    /// The response (or failure) this responder produces for a request.
    pub open spec fn spec_respond(self, request: RequestView) -> Result<ResponseView, Seq<char>> {
        match self {
            ResponderKind::CatchAllError(_) => Ok(error::spec_error_response(request)),
        }
    }

    /// The predicate of the chain entry.  Free of observable side effects
    /// and safe to call repeatedly and in any order.
    pub fn matches(
        &self,
        request: &Request,
        application: &Application,
        socket: &SocketAddress,
        overflow_bytes: u64,
    ) -> (r: bool)
        ensures
            r == self.spec_matches(request@, overflow_bytes),
    {
        match self {
            ResponderKind::CatchAllError(responder) => responder.matches(
                request,
                application,
                socket,
                overflow_bytes,
            ),
        }
    }

    /// The action of the chain entry.  To be called only after `matches`
    /// returned true for the same inputs.
    pub fn respond(
        &self,
        request: &Request,
        application: &Application,
        socket: &SocketAddress,
        overflow_bytes: u64,
    ) -> (r: Result<Response, ResponderFailure>)
        ensures
            respond_result_view(r) == self.spec_respond(request@),
            r matches Ok(resp) ==> resp.wf(),
    {
        match self {
            ResponderKind::CatchAllError(responder) => responder.respond(
                request,
                application,
                socket,
                overflow_bytes,
            ),
        }
    }
}

/// A responder that elects to handle every request, whatever its method,
/// path, protocol, peer, or overflow count.
pub open spec fn always_matches(k: ResponderKind) -> bool {
    forall|request: RequestView, overflow_bytes: u64| k.spec_matches(request, overflow_bytes)
}

/// Matching is pure: any two results that `matches` may return for the
/// same responder and the same arguments are equal, however many other
/// requests were dispatched in between.
pub proof fn lemma_matches_pure(
    k: ResponderKind,
    request: RequestView,
    overflow_bytes: u64,
    r1: bool,
    r2: bool,
)
    requires
        r1 == k.spec_matches(request, overflow_bytes),
        r2 == k.spec_matches(request, overflow_bytes),
    ensures
        r1 == r2,
{
}

} // verus!
