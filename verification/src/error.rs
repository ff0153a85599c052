//! The catch-all error responder: the terminal entry of every dispatch
//! chain.  Its predicate is unconditionally true and its action never
//! fails, so a chain that ends with it resolves every request.

use crate::application::Application;
use crate::request::Request;
use crate::request::RequestView;
use crate::responder::ResponderFailure;
use crate::response::Response;
use crate::response::ResponseView;
use crate::socket::SocketAddress;
use vstd::prelude::*;
use vstd::string::StringExecFns;

verus! {

/// The response the catch-all produces: the request's protocol echoed
/// verbatim, a fixed internal-server-error status, no headers, no body.
pub open spec fn spec_error_response(request: RequestView) -> ResponseView {
    ResponseView {
        protocol: request.protocol.spec_text(),
        status: "500 Internal Server Error"@,
        headers: Seq::empty(),
        body: Seq::empty(),
    }
}

/// The catch-all error responder.  Stateless: it reads nothing but the
/// request's protocol version.
#[derive(Clone, Debug)]
pub struct Responder {}

impl Responder {
    pub fn new() -> (r: Responder)
        ensures
            r == (Responder {  }),
    {
        Responder {  }
    }

    /// Elects to handle every request, regardless of method, path,
    /// protocol version, peer, or overflow count.
    pub fn matches(
        &self,
        _request: &Request,
        _application: &Application,
        _socket: &SocketAddress,
        _overflow_bytes: u64,
    ) -> (r: bool)
        ensures
            r,
    {
        true
    }

    /// Builds the generic server-error response.  Never fails: this is
    /// the last line of defense against an unhandled dispatch failure.
    pub fn respond(
        &self,
        request: &Request,
        _application: &Application,
        _socket: &SocketAddress,
        _overflow_bytes: u64,
    ) -> (r: Result<Response, ResponderFailure>)
        ensures
            r matches Ok(resp) && resp@ == spec_error_response(request@),
            r matches Ok(resp) ==> resp.wf(),
    {
        let status_code = String::from_str("500 Internal Server Error");
        let protocol = request.protocol.text();
        let headers: Vec<(String, String)> = Vec::new();
        let response_body: Vec<u8> = Vec::new();
        proof {
            assert(headers.deep_view() =~= Seq::<(Seq<char>, Seq<char>)>::empty());
            assert(response_body@ =~= Seq::<u8>::empty());
        }
        let resp = Response::new(protocol, status_code, headers, response_body);
        Ok(resp)
    }
}

} // verus!
