//! The dispatch engine: walks the ordered responder chain and invokes the
//! first responder whose predicate matches.

use crate::application::Application;
use crate::request::Request;
use crate::request::RequestView;
use crate::responder::always_matches;
use crate::responder::respond_result_view;
use crate::responder::ResponderFailure;
use crate::responder::ResponderKind;
use crate::response::Response;
use crate::socket::SocketAddress;
use vstd::prelude::*;

verus! {

/// The position of the first responder in the chain that elects to handle
/// the request, if any.  First match wins; order is caller-defined.
pub open spec fn spec_first_match_index(
    chain: Seq<ResponderKind>,
    request: RequestView,
    overflow_bytes: u64,
) -> Option<int>
    decreases chain.len(),
{
    if chain.len() == 0 {
        None
    } else if chain[0].spec_matches(request, overflow_bytes) {
        Some(0)
    } else {
        match spec_first_match_index(chain.drop_first(), request, overflow_bytes) {
            Some(i) => Some(i + 1),
            None => None,
        }
    }
}

/// The first-match position is exactly the index whose responder matches
/// while all earlier ones decline.
proof fn lemma_first_match_index_at(
    chain: Seq<ResponderKind>,
    request: RequestView,
    overflow_bytes: u64,
    i: int,
)
    requires
        0 <= i < chain.len(),
        chain[i].spec_matches(request, overflow_bytes),
        forall|j: int| 0 <= j < i ==> !(#[trigger] chain[j]).spec_matches(request, overflow_bytes),
    ensures
        spec_first_match_index(chain, request, overflow_bytes) == Some(i),
    decreases i,
{
    if i == 0 {
    } else {
        let tail = chain.drop_first();
        assert(tail[i - 1] == chain[i]);
        assert(forall|j: int|
            0 <= j < i - 1 ==> (#[trigger] tail[j]) == chain[j + 1]);
        lemma_first_match_index_at(tail, request, overflow_bytes, i - 1);
        assert(!chain[0].spec_matches(request, overflow_bytes));
    }
}

/// When no responder in the chain matches, there is no first match.
proof fn lemma_first_match_index_none(
    chain: Seq<ResponderKind>,
    request: RequestView,
    overflow_bytes: u64,
)
    requires
        forall|j: int|
            0 <= j < chain.len() ==> !(#[trigger] chain[j]).spec_matches(request, overflow_bytes),
    ensures
        spec_first_match_index(chain, request, overflow_bytes) is None,
    decreases chain.len(),
{
    if chain.len() == 0 {
    } else {
        let tail = chain.drop_first();
        assert(forall|j: int|
            0 <= j < tail.len() ==> (#[trigger] tail[j]) == chain[j + 1]);
        lemma_first_match_index_none(tail, request, overflow_bytes);
    }
}

/// Against a chain whose last entry matches unconditionally, every request
/// finds a responder: dispatch can never report "no match".
pub proof fn lemma_valid_chain_always_dispatches(
    chain: Seq<ResponderKind>,
    request: RequestView,
    overflow_bytes: u64,
)
    requires
        chain.len() > 0,
        always_matches(chain.last()),
    ensures
        spec_first_match_index(chain, request, overflow_bytes) is Some,
    decreases chain.len(),
{
    if chain[0].spec_matches(request, overflow_bytes) {
    } else {
        let tail = chain.drop_first();
        assert(chain.last() == tail.last());
        lemma_valid_chain_always_dispatches(tail, request, overflow_bytes);
    }
}

/// Walks the chain in order and invokes the first responder whose
/// predicate matches; a failure of that responder is terminal, never
/// retried with a later entry.  `None` means no responder matched, which a
/// chain validated to end with the catch-all rules out.
pub fn dispatch(
    application: &Application,
    request: &Request,
    socket: &SocketAddress,
    overflow_bytes: u64,
) -> (r: Option<Result<Response, ResponderFailure>>)
    ensures
        match spec_first_match_index(application.responders@, request@, overflow_bytes) {
            Some(i) => {
                &&& r matches Some(out) && respond_result_view(out)
                    == application.responders@[i].spec_respond(request@)
                &&& r->Some_0 matches Ok(resp) ==> resp.wf()
            },
            None => r is None,
        },
        application.chain_valid() ==> r is Some,
{
    let ghost chain = application.responders@;
    let mut i: usize = 0;
    while i < application.responders.len()
        invariant
            i <= application.responders.len(),
            chain == application.responders@,
            forall|j: int|
                0 <= j < i ==> !(#[trigger] chain[j]).spec_matches(request@, overflow_bytes),
        decreases application.responders.len() - i,
    {
        let entry = &application.responders[i];
        if entry.matches(request, application, socket, overflow_bytes) {
            proof {
                lemma_first_match_index_at(chain, request@, overflow_bytes, i as int);
            }
            return Some(entry.respond(request, application, socket, overflow_bytes));
        }
        i = i + 1;
    }
    proof {
        lemma_first_match_index_none(chain, request@, overflow_bytes);
        if application.chain_valid() {
            assert(chain.last().spec_matches(request@, overflow_bytes));
        }
    }
    None
}

} // verus!
