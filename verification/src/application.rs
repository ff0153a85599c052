//! The process-wide application context: the configuration and the ordered
//! responder chain, constructed once at startup and shared read-only by
//! every connection handler.

use crate::config::Config;
use crate::request::RequestView;
use crate::responder::always_matches;
use crate::responder::ResponderKind;
use vstd::prelude::*;

verus! {

/// The shared application context.  One instance per server process; the
/// dispatch engine holds no other state.
#[derive(Clone, Debug)]
pub struct Application {
    pub config: Config,
    pub responders: Vec<ResponderKind>,
}

impl Application {
    pub fn new(config: Config, responders: Vec<ResponderKind>) -> (a: Application)
        ensures
            a == (Application { config, responders }),
    {
        Application { config, responders }
    }

    /// The startup invariant on the chain: it is nonempty and its last
    /// entry matches unconditionally, so dispatch can never fall off the
    /// end.
    pub open spec fn chain_valid(self) -> bool {
        self.responders@.len() > 0 && always_matches(self.responders@.last())
    }

    /// Checks the startup invariant.  To be run once, before the first
    /// request is dispatched.
    pub fn validate_chain(&self) -> (b: bool)
        ensures
            b == self.chain_valid(),
    {
        if self.responders.len() == 0 {
            false
        } else {
            let last = &self.responders[self.responders.len() - 1];
            match last {
                ResponderKind::CatchAllError(_) => {
                    proof {
                        assert forall|request: RequestView, overflow_bytes: u64|
                            self.responders@.last().spec_matches(request, overflow_bytes) by {
                            assert(self.responders@.last() == *last);
                        }
                    }
                    true
                },
            }
        }
    }
}

} // verus!
