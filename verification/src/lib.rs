//! A verified responder-dispatch core for a minimal HTTP server.
//!
//! A parsed request, the peer's socket address, and a count of overflow
//! bytes are handed to a dispatch engine, which walks an ordered chain of
//! responders and invokes the first one whose predicate matches.  A chain
//! that ends with the unconditional catch-all responder is guaranteed to
//! produce a response for every request.

pub mod application;
pub mod config;
pub mod dispatch;
pub mod error;
pub mod request;
pub mod responder;
pub mod response;
pub mod scan;
pub mod socket;
