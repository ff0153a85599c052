//! Peer socket addresses, held as plain numeric components.
//!
//! The dispatch core never interprets the peer's address; it only passes it
//! through to the responders, which may use it for policy decisions.

use vstd::prelude::*;

verus! {

/// An IP address: either four IPv4 octets or eight IPv6 segments.
#[derive(Clone, Copy, Debug)]
pub enum IpAddress {
    V4 { octets: [u8; 4] },
    V6 { segments: [u16; 8] },
}

/// The address of the peer that sent a request.
#[derive(Clone, Copy, Debug)]
pub struct SocketAddress {
    pub ip: IpAddress,
    pub port: u16,
}

impl SocketAddress {
    pub fn new(ip: IpAddress, port: u16) -> (s: SocketAddress)
        ensures
            s == (SocketAddress { ip, port }),
    {
        SocketAddress { ip, port }
    }
}

} // verus!
