//! The standalone example servers' configuration: which protocol a
//! server speaks and where it listens. The serving loops themselves are
//! socket work and live outside the library.

use vstd::prelude::*;

use crate::addr::loopback_listen_chars;
use crate::addr::loopback_listen_address;

verus! {

/// The protocol an example server speaks.
#[derive(Clone, Copy, PartialEq, Eq, Structural, Debug)]
pub enum Protocol {
    Tcp,
    Udp,
    Http,
}

/// An example server: a protocol and the loopback address it binds.
pub struct Server {
    pub protocol: Protocol,
    pub address: String,
}

impl Server {
    /// A server for this protocol, listening on the loopback address
    /// with this port.
    pub fn new(protocol: Protocol, port: u16) -> (r: Self)
        ensures
            r.protocol == protocol,
            r.address@ == loopback_listen_chars(port),
    {
        Server { protocol, address: loopback_listen_address(port) }
    }

    /// The listen address text, `127.0.0.1:<port>`.
    pub fn address(&self) -> (a: &String)
        ensures
            a == &self.address,
    {
        &self.address
    }
}

} // verus!
