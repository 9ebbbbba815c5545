//! The proxy instances. A proxy owns its listen-address text and the
//! balancer chosen at startup; the methods here are the decisions its
//! serving loop takes per event. The loop itself — binding, accepting,
//! dialling and relaying bytes — is socket work and stays outside the
//! library, which hands it one backend address per event.

use vstd::prelude::*;

use crate::addr::BackendAddress;
use crate::addr::loopback_listen_chars;
use crate::addr::loopback_listen_address;
use crate::load_balancer::Balancer;
use crate::load_balancer::UpdateOutcome;
use crate::load_balancer::select_rel;
use crate::load_balancer::release_rel;

verus! {

/// The stream proxy: per accepted inbound connection it names the
/// backend that will serve the session, and releases that backend when
/// the session's relay ends, however it ends.
pub struct TcpProxy {
    pub address: String,
    pub load_balancer: Balancer,
}

impl TcpProxy {
    /// The proxy's balancer is well formed.
    pub open spec fn wf(&self) -> bool {
        self.load_balancer.wf()
    }

    /// A TCP proxy that listens on the loopback address with this port
    /// and distributes sessions with this balancer.
    pub fn new(port: u16, load_balancer: Balancer) -> (r: Self)
        requires
            load_balancer.wf(),
        ensures
            r.wf(),
            r.address@ == loopback_listen_chars(port),
            r.load_balancer == load_balancer,
    {
        TcpProxy { address: loopback_listen_address(port), load_balancer }
    }

    /// The listen address text, `127.0.0.1:<port>`.
    pub fn address(&self) -> (a: &String)
        ensures
            a == &self.address,
    {
        &self.address
    }

    /// The decision for one accepted inbound connection: the backend
    /// that will serve this session.
    pub fn select_backend(&mut self) -> (r: BackendAddress)
        requires
            old(self).wf(),
        ensures
            final(self).wf(),
            final(self).address == old(self).address,
            select_rel(old(self).load_balancer, final(self).load_balancer, r),
    {
        self.load_balancer.get_next_server()
    }

    /// The book-keeping when a session ends, however it ends: its
    /// backend is handed back to the balancer.
    pub fn release_backend(&mut self, server: BackendAddress) -> (r: UpdateOutcome)
        ensures
            final(self).wf() == old(self).wf(),
            final(self).address == old(self).address,
            release_rel(old(self).load_balancer, final(self).load_balancer, server, r),
    {
        self.load_balancer.update_server(server)
    }
}

/// The datagram proxy: one shared socket, one datagram in flight at a
/// time. Every inbound datagram is assigned a backend on its own; there
/// is no client-to-backend affinity, and connectionless traffic is
/// never released.
pub struct UdpProxy {
    pub address: String,
    pub load_balancer: Balancer,
}

impl UdpProxy {
    /// The proxy's balancer is well formed.
    pub open spec fn wf(&self) -> bool {
        self.load_balancer.wf()
    }

    /// A UDP proxy that listens on the loopback address with this port
    /// and distributes datagrams with this balancer.
    pub fn new(port: u16, load_balancer: Balancer) -> (r: Self)
        requires
            load_balancer.wf(),
        ensures
            r.wf(),
            r.address@ == loopback_listen_chars(port),
            r.load_balancer == load_balancer,
    {
        UdpProxy { address: loopback_listen_address(port), load_balancer }
    }

    /// The listen address text, `127.0.0.1:<port>`.
    pub fn address(&self) -> (a: &String)
        ensures
            a == &self.address,
    {
        &self.address
    }

    /// The decision for one inbound datagram: the backend it is
    /// forwarded to.
    pub fn choose_backend(&mut self) -> (r: BackendAddress)
        requires
            old(self).wf(),
        ensures
            final(self).wf(),
            final(self).address == old(self).address,
            select_rel(old(self).load_balancer, final(self).load_balancer, r),
    {
        self.load_balancer.get_next_server()
    }
}

} // verus!
