//! The example servers' command-line values.

use vstd::prelude::*;

use crate::server::Protocol;
use crate::server::Server;

verus! {

/// Which example server to start.
#[derive(Clone, Copy, PartialEq, Eq, Structural, Debug)]
pub enum ServerType {
    Tcp,
    Udp,
    Http,
}

/// The command-line values an example server is started from.
pub struct CliArgs {
    /// The type of server to start.
    pub server_type: ServerType,
    /// The port to listen on.
    pub port: u16,
}

/// The protocol an example server of this type speaks.
pub fn protocol_for(server_type: ServerType) -> (p: Protocol)
    ensures
        server_type == ServerType::Tcp ==> p == Protocol::Tcp,
        server_type == ServerType::Udp ==> p == Protocol::Udp,
        server_type == ServerType::Http ==> p == Protocol::Http,
{
    match server_type {
        ServerType::Tcp => Protocol::Tcp,
        ServerType::Udp => Protocol::Udp,
        ServerType::Http => Protocol::Http,
    }
}

/// The whole startup decision of an example server: the server the
/// command-line values describe.
pub fn build_server(args: &CliArgs) -> (r: Server)
    ensures
        args.server_type == ServerType::Tcp ==> r.protocol == Protocol::Tcp,
        args.server_type == ServerType::Udp ==> r.protocol == Protocol::Udp,
        args.server_type == ServerType::Http ==> r.protocol == Protocol::Http,
        r.address@ == crate::addr::loopback_listen_chars(args.port),
{
    Server::new(protocol_for(args.server_type), args.port)
}

} // verus!
