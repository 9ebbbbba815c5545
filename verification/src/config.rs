//! Startup configuration: the parsed command-line values, their
//! validation, and the construction of the proxy that will serve. Every
//! rejected configuration is named exactly, so the caller can abort
//! before any socket is opened.

use vstd::prelude::*;

use crate::addr::loopback_listen_chars;
use crate::addr::parse_addr_spec;
use crate::load_balancer::Balancer;
use crate::load_balancer::LeastConnectionLoadBalancer;
use crate::load_balancer::RoundRobinLoadBalancer;
use crate::load_balancer::counts_of;
use crate::registry::BackendPool;
use crate::registry::RegistryError;
use crate::reverse_proxy::TcpProxy;
use crate::reverse_proxy::UdpProxy;

verus! {

/// The transport the proxy serves.
#[derive(Clone, Copy, PartialEq, Eq, Structural, Debug)]
pub enum ProxyType {
    Udp,
    Tcp,
}

/// The balancing strategy the proxy distributes with.
#[derive(Clone, Copy, PartialEq, Eq, Structural, Debug)]
pub enum LoadBalancerType {
    RoundRobin,
    LeastConnection,
}

/// The command-line values the proxy is started from.
pub struct CliArgs {
    /// The port to listen on.
    pub port: u16,
    /// The backend servers, each as `<host>:<port>` text.
    pub servers: Vec<String>,
    /// The transport to serve.
    pub proxy_type: ProxyType,
    /// The balancing strategy to distribute with.
    pub load_balancer_type: LoadBalancerType,
}

/// Why a configuration was rejected before serving.
#[derive(Clone, Copy, PartialEq, Eq, Structural, Debug)]
pub enum ConfigError {
    /// The server list was empty; at least one backend is mandatory.
    NoServers,
    /// Least-connections over UDP: connectionless traffic has no
    /// connection lifecycle to count.
    InvalidCombination,
    /// The server entry at this index does not parse as `<host>:<port>`.
    InvalidServerAddress { index: usize },
}

/// The proxy built from a valid configuration: a closed choice of
/// transports, made once at startup.
pub enum ProxyInstance {
    Tcp(TcpProxy),
    Udp(UdpProxy),
}

/// The pool is exactly the parse of the textual server list, in order.
pub open spec fn pool_parses(servers: Seq<String>, pool: Seq<crate::addr::BackendAddress>) -> bool {
    pool.len() == servers.len() && forall|i: int|
        0 <= i < servers.len() ==> parse_addr_spec(#[trigger] servers[i]@) == Some(pool[i])
}

/// A balancer as it leaves startup: the variant the configuration
/// asked for, with a cursor at the start or with every count zero.
pub open spec fn balancer_fresh(b: Balancer, strategy: LoadBalancerType) -> bool {
    match b {
        Balancer::RoundRobin(rr) => strategy == LoadBalancerType::RoundRobin && rr.next_index == 0,
        Balancer::LeastConnection(lc) => strategy == LoadBalancerType::LeastConnection && forall|
            i: int,
        | 0 <= i < lc.servers@.len() ==> #[trigger] counts_of(lc.servers@)[i] == 0,
    }
}

/// The whole startup decision: reject an empty server list, then the
/// invalid strategy/transport combination, then the first unparsable
/// server entry; otherwise build the proxy the configuration asks for,
/// listening on loopback at the configured port, with a fresh balancer
/// over the parsed pool.
pub fn build_proxy(args: &CliArgs) -> (r: Result<ProxyInstance, ConfigError>)
    ensures
        match r {
            Err(ConfigError::NoServers) => args.servers@.len() == 0,
            Err(ConfigError::InvalidCombination) => args.servers@.len() > 0 && args.proxy_type
                == ProxyType::Udp && args.load_balancer_type == LoadBalancerType::LeastConnection,
            Err(ConfigError::InvalidServerAddress { index }) => args.servers@.len() > 0 && !(
            args.proxy_type == ProxyType::Udp && args.load_balancer_type
                == LoadBalancerType::LeastConnection) && index < args.servers@.len()
                && parse_addr_spec(args.servers@[index as int]@) is None && forall|i: int|
                0 <= i < index ==> parse_addr_spec(#[trigger] args.servers@[i]@) is Some,
            Ok(p) => args.servers@.len() > 0 && !(args.proxy_type == ProxyType::Udp
                && args.load_balancer_type == LoadBalancerType::LeastConnection) && match p {
                ProxyInstance::Tcp(t) => args.proxy_type == ProxyType::Tcp && t.wf() && t.address@
                    == loopback_listen_chars(args.port) && balancer_fresh(
                    t.load_balancer,
                    args.load_balancer_type,
                ) && pool_parses(args.servers@, t.load_balancer.addrs()),
                ProxyInstance::Udp(u) => args.proxy_type == ProxyType::Udp && u.wf() && u.address@
                    == loopback_listen_chars(args.port) && balancer_fresh(
                    u.load_balancer,
                    args.load_balancer_type,
                ) && pool_parses(args.servers@, u.load_balancer.addrs()),
            },
        },
{
    if args.servers.len() == 0 {
        return Err(ConfigError::NoServers);
    }
    let is_udp = match args.proxy_type {
        ProxyType::Udp => true,
        ProxyType::Tcp => false,
    };
    let is_least = match args.load_balancer_type {
        LoadBalancerType::RoundRobin => false,
        LoadBalancerType::LeastConnection => true,
    };
    if is_udp && is_least {
        return Err(ConfigError::InvalidCombination);
    }
    let pool = match BackendPool::parse(&args.servers) {
        Ok(pool) => pool,
        Err(RegistryError::EmptyServerList) => {
            return Err(ConfigError::NoServers);
        },
        Err(RegistryError::InvalidAddress { index }) => {
            return Err(ConfigError::InvalidServerAddress { index });
        },
    };
    let balancer = if is_least {
        Balancer::LeastConnection(LeastConnectionLoadBalancer::new(pool))
    } else {
        Balancer::RoundRobin(RoundRobinLoadBalancer::new(pool))
    };
    if is_udp {
        Ok(ProxyInstance::Udp(UdpProxy::new(args.port, balancer)))
    } else {
        Ok(ProxyInstance::Tcp(TcpProxy::new(args.port, balancer)))
    }
}

} // verus!
