//! A verified reverse-proxy core: a backend registry, round-robin and
//! least-connections load balancing, and the per-event decisions of the
//! TCP and UDP proxy loops. Socket work lives outside this library; the
//! library hands it plain values and takes plain values back.

pub mod addr;
pub mod config;
pub mod load_balancer;
pub mod numeral;
pub mod registry;
pub mod reverse_proxy;
pub mod server;
pub mod server_config;
