//! Userspace Yggdrasil node: proxying, port forwarding and the packet plumbing
//! between the overlay network and a userspace TCP/IP stack.
pub mod addr;
pub mod addr_laws;
pub mod bytes;
pub mod cli;
pub mod cli_laws;
pub mod config;
pub mod error;
pub mod forward;
pub mod http_head;
pub mod http_laws;
pub mod http_proxy;
pub mod http_proxy_laws;
pub mod json;
pub mod keyed;
pub mod keys;
pub mod mapping;
pub mod mapping_call_laws;
pub mod mapping_laws;
pub mod mobile;
pub mod netstack;
pub mod proxy;
pub mod proxy_laws;
pub mod quic_check;
pub mod quic_laws;
pub mod resolver;
pub mod resolver_laws;
pub mod socks;
pub mod socks_laws;
pub mod stats;
pub mod stats_laws;
pub mod text;
pub mod text_laws;
