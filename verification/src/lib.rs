//! Peer discovery, membership and liveness for a mesh of hosts that reach one
//! another over plain LAN, WireGuard tunnels and other VPN overlays.
//!
//! This crate decides, parses and keeps state. The sockets, subprocesses,
//! timers and probes live with the caller, which hands their results in as
//! plain values. Of the outside world the crate itself asks only the time,
//! a random node id and the name of the host.

pub mod api;
pub mod bandwidth;
pub mod clock;
pub mod config;
pub mod discovery;
pub mod error;
pub mod gossip;
pub mod latency;
pub mod net;
pub mod ping;
pub mod registry;
pub mod routes;
pub mod text;
pub mod traceroute;
pub mod vpn_scan;
pub mod wireguard;
