//! What goes over the HTTP and WebSocket interface.

use crate::bandwidth::BANDWIDTH_TEST_PORT;
use crate::net::Endpoint;
use crate::registry::NodeInfo;
use crate::routes::Route;
use vstd::prelude::*;

verus! {

/// A request to look up the route to a destination.
#[derive(Debug)]
pub struct TraceRouteRequest {
    pub destination: String,
}

/// The answer to a route lookup.
#[derive(Debug)]
pub struct TraceRouteResponse {
    pub destination: String,
    pub resolved_ip: String,
    pub matched_route: Option<Route>,
}

/// How far a bandwidth test has come.
#[derive(Debug)]
pub struct BandwidthTestProgress {
    pub test_id: String,
    pub progress_percent: u8,
    /// `upload`, `download` or `complete`.
    pub current_phase: String,
    pub bytes_transferred: u64,
}

/// What is answered when a request fails.
#[derive(Debug)]
pub struct ErrorResponse {
    pub error: String,
    pub message: String,
}

/// A request to trace the path to a destination.
#[derive(Debug)]
pub struct TracerouteRequest {
    pub destination: String,
}

/// A message from a client.
#[derive(Debug)]
pub enum ClientMessage {
    TraceRoute { request_id: String, destination: String },
    Subscribe { topics: Vec<String> },
    GetRemoteRoutingTable { request_id: String, node_id: String },
    StartBandwidthTest { test_id: String, node_id: String },
}

/// A measured link between two nodes.
#[derive(Debug)]
pub struct Connection {
    pub from: String,
    pub to: String,
    pub latency_ms: u32,
    pub timestamp: String,
}

/// Where the bandwidth test of a node is to be reached: its primary
/// address, on the port of the bandwidth test; nowhere if the node has no
/// address.
pub fn bandwidth_target(node: &NodeInfo) -> (target: Option<Endpoint>)
    ensures
        target == if node.addresses@.len() > 0 {
            Some(Endpoint { ip: node.addresses@[0], port: BANDWIDTH_TEST_PORT })
        } else {
            None
        },
{
    if node.addresses.len() > 0 {
        Some(Endpoint { ip: node.addresses[0], port: BANDWIDTH_TEST_PORT })
    } else {
        None
    }
}

} // verus!
