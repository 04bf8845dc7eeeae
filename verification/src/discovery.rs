//! The discovery protocol: what is sent to announce a node, and what a
//! received message does to the membership table.

use crate::clock::utc_now_rfc3339;
use crate::net::{Endpoint, IpAddress};
use crate::registry::{NodeInfo, NodeRecord, NodeStatus, PeerRegistry};
use vstd::prelude::*;

verus! {

/// The multicast group that announcements go to: 239.255.42.1.
pub const MULTICAST_ADDR: u32 = 0xEFFF_2A01;

/// The UDP port of the discovery protocol.
pub const MULTICAST_PORT: u16 = 5678;

/// Seconds between two announcements.
pub const ANNOUNCE_INTERVAL_SECS: u64 = 30;

/// A sweep of the VPN subnets is started on every so many announcements.
pub const VPN_SCAN_INTERVAL: u32 = 10;

/// A message of the discovery protocol.
#[derive(Debug)]
pub enum DiscoveryMessage {
    /// A node advertises itself.
    Announce {
        node_id: String,
        hostname: String,
        addresses: Vec<IpAddress>,
        port: u16,
        timestamp: String,
        version: String,
        /// The ids of the nodes that the sender knows. Advisory only.
        known_peers: Vec<String>,
    },
    /// A node takes its leave.
    Goodbye { node_id: String, reason: String },
}

/// What became of a received message.
#[derive(Debug, Clone, Copy, PartialEq, Eq, Structural)]
pub enum Reception {
    /// An announcement of another node: its record was written.
    Discovered,
    /// An announcement of this very node: nothing was done.
    OwnAnnouncement,
    /// A leave-taking: the record of the node, if any, was deleted.
    Left,
}

/// The record that an announcement leaves in the table of its receiver.
pub open spec fn announced_record(
    node_id: Seq<char>,
    hostname: Seq<char>,
    addresses: Seq<IpAddress>,
    port: u16,
    timestamp: Seq<char>,
) -> NodeRecord {
    NodeRecord {
        id: node_id,
        hostname,
        addresses,
        port,
        status: NodeStatus::Online,
        last_seen: timestamp,
        discovered_via: "broadcast"@,
    }
}

/// The table after a message was received.
pub open spec fn table_after(
    table: Map<Seq<char>, NodeRecord>,
    local_node_id: Seq<char>,
    message: DiscoveryMessage,
) -> Map<Seq<char>, NodeRecord> {
    match message {
        DiscoveryMessage::Announce { node_id, hostname, addresses, port, timestamp, .. } => {
            if node_id@ == local_node_id {
                table
            } else {
                table.insert(
                    node_id@,
                    announced_record(node_id@, hostname@, addresses@, port, timestamp@),
                )
            }
        },
        DiscoveryMessage::Goodbye { node_id, .. } => table.remove(node_id@),
    }
}

/// What is reported of a received message.
pub open spec fn reception_of(local_node_id: Seq<char>, message: DiscoveryMessage) -> Reception {
    match message {
        DiscoveryMessage::Announce { node_id, .. } => {
            if node_id@ == local_node_id {
                Reception::OwnAnnouncement
            } else {
                Reception::Discovered
            }
        },
        DiscoveryMessage::Goodbye { .. } => Reception::Left,
    }
}

/// Receiving a message never brings the receiver's own id into its table.
pub proof fn lemma_own_id_stays_out(
    table: Map<Seq<char>, NodeRecord>,
    local_node_id: Seq<char>,
    message: DiscoveryMessage,
)
    requires
        !table.contains_key(local_node_id),
    ensures
        !table_after(table, local_node_id, message).contains_key(local_node_id),
{
}

/// An announcement of another node, and then its leave-taking, leave the
/// table without a record of that node, whatever the record's age.
pub proof fn lemma_goodbye_removes(
    table: Map<Seq<char>, NodeRecord>,
    local_node_id: Seq<char>,
    announce: DiscoveryMessage,
    goodbye: DiscoveryMessage,
)
    requires
        announce is Announce,
        goodbye is Goodbye,
        announce->Announce_node_id@ == goodbye->Goodbye_node_id@,
    ensures
        !table_after(
            table_after(table, local_node_id, announce),
            local_node_id,
            goodbye,
        ).contains_key(goodbye->Goodbye_node_id@),
{
}

/// The identity under which a node announces itself.
#[derive(Debug)]
pub struct DiscoveryService {
    node_id: String,
    hostname: String,
    port: u16,
}

impl DiscoveryService {
    /// The id that announcements carry.
    pub closed spec fn spec_node_id(&self) -> Seq<char> {
        self.node_id@
    }

    /// The host name that announcements carry.
    pub closed spec fn spec_hostname(&self) -> Seq<char> {
        self.hostname@
    }

    /// The API port that announcements carry.
    pub closed spec fn spec_port(&self) -> u16 {
        self.port
    }

    /// A service that announces the given identity.
    pub fn new(node_id: String, hostname: String, port: u16) -> (service: Self)
        ensures
            service.spec_node_id() == node_id@,
            service.spec_hostname() == hostname@,
            service.spec_port() == port,
    {
        DiscoveryService { node_id, hostname, port }
    }

    /// The announcement of this node, with the addresses it can be reached
    /// at, the peers it knows, the time and the build version.
    pub fn announcement(
        &self,
        addresses: Vec<IpAddress>,
        known_peers: Vec<String>,
        timestamp: String,
        version: String,
    ) -> (message: DiscoveryMessage)
        ensures
            message == (DiscoveryMessage::Announce {
                node_id: message->Announce_node_id,
                hostname: message->Announce_hostname,
                addresses,
                port: self.spec_port(),
                timestamp,
                version,
                known_peers,
            }),
            message->Announce_node_id@ == self.spec_node_id(),
            message->Announce_hostname@ == self.spec_hostname(),
    {
        DiscoveryMessage::Announce {
            node_id: self.node_id.clone(),
            hostname: self.hostname.clone(),
            addresses,
            port: self.port,
            timestamp,
            version,
            known_peers,
        }
    }

    /// The announcement of this node, stamped with the present time.
    pub fn announce(
        &self,
        addresses: Vec<IpAddress>,
        known_peers: Vec<String>,
        version: String,
    ) -> (message: DiscoveryMessage)
        ensures
            message == (DiscoveryMessage::Announce {
                node_id: message->Announce_node_id,
                hostname: message->Announce_hostname,
                addresses,
                port: self.spec_port(),
                timestamp: message->Announce_timestamp,
                version,
                known_peers,
            }),
            message->Announce_node_id@ == self.spec_node_id(),
            message->Announce_hostname@ == self.spec_hostname(),
    {
        self.announcement(addresses, known_peers, utc_now_rfc3339(), version)
    }

    /// Applies a received message to the table: an announcement of another
    /// node writes its record, a leave-taking deletes one, and an
    /// announcement of the receiver itself is passed over.
    pub fn receive(registry: &mut PeerRegistry, message: DiscoveryMessage) -> (reception: Reception)
        ensures
            final(registry)@ == table_after(
                old(registry)@,
                old(registry).spec_local_node_id(),
                message,
            ),
            final(registry).spec_local_node_id() == old(registry).spec_local_node_id(),
            reception == reception_of(old(registry).spec_local_node_id(), message),
    {
        match message {
            DiscoveryMessage::Announce { node_id, hostname, addresses, port, timestamp, .. } => {
                let own = registry.local_node_id().to_owned();
                if node_id == own {
                    Reception::OwnAnnouncement
                } else {
                    let node = NodeInfo {
                        id: node_id,
                        hostname,
                        addresses,
                        port,
                        status: NodeStatus::Online,
                        last_seen: timestamp,
                        discovered_via: "broadcast".to_owned(),
                    };
                    registry.add_node(node);
                    Reception::Discovered
                }
            },
            DiscoveryMessage::Goodbye { node_id, .. } => {
                registry.remove_node(node_id.as_str());
                Reception::Left
            },
        }
    }
}

/// The discovery endpoint of an address: the address itself, on the
/// discovery port.
pub open spec fn discovery_endpoint(ip: IpAddress) -> Endpoint {
    Endpoint { ip, port: MULTICAST_PORT }
}

/// The discovery endpoints of a list of addresses, in order.
pub open spec fn discovery_endpoints(ips: Seq<IpAddress>) -> Seq<Endpoint> {
    Seq::new(ips.len(), |i: int| discovery_endpoint(ips[i]))
}

/// Where one announcement goes: the multicast group first, then each
/// WireGuard peer, then each peer found by the latest sweep.
pub open spec fn announcement_destinations(
    wireguard_peers: Seq<IpAddress>,
    vpn_peers: Seq<IpAddress>,
) -> Seq<Endpoint> {
    seq![discovery_endpoint(IpAddress::V4(MULTICAST_ADDR))] + discovery_endpoints(wireguard_peers)
        + discovery_endpoints(vpn_peers)
}

/// The count of announcements since the latest sweep, after one more.
pub open spec fn counter_after(counter: u32) -> u32 {
    if counter + 1 >= VPN_SCAN_INTERVAL {
        0
    } else {
        (counter + 1) as u32
    }
}

/// The count of announcements since the latest sweep, after `cycles` more.
pub open spec fn counter_after_cycles(counter: u32, cycles: nat) -> u32
    decreases cycles,
{
    if cycles == 0 {
        counter
    } else {
        counter_after(counter_after_cycles(counter, (cycles - 1) as nat))
    }
}

/// From a fresh start a sweep falls due on every tenth announcement, and
/// on no other.
pub proof fn lemma_sweep_every_tenth(cycles: nat)
    ensures
        counter_after_cycles(0, cycles) == cycles % (VPN_SCAN_INTERVAL as nat),
        cycles > 0 ==> (counter_after_cycles(0, (cycles - 1) as nat) + 1 >= VPN_SCAN_INTERVAL
            <==> cycles % (VPN_SCAN_INTERVAL as nat) == 0),
    decreases cycles,
{
    if cycles > 0 {
        lemma_sweep_every_tenth((cycles - 1) as nat);
    }
}

/// What to do in one round of announcing.
#[derive(Debug)]
pub struct CyclePlan {
    /// Where to send the announcement, in this order.
    pub destinations: Vec<Endpoint>,
    /// Whether to start a sweep of the VPN subnets in the background.
    pub start_scan: bool,
}

/// What the announcer keeps between rounds.
#[derive(Debug)]
pub struct Announcer {
    vpn_scan_counter: u32,
    vpn_peer_cache: Vec<IpAddress>,
}

impl Announcer {
    /// The count stays below the interval at which it is reset.
    #[verifier::type_invariant]
    spec fn counter_in_range(&self) -> bool {
        self.vpn_scan_counter < VPN_SCAN_INTERVAL
    }

    /// The number of announcements since the latest sweep was started.
    pub closed spec fn spec_counter(&self) -> u32 {
        self.vpn_scan_counter
    }

    /// The peers that the latest finished sweep found.
    pub closed spec fn spec_vpn_peers(&self) -> Seq<IpAddress> {
        self.vpn_peer_cache@
    }

    /// An announcer that has announced nothing and knows no VPN peers.
    pub fn new() -> (announcer: Self)
        ensures
            announcer.spec_counter() == 0,
            announcer.spec_vpn_peers() == Seq::<IpAddress>::empty(),
    {
        Announcer { vpn_scan_counter: 0, vpn_peer_cache: Vec::new() }
    }

    /// Plans one round: the destinations of the announcement, and whether a
    /// sweep falls due.
    pub fn plan_cycle(&mut self, wireguard_peers: &Vec<IpAddress>) -> (plan: CyclePlan)
        ensures
            plan.destinations@ == announcement_destinations(
                wireguard_peers@,
                old(self).spec_vpn_peers(),
            ),
            plan.start_scan == (old(self).spec_counter() + 1 >= VPN_SCAN_INTERVAL),
            final(self).spec_counter() == counter_after(old(self).spec_counter()),
            final(self).spec_vpn_peers() == old(self).spec_vpn_peers(),
    {
        proof {
            use_type_invariant(&*self);
        }
        let mut destinations: Vec<Endpoint> = Vec::new();
        destinations.push(Endpoint { ip: IpAddress::V4(MULTICAST_ADDR), port: MULTICAST_PORT });
        push_discovery_endpoints(&mut destinations, wireguard_peers);
        let start_scan = self.vpn_scan_counter + 1 >= VPN_SCAN_INTERVAL;
        if start_scan {
            self.vpn_scan_counter = 0;
        } else {
            self.vpn_scan_counter = self.vpn_scan_counter + 1;
        }
        push_discovery_endpoints(&mut destinations, &self.vpn_peer_cache);
        CyclePlan { destinations, start_scan }
    }

    /// Takes in what a finished sweep found.
    pub fn store_scan_result(&mut self, peers: Vec<IpAddress>)
        ensures
            final(self).spec_vpn_peers() == peers@,
            final(self).spec_counter() == old(self).spec_counter(),
    {
        proof {
            use_type_invariant(&*self);
        }
        self.vpn_peer_cache = peers;
    }
}

/// Appends the discovery endpoint of each address.
fn push_discovery_endpoints(destinations: &mut Vec<Endpoint>, ips: &Vec<IpAddress>)
    ensures
        final(destinations)@ == old(destinations)@ + discovery_endpoints(ips@),
{
    let mut index: usize = 0;
    assert(destinations@ =~= old(destinations)@ + discovery_endpoints(ips@.take(0)));
    while index < ips.len()
        invariant
            index <= ips.len(),
            destinations@ == old(destinations)@ + discovery_endpoints(ips@.take(index as int)),
        decreases ips.len() - index,
    {
        destinations.push(Endpoint { ip: ips[index], port: MULTICAST_PORT });
        assert(discovery_endpoints(ips@.take(index + 1)) =~= discovery_endpoints(
            ips@.take(index as int),
        ).push(discovery_endpoint(ips@[index as int])));
        index = index + 1;
    }
    assert(ips@.take(ips.len() as int) =~= ips@);
}

/// The addresses to announce: those found, or the loopback address if none
/// was found.
pub fn addresses_or_loopback(found: Vec<IpAddress>) -> (addresses: Vec<IpAddress>)
    ensures
        addresses@ == if found@.len() == 0 {
            seq![IpAddress::V4(0x7F00_0001)]
        } else {
            found@
        },
{
    if found.len() == 0 {
        let mut addresses: Vec<IpAddress> = Vec::new();
        addresses.push(IpAddress::V4(0x7F00_0001));
        assert(addresses@ =~= seq![IpAddress::V4(0x7F00_0001)]);
        addresses
    } else {
        found
    }
}

/// The ids of the given nodes, in order.
pub fn known_peer_ids(nodes: &Vec<NodeInfo>) -> (ids: Vec<String>)
    ensures
        ids@.len() == nodes@.len(),
        forall|i: int| 0 <= i < nodes@.len() ==> (#[trigger] ids@[i])@ == nodes@[i].id@,
{
    let mut ids: Vec<String> = Vec::new();
    let mut index: usize = 0;
    while index < nodes.len()
        invariant
            index <= nodes.len(),
            ids@.len() == index,
            forall|i: int| 0 <= i < index ==> (#[trigger] ids@[i])@ == nodes@[i].id@,
        decreases nodes.len() - index,
    {
        ids.push(nodes[index].id.clone());
        index = index + 1;
    }
    ids
}

} // verus!
