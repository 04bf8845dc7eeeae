//! Liveness probing: whom to probe, and what a finished probe leaves
//! behind.

use crate::api::Connection;
use crate::clock::utc_now_rfc3339;
use crate::latency::{window_after, LatencyData, LatencyHistory};
use crate::net::IpAddress;
use crate::registry::{records_of, NodeInfo, NodeRecord};
use vstd::prelude::*;

verus! {

/// Seconds between two rounds of probes.
pub const PING_INTERVAL_SECS: u64 = 60;

/// Seconds after which a probe counts as unanswered.
pub const PING_TIMEOUT_SECS: u64 = 5;

/// A node to probe, and the address to probe it at.
#[derive(Debug)]
pub struct ProbeTarget {
    pub node_id: String,
    pub address: IpAddress,
}

/// A probe target as a value.
pub open spec fn target_of(target: ProbeTarget) -> (Seq<char>, IpAddress) {
    (target.node_id@, target.address)
}

/// The probe targets as values, in order.
pub open spec fn targets_of(targets: Seq<ProbeTarget>) -> Seq<(Seq<char>, IpAddress)> {
    Seq::new(targets.len(), |i: int| target_of(targets[i]))
}

/// Whom to probe among the given nodes: every node but the local one that
/// has an address, at its primary address.
pub open spec fn spec_probe_targets(nodes: Seq<NodeRecord>, local_node_id: Seq<char>) -> Seq<
    (Seq<char>, IpAddress),
>
    decreases nodes.len(),
{
    if nodes.len() == 0 {
        Seq::empty()
    } else {
        let node = nodes.last();
        let before = spec_probe_targets(nodes.drop_last(), local_node_id);
        if node.id != local_node_id && node.addresses.len() > 0 {
            before.push((node.id, node.addresses[0]))
        } else {
            before
        }
    }
}

/// Whom to probe among the given nodes.
pub fn probe_targets(nodes: &Vec<NodeInfo>, local_node_id: &str) -> (targets: Vec<ProbeTarget>)
    ensures
        targets_of(targets@) == spec_probe_targets(records_of(nodes@), local_node_id@),
{
    let ghost records = records_of(nodes@);
    let own = local_node_id.to_owned();
    let mut targets: Vec<ProbeTarget> = Vec::new();
    let mut index: usize = 0;
    proof {
        assert(records.take(0) =~= Seq::<NodeRecord>::empty());
        assert(targets_of(targets@) =~= Seq::<(Seq<char>, IpAddress)>::empty());
    }
    while index < nodes.len()
        invariant
            index <= nodes.len(),
            own@ == local_node_id@,
            records == records_of(nodes@),
            targets_of(targets@) == spec_probe_targets(records.take(index as int), local_node_id@),
        decreases nodes.len() - index,
    {
        let node = &nodes[index];
        proof {
            assert(records.take(index + 1).drop_last() =~= records.take(index as int));
            assert(records.take(index + 1).last() == node@);
        }
        if node.id != own && node.addresses.len() > 0 {
            let ghost before = targets_of(targets@);
            targets.push(ProbeTarget { node_id: node.id.clone(), address: node.addresses[0] });
            assert(targets_of(targets@) =~= before.push((node.id@, node.addresses@[0])));
        }
        index = index + 1;
    }
    assert(records.take(records.len() as int) =~= records);
    targets
}

/// The outcome of a probe that has just ended: the sample for its target,
/// stamped with the present time.
pub fn probe_outcome(target: ProbeTarget, latency_micros: Option<u64>) -> (data: LatencyData)
    ensures
        data.node_id == target.node_id,
        data.address == target.address,
        data.latency_micros == latency_micros,
{
    LatencyData {
        node_id: target.node_id,
        address: target.address,
        latency_micros,
        timestamp: utc_now_rfc3339(),
    }
}

/// A latency in whole milliseconds: microseconds rounded to the nearest
/// thousand, halves upwards, and no more than the result can hold.
pub open spec fn rounded_millis(latency_micros: u64) -> u32 {
    let millis = (latency_micros + 500) / 1000;
    if millis > 0xFFFF_FFFF {
        0xFFFF_FFFFu32
    } else {
        millis as u32
    }
}

/// A latency in whole milliseconds.
pub fn to_millis(latency_micros: u64) -> (millis: u32)
    ensures
        millis == rounded_millis(latency_micros),
{
    let millis: u128 = (latency_micros as u128 + 500) / 1000;
    if millis > 0xFFFF_FFFF {
        0xFFFF_FFFF
    } else {
        millis as u32
    }
}

/// How many histories stand before the first one of the given node; the
/// number of histories if the node has none.
pub open spec fn history_index(histories: Seq<LatencyHistory>, node_id: Seq<char>) -> int
    decreases histories.len(),
{
    if histories.len() == 0 || histories[0].node_id@ == node_id {
        0
    } else {
        1 + history_index(histories.skip(1), node_id)
    }
}

/// The samples held for a node; none if it has no history.
pub open spec fn window_of(histories: Seq<LatencyHistory>, node_id: Seq<char>) -> Seq<LatencyData> {
    let index = history_index(histories, node_id);
    if 0 <= index < histories.len() {
        histories[index].samples@
    } else {
        Seq::empty()
    }
}

/// The first history of a node stands where no history before it is of
/// that node.
pub proof fn lemma_history_index(histories: Seq<LatencyHistory>, node_id: Seq<char>)
    ensures
        0 <= history_index(histories, node_id) <= histories.len(),
        forall|i: int|
            0 <= i < history_index(histories, node_id) ==> (#[trigger] histories[i]).node_id@
                != node_id,
        history_index(histories, node_id) < histories.len() ==> histories[history_index(
            histories,
            node_id,
        )].node_id@ == node_id,
    decreases histories.len(),
{
    if !(histories.len() == 0 || histories[0].node_id@ == node_id) {
        let rest = histories.skip(1);
        lemma_history_index(rest, node_id);
        assert forall|i: int| 0 <= i < history_index(histories, node_id) implies (
        #[trigger] histories[i]).node_id@ != node_id by {
            if i > 0 {
                assert(histories[i] == rest[i - 1]);
            }
        }
        if history_index(histories, node_id) < histories.len() {
            assert(histories[history_index(histories, node_id)] == rest[history_index(
                rest,
                node_id,
            )]);
        }
    }
}

/// A place with no history of the node before it, which holds one or is
/// the end, is where the first history of the node stands.
pub proof fn lemma_history_index_is(
    histories: Seq<LatencyHistory>,
    node_id: Seq<char>,
    index: int,
)
    requires
        0 <= index <= histories.len(),
        forall|i: int| 0 <= i < index ==> (#[trigger] histories[i]).node_id@ != node_id,
        index < histories.len() ==> histories[index].node_id@ == node_id,
    ensures
        history_index(histories, node_id) == index,
    decreases index,
{
    if index > 0 {
        let rest = histories.skip(1);
        assert(histories[0].node_id@ != node_id);
        assert forall|i: int| 0 <= i < index - 1 implies (#[trigger] rest[i]).node_id@
            != node_id by {
            assert(rest[i] == histories[i + 1]);
        }
        if index - 1 < rest.len() {
            assert(rest[index - 1] == histories[index]);
        }
        lemma_history_index_is(rest, node_id, index - 1);
    }
}

/// Whether no two histories are of one node.
pub open spec fn distinct_nodes(histories: Seq<LatencyHistory>) -> bool {
    forall|i: int, j: int|
        0 <= i < j < histories.len() ==> histories[i].node_id@ != histories[j].node_id@
}

/// Whether the figures of every history are those of its samples.
pub open spec fn all_current(histories: Seq<LatencyHistory>) -> bool {
    forall|i: int| 0 <= i < histories.len() ==> (#[trigger] histories[i]).figures_current()
}

/// The latency histories of all probed peers: one for each node, with
/// figures that are kept up to date with its samples.
#[derive(Debug)]
pub struct PingService {
    histories: Vec<LatencyHistory>,
}

impl PingService {
    /// Each node has one history, and the figures of each history are those
    /// of its samples.
    #[verifier::type_invariant]
    spec fn histories_sound(&self) -> bool {
        distinct_nodes(self.histories@) && all_current(self.histories@)
    }

    /// Takes the histories out of the service, which is left without any.
    fn take_histories(&mut self) -> (histories: Vec<LatencyHistory>)
        ensures
            histories == old(self).histories,
            final(self).histories@ == Seq::<LatencyHistory>::empty(),
    {
        let mut histories: Vec<LatencyHistory> = Vec::new();
        core::mem::swap(&mut self.histories, &mut histories);
        histories
    }

    /// The samples held for a node, oldest first; none if the node was
    /// never probed.
    pub closed spec fn spec_window(&self, node_id: Seq<char>) -> Seq<LatencyData> {
        window_of(self.histories@, node_id)
    }

    /// A service that has probed nobody.
    pub fn new() -> (service: Self)
        ensures
            forall|node_id: Seq<char>|
                #[trigger] service.spec_window(node_id) == Seq::<LatencyData>::empty(),
    {
        PingService { histories: Vec::new() }
    }

    /// Where the history of the node stands.
    fn position(&self, node_id: &String) -> (index: usize)
        ensures
            index == history_index(self.histories@, node_id@),
            index <= self.histories.len(),
    {
        let mut index: usize = 0;
        while index < self.histories.len() && self.histories[index].node_id != *node_id
            invariant
                index <= self.histories.len(),
                forall|i: int| 0 <= i < index ==> (#[trigger] self.histories@[i]).node_id@
                    != node_id@,
            decreases self.histories.len() - index,
        {
            index = index + 1;
        }
        proof {
            lemma_history_index_is(self.histories@, node_id@, index as int);
        }
        index
    }

    /// The history of a node, if it was ever probed.
    pub fn history(&self, node_id: &str) -> (history: Option<&LatencyHistory>)
        ensures
            match history {
                Some(found) => found.node_id@ == node_id@ && found.samples@ == self.spec_window(
                    node_id@,
                ) && found.figures_current(),
                None => self.spec_window(node_id@) == Seq::<LatencyData>::empty(),
            },
    {
        let wanted = node_id.to_owned();
        let index = self.position(&wanted);
        proof {
            use_type_invariant(self);
            lemma_history_index(self.histories@, node_id@);
        }
        if index < self.histories.len() {
            Some(&self.histories[index])
        } else {
            None
        }
    }

    /// Takes in the outcome of one probe: the sample joins the window of
    /// its node, and the windows of all other nodes stay as they are. An
    /// answered probe is reported as a measured link from the local node.
    pub fn record_probe(&mut self, data: LatencyData) -> (event: Option<Connection>)
        ensures
            final(self).spec_window(data.node_id@) == window_after(
                old(self).spec_window(data.node_id@),
                data,
            ),
            forall|other: Seq<char>|
                other != data.node_id@ ==> #[trigger] final(self).spec_window(other) == old(
                    self,
                ).spec_window(other),
            match data.latency_micros {
                Some(latency) => event is Some && event->0.from@ == "local"@ && event->0.to@
                    == data.node_id@ && event->0.latency_ms == rounded_millis(latency)
                    && event->0.timestamp@ == data.timestamp@,
                None => event is None,
            },
    {
        let event = match data.latency_micros {
            Some(latency) => Some(
                Connection {
                    from: "local".to_owned(),
                    to: data.node_id.clone(),
                    latency_ms: to_millis(latency),
                    timestamp: data.timestamp.clone(),
                },
            ),
            None => None,
        };
        proof {
            use_type_invariant(&*self);
        }
        let ghost before = self.histories@;
        let ghost node_id = data.node_id@;
        let index = self.position(&data.node_id);
        proof {
            lemma_history_index(before, node_id);
        }
        let mut histories = self.take_histories();
        if index < histories.len() {
            let mut history = histories.remove(index);
            history.add_sample(data);
            histories.insert(index, history);
            assert(histories@ =~= before.update(index as int, history));
        } else {
            let mut history = LatencyHistory::new(data.node_id.clone());
            history.add_sample(data);
            histories.push(history);
        }
        proof {
            let after = histories@;
            assert(after.len() >= before.len());
            assert(forall|i: int| 0 <= i < before.len() ==> (#[trigger] after[i]).node_id@
                == before[i].node_id@);
            assert(forall|i: int| 0 <= i < before.len() && i != index ==> #[trigger] after[i]
                == before[i]);
            assert(after[index as int].node_id@ == node_id);
            assert(after[index as int].figures_current());
            assert(distinct_nodes(after));
            assert(all_current(after));
            lemma_history_index_is(after, node_id, index as int);
            assert forall|other: Seq<char>| other != node_id implies #[trigger] window_of(
                after,
                other,
            ) == window_of(before, other) by {
                lemma_history_index(before, other);
                let at = history_index(before, other);
                if at < before.len() {
                    lemma_history_index_is(after, other, at);
                } else {
                    lemma_history_index_is(after, other, after.len() as int);
                }
            }
        }
        self.histories = histories;
        event
    }
}

} // verus!
