//! WireGuard peers, as the control tool reports them.
//!
//! Multicast does not cross a WireGuard tunnel, so announcements are sent
//! to each peer's endpoint one by one. The endpoints are read out of the
//! text that `wg show` prints.

use crate::net::{parse_socket_addr, socket_addr_of, Endpoint, IpAddress};
use crate::text::{
    chars_of, slice_of, split, split_on, starts_with, string_of, texts_of, trim, trim_of,
};
use vstd::prelude::*;

verus! {

/// The endpoint that a text denotes, in one of two notations: an IPv4
/// address, a colon and a port, or an IPv6 address in square brackets, a
/// colon and a port. The port is written in decimal digits. Any other text
/// denotes none.
pub open spec fn endpoint_of(s: Seq<char>) -> Option<Endpoint> {
    socket_addr_of(s)
}

/// The endpoint that a text denotes, written as `address:port` for IPv4 or
/// as `[address]:port` for IPv6.
pub fn parse_endpoint(endpoint_str: &str) -> (endpoint: Option<Endpoint>)
    ensures
        endpoint == endpoint_of(endpoint_str@),
{
    let chars = chars_of(endpoint_str);
    parse_endpoint_chars(&chars)
}

/// The endpoint that a text denotes.
pub fn parse_endpoint_chars(chars: &Vec<char>) -> (endpoint: Option<Endpoint>)
    ensures
        endpoint == endpoint_of(chars@),
{
    parse_socket_addr(chars)
}

/// One peer of a WireGuard interface.
#[derive(Debug)]
pub struct WireGuardPeer {
    /// The interface that the peer belongs to.
    pub interface: String,
    /// The peer's public key.
    pub public_key: String,
    /// Where the peer was last heard from, if it was.
    pub endpoint: Option<Endpoint>,
    /// The address ranges that are routed to the peer.
    pub allowed_ips: Vec<String>,
}

/// The value of a [`WireGuardPeer`].
pub struct PeerEntry {
    pub interface: Seq<char>,
    pub public_key: Seq<char>,
    pub endpoint: Option<Endpoint>,
    pub allowed_ips: Seq<Seq<char>>,
}

/// The texts that a list of strings holds, in order.
pub open spec fn strings_of(strings: Seq<String>) -> Seq<Seq<char>> {
    Seq::new(strings.len(), |i: int| strings[i]@)
}

impl View for WireGuardPeer {
    type V = PeerEntry;

    open spec fn view(&self) -> PeerEntry {
        PeerEntry {
            interface: self.interface@,
            public_key: self.public_key@,
            endpoint: self.endpoint,
            allowed_ips: strings_of(self.allowed_ips@),
        }
    }
}

/// The values of a list of peers, in order.
pub open spec fn entries_of(peers: Seq<WireGuardPeer>) -> Seq<PeerEntry> {
    Seq::new(peers.len(), |i: int| peers[i]@)
}

/// A WireGuard interface and its peers.
#[derive(Debug)]
pub struct WireGuardInterface {
    pub name: String,
    pub peers: Vec<WireGuardPeer>,
}

/// The text after a prefix, if the text begins with it.
pub open spec fn after_prefix(line: Seq<char>, prefix: Seq<char>) -> Option<Seq<char>> {
    if prefix.is_prefix_of(line) {
        Some(line.skip(prefix.len() as int))
    } else {
        None
    }
}

/// The predicate that holds of texts that are not empty.
pub open spec fn non_empty() -> spec_fn(Seq<char>) -> bool {
    |entry: Seq<char>| entry.len() > 0
}

/// The entries of a list with commas between them: each trimmed, empty
/// ones left out.
pub open spec fn list_entries_of(list: Seq<char>) -> Seq<Seq<char>> {
    split_on(list, ',').map_values(|entry: Seq<char>| trim_of(entry)).filter(non_empty())
}

/// What has been read of the peers of an interface: those that are
/// complete, and the one whose lines are being read.
pub struct PeerScan {
    pub complete: Seq<PeerEntry>,
    pub current: Option<PeerEntry>,
}

/// What has been read after one more line. A `peer:` line completes the
/// peer before it and begins a new one, named by the rest of the line. An
/// `endpoint:` or `allowed ips:` line sets that field of the peer being
/// read, if there is one. Any other line changes nothing.
pub open spec fn scan_after_line(
    interface: Seq<char>,
    scan: PeerScan,
    line: Seq<char>,
) -> PeerScan {
    let line = trim_of(line);
    if after_prefix(line, "peer:"@) is Some {
        PeerScan {
            complete: match scan.current {
                Some(peer) => scan.complete.push(peer),
                None => scan.complete,
            },
            current: Some(
                PeerEntry {
                    interface,
                    public_key: trim_of(after_prefix(line, "peer:"@)->0),
                    endpoint: None,
                    allowed_ips: Seq::empty(),
                },
            ),
        }
    } else {
        match scan.current {
            Some(peer) => if after_prefix(line, "endpoint:"@) is Some {
                PeerScan {
                    complete: scan.complete,
                    current: Some(
                        PeerEntry {
                            endpoint: endpoint_of(trim_of(after_prefix(line, "endpoint:"@)->0)),
                            ..peer
                        },
                    ),
                }
            } else if after_prefix(line, "allowed ips:"@) is Some {
                PeerScan {
                    complete: scan.complete,
                    current: Some(
                        PeerEntry {
                            allowed_ips: list_entries_of(after_prefix(line, "allowed ips:"@)->0),
                            ..peer
                        },
                    ),
                }
            } else {
                scan
            },
            None => scan,
        }
    }
}

/// What has been read after the given lines.
pub open spec fn scan_after_lines(interface: Seq<char>, lines: Seq<Seq<char>>) -> PeerScan
    decreases lines.len(),
{
    if lines.len() == 0 {
        PeerScan { complete: Seq::empty(), current: None }
    } else {
        scan_after_line(interface, scan_after_lines(interface, lines.drop_last()), lines.last())
    }
}

/// The peers that the report of an interface lists, in order. A line is
/// what stands between line feeds.
pub open spec fn peers_of_report(interface: Seq<char>, report: Seq<char>) -> Seq<PeerEntry> {
    let scan = scan_after_lines(interface, split_on(report, '\n'));
    match scan.current {
        Some(peer) => scan.complete.push(peer),
        None => scan.complete,
    }
}

/// The text after a prefix, if the text begins with it.
pub fn strip_prefix(line: &Vec<char>, prefix: &str) -> (rest: Option<Vec<char>>)
    ensures
        match rest {
            Some(rest) => after_prefix(line@, prefix@) == Some(rest@),
            None => after_prefix(line@, prefix@) is None,
        },
{
    let prefix = chars_of(prefix);
    if starts_with(line, &prefix) {
        let rest = slice_of(line, prefix.len(), line.len());
        assert(rest@ =~= line@.skip(prefix@.len() as int));
        Some(rest)
    } else {
        None
    }
}

/// The entries of a list with commas between them.
pub fn list_entries(list: &Vec<char>) -> (entries: Vec<String>)
    ensures
        strings_of(entries@) == list_entries_of(list@),
{
    let pieces = split(list, ',');
    let ghost trimmed = texts_of(pieces@).map_values(|entry: Seq<char>| trim_of(entry));
    let mut entries: Vec<String> = Vec::new();
    let mut index: usize = 0;
    proof {
        reveal(Seq::filter);
        assert(trimmed.take(0).filter(non_empty()) =~= Seq::<Seq<char>>::empty());
        assert(strings_of(entries@) =~= Seq::<Seq<char>>::empty());
    }
    while index < pieces.len()
        invariant
            index <= pieces.len(),
            trimmed == texts_of(pieces@).map_values(|entry: Seq<char>| trim_of(entry)),
            strings_of(entries@) == trimmed.take(index as int).filter(non_empty()),
        decreases pieces.len() - index,
    {
        let entry = trim(&pieces[index]);
        proof {
            assert(entry@ == trimmed[index as int]);
            assert(trimmed.take(index + 1) =~= trimmed.take(index as int).push(entry@));
            trimmed.take(index as int).lemma_filter_push(entry@, non_empty());
        }
        if entry.len() > 0 {
            let ghost before = strings_of(entries@);
            let text = string_of(&entry);
            entries.push(text);
            assert(strings_of(entries@) =~= before.push(entry@));
        }
        index = index + 1;
    }
    assert(trimmed.take(trimmed.len() as int) =~= trimmed);
    entries
}

/// The state of a scan as the parser holds it: the fields of the peer being
/// read stand in variables of their own.
pub open spec fn scan_state(
    interface: Seq<char>,
    complete: Seq<WireGuardPeer>,
    reading: bool,
    public_key: Seq<char>,
    endpoint: Option<Endpoint>,
    allowed_ips: Seq<String>,
) -> PeerScan {
    PeerScan {
        complete: entries_of(complete),
        current: if reading {
            Some(
                PeerEntry { interface, public_key, endpoint, allowed_ips: strings_of(allowed_ips) },
            )
        } else {
            None
        },
    }
}

/// Reads the peers of an interface out of the report that `wg show` prints
/// for it.
pub fn parse_wireguard_interface(interface_name: &str, report: &str) -> (interface:
    WireGuardInterface)
    ensures
        interface.name@ == interface_name@,
        entries_of(interface.peers@) == peers_of_report(interface_name@, report@),
{
    let chars = chars_of(report);
    let lines = split(&chars, '\n');
    let ghost texts = texts_of(lines@);
    let mut peers: Vec<WireGuardPeer> = Vec::new();
    let mut reading = false;
    let mut public_key = String::new();
    let mut endpoint: Option<Endpoint> = None;
    let mut allowed_ips: Vec<String> = Vec::new();
    let mut index: usize = 0;
    proof {
        assert(texts.take(0) =~= Seq::<Seq<char>>::empty());
        assert(entries_of(peers@) =~= Seq::<PeerEntry>::empty());
    }
    while index < lines.len()
        invariant
            index <= lines.len(),
            texts == texts_of(lines@),
            scan_state(interface_name@, peers@, reading, public_key@, endpoint, allowed_ips@)
                == scan_after_lines(interface_name@, texts.take(index as int)),
        decreases lines.len() - index,
    {
        let ghost before = scan_after_lines(interface_name@, texts.take(index as int));
        proof {
            assert(texts.take(index + 1).drop_last() =~= texts.take(index as int));
            assert(texts.take(index + 1).last() == lines@[index as int]@);
        }
        let line = trim(&lines[index]);
        match strip_prefix(&line, "peer:") {
            Some(rest) => {
                if reading {
                    let ghost complete = entries_of(peers@);
                    let peer = WireGuardPeer {
                        interface: interface_name.to_owned(),
                        public_key,
                        endpoint,
                        allowed_ips,
                    };
                    peers.push(peer);
                    assert(entries_of(peers@) =~= complete.push(before.current->0));
                }
                reading = true;
                public_key = string_of(&trim(&rest));
                endpoint = None;
                allowed_ips = Vec::new();
                assert(strings_of(allowed_ips@) =~= Seq::<Seq<char>>::empty());
            },
            None => {
                if reading {
                    match strip_prefix(&line, "endpoint:") {
                        Some(rest) => {
                            endpoint = parse_endpoint_chars(&trim(&rest));
                        },
                        None => {
                            match strip_prefix(&line, "allowed ips:") {
                                Some(rest) => {
                                    allowed_ips = list_entries(&rest);
                                },
                                None => {},
                            }
                        },
                    }
                }
            },
        }
        index = index + 1;
    }
    assert(texts.take(texts.len() as int) =~= texts);
    if reading {
        let ghost complete = entries_of(peers@);
        let ghost last = PeerEntry {
            interface: interface_name@,
            public_key: public_key@,
            endpoint,
            allowed_ips: strings_of(allowed_ips@),
        };
        let peer = WireGuardPeer {
            interface: interface_name.to_owned(),
            public_key,
            endpoint,
            allowed_ips,
        };
        peers.push(peer);
        assert(entries_of(peers@) =~= complete.push(last));
    }
    WireGuardInterface { name: interface_name.to_owned(), peers }
}

/// The names of the WireGuard interfaces that `wg show interfaces` lists:
/// the words of its output.
pub fn parse_interface_names(listing: &str) -> (names: Vec<String>)
    ensures
        strings_of(names@) == crate::text::tokens_of(listing@),
{
    let chars = chars_of(listing);
    let words = crate::text::tokens(&chars);
    let mut names: Vec<String> = Vec::new();
    let mut index: usize = 0;
    while index < words.len()
        invariant
            index <= words.len(),
            names@.len() == index,
            forall|i: int| 0 <= i < index ==> (#[trigger] names@[i])@ == words@[i]@,
        decreases words.len() - index,
    {
        names.push(string_of(&words[index]));
        index = index + 1;
    }
    assert(strings_of(names@) =~= texts_of(words@));
    names
}

/// Whether a network interface is a WireGuard interface by its name: the
/// name begins with `wg`.
pub fn is_wireguard_name(name: &str) -> (named: bool)
    ensures
        named == "wg"@.is_prefix_of(name@),
{
    let chars = chars_of(name);
    let prefix = chars_of("wg");
    starts_with(&chars, &prefix)
}

/// The endpoints of a list of peers, in order, for those that have one.
pub open spec fn endpoints_of(peers: Seq<PeerEntry>) -> Seq<Endpoint>
    decreases peers.len(),
{
    if peers.len() == 0 {
        Seq::empty()
    } else {
        match peers.last().endpoint {
            Some(endpoint) => endpoints_of(peers.drop_last()).push(endpoint),
            None => endpoints_of(peers.drop_last()),
        }
    }
}

/// The endpoints of all peers of a list of interfaces, interface by
/// interface.
pub open spec fn all_endpoints_of(interfaces: Seq<WireGuardInterface>) -> Seq<Endpoint>
    decreases interfaces.len(),
{
    if interfaces.len() == 0 {
        Seq::empty()
    } else {
        all_endpoints_of(interfaces.drop_last()) + endpoints_of(
            entries_of(interfaces.last().peers@),
        )
    }
}

/// The endpoints of all peers whose endpoint is known. A peer without one
/// cannot be written to and is passed over.
pub fn get_wireguard_peer_endpoints(interfaces: &Vec<WireGuardInterface>) -> (endpoints: Vec<
    Endpoint,
>)
    ensures
        endpoints@ == all_endpoints_of(interfaces@),
{
    let mut endpoints: Vec<Endpoint> = Vec::new();
    let mut index: usize = 0;
    assert(interfaces@.take(0) =~= Seq::<WireGuardInterface>::empty());
    while index < interfaces.len()
        invariant
            index <= interfaces.len(),
            endpoints@ == all_endpoints_of(interfaces@.take(index as int)),
        decreases interfaces.len() - index,
    {
        let peers = &interfaces[index].peers;
        let ghost entries = entries_of(peers@);
        let ghost so_far = endpoints@;
        let mut at: usize = 0;
        proof {
            assert(interfaces@.take(index + 1).drop_last() =~= interfaces@.take(index as int));
            assert(interfaces@.take(index + 1).last() == interfaces@[index as int]);
            assert(entries.take(0) =~= Seq::<PeerEntry>::empty());
            assert(so_far + endpoints_of(entries.take(0)) =~= so_far);
        }
        while at < peers.len()
            invariant
                at <= peers.len(),
                entries == entries_of(peers@),
                endpoints@ == so_far + endpoints_of(entries.take(at as int)),
            decreases peers.len() - at,
        {
            proof {
                assert(entries.take(at + 1).drop_last() =~= entries.take(at as int));
                assert(entries.take(at + 1).last() == peers@[at as int]@);
            }
            match peers[at].endpoint {
                Some(endpoint) => {
                    endpoints.push(endpoint);
                    assert(endpoints@ =~= so_far + endpoints_of(entries.take(at + 1)));
                },
                None => {},
            }
            at = at + 1;
        }
        assert(entries.take(entries.len() as int) =~= entries);
        index = index + 1;
    }
    assert(interfaces@.take(interfaces.len() as int) =~= interfaces@);
    endpoints
}

/// The addresses of all peers whose endpoint is known, without the port:
/// the discovery port is the caller's to add.
pub fn get_wireguard_peer_ips(interfaces: &Vec<WireGuardInterface>) -> (ips: Vec<IpAddress>)
    ensures
        ips@ == all_endpoints_of(interfaces@).map_values(|endpoint: Endpoint| endpoint.ip),
{
    let endpoints = get_wireguard_peer_endpoints(interfaces);
    let mut ips: Vec<IpAddress> = Vec::new();
    let mut index: usize = 0;
    while index < endpoints.len()
        invariant
            index <= endpoints.len(),
            ips@.len() == index,
            forall|i: int| 0 <= i < index ==> ips@[i] == endpoints@[i].ip,
        decreases endpoints.len() - index,
    {
        ips.push(endpoints[index].ip);
        index = index + 1;
    }
    assert(ips@ =~= endpoints@.map_values(|endpoint: Endpoint| endpoint.ip));
    ips
}

} // verus!
