//! Candidate peers behind tun/tap style VPN interfaces.
//!
//! An IPv4 address is held as the `u32` whose big-endian bytes are its four
//! octets, so that addresses of one subnet are consecutive integers.

use crate::net::{ipv4_of, parse_ipv4, IpAddress};
use crate::text::{
    chars_of, find_char, not_char, parse_unsigned, prefix_len, slice_of, split, split_on,
    starts_with, texts_of, tokens, tokens_of, trim, trim_of, unsigned_of,
};
use vstd::arithmetic::power2::{lemma2_to64, lemma2_to64_rest, pow2};
use vstd::prelude::*;

verus! {

/// Interfaces with more candidate hosts than this are not swept.
pub const MAX_SCAN_HOSTS: usize = 1024;

/// The number of probes of a sweep that may be under way at one time.
pub const MAX_CONCURRENT_PINGS: usize = 64;

/// Milliseconds after which a probe of a sweep counts as unanswered.
pub const SWEEP_TIMEOUT_MS: u64 = 1000;

/// The address `a.b.c.d` as an integer.
pub open spec fn spec_ipv4_from_octets(a: u8, b: u8, c: u8, d: u8) -> int {
    a as int * 0x100_0000 + b as int * 0x1_0000 + c as int * 0x100 + d as int
}

/// The address `a.b.c.d` as an integer.
pub fn ipv4_from_octets(a: u8, b: u8, c: u8, d: u8) -> (addr: u32)
    ensures
        addr as int == spec_ipv4_from_octets(a, b, c, d),
{
    let hi: u32 = a as u32 * 0x100_0000 + b as u32 * 0x1_0000;
    let lo: u32 = c as u32 * 0x100 + d as u32;
    hi + lo
}

/// The number of addresses in a subnet with the given prefix length.
pub open spec fn block_size(prefix_len: u8) -> int
    recommends
        prefix_len <= 32,
{
    pow2((32 - prefix_len) as nat) as int
}

/// The lowest address of the subnet that `address` lies in.
pub open spec fn network_of(address: u32, prefix_len: u8) -> int
    recommends
        prefix_len <= 32,
{
    address as int - address as int % block_size(prefix_len)
}

/// The highest address of the subnet that `address` lies in.
pub open spec fn broadcast_of(address: u32, prefix_len: u8) -> int
    recommends
        prefix_len <= 32,
{
    network_of(address, prefix_len) + block_size(prefix_len) - 1
}

/// Whether `candidate` lies in the same subnet as `address`.
pub open spec fn in_subnet(candidate: int, address: u32, prefix_len: u8) -> bool
    recommends
        prefix_len <= 32,
{
    network_of(address, prefix_len) <= candidate <= broadcast_of(address, prefix_len)
}

/// The predicate that holds of every address but `own`.
pub open spec fn other_than(own: u32) -> spec_fn(u32) -> bool {
    |candidate: u32| candidate != own
}

/// A subnet is a block of consecutive addresses within the address space,
/// aligned to its own size, and holds the address it is named by.
pub proof fn lemma_subnet_bounds(address: u32, prefix_len: u8)
    requires
        prefix_len <= 32,
    ensures
        1 <= block_size(prefix_len) <= 0x1_0000_0000,
        0 <= network_of(address, prefix_len) <= address,
        address <= broadcast_of(address, prefix_len) <= 0xFFFF_FFFF,
        network_of(address, prefix_len) % block_size(prefix_len) == 0,
{
    let block = block_size(prefix_len);
    let rest = pow2(prefix_len as nat) as int;
    lemma2_to64();
    lemma2_to64_rest();
    lemma_pow2_monotone(0, (32 - prefix_len) as nat);
    lemma_pow2_monotone((32 - prefix_len) as nat, 32);
    lemma_pow2_monotone(0, prefix_len as nat);
    vstd::arithmetic::power2::lemma_pow2_adds((32 - prefix_len) as nat, prefix_len as nat);
    assert(block * rest == 0x1_0000_0000);
    let a = address as int;
    let q = a / block;
    vstd::arithmetic::div_mod::lemma_fundamental_div_mod(a, block);
    assert(a == block * q + a % block);
    assert(0 <= a % block < block);
    assert(network_of(address, prefix_len) == block * q);
    assert(q < rest) by (nonlinear_arith)
        requires
            block * q <= a,
            a < block * rest,
            block >= 1,
    ;
    assert(block * q + block <= block * rest) by (nonlinear_arith)
        requires
            q + 1 <= rest,
            block >= 1,
    ;
    assert((block * q) % block == 0) by (nonlinear_arith)
        requires
            block >= 1,
    ;
}

/// Whether every element is smaller than all that follow it.
pub open spec fn ascending(s: Seq<u32>) -> bool {
    forall|i: int, j: int| 0 <= i < j < s.len() ==> s[i] < s[j]
}

/// Filtering keeps exactly the elements that satisfy the predicate, and keeps
/// an ascending sequence ascending.
pub proof fn lemma_filter_ascending(s: Seq<u32>, keep: spec_fn(u32) -> bool)
    requires
        ascending(s),
    ensures
        ascending(s.filter(keep)),
        forall|x: u32| #[trigger] s.filter(keep).contains(x) <==> s.contains(x) && keep(x),
    decreases s.len(),
{
    reveal(Seq::filter);
    if s.len() > 0 {
        let init = s.drop_last();
        let last = s.last();
        lemma_filter_ascending(init, keep);
        let kept = init.filter(keep);
        assert forall|x: u32| kept.contains(x) implies x < last by {
            assert(init.contains(x));
            let i = choose|i: int| 0 <= i < init.len() && init[i] == x;
            assert(s[i] == x);
        }
        assert forall|x: u32| #[trigger]
            s.filter(keep).contains(x) <==> s.contains(x) && keep(x) by {
            if s.filter(keep).contains(x) {
                let i = choose|i: int| 0 <= i < s.filter(keep).len() && s.filter(keep)[i] == x;
                if keep(last) && i == kept.len() {
                    assert(s[s.len() - 1] == x);
                } else {
                    assert(kept[i] == x);
                    assert(kept.contains(x));
                    let j = choose|j: int| 0 <= j < init.len() && init[j] == x;
                    assert(s[j] == x);
                }
            }
            if s.contains(x) && keep(x) {
                let j = choose|j: int| 0 <= j < s.len() && s[j] == x;
                if j == s.len() - 1 {
                    assert(s.filter(keep)[kept.len() as int] == x);
                } else {
                    assert(init[j] == x);
                    assert(init.contains(x));
                    assert(kept.contains(x));
                    let i = choose|i: int| 0 <= i < kept.len() && kept[i] == x;
                    assert(s.filter(keep)[i] == x);
                }
            }
        }
        assert forall|i: int, j: int| 0 <= i < j < s.filter(keep).len() implies s.filter(keep)[i]
            < s.filter(keep)[j] by {
            if j == kept.len() {
                assert(kept.contains(kept[i]));
            }
        }
    }
}

/// Dropping one value from an ascending sequence shortens it by one if the
/// value occurs in it, and not at all otherwise.
pub proof fn lemma_filter_other_than_len(s: Seq<u32>, own: u32)
    requires
        ascending(s),
    ensures
        s.filter(other_than(own)).len() == s.len() - if s.contains(own) {
            1int
        } else {
            0int
        },
    decreases s.len(),
{
    reveal(Seq::filter);
    if s.len() > 0 {
        let init = s.drop_last();
        let last = s.last();
        lemma_filter_other_than_len(init, own);
        if last == own {
            assert(s[s.len() - 1] == own);
            if init.contains(own) {
                let i = choose|i: int| 0 <= i < init.len() && init[i] == own;
                assert(s[i] < s[s.len() - 1]);
            }
        } else if init.contains(own) {
            let i = choose|i: int| 0 <= i < init.len() && init[i] == own;
            assert(s[i] == own);
        } else if s.contains(own) {
            let i = choose|i: int| 0 <= i < s.len() && s[i] == own;
            assert(init[i] == own);
        }
    }
}

/// One local tunnel-interface binding.
#[derive(Debug, Clone)]
pub struct VpnInterface {
    pub name: String,
    pub address: u32,
    pub prefix_len: u8,
}

impl VpnInterface {
    /// A prefix length is at most the width of an address.
    pub open spec fn wf(&self) -> bool {
        self.prefix_len <= 32
    }

    /// Whether the prefix length is one that an address can have.
    pub fn is_valid(&self) -> (valid: bool)
        ensures
            valid == self.wf(),
    {
        self.prefix_len <= 32
    }

    /// The number of usable addresses of the subnet: all but the network and
    /// broadcast addresses, both ends of a point-to-point pair, the single
    /// address of a host route.
    pub open spec fn spec_host_count(&self) -> int {
        if self.prefix_len >= 32 {
            1
        } else if self.prefix_len == 31 {
            2
        } else {
            block_size(self.prefix_len) - 2
        }
    }

    /// The number of usable addresses of the subnet.
    pub fn host_count(&self) -> (count: u32)
        requires
            self.wf(),
        ensures
            count as int == self.spec_host_count(),
    {
        if self.prefix_len >= 31 {
            return if self.prefix_len == 31 {
                2
            } else {
                1
            };
        }
        let bits: u64 = (32 - self.prefix_len) as u64;
        let block: u64 = power_of_two(bits);
        (block - 2) as u32
    }

    /// The other address of a point-to-point pair.
    pub open spec fn spec_pair_peer(&self) -> int {
        if self.address as int == network_of(self.address, self.prefix_len) {
            self.address + 1
        } else {
            self.address - 1
        }
    }

    /// The addresses strictly between the network and broadcast addresses,
    /// in ascending order.
    pub open spec fn spec_interior(&self) -> Seq<u32> {
        let first = network_of(self.address, self.prefix_len) + 1;
        Seq::new((block_size(self.prefix_len) - 2) as nat, |i: int| (first + i) as u32)
    }

    /// The candidate peers of this interface, in ascending order: every
    /// address of the subnet but the network address, the broadcast address
    /// and the interface's own. A point-to-point pair yields the other end, a
    /// host route nothing.
    pub open spec fn spec_host_ips(&self) -> Seq<u32> {
        if self.prefix_len >= 32 {
            Seq::empty()
        } else if self.prefix_len == 31 {
            seq![self.spec_pair_peer() as u32]
        } else {
            self.spec_interior().filter(other_than(self.address))
        }
    }

    /// The candidate peers of this interface.
    pub fn host_ips(&self) -> (hosts: Vec<u32>)
        requires
            self.wf(),
        ensures
            hosts@ == self.spec_host_ips(),
    {
        let mut hosts: Vec<u32> = Vec::new();
        if self.prefix_len >= 32 {
            return hosts;
        }
        proof {
            lemma_subnet_bounds(self.address, self.prefix_len);
        }
        let bits: u64 = (32 - self.prefix_len) as u64;
        let block: u64 = power_of_two(bits);
        let own: u64 = self.address as u64;
        let network: u64 = own - own % block;
        if self.prefix_len == 31 {
            let peer: u64 = if own == network {
                own + 1
            } else {
                own - 1
            };
            hosts.push(peer as u32);
            assert(hosts@ =~= seq![self.spec_pair_peer() as u32]);
            return hosts;
        }
        let first: u64 = network + 1;
        let last: u64 = network + block - 2;
        let ghost interior = self.spec_interior();
        let ghost keep = other_than(self.address);
        let mut host: u64 = first;
        proof {
            reveal(Seq::filter);
            assert(interior.take(0).filter(keep) =~= Seq::<u32>::empty());
        }
        while host <= last
            invariant
                first <= host <= last + 1,
                last < 0xFFFF_FFFF,
                last - first + 1 == interior.len(),
                forall|i: int| 0 <= i < interior.len() ==> interior[i] == (first + i) as u32,
                own == self.address,
                keep == other_than(self.address),
                hosts@ == interior.take(host - first).filter(keep),
            decreases last + 1 - host,
        {
            proof {
                let done = host - first;
                assert(interior.take(done + 1) =~= interior.take(done).push(host as u32));
                interior.take(done).lemma_filter_push(host as u32, keep);
            }
            if host != own {
                hosts.push(host as u32);
            }
            host = host + 1;
        }
        assert(interior.take(interior.len() as int) =~= interior);
        hosts
    }

    /// On a subnet wider than a point-to-point pair the candidates are,
    /// each exactly once and in ascending order, the addresses of the subnet
    /// other than its network address, its broadcast address and the
    /// interface's own address.
    pub proof fn lemma_host_ips_cover_subnet(&self)
        requires
            self.wf(),
            self.prefix_len < 31,
        ensures
            forall|candidate: u32| #[trigger]
                self.spec_host_ips().contains(candidate) <==> {
                    &&& in_subnet(candidate as int, self.address, self.prefix_len)
                    &&& candidate != network_of(self.address, self.prefix_len)
                    &&& candidate != broadcast_of(self.address, self.prefix_len)
                    &&& candidate != self.address
                },
            ascending(self.spec_host_ips()),
            self.spec_host_ips().no_duplicates(),
    {
        lemma_subnet_bounds(self.address, self.prefix_len);
        let interior = self.spec_interior();
        let keep = other_than(self.address);
        let network = network_of(self.address, self.prefix_len);
        let broadcast = broadcast_of(self.address, self.prefix_len);
        lemma_pow2_monotone(2, (32 - self.prefix_len) as nat);
        lemma2_to64();
        assert(ascending(interior));
        lemma_filter_ascending(interior, keep);
        assert forall|candidate: u32| interior.contains(candidate) <==> network < candidate
            < broadcast by {
            if network < candidate < broadcast {
                assert(interior[candidate - network - 1] == candidate);
            }
        }
    }

    /// On a point-to-point pair the only candidate is the other address of
    /// the pair.
    pub proof fn lemma_host_ips_point_to_point(&self)
        requires
            self.prefix_len == 31,
        ensures
            self.spec_host_ips().len() == 1,
            self.spec_host_ips()[0] != self.address,
            in_subnet(self.spec_host_ips()[0] as int, self.address, self.prefix_len),
            broadcast_of(self.address, self.prefix_len) == network_of(
                self.address,
                self.prefix_len,
            ) + 1,
    {
        lemma_subnet_bounds(self.address, self.prefix_len);
        lemma2_to64();
    }

    /// A host route has no candidates.
    pub proof fn lemma_host_ips_host_route(&self)
        requires
            self.prefix_len == 32,
        ensures
            self.spec_host_ips() == Seq::<u32>::empty(),
    {
    }

    /// The number of candidates: the interior of the subnet, less the
    /// interface's own address where that lies in the interior.
    pub proof fn lemma_host_ips_len(&self)
        requires
            self.wf(),
        ensures
            self.spec_host_ips().len() == if self.prefix_len >= 32 {
                0
            } else if self.prefix_len == 31 {
                1
            } else if network_of(self.address, self.prefix_len) < self.address < broadcast_of(
                self.address,
                self.prefix_len,
            ) {
                block_size(self.prefix_len) - 3
            } else {
                block_size(self.prefix_len) - 2
            },
    {
        if self.prefix_len < 31 {
            lemma_subnet_bounds(self.address, self.prefix_len);
            lemma_pow2_monotone(2, (32 - self.prefix_len) as nat);
            lemma2_to64();
            let interior = self.spec_interior();
            let network = network_of(self.address, self.prefix_len);
            assert(ascending(interior));
            lemma_filter_other_than_len(interior, self.address);
            if network < self.address < broadcast_of(self.address, self.prefix_len) {
                assert(interior[self.address - network - 1] == self.address);
            }
        }
    }

    /// The number of candidate peers, without listing them.
    pub fn candidate_count(&self) -> (count: u32)
        requires
            self.wf(),
        ensures
            count as int == self.spec_host_ips().len(),
    {
        proof {
            self.lemma_host_ips_len();
            lemma_subnet_bounds(self.address, self.prefix_len);
        }
        if self.prefix_len >= 32 {
            return 0;
        }
        if self.prefix_len == 31 {
            return 1;
        }
        let bits: u64 = (32 - self.prefix_len) as u64;
        let block: u64 = power_of_two(bits);
        let own: u64 = self.address as u64;
        let network: u64 = own - own % block;
        let broadcast: u64 = network + block - 1;
        if network < own && own < broadcast {
            (block - 3) as u32
        } else {
            (block - 2) as u32
        }
    }

    /// Whether the interface is small enough to be swept.
    pub open spec fn spec_scannable(&self) -> bool {
        self.spec_host_ips().len() <= MAX_SCAN_HOSTS
    }
}

/// `2^bits`, for an exponent no larger than the width of an address.
pub fn power_of_two(bits: u64) -> (block: u64)
    requires
        bits <= 32,
    ensures
        block as int == pow2(bits as nat),
        1 <= block <= 0x1_0000_0000,
        bits >= 1 ==> block >= 2,
        bits >= 2 ==> block >= 4,
        bits <= 31 ==> block <= 0x8000_0000,
{
    proof {
        lemma2_to64();
        lemma2_to64_rest();
        lemma_pow2_monotone(0, bits as nat);
        lemma_pow2_monotone(bits as nat, 32);
        if bits >= 1 {
            lemma_pow2_monotone(1, bits as nat);
        }
        if bits >= 2 {
            lemma_pow2_monotone(2, bits as nat);
        }
        if bits <= 31 {
            lemma_pow2_monotone(bits as nat, 31);
        }
        vstd::bits::lemma_u64_shl_is_mul(1, bits);
    }
    1u64 << bits
}

/// Powers of two grow with the exponent.
pub proof fn lemma_pow2_monotone(lo: nat, hi: nat)
    requires
        lo <= hi,
    ensures
        pow2(lo) <= pow2(hi),
    decreases hi - lo,
{
    if lo < hi {
        lemma_pow2_monotone(lo, (hi - 1) as nat);
        vstd::arithmetic::power2::lemma_pow2_unfold(hi);
    }
}


/// What one interface contributes to a sweep: its candidates, or nothing if
/// there are too many of them.
pub open spec fn spec_interface_targets(interface: VpnInterface) -> Seq<u32> {
    if interface.spec_scannable() {
        interface.spec_host_ips()
    } else {
        Seq::empty()
    }
}

/// The addresses to probe for the given interfaces: the candidates of each
/// interface that is small enough, in the order of the interfaces.
pub open spec fn spec_scan_targets(interfaces: Seq<VpnInterface>) -> Seq<u32>
    decreases interfaces.len(),
{
    if interfaces.len() == 0 {
        Seq::empty()
    } else {
        spec_scan_targets(interfaces.drop_last()) + spec_interface_targets(interfaces.last())
    }
}

/// The addresses to probe for the given interfaces. An interface with more
/// than [`MAX_SCAN_HOSTS`] candidates is left out whole.
pub fn scan_targets(interfaces: &Vec<VpnInterface>) -> (targets: Vec<u32>)
    requires
        forall|i: int| 0 <= i < interfaces.len() ==> interfaces[i].wf(),
    ensures
        targets@ == spec_scan_targets(interfaces@),
{
    let mut targets: Vec<u32> = Vec::new();
    let mut index: usize = 0;
    assert(interfaces@.take(0) =~= Seq::<VpnInterface>::empty());
    while index < interfaces.len()
        invariant
            index <= interfaces.len(),
            forall|i: int| 0 <= i < interfaces.len() ==> interfaces[i].wf(),
            targets@ == spec_scan_targets(interfaces@.take(index as int)),
        decreases interfaces.len() - index,
    {
        let interface = &interfaces[index];
        proof {
            let upto = interfaces@.take(index + 1);
            assert(upto.drop_last() =~= interfaces@.take(index as int));
            assert(upto.last() == interfaces[index as int]);
        }
        if interface.candidate_count() as usize <= MAX_SCAN_HOSTS {
            let mut hosts = interface.host_ips();
            targets.append(&mut hosts);
        } else {
            assert(targets@ + Seq::<u32>::empty() =~= targets@);
        }
        index = index + 1;
    }
    assert(interfaces@.take(interfaces.len() as int) =~= interfaces@);
    targets
}

/// The device type that marks an interface without a link layer, as tun
/// devices are.
pub const TUNNEL_DEVICE_TYPE: u32 = 65534;

/// The device type that a text denotes: a number, with white space around
/// it or not.
pub fn parse_device_type(text: &str) -> (device_type: Option<u32>)
    ensures
        match device_type {
            Some(number) => unsigned_of(trim_of(text@), 0xFFFF_FFFF) == Some(number as int),
            None => unsigned_of(trim_of(text@), 0xFFFF_FFFF) is None,
        },
{
    let chars = chars_of(text);
    match parse_unsigned(&trim(&chars), 0xFFFF_FFFF) {
        Some(number) => Some(number as u32),
        None => None,
    }
}

/// Whether a network interface is taken for a tunnel: its name begins with
/// `tun` or `tap`, or its device type is that of a device without a link
/// layer.
pub fn is_tunnel_interface(name: &str, device_type: Option<u32>) -> (tunnel: bool)
    ensures
        tunnel == ("tun"@.is_prefix_of(name@) || "tap"@.is_prefix_of(name@) || device_type == Some(
            TUNNEL_DEVICE_TYPE,
        )),
{
    let chars = chars_of(name);
    if starts_with(&chars, &chars_of("tun")) || starts_with(&chars, &chars_of("tap")) {
        return true;
    }
    match device_type {
        Some(number) => number == TUNNEL_DEVICE_TYPE,
        None => false,
    }
}

/// The address and prefix length that one line of an address report
/// assigns: the line begins with `inet`, and its second word is an IPv4
/// address, a slash and a prefix length.
pub open spec fn binding_of_line(line: Seq<char>) -> Option<(u32, u8)> {
    let line = trim_of(line);
    let words = tokens_of(line);
    if "inet "@.is_prefix_of(line) && words.len() > 1 {
        let word = words[1];
        let slash = prefix_len(word, not_char('/'));
        if 0 <= slash < word.len() && ipv4_of(word.take(slash)) is Some && unsigned_of(
            word.skip(slash + 1),
            0xFF,
        ) is Some {
            Some((ipv4_of(word.take(slash))->0, unsigned_of(word.skip(slash + 1), 0xFF)->0 as u8))
        } else {
            None
        }
    } else {
        None
    }
}

/// What the first line that assigns an address assigns.
pub open spec fn first_binding(lines: Seq<Seq<char>>) -> Option<(u32, u8)>
    decreases lines.len(),
{
    if lines.len() == 0 {
        None
    } else {
        match binding_of_line(lines[0]) {
            Some(binding) => Some(binding),
            None => first_binding(lines.skip(1)),
        }
    }
}

/// The address and prefix length that one line of an address report
/// assigns.
fn parse_binding_line(line: &Vec<char>) -> (binding: Option<(u32, u8)>)
    ensures
        binding == binding_of_line(line@),
{
    let line = trim(line);
    if !starts_with(&line, &chars_of("inet ")) {
        return None;
    }
    let words = tokens(&line);
    if words.len() <= 1 {
        return None;
    }
    let word = &words[1];
    assert(texts_of(words@)[1] == word@);
    let slash = find_char(word, '/');
    if slash >= word.len() {
        return None;
    }
    let address = slice_of(word, 0, slash);
    let prefix = slice_of(word, slash + 1, word.len());
    assert(address@ =~= word@.take(slash as int));
    assert(prefix@ =~= word@.skip(slash + 1));
    let bits = match parse_ipv4(&address) {
        Some(bits) => bits,
        None => {
            return None;
        },
    };
    match parse_unsigned(&prefix, 0xFF) {
        Some(prefix_len) => Some((bits, prefix_len as u8)),
        None => None,
    }
}

/// Reads the IPv4 binding of an interface out of the report that
/// `ip addr show` prints for it: the first line that assigns one decides.
pub fn parse_interface_address(interface_name: &str, report: &str) -> (interface: Option<
    VpnInterface,
>)
    ensures
        match first_binding(split_on(report@, '\n')) {
            Some(binding) => interface is Some && interface->0.name@ == interface_name@
                && interface->0.address == binding.0 && interface->0.prefix_len == binding.1,
            None => interface is None,
        },
{
    let chars = chars_of(report);
    let lines = split(&chars, '\n');
    let ghost texts = texts_of(lines@);
    let mut index: usize = 0;
    assert(texts.skip(0) =~= texts);
    while index < lines.len()
        invariant
            index <= lines.len(),
            texts == texts_of(lines@),
            texts == split_on(report@, '\n'),
            first_binding(texts) == first_binding(texts.skip(index as int)),
        decreases lines.len() - index,
    {
        let found = parse_binding_line(&lines[index]);
        proof {
            let rest = texts.skip(index as int);
            assert(rest.len() > 0);
            assert(rest[0] == lines@[index as int]@);
            assert(rest.skip(1) =~= texts.skip(index + 1));
            assert(first_binding(rest) == match found {
                Some(binding) => Some(binding),
                None => first_binding(rest.skip(1)),
            });
        }
        match found {
            Some(binding) => {
                return Some(
                    VpnInterface {
                        name: interface_name.to_owned(),
                        address: binding.0,
                        prefix_len: binding.1,
                    },
                );
            },
            None => {},
        }
        index = index + 1;
    }
    assert(texts.skip(texts.len() as int) =~= Seq::<Seq<char>>::empty());
    None
}

/// The hosts that answered, in the order of the sweep.
pub open spec fn spec_responding(hosts: Seq<u32>, answered: Seq<bool>) -> Seq<IpAddress>
    recommends
        hosts.len() == answered.len(),
    decreases hosts.len(),
{
    if hosts.len() == 0 {
        Seq::empty()
    } else if answered[hosts.len() - 1] {
        spec_responding(hosts.drop_last(), answered).push(IpAddress::V4(hosts.last()))
    } else {
        spec_responding(hosts.drop_last(), answered)
    }
}

/// The result of a sweep: the hosts whose probe was answered.
pub fn responding_hosts(hosts: &Vec<u32>, answered: &Vec<bool>) -> (responding: Vec<IpAddress>)
    requires
        hosts.len() == answered.len(),
    ensures
        responding@ == spec_responding(hosts@, answered@),
{
    let mut responding: Vec<IpAddress> = Vec::new();
    let mut index: usize = 0;
    assert(hosts@.take(0) =~= Seq::<u32>::empty());
    while index < hosts.len()
        invariant
            index <= hosts.len(),
            hosts.len() == answered.len(),
            responding@ == spec_responding(hosts@.take(index as int), answered@),
        decreases hosts.len() - index,
    {
        proof {
            assert(hosts@.take(index + 1).drop_last() =~= hosts@.take(index as int));
            assert(hosts@.take(index + 1).last() == hosts@[index as int]);
        }
        if answered[index] {
            responding.push(IpAddress::V4(hosts[index]));
        }
        index = index + 1;
    }
    assert(hosts@.take(hosts.len() as int) =~= hosts@);
    responding
}

} // verus!
