//! Addresses as plain integers.

use crate::text::{
    all_digits, decimal_value, digits_of, find_char, not_char, parse_digits_from, prefix_len,
    slice_of, split, split_on, texts_of,
};
use vstd::prelude::*;

verus! {

/// An IP address: the 32 bits of an IPv4 address or the 128 bits of an IPv6
/// address, most significant octet first.
#[derive(Debug, Clone, Copy, PartialEq, Eq, Structural)]
pub enum IpAddress {
    V4(u32),
    V6(u128),
}

/// A transport endpoint: an address and a port.
#[derive(Debug, Clone, Copy, PartialEq, Eq, Structural)]
pub struct Endpoint {
    pub ip: IpAddress,
    pub port: u16,
}

/// A copy of a list of addresses.
pub fn copy_addresses(addresses: &Vec<IpAddress>) -> (copy: Vec<IpAddress>)
    ensures
        copy@ == addresses@,
{
    let mut copy: Vec<IpAddress> = Vec::new();
    let mut index: usize = 0;
    while index < addresses.len()
        invariant
            index <= addresses.len(),
            copy@ == addresses@.take(index as int),
        decreases addresses.len() - index,
    {
        copy.push(addresses[index]);
        assert(addresses@.take(index + 1) =~= addresses@.take(index as int).push(
            addresses@[index as int],
        ));
        index = index + 1;
    }
    assert(addresses@.take(addresses.len() as int) =~= addresses@);
    copy
}

/// Each IPv4 address as an address of either family.
pub fn ipv4_addresses(addresses: &Vec<u32>) -> (out: Vec<IpAddress>)
    ensures
        out@ == addresses@.map_values(|bits: u32| IpAddress::V4(bits)),
{
    let mut out: Vec<IpAddress> = Vec::new();
    let mut index: usize = 0;
    while index < addresses.len()
        invariant
            index <= addresses.len(),
            out@.len() == index,
            forall|i: int| 0 <= i < index ==> out@[i] == IpAddress::V4(addresses@[i]),
        decreases addresses.len() - index,
    {
        out.push(IpAddress::V4(addresses[index]));
        index = index + 1;
    }
    assert(out@ =~= addresses@.map_values(|bits: u32| IpAddress::V4(bits)));
    out
}

/// The number that a text denotes as one part of a dotted quad: one to
/// three decimal digits, without a leading zero before another digit, and
/// no larger than 255.
pub open spec fn octet_of(s: Seq<char>) -> Option<int> {
    if 1 <= s.len() <= 3 && all_digits(s) && (s.len() == 1 || s[0] != '0') && decimal_value(s)
        <= 255 {
        Some(decimal_value(s))
    } else {
        None
    }
}

/// The IPv4 address that a text denotes: four parts with dots between them.
pub open spec fn ipv4_of(s: Seq<char>) -> Option<u32> {
    let parts = split_on(s, '.');
    if parts.len() == 4 && octet_of(parts[0]) is Some && octet_of(parts[1]) is Some && octet_of(
        parts[2],
    ) is Some && octet_of(parts[3]) is Some {
        Some(
            (octet_of(parts[0])->0 * 0x100_0000 + octet_of(parts[1])->0 * 0x1_0000 + octet_of(
                parts[2],
            )->0 * 0x100 + octet_of(parts[3])->0) as u32,
        )
    } else {
        None
    }
}

/// Whether a character is a hexadecimal digit, in either case.
pub open spec fn is_hex_digit(c: char) -> bool {
    let code = c as u32;
    0x30 <= code <= 0x39 || 0x41 <= code <= 0x46 || 0x61 <= code <= 0x66
}

/// The value of a hexadecimal digit.
pub open spec fn hex_digit_value(c: char) -> int {
    let code = c as u32;
    if code <= 0x39 {
        code - 0x30
    } else if code <= 0x46 {
        code - 0x41 + 10
    } else {
        code - 0x61 + 10
    }
}

/// The number that a run of hexadecimal digits denotes.
pub open spec fn hex_value(digits: Seq<char>) -> int
    decreases digits.len(),
{
    if digits.len() == 0 {
        0
    } else {
        hex_value(digits.drop_last()) * 16 + hex_digit_value(digits.last())
    }
}

/// The number that a text denotes as one group of an IPv6 address: one to
/// four hexadecimal digits.
pub open spec fn hex_group_of(s: Seq<char>) -> Option<int> {
    if 1 <= s.len() <= 4 && (forall|i: int| 0 <= i < s.len() ==> is_hex_digit(#[trigger] s[i])) {
        Some(hex_value(s))
    } else {
        None
    }
}

/// The groups that a list of texts denotes, if each denotes one.
pub open spec fn hex_groups_of(pieces: Seq<Seq<char>>) -> Option<Seq<u16>> {
    if forall|i: int| 0 <= i < pieces.len() ==> hex_group_of(#[trigger] pieces[i]) is Some {
        Some(Seq::new(pieces.len(), |i: int| hex_group_of(pieces[i])->0 as u16))
    } else {
        None
    }
}

/// The two groups that hold an IPv4 address.
pub open spec fn groups_of_ipv4(bits: u32) -> Seq<u16> {
    seq![(bits / 0x1_0000) as u16, (bits % 0x1_0000) as u16]
}

/// The groups that a text denotes as a run of groups with colons between
/// them. An empty text is an empty run. Where `allow_dotted` holds, the
/// last place may be taken by a dotted quad, which stands for two groups.
pub open spec fn group_list_of(s: Seq<char>, allow_dotted: bool) -> Option<Seq<u16>> {
    if s.len() == 0 {
        Some(Seq::empty())
    } else {
        let pieces = split_on(s, ':');
        if allow_dotted && ipv4_of(pieces.last()) is Some {
            match hex_groups_of(pieces.drop_last()) {
                Some(groups) => Some(groups + groups_of_ipv4(ipv4_of(pieces.last())->0)),
                None => None,
            }
        } else {
            hex_groups_of(pieces)
        }
    }
}

/// Where the first pair of adjacent colons begins; the length of the text
/// if there is none.
pub open spec fn gap_index(s: Seq<char>) -> int
    decreases s.len(),
{
    if s.len() < 2 {
        s.len() as int
    } else if s[0] == ':' && s[1] == ':' {
        0
    } else {
        1 + gap_index(s.skip(1))
    }
}

/// The address that eight groups make up, the first group highest.
pub open spec fn address_of_groups(groups: Seq<u16>) -> int
    recommends
        groups.len() == 8,
{
    groups[0] as int * 0x1_0000_0000_0000_0000_0000_0000_0000 + groups[1] as int
        * 0x1_0000_0000_0000_0000_0000_0000 + groups[2] as int * 0x1_0000_0000_0000_0000_0000
        + groups[3] as int * 0x1_0000_0000_0000_0000 + groups[4] as int * 0x1_0000_0000_0000
        + groups[5] as int * 0x1_0000_0000 + groups[6] as int * 0x1_0000 + groups[7] as int
}

/// The eight groups of an address written with a gap: the groups before
/// the gap, zeros, and the groups after it.
pub open spec fn fill_gap(head: Seq<u16>, tail: Seq<u16>) -> Seq<u16>
    recommends
        head.len() + tail.len() <= 8,
{
    head + Seq::new((8 - head.len() - tail.len()) as nat, |i: int| 0u16) + tail
}

/// The IPv6 address that a text denotes. Either eight groups, the last two
/// of which may be written as a dotted quad; or, around one pair of
/// adjacent colons that stands for one or more groups of zero, up to seven
/// groups in all, where only those after the pair may end in a dotted quad.
pub open spec fn ipv6_of(s: Seq<char>) -> Option<u128> {
    let gap = gap_index(s);
    if 0 <= gap < s.len() {
        match (group_list_of(s.take(gap), false), group_list_of(s.skip(gap + 2), true)) {
            (Some(head), Some(tail)) => if head.len() + tail.len() <= 7 {
                Some(address_of_groups(fill_gap(head, tail)) as u128)
            } else {
                None
            },
            _ => None,
        }
    } else {
        match group_list_of(s, true) {
            Some(groups) => if groups.len() == 8 {
                Some(address_of_groups(groups) as u128)
            } else {
                None
            },
            None => None,
        }
    }
}

/// The address that a text denotes, of either family.
pub open spec fn ip_of(s: Seq<char>) -> Option<IpAddress> {
    match ipv4_of(s) {
        Some(bits) => Some(IpAddress::V4(bits)),
        None => match ipv6_of(s) {
            Some(bits) => Some(IpAddress::V6(bits)),
            None => None,
        },
    }
}

/// The number that a text denotes as one part of a dotted quad.
pub fn parse_octet(chars: &Vec<char>) -> (value: Option<u8>)
    ensures
        match value {
            Some(v) => octet_of(chars@) == Some(v as int),
            None => octet_of(chars@) is None,
        },
{
    if chars.len() < 1 || chars.len() > 3 {
        return None;
    }
    if chars.len() > 1 && chars[0] == '0' {
        return None;
    }
    assert(chars@.skip(0) =~= chars@);
    match parse_digits_from(chars, 0, 255) {
        Some(v) => Some(v as u8),
        None => None,
    }
}

/// The IPv4 address that a text denotes.
pub fn parse_ipv4(chars: &Vec<char>) -> (address: Option<u32>)
    ensures
        address == ipv4_of(chars@),
{
    let parts = split(chars, '.');
    if parts.len() != 4 {
        return None;
    }
    assert(texts_of(parts@)[0] == parts@[0]@);
    assert(texts_of(parts@)[1] == parts@[1]@);
    assert(texts_of(parts@)[2] == parts@[2]@);
    assert(texts_of(parts@)[3] == parts@[3]@);
    let a = match parse_octet(&parts[0]) {
        Some(v) => v,
        None => {
            return None;
        },
    };
    let b = match parse_octet(&parts[1]) {
        Some(v) => v,
        None => {
            return None;
        },
    };
    let c = match parse_octet(&parts[2]) {
        Some(v) => v,
        None => {
            return None;
        },
    };
    let d = match parse_octet(&parts[3]) {
        Some(v) => v,
        None => {
            return None;
        },
    };
    let high: u32 = a as u32 * 0x100_0000 + b as u32 * 0x1_0000;
    let low: u32 = c as u32 * 0x100 + d as u32;
    Some(high + low)
}

/// The number that a text denotes as one group of an IPv6 address.
pub fn parse_hex_group(chars: &Vec<char>) -> (value: Option<u16>)
    ensures
        match value {
            Some(v) => hex_group_of(chars@) == Some(v as int),
            None => hex_group_of(chars@) is None,
        },
{
    if chars.len() < 1 || chars.len() > 4 {
        return None;
    }
    let mut value: u32 = 0;
    let mut index: usize = 0;
    assert(chars@.take(0) =~= Seq::<char>::empty());
    while index < chars.len()
        invariant
            index <= chars.len() <= 4,
            forall|i: int| 0 <= i < index ==> is_hex_digit(#[trigger] chars@[i]),
            value == hex_value(chars@.take(index as int)),
            index == 0 ==> value == 0,
            index == 1 ==> value <= 0xF,
            index == 2 ==> value <= 0xFF,
            index == 3 ==> value <= 0xFFF,
            index == 4 ==> value <= 0xFFFF,
        decreases chars.len() - index,
    {
        let code: u32 = chars[index] as u32;
        let digit: u32 = if 0x30 <= code && code <= 0x39 {
            code - 0x30
        } else if 0x41 <= code && code <= 0x46 {
            code - 0x41 + 10
        } else if 0x61 <= code && code <= 0x66 {
            code - 0x61 + 10
        } else {
            return None;
        };
        proof {
            assert(chars@.take(index + 1).drop_last() =~= chars@.take(index as int));
            assert(chars@.take(index + 1).last() == chars@[index as int]);
        }
        value = value * 16 + digit;
        index = index + 1;
    }
    assert(chars@.take(chars.len() as int) =~= chars@);
    Some(value as u16)
}

/// The groups that the first `count` of the given texts denote.
fn parse_hex_groups(pieces: &Vec<Vec<char>>, count: usize) -> (groups: Option<Vec<u16>>)
    requires
        count <= pieces.len(),
    ensures
        match groups {
            Some(found) => hex_groups_of(texts_of(pieces@).take(count as int)) == Some(found@),
            None => hex_groups_of(texts_of(pieces@).take(count as int)) is None,
        },
{
    let ghost wanted = texts_of(pieces@).take(count as int);
    let mut groups: Vec<u16> = Vec::new();
    let mut index: usize = 0;
    while index < count
        invariant
            index <= count <= pieces.len(),
            wanted == texts_of(pieces@).take(count as int),
            groups@.len() == index,
            forall|i: int| 0 <= i < index ==> hex_group_of(#[trigger] wanted[i]) == Some(
                groups@[i] as int,
            ),
        decreases count - index,
    {
        assert(wanted[index as int] == pieces@[index as int]@);
        match parse_hex_group(&pieces[index]) {
            Some(group) => {
                groups.push(group);
            },
            None => {
                return None;
            },
        }
        index = index + 1;
    }
    assert(hex_groups_of(wanted)->0 =~= groups@);
    Some(groups)
}

/// The groups that a text denotes as a run of groups with colons between
/// them.
pub fn parse_group_list(chars: &Vec<char>, allow_dotted: bool) -> (groups: Option<Vec<u16>>)
    ensures
        match groups {
            Some(found) => group_list_of(chars@, allow_dotted) == Some(found@),
            None => group_list_of(chars@, allow_dotted) is None,
        },
{
    if chars.len() == 0 {
        return Some(Vec::new());
    }
    let pieces = split(chars, ':');
    let ghost texts = texts_of(pieces@);
    assert(pieces.len() >= 1) by {
        assert(texts.len() == pieces@.len());
    }
    let last = pieces.len() - 1;
    assert(texts.last() == pieces@[last as int]@);
    if allow_dotted {
        match parse_ipv4(&pieces[last]) {
            Some(bits) => {
                assert(texts.drop_last() =~= texts.take(last as int));
                return match parse_hex_groups(&pieces, last) {
                    Some(found) => {
                        let mut groups = found;
                        groups.push((bits / 0x1_0000) as u16);
                        groups.push((bits % 0x1_0000) as u16);
                        assert(groups@ =~= found@ + groups_of_ipv4(bits));
                        Some(groups)
                    },
                    None => None,
                };
            },
            None => {},
        }
    }
    assert(texts.take(pieces.len() as int) =~= texts);
    parse_hex_groups(&pieces, pieces.len())
}

/// Where the first pair of adjacent colons begins, if this is the first
/// pair: an index `gap` such that no pair begins before it, and either one
/// begins there or the text ends there.
pub proof fn lemma_gap_index_is(s: Seq<char>, gap: int)
    requires
        0 <= gap <= s.len(),
        gap < s.len() ==> gap + 1 < s.len() && s[gap] == ':' && s[gap + 1] == ':',
        forall|i: int|
            0 <= i < gap && i + 1 < s.len() ==> !(#[trigger] s[i] == ':' && s[i + 1] == ':'),
    ensures
        gap_index(s) == gap,
    decreases gap,
{
    if gap > 0 && s.len() >= 2 {
        let rest = s.skip(1);
        assert(!(s[0] == ':' && s[1] == ':'));
        assert forall|i: int| 0 <= i < gap - 1 && i + 1 < rest.len() implies !(#[trigger] rest[i]
            == ':' && rest[i + 1] == ':') by {
            assert(rest[i] == s[i + 1]);
            assert(rest[i + 1] == s[i + 2]);
        }
        if gap - 1 < rest.len() {
            assert(rest[gap - 1] == s[gap]);
            assert(rest[gap] == s[gap + 1]);
        }
        lemma_gap_index_is(rest, gap - 1);
    }
}

/// Where the first pair of adjacent colons begins; the length of the text
/// if there is none.
pub fn find_gap(chars: &Vec<char>) -> (gap: usize)
    ensures
        gap == gap_index(chars@),
        gap <= chars.len(),
        gap < chars.len() ==> gap + 2 <= chars.len(),
{
    if chars.len() < 2 {
        proof {
            lemma_gap_index_is(chars@, chars.len() as int);
        }
        return chars.len();
    }
    let mut index: usize = 0;
    while index < chars.len() - 1
        invariant
            index < chars.len(),
            forall|i: int|
                0 <= i < index && i + 1 < chars.len() ==> !(#[trigger] chars@[i] == ':' && chars@[i
                    + 1] == ':'),
        decreases chars.len() - index,
    {
        if chars[index] == ':' && chars[index + 1] == ':' {
            proof {
                lemma_gap_index_is(chars@, index as int);
            }
            return index;
        }
        index = index + 1;
    }
    proof {
        lemma_gap_index_is(chars@, chars.len() as int);
    }
    chars.len()
}

/// The address that eight groups make up.
fn assemble(groups: &Vec<u16>) -> (address: u128)
    requires
        groups.len() == 8,
    ensures
        address as int == address_of_groups(groups@),
{
    let a: u128 = groups[0] as u128 * 0x1_0000_0000_0000_0000_0000_0000_0000;
    let b: u128 = groups[1] as u128 * 0x1_0000_0000_0000_0000_0000_0000;
    let c: u128 = groups[2] as u128 * 0x1_0000_0000_0000_0000_0000;
    let d: u128 = groups[3] as u128 * 0x1_0000_0000_0000_0000;
    let e: u128 = groups[4] as u128 * 0x1_0000_0000_0000;
    let f: u128 = groups[5] as u128 * 0x1_0000_0000;
    let g: u128 = groups[6] as u128 * 0x1_0000;
    let h: u128 = groups[7] as u128;
    a + b + c + d + e + f + g + h
}

/// The IPv6 address that a text denotes.
pub fn parse_ipv6(chars: &Vec<char>) -> (address: Option<u128>)
    ensures
        address == ipv6_of(chars@),
{
    let gap = find_gap(chars);
    if gap < chars.len() {
        let before = slice_of(chars, 0, gap);
        let after = slice_of(chars, gap + 2, chars.len());
        assert(before@ =~= chars@.take(gap as int));
        assert(after@ =~= chars@.skip(gap + 2));
        let head = match parse_group_list(&before, false) {
            Some(groups) => groups,
            None => {
                return None;
            },
        };
        let mut tail = match parse_group_list(&after, true) {
            Some(groups) => groups,
            None => {
                return None;
            },
        };
        if head.len() > 7 || tail.len() > 7 - head.len() {
            return None;
        }
        let ghost head_groups = head@;
        let ghost tail_groups = tail@;
        let zeros: usize = 8 - head.len() - tail.len();
        let mut groups = head;
        let mut filled: usize = 0;
        while filled < zeros
            invariant
                filled <= zeros,
                groups@ == head_groups + Seq::new(filled as nat, |i: int| 0u16),
            decreases zeros - filled,
        {
            groups.push(0);
            assert(groups@ =~= head_groups + Seq::new((filled + 1) as nat, |i: int| 0u16));
            filled = filled + 1;
        }
        groups.append(&mut tail);
        assert(groups@ =~= fill_gap(head_groups, tail_groups));
        Some(assemble(&groups))
    } else {
        match parse_group_list(chars, true) {
            Some(groups) => {
                if groups.len() == 8 {
                    Some(assemble(&groups))
                } else {
                    None
                }
            },
            None => None,
        }
    }
}

/// The address that a text denotes, of either family.
pub fn parse_ip(chars: &Vec<char>) -> (address: Option<IpAddress>)
    ensures
        address == ip_of(chars@),
{
    match parse_ipv4(chars) {
        Some(bits) => Some(IpAddress::V4(bits)),
        None => match parse_ipv6(chars) {
            Some(bits) => Some(IpAddress::V6(bits)),
            None => None,
        },
    }
}

/// The endpoint that a text denotes as an IPv4 address, a colon and a port
/// in decimal digits.
pub open spec fn socket_v4_of(s: Seq<char>) -> Option<Endpoint> {
    let colon = prefix_len(s, not_char(':'));
    if 0 <= colon < s.len() && ipv4_of(s.take(colon)) is Some && digits_of(
        s.skip(colon + 1),
        0xFFFF,
    ) is Some {
        Some(
            Endpoint {
                ip: IpAddress::V4(ipv4_of(s.take(colon))->0),
                port: digits_of(s.skip(colon + 1), 0xFFFF)->0 as u16,
            },
        )
    } else {
        None
    }
}

/// The endpoint that a text denotes as an IPv6 address in square brackets,
/// a colon and a port in decimal digits. Inside the brackets a percent sign
/// and a zone number, which is not kept, may follow the address.
pub open spec fn socket_v6_of(s: Seq<char>) -> Option<Endpoint> {
    let close = prefix_len(s, not_char(']'));
    if s.len() > 0 && s[0] == '[' && 1 <= close < s.len() {
        let inside = s.subrange(1, close);
        let percent = prefix_len(inside, not_char('%'));
        let zone_fits = percent >= inside.len() || digits_of(inside.skip(percent + 1), 0xFFFF_FFFF)
            is Some;
        if 0 <= percent <= inside.len() && ipv6_of(inside.take(percent)) is Some && zone_fits
            && close + 1 < s.len() && s[close + 1] == ':' && digits_of(s.skip(close + 2), 0xFFFF)
            is Some {
            Some(
                Endpoint {
                    ip: IpAddress::V6(ipv6_of(inside.take(percent))->0),
                    port: digits_of(s.skip(close + 2), 0xFFFF)->0 as u16,
                },
            )
        } else {
            None
        }
    } else {
        None
    }
}

/// The endpoint that a text denotes: an address and a port.
pub open spec fn socket_addr_of(s: Seq<char>) -> Option<Endpoint> {
    match socket_v4_of(s) {
        Some(endpoint) => Some(endpoint),
        None => socket_v6_of(s),
    }
}

/// The endpoint that a text denotes as an IPv4 address, a colon and a port.
fn parse_socket_v4(chars: &Vec<char>) -> (endpoint: Option<Endpoint>)
    ensures
        endpoint == socket_v4_of(chars@),
{
    let colon = find_char(chars, ':');
    if colon >= chars.len() {
        return None;
    }
    let address = slice_of(chars, 0, colon);
    assert(address@ =~= chars@.take(colon as int));
    let bits = match parse_ipv4(&address) {
        Some(bits) => bits,
        None => {
            return None;
        },
    };
    match parse_digits_from(chars, colon + 1, 0xFFFF) {
        Some(port) => Some(Endpoint { ip: IpAddress::V4(bits), port: port as u16 }),
        None => None,
    }
}

/// The endpoint that a text denotes as a bracketed IPv6 address, a colon
/// and a port.
fn parse_socket_v6(chars: &Vec<char>) -> (endpoint: Option<Endpoint>)
    ensures
        endpoint == socket_v6_of(chars@),
{
    if chars.len() == 0 || chars[0] != '[' {
        return None;
    }
    let close = find_char(chars, ']');
    if close >= chars.len() {
        return None;
    }
    let inside = slice_of(chars, 1, close);
    let percent = find_char(&inside, '%');
    let address = slice_of(&inside, 0, percent);
    assert(address@ =~= inside@.take(percent as int));
    let bits = match parse_ipv6(&address) {
        Some(bits) => bits,
        None => {
            return None;
        },
    };
    if percent < inside.len() {
        if parse_digits_from(&inside, percent + 1, 0xFFFF_FFFF).is_none() {
            return None;
        }
    }
    if close + 1 >= chars.len() || chars[close + 1] != ':' {
        return None;
    }
    match parse_digits_from(chars, close + 2, 0xFFFF) {
        Some(port) => Some(Endpoint { ip: IpAddress::V6(bits), port: port as u16 }),
        None => None,
    }
}

/// The endpoint that a text denotes: an address and a port.
pub fn parse_socket_addr(chars: &Vec<char>) -> (endpoint: Option<Endpoint>)
    ensures
        endpoint == socket_addr_of(chars@),
{
    match parse_socket_v4(chars) {
        Some(endpoint) => Some(endpoint),
        None => parse_socket_v6(chars),
    }
}

} // verus!
