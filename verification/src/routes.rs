//! The routing table of a host, and the choice of the route that a
//! destination takes: the matching route with the longest prefix.

use crate::clock::utc_now_rfc3339;
use crate::net::{ip_of, parse_ip, IpAddress};
use crate::text::{
    chars_of, parse_unsigned, same_text, split, split_on, string_of, texts_of, tokens, tokens_of,
    unsigned_of,
};
use crate::vpn_scan::lemma_pow2_monotone;
use vstd::arithmetic::power2::{
    lemma2_to64, lemma2_to64_rest, lemma_pow2_adds, lemma_pow2_unfold, pow2,
};
use vstd::prelude::*;

verus! {

/// One route.
#[derive(Debug)]
pub struct Route {
    /// The destination network in CIDR notation, or `default`.
    pub destination: String,
    pub gateway: Option<IpAddress>,
    pub interface: String,
    pub metric: u32,
    pub flags: Vec<String>,
}

/// The routes of one host at one time.
#[derive(Debug)]
pub struct RoutingTable {
    pub hostname: String,
    pub routes: Vec<Route>,
    pub timestamp: String,
}

/// Whether two addresses of `width` bits agree in their first `prefix_len`
/// bits. No prefix is longer than the address.
pub open spec fn same_prefix(network: int, address: int, width: nat, prefix_len: u8) -> bool {
    prefix_len == 0 || (prefix_len <= width && network / (pow2((width - prefix_len) as nat) as int)
        == address / (pow2((width - prefix_len) as nat) as int))
}

/// `2^bits`, for an exponent below the width of an IPv6 address.
fn wide_power_of_two(bits: u32) -> (block: u128)
    requires
        bits <= 127,
    ensures
        block as int == pow2(bits as nat),
        block >= 1,
{
    let mut block: u128 = 1;
    let mut done: u32 = 0;
    proof {
        lemma2_to64();
    }
    while done < bits
        invariant
            done <= bits <= 127,
            block as int == pow2(done as nat),
            block >= 1,
        decreases bits - done,
    {
        proof {
            lemma2_to64_rest();
            lemma_pow2_monotone((done + 1) as nat, 127);
            lemma_pow2_adds(64, 63);
            lemma_pow2_unfold((done + 1) as nat);
        }
        block = block * 2;
        done = done + 1;
    }
    block
}

/// Whether an IPv4 address lies in the network with the given prefix.
pub fn ip_v4_matches(network: u32, addr: u32, prefix_len: u8) -> (matches: bool)
    ensures
        matches == same_prefix(network as int, addr as int, 32, prefix_len),
{
    if prefix_len == 0 {
        return true;
    }
    if prefix_len > 32 {
        return false;
    }
    let block = wide_power_of_two((32 - prefix_len) as u32);
    network as u128 / block == addr as u128 / block
}

/// Whether an IPv6 address lies in the network with the given prefix.
pub fn ip_v6_matches(network: u128, addr: u128, prefix_len: u8) -> (matches: bool)
    ensures
        matches == same_prefix(network as int, addr as int, 128, prefix_len),
{
    if prefix_len == 0 {
        return true;
    }
    if prefix_len > 128 {
        return false;
    }
    let block = wide_power_of_two((128 - prefix_len) as u32);
    network / block == addr / block
}

/// Whether a destination stands for every address.
pub open spec fn is_default_route(cidr: Seq<char>) -> bool {
    cidr == "default"@ || cidr == "0.0.0.0/0"@ || cidr == "::/0"@
}

/// The prefix length that the text after the slash denotes; that of a
/// single host where there is no slash.
pub open spec fn prefix_len_of(parts: Seq<Seq<char>>, network: IpAddress) -> Option<u8> {
    if parts.len() > 1 {
        match unsigned_of(parts[1], 0xFF) {
            Some(prefix_len) => Some(prefix_len as u8),
            None => None,
        }
    } else {
        match network {
            IpAddress::V4(_) => Some(32u8),
            IpAddress::V6(_) => Some(128u8),
        }
    }
}

/// The prefix length of a destination, if the address lies in it. A
/// default route holds every address with prefix length zero. Otherwise the
/// destination is an address, or an address, a slash and a prefix length,
/// and holds the addresses of its own family that share its prefix.
pub open spec fn cidr_match_of(cidr: Seq<char>, ip: IpAddress) -> Option<u8> {
    let parts = split_on(cidr, '/');
    if is_default_route(cidr) {
        Some(0u8)
    } else if ip_of(parts[0]) is None {
        None
    } else if prefix_len_of(parts, ip_of(parts[0])->0) is None {
        None
    } else {
        let prefix_len = prefix_len_of(parts, ip_of(parts[0])->0)->0;
        match (ip_of(parts[0])->0, ip) {
            (IpAddress::V4(network), IpAddress::V4(address)) => if same_prefix(
                network as int,
                address as int,
                32,
                prefix_len,
            ) {
                Some(prefix_len)
            } else {
                None
            },
            (IpAddress::V6(network), IpAddress::V6(address)) => if same_prefix(
                network as int,
                address as int,
                128,
                prefix_len,
            ) {
                Some(prefix_len)
            } else {
                None
            },
            _ => None,
        }
    }
}

/// The prefix length of a destination in CIDR notation, if the address
/// lies in it.
pub fn matches_cidr(cidr: &str, ip: IpAddress) -> (matched: Option<u8>)
    ensures
        matched == cidr_match_of(cidr@, ip),
{
    let chars = chars_of(cidr);
    if same_text(&chars, &chars_of("default")) || same_text(&chars, &chars_of("0.0.0.0/0"))
        || same_text(&chars, &chars_of("::/0")) {
        return Some(0);
    }
    let parts = split(&chars, '/');
    assert(parts.len() >= 1) by {
        assert(texts_of(parts@).len() == parts@.len());
    }
    assert(texts_of(parts@)[0] == parts@[0]@);
    let network = match parse_ip(&parts[0]) {
        Some(network) => network,
        None => {
            return None;
        },
    };
    let prefix_len: u8 = if parts.len() > 1 {
        assert(texts_of(parts@)[1] == parts@[1]@);
        match parse_unsigned(&parts[1], 0xFF) {
            Some(prefix_len) => prefix_len as u8,
            None => {
                return None;
            },
        }
    } else {
        match network {
            IpAddress::V4(_) => 32,
            IpAddress::V6(_) => 128,
        }
    };
    match (network, ip) {
        (IpAddress::V4(net), IpAddress::V4(addr)) => {
            if ip_v4_matches(net, addr, prefix_len) {
                Some(prefix_len)
            } else {
                None
            }
        },
        (IpAddress::V6(net), IpAddress::V6(addr)) => {
            if ip_v6_matches(net, addr, prefix_len) {
                Some(prefix_len)
            } else {
                None
            }
        },
        _ => None,
    }
}

/// For each route, the prefix length with which it holds the address, if
/// it does.
pub open spec fn match_lengths(routes: Seq<Route>, dest: IpAddress) -> Seq<Option<u8>> {
    Seq::new(routes.len(), |i: int| cidr_match_of(routes[i].destination@, dest))
}

/// The place of the best match: the first of the matches with the longest
/// prefix.
pub open spec fn best_match(lengths: Seq<Option<u8>>) -> Option<int>
    decreases lengths.len(),
{
    if lengths.len() == 0 {
        None
    } else {
        let before = best_match(lengths.drop_last());
        match (lengths.last(), before) {
            (None, _) => before,
            (Some(_), None) => Some(lengths.len() - 1),
            (Some(length), Some(best)) => if length > lengths[best]->0 {
                Some(lengths.len() - 1)
            } else {
                before
            },
        }
    }
}

/// The best match is a match; no match has a longer prefix, and none
/// before it has one as long. There is a best match whenever there is a
/// match.
pub proof fn lemma_best_match(lengths: Seq<Option<u8>>)
    ensures
        match best_match(lengths) {
            Some(best) => {
                &&& 0 <= best < lengths.len()
                &&& lengths[best] is Some
                &&& forall|i: int|
                    0 <= i < lengths.len() && (#[trigger] lengths[i]) is Some ==> lengths[i]->0
                        <= lengths[best]->0
                &&& forall|i: int|
                    0 <= i < best && (#[trigger] lengths[i]) is Some ==> lengths[i]->0
                        < lengths[best]->0
            },
            None => forall|i: int| 0 <= i < lengths.len() ==> (#[trigger] lengths[i]) is None,
        },
    decreases lengths.len(),
{
    if lengths.len() > 0 {
        let init = lengths.drop_last();
        lemma_best_match(init);
        assert forall|i: int| 0 <= i < init.len() implies #[trigger] init[i] == lengths[i] by {}
        match best_match(lengths) {
            Some(best) => {
                assert forall|i: int|
                    0 <= i < lengths.len() && (#[trigger] lengths[i]) is Some implies lengths[i]->0
                    <= lengths[best]->0 by {
                    if i < init.len() {
                        assert(init[i] is Some);
                    }
                }
                assert forall|i: int| 0 <= i < best && (#[trigger] lengths[i]) is Some implies
                    lengths[i]->0 < lengths[best]->0 by {
                    assert(init[i] is Some);
                }
            },
            None => {
                assert forall|i: int| 0 <= i < lengths.len() implies (#[trigger] lengths[i])
                    is None by {
                    if i < init.len() {
                        assert(init[i] is None);
                    }
                }
            },
        }
    }
}

/// The routes of a table, ready for lookups.
#[derive(Debug)]
pub struct RouteEngine {
    routes: Vec<Route>,
}

/// A copy of a list of strings.
fn copy_strings(strings: &Vec<String>) -> (copy: Vec<String>)
    ensures
        copy@.len() == strings@.len(),
        forall|i: int| 0 <= i < strings@.len() ==> (#[trigger] copy@[i])@ == strings@[i]@,
{
    let mut copy: Vec<String> = Vec::new();
    let mut index: usize = 0;
    while index < strings.len()
        invariant
            index <= strings.len(),
            copy@.len() == index,
            forall|i: int| 0 <= i < index ==> (#[trigger] copy@[i])@ == strings@[i]@,
        decreases strings.len() - index,
    {
        copy.push(strings[index].clone());
        index = index + 1;
    }
    copy
}

/// Whether two routes say the same.
pub open spec fn same_route(left: Route, right: Route) -> bool {
    &&& left.destination@ == right.destination@
    &&& left.gateway == right.gateway
    &&& left.interface@ == right.interface@
    &&& left.metric == right.metric
    &&& left.flags@.len() == right.flags@.len()
    &&& forall|i: int|
        0 <= i < left.flags@.len() ==> (#[trigger] left.flags@[i])@ == right.flags@[i]@
}

impl RouteEngine {
    /// The routes held, in the order of the table.
    pub closed spec fn spec_routes(&self) -> Seq<Route> {
        self.routes@
    }

    /// An engine over the routes of a table.
    pub fn new(routing_table: &RoutingTable) -> (engine: Self)
        ensures
            engine.spec_routes().len() == routing_table.routes@.len(),
            forall|i: int|
                0 <= i < routing_table.routes@.len() ==> same_route(
                    #[trigger] engine.spec_routes()[i],
                    routing_table.routes@[i],
                ),
    {
        let mut routes: Vec<Route> = Vec::new();
        let mut index: usize = 0;
        while index < routing_table.routes.len()
            invariant
                index <= routing_table.routes.len(),
                routes@.len() == index,
                forall|i: int|
                    0 <= i < index ==> same_route(#[trigger] routes@[i], routing_table.routes@[i]),
            decreases routing_table.routes.len() - index,
        {
            let route = &routing_table.routes[index];
            routes.push(
                Route {
                    destination: route.destination.clone(),
                    gateway: route.gateway,
                    interface: route.interface.clone(),
                    metric: route.metric,
                    flags: copy_strings(&route.flags),
                },
            );
            index = index + 1;
        }
        RouteEngine { routes }
    }

    /// The route that a destination takes: of the routes that hold the
    /// address, the one with the longest prefix, and of several such the
    /// first.
    pub fn lookup(&self, dest: IpAddress) -> (found: Option<&Route>)
        ensures
            match best_match(match_lengths(self.spec_routes(), dest)) {
                Some(best) => found == Some(&self.spec_routes()[best]),
                None => found is None,
            },
    {
        let ghost lengths = match_lengths(self.routes@, dest);
        let mut best: Option<(usize, u8)> = None;
        let mut index: usize = 0;
        assert(lengths.take(0) =~= Seq::<Option<u8>>::empty());
        while index < self.routes.len()
            invariant
                index <= self.routes.len(),
                lengths == match_lengths(self.routes@, dest),
                match best_match(lengths.take(index as int)) {
                    Some(place) => best == Some((place as usize, lengths[place]->0)) && 0 <= place
                        < index && lengths[place] is Some,
                    None => best is None,
                },
            decreases self.routes.len() - index,
        {
            proof {
                let upto = lengths.take(index + 1);
                assert(upto.drop_last() =~= lengths.take(index as int));
                assert(upto.last() == lengths[index as int]);
                lemma_best_match(lengths.take(index as int));
                match best_match(lengths.take(index as int)) {
                    Some(place) => {
                        assert(upto[place] == lengths[place]);
                    },
                    None => {},
                }
            }
            match matches_cidr(self.routes[index].destination.as_str(), dest) {
                Some(prefix_len) => {
                    match best {
                        None => {
                            best = Some((index, prefix_len));
                        },
                        Some((_, current)) => {
                            if prefix_len > current {
                                best = Some((index, prefix_len));
                            }
                        },
                    }
                },
                None => {},
            }
            index = index + 1;
        }
        assert(lengths.take(lengths.len() as int) =~= lengths);
        match best {
            Some((place, _)) => Some(&self.routes[place]),
            None => None,
        }
    }
}

/// What the words of a route line say besides the destination.
pub struct RouteFields {
    pub gateway: Option<IpAddress>,
    pub interface: Seq<char>,
    pub metric: u32,
}

/// The fields of a route of which nothing is said.
pub open spec fn unset_fields() -> RouteFields {
    RouteFields { gateway: None, interface: Seq::empty(), metric: 0 }
}

/// The metric that a word denotes; zero if it denotes none.
pub open spec fn metric_of(word: Seq<char>) -> u32 {
    match unsigned_of(word, 0xFFFF_FFFF) {
        Some(metric) => metric as u32,
        None => 0u32,
    }
}

/// What the words from `at` on add to the fields read so far. `via`, `dev`
/// and `metric` each set a field from the word that follows them, a later
/// one overriding an earlier one; every other word is passed over, and so
/// is one of the three that stands last.
pub open spec fn fields_from(words: Seq<Seq<char>>, at: int, fields: RouteFields) -> RouteFields
    decreases words.len() - at,
{
    if at < 0 || at >= words.len() {
        fields
    } else if at + 1 < words.len() && words[at] == "via"@ {
        fields_from(words, at + 2, RouteFields { gateway: ip_of(words[at + 1]), ..fields })
    } else if at + 1 < words.len() && words[at] == "dev"@ {
        fields_from(words, at + 2, RouteFields { interface: words[at + 1], ..fields })
    } else if at + 1 < words.len() && words[at] == "metric"@ {
        fields_from(words, at + 2, RouteFields { metric: metric_of(words[at + 1]), ..fields })
    } else {
        fields_from(words, at + 1, fields)
    }
}

/// The value of a route that carries no flags.
pub struct RouteEntry {
    pub destination: Seq<char>,
    pub gateway: Option<IpAddress>,
    pub interface: Seq<char>,
    pub metric: u32,
}

/// The route that a line of words stands for: the first word is the
/// destination, `default` standing for all of IPv4, and the rest are its
/// fields.
pub open spec fn route_of_words(words: Seq<Seq<char>>) -> RouteEntry
    recommends
        words.len() > 0,
{
    let fields = fields_from(words, 1, unset_fields());
    RouteEntry {
        destination: if words[0] == "default"@ {
            "0.0.0.0/0"@
        } else {
            words[0]
        },
        gateway: fields.gateway,
        interface: fields.interface,
        metric: fields.metric,
    }
}

/// The routes that the given lines stand for: one for each line that has
/// a word.
pub open spec fn routes_of_lines(lines: Seq<Seq<char>>) -> Seq<RouteEntry>
    decreases lines.len(),
{
    if lines.len() == 0 {
        Seq::empty()
    } else {
        let words = tokens_of(lines.last());
        if words.len() > 0 {
            routes_of_lines(lines.drop_last()).push(route_of_words(words))
        } else {
            routes_of_lines(lines.drop_last())
        }
    }
}

/// A route without its flags.
pub open spec fn entry_of(route: Route) -> RouteEntry {
    RouteEntry {
        destination: route.destination@,
        gateway: route.gateway,
        interface: route.interface@,
        metric: route.metric,
    }
}

/// The routes of a list without their flags, in order.
pub open spec fn route_entries_of(routes: Seq<Route>) -> Seq<RouteEntry> {
    Seq::new(routes.len(), |i: int| entry_of(routes[i]))
}

/// The route that a line of words stands for.
fn route_from_words(words: &Vec<Vec<char>>) -> (route: Route)
    requires
        words.len() > 0,
    ensures
        entry_of(route) == route_of_words(texts_of(words@)),
        route.flags@.len() == 0,
{
    let ghost texts = texts_of(words@);
    let via_word = chars_of("via");
    let dev_word = chars_of("dev");
    let metric_word = chars_of("metric");
    assert(texts[0] == words@[0]@);
    let destination = if same_text(&words[0], &chars_of("default")) {
        "0.0.0.0/0".to_owned()
    } else {
        string_of(&words[0])
    };
    let mut gateway: Option<IpAddress> = None;
    let mut interface = String::new();
    let mut metric: u32 = 0;
    let mut at: usize = 1;
    while at < words.len()
        invariant
            1 <= at,
            texts == texts_of(words@),
            via_word@ == "via"@,
            dev_word@ == "dev"@,
            metric_word@ == "metric"@,
            fields_from(texts, 1, unset_fields()) == fields_from(
                texts,
                at as int,
                (RouteFields { gateway, interface: interface@, metric }),
            ),
        decreases words.len() - at,
    {
        assert(texts[at as int] == words@[at as int]@);
        if at < words.len() - 1 {
            assert(texts[at + 1] == words@[at + 1]@);
            if same_text(&words[at], &via_word) {
                gateway = parse_ip(&words[at + 1]);
                at = at + 2;
            } else if same_text(&words[at], &dev_word) {
                interface = string_of(&words[at + 1]);
                at = at + 2;
            } else if same_text(&words[at], &metric_word) {
                metric = match parse_unsigned(&words[at + 1], 0xFFFF_FFFF) {
                    Some(value) => value as u32,
                    None => 0,
                };
                at = at + 2;
            } else {
                at = at + 1;
            }
        } else {
            at = at + 1;
        }
    }
    Route { destination, gateway, interface, metric, flags: Vec::new() }
}

/// Reads the routes out of what `ip route show` prints: one route for each
/// line that is not blank, none of them with flags. A line is what stands
/// between line feeds.
pub fn parse_ip_route(output: &str) -> (routes: Vec<Route>)
    ensures
        route_entries_of(routes@) == routes_of_lines(split_on(output@, '\n')),
        forall|i: int| 0 <= i < routes@.len() ==> (#[trigger] routes@[i]).flags@.len() == 0,
{
    let chars = chars_of(output);
    let lines = split(&chars, '\n');
    let ghost texts = texts_of(lines@);
    let mut routes: Vec<Route> = Vec::new();
    let mut index: usize = 0;
    proof {
        assert(texts.take(0) =~= Seq::<Seq<char>>::empty());
        assert(route_entries_of(routes@) =~= Seq::<RouteEntry>::empty());
    }
    while index < lines.len()
        invariant
            index <= lines.len(),
            texts == texts_of(lines@),
            route_entries_of(routes@) == routes_of_lines(texts.take(index as int)),
            forall|i: int| 0 <= i < routes@.len() ==> (#[trigger] routes@[i]).flags@.len() == 0,
        decreases lines.len() - index,
    {
        proof {
            assert(texts.take(index + 1).drop_last() =~= texts.take(index as int));
            assert(texts.take(index + 1).last() == lines@[index as int]@);
        }
        let words = tokens(&lines[index]);
        if words.len() > 0 {
            let ghost before = route_entries_of(routes@);
            let route = route_from_words(&words);
            routes.push(route);
            assert(route_entries_of(routes@) =~= before.push(entry_of(route)));
        }
        index = index + 1;
    }
    assert(texts.take(texts.len() as int) =~= texts);
    routes
}

/// The name to show for this host: the one found, or `unknown`.
pub fn hostname_or_unknown(found: Option<String>) -> (hostname: String)
    ensures
        hostname@ == match found {
            Some(name) => name@,
            None => "unknown"@,
        },
{
    match found {
        Some(name) => name,
        None => "unknown".to_owned(),
    }
}

/// Asks the system for the name of this host with `hostname::get`, and
/// hands it out if it is valid Unicode.
///
/// Trusted: nothing; the name is the system's.
#[verifier::external_body]
pub(crate) fn system_hostname() -> (found: Option<String>) {
    match hostname::get() {
        Ok(name) => match name.into_string() {
            Ok(text) => Some(text),
            Err(_) => None,
        },
        Err(_) => None,
    }
}

/// The name to show for this host.
pub fn get_hostname() -> (hostname: String) {
    hostname_or_unknown(system_hostname())
}

/// The table of the given routes, under the name of this host and stamped
/// with the present time.
pub fn routing_table(routes: Vec<Route>) -> (table: RoutingTable)
    ensures
        table.routes == routes,
{
    RoutingTable { hostname: get_hostname(), routes, timestamp: utc_now_rfc3339() }
}

/// A JSON value, as `serde_json` holds it.
#[verifier::external_type_specification]
#[verifier::external_body]
pub struct ExJsonValue(serde_json::Value);

/// Why a text is no JSON, as `serde_json` reports it.
#[verifier::external_type_specification]
#[verifier::external_body]
pub struct ExJsonError(serde_json::Error);

/// What a JSON value holds.
pub enum JsonItem {
    /// A string.
    Text(Seq<char>),
    /// A number that is whole, not negative and no larger than 64 bits hold.
    Whole(u64),
    /// An array, with what its elements hold.
    List(Seq<JsonItem>),
    /// An object, with what its members hold, each under its key.
    Record(Map<Seq<char>, JsonItem>),
    /// Anything else: null, a truth value, any other number.
    Other,
}

/// What a JSON value holds.
pub uninterp spec fn json_item(value: serde_json::Value) -> JsonItem;

/// What the elements of the JSON array hold that a text denotes, or `None`
/// if the text denotes no JSON array.
pub uninterp spec fn json_array_of(text: Seq<char>) -> Option<Seq<JsonItem>>;

/// What a list of JSON values holds, value by value.
pub open spec fn items_of(values: Seq<serde_json::Value>) -> Seq<JsonItem> {
    Seq::new(values.len(), |i: int| json_item(values[i]))
}

/// Reads a text as a JSON array with `serde_json::from_str`.
///
/// Trusted: that the outcome is a function of the text alone, by the name
/// [`json_array_of`]: the text is accepted exactly if that is not `None`,
/// and the values handed out hold what it says. Nothing is claimed of which
/// texts are accepted.
#[verifier::external_body]
fn json_array(text: &str) -> (parsed: Result<Vec<serde_json::Value>, serde_json::Error>)
    ensures
        match json_array_of(text@) {
            Some(items) => parsed is Ok && items_of(parsed->Ok_0@) == items,
            None => parsed is Err,
        },
{
    serde_json::from_str(text)
}

/// The member of a JSON object under a key, with `serde_json::Value::get`.
///
/// Trusted: that an object hands out its member under the key, if it has
/// one, and that every other value and every other key gives nothing.
#[verifier::external_body]
fn json_member<'a>(value: &'a serde_json::Value, key: &str) -> (member: Option<
    &'a serde_json::Value,
>)
    ensures
        match json_item(*value) {
            JsonItem::Record(members) => if members.contains_key(key@) {
                member is Some && json_item(*member->0) == members[key@]
            } else {
                member is None
            },
            _ => member is None,
        },
{
    value.get(key)
}

/// The text of a JSON string, with `serde_json::Value::as_str`.
///
/// Trusted: that a string hands out its text, and every other value
/// nothing.
#[verifier::external_body]
fn json_text<'a>(value: &'a serde_json::Value) -> (text: Option<&'a str>)
    ensures
        match json_item(*value) {
            JsonItem::Text(held) => text is Some && text->0@ == held,
            _ => text is None,
        },
{
    value.as_str()
}

/// The value of a JSON number that is whole, not negative and no larger
/// than 64 bits hold, with `serde_json::Value::as_u64`.
///
/// Trusted: that such a number hands out its value, and every other value
/// nothing.
#[verifier::external_body]
fn json_number(value: &serde_json::Value) -> (number: Option<u64>)
    ensures
        number == match json_item(*value) {
            JsonItem::Whole(held) => Some(held),
            _ => None,
        },
{
    value.as_u64()
}

/// The elements of a JSON array, with `serde_json::Value::as_array`.
///
/// Trusted: that an array hands out its elements in order, and every other
/// value nothing.
#[verifier::external_body]
fn json_elements<'a>(value: &'a serde_json::Value) -> (elements: Option<
    &'a Vec<serde_json::Value>,
>)
    ensures
        match json_item(*value) {
            JsonItem::List(items) => elements is Some && items_of(elements->0@) == items,
            _ => elements is None,
        },
{
    value.as_array()
}

/// The words of a `serde_json::Error`, with its `to_string`.
///
/// Trusted: nothing.
#[verifier::external_body]
fn json_error_text(error: &serde_json::Error) -> (text: String) {
    error.to_string()
}

/// What one element of a JSON routing table says of a route. A field is
/// absent where the element has no such member or has one of another type.
#[derive(Debug)]
pub struct JsonRoute {
    /// The member `dst`, if it is a string.
    pub dst: Option<String>,
    /// The member `gateway`, if it is a string.
    pub gateway: Option<String>,
    /// The member `dev`, if it is a string.
    pub dev: Option<String>,
    /// The member `metric`, if it is a whole number.
    pub metric: Option<u64>,
    /// The member `flags`, if it is an array: for each element its text,
    /// if it is a string.
    pub flags: Option<Vec<Option<String>>>,
}

/// The value of a [`JsonRoute`].
pub struct JsonFields {
    pub dst: Option<Seq<char>>,
    pub gateway: Option<Seq<char>>,
    pub dev: Option<Seq<char>>,
    pub metric: Option<u64>,
    pub flags: Option<Seq<Option<Seq<char>>>>,
}

/// The text that a string holds, if there is one.
pub open spec fn text_view(text: Option<String>) -> Option<Seq<char>> {
    match text {
        Some(text) => Some(text@),
        None => None,
    }
}

/// The texts that a list of strings holds, in order, where there is one.
pub open spec fn texts_view(texts: Seq<Option<String>>) -> Seq<Option<Seq<char>>> {
    Seq::new(texts.len(), |i: int| text_view(texts[i]))
}

impl View for JsonRoute {
    type V = JsonFields;

    open spec fn view(&self) -> JsonFields {
        JsonFields {
            dst: text_view(self.dst),
            gateway: text_view(self.gateway),
            dev: text_view(self.dev),
            metric: self.metric,
            flags: match self.flags {
                Some(flags) => Some(texts_view(flags@)),
                None => None,
            },
        }
    }
}

/// The value of a [`Route`], flags and all.
pub struct RouteRecord {
    pub destination: Seq<char>,
    pub gateway: Option<IpAddress>,
    pub interface: Seq<char>,
    pub metric: u32,
    pub flags: Seq<Seq<char>>,
}

/// The texts that a list of strings holds, in order.
pub open spec fn flag_texts(flags: Seq<String>) -> Seq<Seq<char>> {
    Seq::new(flags.len(), |i: int| flags[i]@)
}

/// A route as a value.
pub open spec fn route_record_of(route: Route) -> RouteRecord {
    RouteRecord {
        destination: route.destination@,
        gateway: route.gateway,
        interface: route.interface@,
        metric: route.metric,
        flags: flag_texts(route.flags@),
    }
}

/// The texts that are present, in order.
pub open spec fn present_texts(entries: Seq<Option<Seq<char>>>) -> Seq<Seq<char>>
    decreases entries.len(),
{
    if entries.len() == 0 {
        Seq::empty()
    } else {
        match entries.last() {
            Some(text) => present_texts(entries.drop_last()).push(text),
            None => present_texts(entries.drop_last()),
        }
    }
}

/// The route that the fields of an element stand for. Without a
/// destination the route is the default route, without a device its
/// interface is `unknown`, without a metric its metric is zero. A gateway
/// that is no address is no gateway. A metric keeps its low 32 bits. The
/// flags are those that are strings.
pub open spec fn route_of_fields(fields: JsonFields) -> RouteRecord {
    RouteRecord {
        destination: match fields.dst {
            Some(dst) => dst,
            None => "default"@,
        },
        gateway: match fields.gateway {
            Some(gateway) => ip_of(gateway),
            None => None,
        },
        interface: match fields.dev {
            Some(dev) => dev,
            None => "unknown"@,
        },
        metric: match fields.metric {
            Some(metric) => (metric as int % 0x1_0000_0000) as u32,
            None => 0u32,
        },
        flags: match fields.flags {
            Some(flags) => present_texts(flags),
            None => Seq::empty(),
        },
    }
}

/// The text that a JSON value holds, if it is a string.
pub open spec fn text_of(item: JsonItem) -> Option<Seq<char>> {
    match item {
        JsonItem::Text(held) => Some(held),
        _ => None,
    }
}

/// What the member under a key holds, if the value is an object that has
/// one.
pub open spec fn member_of(item: JsonItem, key: Seq<char>) -> Option<JsonItem> {
    match item {
        JsonItem::Record(members) => if members.contains_key(key) {
            Some(members[key])
        } else {
            None
        },
        _ => None,
    }
}

/// The text of the member under a key, if there is such a member and it is
/// a string.
pub open spec fn text_member_of(item: JsonItem, key: Seq<char>) -> Option<Seq<char>> {
    match member_of(item, key) {
        Some(member) => text_of(member),
        None => None,
    }
}

/// The number of the member under a key, if there is such a member and it
/// is a whole number.
pub open spec fn number_member_of(item: JsonItem, key: Seq<char>) -> Option<u64> {
    match member_of(item, key) {
        Some(JsonItem::Whole(held)) => Some(held),
        _ => None,
    }
}

/// For each element of a list its text, if it is a string.
pub open spec fn element_texts(items: Seq<JsonItem>) -> Seq<Option<Seq<char>>> {
    Seq::new(items.len(), |i: int| text_of(items[i]))
}

/// The texts of the elements of the member under a key, if there is such a
/// member and it is an array.
pub open spec fn list_member_of(item: JsonItem, key: Seq<char>) -> Option<
    Seq<Option<Seq<char>>>,
> {
    match member_of(item, key) {
        Some(JsonItem::List(items)) => Some(element_texts(items)),
        _ => None,
    }
}

/// What an element of a JSON routing table says of a route: its members
/// `dst`, `gateway` and `dev` where they are strings, `metric` where it is
/// a whole number, and `flags` where it is an array.
pub open spec fn fields_of_item(item: JsonItem) -> JsonFields {
    JsonFields {
        dst: text_member_of(item, "dst"@),
        gateway: text_member_of(item, "gateway"@),
        dev: text_member_of(item, "dev"@),
        metric: number_member_of(item, "metric"@),
        flags: list_member_of(item, "flags"@),
    }
}

/// The route that an element of a JSON routing table stands for.
pub open spec fn route_of_item(item: JsonItem) -> RouteRecord {
    route_of_fields(fields_of_item(item))
}

/// The route that an element of a JSON routing table stands for. Without
/// a destination the route is the default route, without a device its
/// interface is `unknown`, without a metric its metric is zero. A gateway
/// that is no address is no gateway. A metric keeps its low 32 bits. The
/// flags are those that are strings.
pub fn route_from_json(fields: JsonRoute) -> (route: Route)
    ensures
        route_record_of(route) == route_of_fields(fields@),
{
    let ghost wanted = fields@;
    let destination = match fields.dst {
        Some(dst) => dst,
        None => "default".to_owned(),
    };
    let gateway = match fields.gateway {
        Some(gateway) => parse_ip(&chars_of(gateway.as_str())),
        None => None,
    };
    let interface = match fields.dev {
        Some(dev) => dev,
        None => "unknown".to_owned(),
    };
    let metric: u32 = match fields.metric {
        Some(metric) => (metric % 0x1_0000_0000) as u32,
        None => 0,
    };
    let mut flags: Vec<String> = Vec::new();
    match fields.flags {
        Some(entries) => {
            let ghost texts = texts_view(entries@);
            let mut index: usize = 0;
            proof {
                assert(texts.take(0) =~= Seq::<Option<Seq<char>>>::empty());
                assert(flag_texts(flags@) =~= Seq::<Seq<char>>::empty());
            }
            while index < entries.len()
                invariant
                    index <= entries.len(),
                    texts == texts_view(entries@),
                    flag_texts(flags@) == present_texts(texts.take(index as int)),
                decreases entries.len() - index,
            {
                proof {
                    assert(texts.take(index + 1).drop_last() =~= texts.take(index as int));
                    assert(texts.take(index + 1).last() == text_view(entries@[index as int]));
                }
                match &entries[index] {
                    Some(flag) => {
                        let ghost before = flag_texts(flags@);
                        flags.push(flag.clone());
                        assert(flag_texts(flags@) =~= before.push(flag@));
                    },
                    None => {},
                }
                index = index + 1;
            }
            assert(texts.take(texts.len() as int) =~= texts);
        },
        None => {
            assert(flag_texts(flags@) =~= Seq::<Seq<char>>::empty());
        },
    }
    Route { destination, gateway, interface, metric, flags }
}

/// The text of a member, if the value has it and it is a string.
fn json_text_member(value: &serde_json::Value, key: &str) -> (text: Option<String>)
    ensures
        text_view(text) == text_member_of(json_item(*value), key@),
{
    match json_member(value, key) {
        Some(member) => match json_text(member) {
            Some(text) => Some(text.to_owned()),
            None => None,
        },
        None => None,
    }
}

/// What an element of a JSON routing table says of a route.
fn json_route(value: &serde_json::Value) -> (fields: JsonRoute)
    ensures
        fields@ == fields_of_item(json_item(*value)),
{
    let metric = match json_member(value, "metric") {
        Some(member) => json_number(member),
        None => None,
    };
    let flags = match json_member(value, "flags") {
        Some(member) => match json_elements(member) {
            Some(elements) => {
                let ghost items = items_of(elements@);
                let mut texts: Vec<Option<String>> = Vec::new();
                let mut index: usize = 0;
                while index < elements.len()
                    invariant
                        index <= elements.len(),
                        items == items_of(elements@),
                        texts@.len() == index,
                        forall|i: int|
                            0 <= i < index ==> text_view(#[trigger] texts@[i]) == text_of(items[i]),
                    decreases elements.len() - index,
                {
                    assert(items[index as int] == json_item(elements@[index as int]));
                    texts.push(
                        match json_text(&elements[index]) {
                            Some(text) => Some(text.to_owned()),
                            None => None,
                        },
                    );
                    index = index + 1;
                }
                assert(texts_view(texts@) =~= element_texts(items));
                Some(texts)
            },
            None => None,
        },
        None => None,
    };
    JsonRoute {
        dst: json_text_member(value, "dst"),
        gateway: json_text_member(value, "gateway"),
        dev: json_text_member(value, "dev"),
        metric,
        flags,
    }
}

/// Reads the routes out of what `ip -json route show` prints: a JSON array
/// with one element for each route, in order. Fails, with the reason in
/// words, if the text is no JSON array.
pub fn parse_ip_json(json_str: &str) -> (parsed: Result<Vec<Route>, String>)
    ensures
        match json_array_of(json_str@) {
            Some(items) => {
                &&& parsed is Ok
                &&& parsed->Ok_0@.len() == items.len()
                &&& forall|i: int|
                    0 <= i < items.len() ==> route_record_of(#[trigger] parsed->Ok_0@[i])
                        == route_of_item(items[i])
            },
            None => parsed is Err && "Failed to parse JSON: "@.is_prefix_of(parsed->Err_0@),
        },
{
    let values = match json_array(json_str) {
        Ok(values) => values,
        Err(error) => {
            let reason = json_error_text(&error);
            let message = "Failed to parse JSON: ".to_owned().concat(reason.as_str());
            return Err(message);
        },
    };
    let ghost items = items_of(values@);
    let mut routes: Vec<Route> = Vec::new();
    let mut index: usize = 0;
    while index < values.len()
        invariant
            index <= values.len(),
            items == items_of(values@),
            routes@.len() == index,
            forall|i: int|
                0 <= i < index ==> route_record_of(#[trigger] routes@[i]) == route_of_item(
                    items[i],
                ),
        decreases values.len() - index,
    {
        assert(items[index as int] == json_item(values@[index as int]));
        routes.push(route_from_json(json_route(&values[index])));
        index = index + 1;
    }
    Ok(routes)
}

} // verus!
