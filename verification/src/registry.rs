//! The membership table: which nodes are known, and how they were found.

use crate::clock::{elapsed_nanos, is_no_older_than, parse_rfc3339, rfc3339_instant, utc_now};
use crate::net::{copy_addresses, IpAddress};
use vstd::prelude::*;

verus! {

/// Whether a node is believed to be reachable.
#[derive(Debug, Clone, Copy, PartialEq, Eq, Structural)]
pub enum NodeStatus {
    Online,
    Offline,
    Unreachable,
}

/// One discovered node.
#[derive(Debug)]
pub struct NodeInfo {
    /// Stable identity of the node; the key of the table.
    pub id: String,
    /// Display name, not used for identity.
    pub hostname: String,
    /// Where the node may be reached; the first entry is its primary address.
    pub addresses: Vec<IpAddress>,
    /// The TCP port of the node's API.
    pub port: u16,
    pub status: NodeStatus,
    /// RFC 3339 time of the latest announcement or observation.
    pub last_seen: String,
    /// How the node was found: `broadcast`, `wireguard` or `vpn_scan`.
    pub discovered_via: String,
}

/// The value of a [`NodeInfo`].
pub struct NodeRecord {
    pub id: Seq<char>,
    pub hostname: Seq<char>,
    pub addresses: Seq<IpAddress>,
    pub port: u16,
    pub status: NodeStatus,
    pub last_seen: Seq<char>,
    pub discovered_via: Seq<char>,
}

impl View for NodeInfo {
    type V = NodeRecord;

    open spec fn view(&self) -> NodeRecord {
        NodeRecord {
            id: self.id@,
            hostname: self.hostname@,
            addresses: self.addresses@,
            port: self.port,
            status: self.status,
            last_seen: self.last_seen@,
            discovered_via: self.discovered_via@,
        }
    }
}

impl Clone for NodeInfo {
    fn clone(&self) -> (copy: Self)
        ensures
            copy@ == self@,
    {
        NodeInfo {
            id: self.id.clone(),
            hostname: self.hostname.clone(),
            addresses: copy_addresses(&self.addresses),
            port: self.port,
            status: self.status,
            last_seen: self.last_seen.clone(),
            discovered_via: self.discovered_via.clone(),
        }
    }
}

/// The values of a list of nodes, in order.
pub open spec fn records_of(nodes: Seq<NodeInfo>) -> Seq<NodeRecord> {
    Seq::new(nodes.len(), |i: int| nodes[i]@)
}

/// Whether no two records share an id.
pub open spec fn distinct_ids(records: Seq<NodeRecord>) -> bool {
    forall|i: int, j: int| 0 <= i < j < records.len() ==> records[i].id != records[j].id
}

/// Whether some record has the given id.
pub open spec fn holds_id(records: Seq<NodeRecord>, id: Seq<char>) -> bool {
    exists|i: int| 0 <= i < records.len() && #[trigger] records[i].id == id
}

/// A record with the given id, if there is one.
pub open spec fn record_with_id(records: Seq<NodeRecord>, id: Seq<char>) -> NodeRecord {
    records[choose|i: int| 0 <= i < records.len() && #[trigger] records[i].id == id]
}

/// The table that a list of records stands for: each record under its id.
pub open spec fn table_of(records: Seq<NodeRecord>) -> Map<Seq<char>, NodeRecord> {
    Map::new(|id: Seq<char>| holds_id(records, id), |id: Seq<char>| record_with_id(records, id))
}

/// Whether `records` lists exactly the entries of `table`, each once.
pub open spec fn lists_table(records: Seq<NodeRecord>, table: Map<Seq<char>, NodeRecord>) -> bool {
    &&& distinct_ids(records)
    &&& forall|i: int|
        0 <= i < records.len() ==> table.contains_key(#[trigger] records[i].id)
            && table[records[i].id] == records[i]
    &&& forall|id: Seq<char>| #[trigger] table.contains_key(id) ==> holds_id(records, id)
}

/// A list of records with distinct ids lists the table it stands for.
pub proof fn lemma_table_of_lists(records: Seq<NodeRecord>)
    requires
        distinct_ids(records),
    ensures
        lists_table(records, table_of(records)),
{
    assert forall|i: int| 0 <= i < records.len() implies table_of(records).contains_key(
        #[trigger] records[i].id,
    ) && table_of(records)[records[i].id] == records[i] by {
        let id = records[i].id;
        assert(holds_id(records, id));
        let k = choose|k: int| 0 <= k < records.len() && #[trigger] records[k].id == id;
        assert(k == i);
    }
}

/// A table has at most one listing up to order: two lists of the same table
/// hold the same records.
pub proof fn lemma_listing_determined(
    first: Seq<NodeRecord>,
    second: Seq<NodeRecord>,
    table: Map<Seq<char>, NodeRecord>,
)
    requires
        lists_table(first, table),
        lists_table(second, table),
    ensures
        forall|i: int| 0 <= i < first.len() ==> second.contains(#[trigger] first[i]),
{
    assert forall|i: int| 0 <= i < first.len() implies second.contains(#[trigger] first[i]) by {
        let id = first[i].id;
        assert(table.contains_key(id));
        assert(holds_id(second, id));
        let k = choose|k: int| 0 <= k < second.len() && #[trigger] second[k].id == id;
        assert(second[k] == table[id]);
    }
}

/// Replacing the record at `index` by one with the same id overwrites the
/// entry under that id.
pub proof fn lemma_table_update(records: Seq<NodeRecord>, index: int, record: NodeRecord)
    requires
        distinct_ids(records),
        0 <= index < records.len(),
        records[index].id == record.id,
    ensures
        distinct_ids(records.update(index, record)),
        table_of(records.update(index, record)) == table_of(records).insert(record.id, record),
{
    let after = records.update(index, record);
    lemma_table_of_lists(records);
    lemma_table_of_lists(after);
    assert forall|id: Seq<char>| holds_id(after, id) <==> holds_id(records, id) || id
        == record.id by {
        if holds_id(after, id) {
            let k = choose|k: int| 0 <= k < after.len() && #[trigger] after[k].id == id;
            assert(records[k].id == id);
        }
        if holds_id(records, id) {
            let k = choose|k: int| 0 <= k < records.len() && #[trigger] records[k].id == id;
            assert(after[k].id == id);
        }
        if id == record.id {
            assert(after[index].id == id);
        }
    }
    assert forall|id: Seq<char>| holds_id(after, id) implies table_of(after)[id] == table_of(
        records,
    ).insert(record.id, record)[id] by {
        let k = choose|k: int| 0 <= k < after.len() && #[trigger] after[k].id == id;
        assert(table_of(after)[after[k].id] == after[k]);
        if k != index {
            assert(records[k].id == id);
            assert(table_of(records)[records[k].id] == records[k]);
        }
    }
    assert(table_of(after) =~= table_of(records).insert(record.id, record));
}

/// Appending a record under a new id adds an entry under that id.
pub proof fn lemma_table_push(records: Seq<NodeRecord>, record: NodeRecord)
    requires
        distinct_ids(records),
        !holds_id(records, record.id),
    ensures
        distinct_ids(records.push(record)),
        table_of(records.push(record)) == table_of(records).insert(record.id, record),
{
    let after = records.push(record);
    assert forall|i: int, j: int| 0 <= i < j < after.len() implies after[i].id != after[j].id by {
        if j == records.len() {
            assert(records[i].id == after[i].id);
        }
    }
    lemma_table_of_lists(records);
    lemma_table_of_lists(after);
    assert forall|id: Seq<char>| holds_id(after, id) <==> holds_id(records, id) || id
        == record.id by {
        if holds_id(after, id) {
            let k = choose|k: int| 0 <= k < after.len() && #[trigger] after[k].id == id;
            if k < records.len() {
                assert(records[k].id == id);
            }
        }
        if holds_id(records, id) {
            let k = choose|k: int| 0 <= k < records.len() && #[trigger] records[k].id == id;
            assert(after[k].id == id);
        }
        if id == record.id {
            assert(after[records.len() as int].id == id);
        }
    }
    assert forall|id: Seq<char>| holds_id(after, id) implies table_of(after)[id] == table_of(
        records,
    ).insert(record.id, record)[id] by {
        let k = choose|k: int| 0 <= k < after.len() && #[trigger] after[k].id == id;
        assert(table_of(after)[after[k].id] == after[k]);
        if k < records.len() {
            assert(records[k].id == id);
            assert(table_of(records)[records[k].id] == records[k]);
        }
    }
    assert(table_of(after) =~= table_of(records).insert(record.id, record));
}

/// Taking the record at `index` out of the list takes its entry out of the
/// table.
pub proof fn lemma_table_remove(records: Seq<NodeRecord>, index: int)
    requires
        distinct_ids(records),
        0 <= index < records.len(),
    ensures
        distinct_ids(records.remove(index)),
        table_of(records.remove(index)) == table_of(records).remove(records[index].id),
{
    let after = records.remove(index);
    let gone = records[index].id;
    assert forall|i: int| 0 <= i < after.len() implies #[trigger] after[i] == records[if i
        < index {
        i
    } else {
        i + 1
    }] by {}
    assert(distinct_ids(after));
    lemma_table_of_lists(records);
    lemma_table_of_lists(after);
    assert forall|id: Seq<char>| holds_id(after, id) <==> holds_id(records, id) && id != gone by {
        if holds_id(after, id) {
            let k = choose|k: int| 0 <= k < after.len() && #[trigger] after[k].id == id;
            let from = if k < index {
                k
            } else {
                k + 1
            };
            assert(records[from].id == id);
        }
        if holds_id(records, id) && id != gone {
            let k = choose|k: int| 0 <= k < records.len() && #[trigger] records[k].id == id;
            let to = if k < index {
                k
            } else {
                k - 1
            };
            assert(after[to].id == id);
        }
    }
    assert forall|id: Seq<char>| holds_id(after, id) implies table_of(after)[id] == table_of(
        records,
    ).remove(gone)[id] by {
        let k = choose|k: int| 0 <= k < after.len() && #[trigger] after[k].id == id;
        assert(table_of(after)[after[k].id] == after[k]);
        let from = if k < index {
            k
        } else {
            k + 1
        };
        assert(records[from].id == id);
        assert(table_of(records)[records[from].id] == records[from]);
    }
    assert(table_of(after) =~= table_of(records).remove(gone));
}

/// Whether a record last seen at the time written in `last_seen` is still
/// fresh at `now`: the time can be read, and no more than the timeout has
/// passed since.
pub open spec fn is_fresh(last_seen: Seq<char>, now: (i64, u32), timeout_seconds: u64) -> bool {
    match rfc3339_instant(last_seen) {
        Some(seen) => elapsed_nanos(now, seen) <= timeout_seconds * 1_000_000_000,
        None => false,
    }
}

/// The predicate that holds of the records that are fresh at `now`.
pub open spec fn fresh_at(now: (i64, u32), timeout_seconds: u64) -> spec_fn(NodeRecord) -> bool {
    |record: NodeRecord| is_fresh(record.last_seen, now, timeout_seconds)
}

/// What is left of a table once its stale entries are gone: the entries
/// that are fresh at `now`, unchanged.
pub open spec fn surviving(
    table: Map<Seq<char>, NodeRecord>,
    now: (i64, u32),
    timeout_seconds: u64,
) -> Map<Seq<char>, NodeRecord> {
    Map::new(
        |id: Seq<char>|
            table.contains_key(id) && is_fresh(table[id].last_seen, now, timeout_seconds),
        |id: Seq<char>| table[id],
    )
}

/// Keeping some records of a list with distinct ids keeps the ids distinct,
/// and keeps in the table exactly the entries whose record was kept.
pub proof fn lemma_table_filter(records: Seq<NodeRecord>, keep: spec_fn(NodeRecord) -> bool)
    requires
        distinct_ids(records),
    ensures
        distinct_ids(records.filter(keep)),
        forall|id: Seq<char>| #[trigger]
            table_of(records.filter(keep)).contains_key(id) <==> table_of(records).contains_key(id)
                && keep(table_of(records)[id]),
        forall|id: Seq<char>| #[trigger]
            table_of(records.filter(keep)).contains_key(id) ==> table_of(records.filter(keep))[id]
                == table_of(records)[id],
    decreases records.len(),
{
    reveal(Seq::filter);
    let kept = records.filter(keep);
    if records.len() > 0 {
        let init = records.drop_last();
        let last = records.last();
        lemma_table_filter(init, keep);
        let kept_init = init.filter(keep);
        assert forall|i: int| 0 <= i < kept_init.len() implies #[trigger] kept_init[i].id
            != last.id by {
            assert(kept_init.contains(kept_init[i]));
            init.lemma_filter_contains_rev(keep, kept_init[i]);
            let k = choose|k: int| 0 <= k < init.len() && init[k] == kept_init[i];
            assert(records[k].id != records[records.len() - 1].id);
        }
        assert(distinct_ids(kept));
    }
    lemma_table_of_lists(records);
    lemma_table_of_lists(kept);
    assert forall|id: Seq<char>| #[trigger]
        table_of(kept).contains_key(id) <==> table_of(records).contains_key(id) && keep(
            table_of(records)[id],
        ) by {
        if table_of(kept).contains_key(id) {
            let i = choose|i: int| 0 <= i < kept.len() && #[trigger] kept[i].id == id;
            records.lemma_filter_pred(keep, i);
            assert(kept.contains(kept[i]));
            records.lemma_filter_contains_rev(keep, kept[i]);
            let k = choose|k: int| 0 <= k < records.len() && records[k] == kept[i];
            assert(records[k].id == id);
        }
        if table_of(records).contains_key(id) && keep(table_of(records)[id]) {
            let k = choose|k: int| 0 <= k < records.len() && #[trigger] records[k].id == id;
            assert(table_of(records)[records[k].id] == records[k]);
            records.lemma_filter_contains(keep, k);
            let i = choose|i: int| 0 <= i < kept.len() && kept[i] == records[k];
            assert(kept[i].id == id);
        }
    }
    assert forall|id: Seq<char>| #[trigger] table_of(kept).contains_key(id) implies table_of(
        kept,
    )[id] == table_of(records)[id] by {
        let i = choose|i: int| 0 <= i < kept.len() && #[trigger] kept[i].id == id;
        assert(table_of(kept)[kept[i].id] == kept[i]);
        assert(kept.contains(kept[i]));
        records.lemma_filter_contains_rev(keep, kept[i]);
        let k = choose|k: int| 0 <= k < records.len() && records[k] == kept[i];
        assert(table_of(records)[records[k].id] == records[k]);
    }
}

/// After a node is added, looking up its id finds the record that was
/// added.
pub proof fn lemma_add_then_get(table: Map<Seq<char>, NodeRecord>, record: NodeRecord)
    ensures
        table.insert(record.id, record).contains_key(record.id),
        table.insert(record.id, record)[record.id] == record,
{
}

/// Adding a second record under the same id replaces the first whole:
/// nothing of the first is left in the table.
pub proof fn lemma_add_overwrites(
    table: Map<Seq<char>, NodeRecord>,
    first: NodeRecord,
    second: NodeRecord,
)
    requires
        first.id == second.id,
    ensures
        table.insert(first.id, first).insert(second.id, second) == table.insert(
            second.id,
            second,
        ),
        table.insert(first.id, first).insert(second.id, second)[first.id] == second,
{
    assert(table.insert(first.id, first).insert(second.id, second) =~= table.insert(
        second.id,
        second,
    ));
}

/// A sweep removes every entry whose age exceeds the timeout and every
/// entry whose time cannot be read, whatever the timeout; it keeps every
/// other entry as it was, and adds none.
pub proof fn lemma_sweep(
    table: Map<Seq<char>, NodeRecord>,
    now: (i64, u32),
    timeout_seconds: u64,
    id: Seq<char>,
)
    ensures
        !table.contains_key(id) ==> !surviving(table, now, timeout_seconds).contains_key(id),
        table.contains_key(id) ==> match rfc3339_instant(table[id].last_seen) {
            None => !surviving(table, now, timeout_seconds).contains_key(id),
            Some(seen) => if elapsed_nanos(now, seen) <= timeout_seconds * 1_000_000_000 {
                surviving(table, now, timeout_seconds).contains_key(id) && surviving(
                    table,
                    now,
                    timeout_seconds,
                )[id] == table[id]
            } else {
                !surviving(table, now, timeout_seconds).contains_key(id)
            },
        },
{
}

/// Whether a character may stand at a place of a freshly drawn node id: a
/// hyphen at the four places that divide the id, and a lower-case
/// hexadecimal digit at every other.
pub open spec fn fits_node_id_place(place: int, c: char) -> bool {
    if place == 8 || place == 13 || place == 18 || place == 23 {
        c == '-'
    } else {
        0x30 <= c as u32 <= 0x39 || 0x61 <= c as u32 <= 0x66
    }
}

/// Whether a text has the shape of a freshly drawn node id: a random UUID
/// in its hyphenated form, thirty-six characters in five groups of
/// lower-case hexadecimal digits, the third of which begins with the
/// version, four, and the fourth with the variant, one of `8`, `9`, `a` and
/// `b`.
pub open spec fn is_fresh_node_id(id: Seq<char>) -> bool {
    &&& id.len() == 36
    &&& forall|place: int| 0 <= place < 36 ==> fits_node_id_place(place, #[trigger] id[place])
    &&& id[14] == '4'
    &&& (id[19] == '8' || id[19] == '9' || id[19] == 'a' || id[19] == 'b')
}

/// The membership table of one process: the nodes it knows, each under its
/// id, and the id of the process itself.
pub struct PeerRegistry {
    nodes: Vec<NodeInfo>,
    local_node_id: String,
}

impl View for PeerRegistry {
    type V = Map<Seq<char>, NodeRecord>;

    /// The table: each known node under its id.
    closed spec fn view(&self) -> Map<Seq<char>, NodeRecord> {
        table_of(records_of(self.nodes@))
    }
}

impl PeerRegistry {
    /// No id is held twice.
    #[verifier::type_invariant]
    spec fn ids_distinct(&self) -> bool {
        distinct_ids(records_of(self.nodes@))
    }

    /// The id of the process that owns the table.
    pub closed spec fn spec_local_node_id(&self) -> Seq<char> {
        self.local_node_id@
    }

    /// Every entry of the table stands under the id of its record.
    pub proof fn lemma_keys_are_ids(&self)
        ensures
            forall|id: Seq<char>| #[trigger] self@.contains_key(id) ==> self@[id].id == id,
    {
    }

    /// An empty table owned by a process with a freshly drawn id.
    pub fn new() -> (registry: Self)
        ensures
            registry@ == Map::<Seq<char>, NodeRecord>::empty(),
            is_fresh_node_id(registry.spec_local_node_id()),
    {
        Self::with_local_id(fresh_node_id())
    }

    /// An empty table owned by the process with the given id.
    pub fn with_local_id(local_node_id: String) -> (registry: Self)
        ensures
            registry@ == Map::<Seq<char>, NodeRecord>::empty(),
            registry.spec_local_node_id() == local_node_id@,
    {
        let registry = PeerRegistry { nodes: Vec::new(), local_node_id };
        assert(registry@ =~= Map::<Seq<char>, NodeRecord>::empty());
        registry
    }

    /// The id of the process that owns the table.
    pub fn local_node_id(&self) -> (id: &str)
        ensures
            id@ == self.spec_local_node_id(),
    {
        self.local_node_id.as_str()
    }

    /// Takes the list of nodes out of the table, which is left empty.
    fn take_nodes(&mut self) -> (nodes: Vec<NodeInfo>)
        ensures
            nodes == old(self).nodes,
            final(self).nodes@ == Seq::<NodeInfo>::empty(),
            final(self).local_node_id == old(self).local_node_id,
    {
        let mut nodes: Vec<NodeInfo> = Vec::new();
        assert(records_of(nodes@) =~= Seq::<NodeRecord>::empty());
        core::mem::swap(&mut self.nodes, &mut nodes);
        nodes
    }

    /// Where in the list the node with the given id stands.
    fn position(&self, node_id: &str) -> (found: Option<usize>)
        ensures
            match found {
                Some(index) => index < self.nodes.len() && self.nodes[index as int].id@ == node_id@,
                None => !holds_id(records_of(self.nodes@), node_id@),
            },
    {
        let wanted = node_id.to_owned();
        let mut index: usize = 0;
        while index < self.nodes.len()
            invariant
                index <= self.nodes.len(),
                wanted@ == node_id@,
                forall|i: int| 0 <= i < index ==> self.nodes[i].id@ != node_id@,
            decreases self.nodes.len() - index,
        {
            if self.nodes[index].id == wanted {
                return Some(index);
            }
            index = index + 1;
        }
        assert forall|i: int| 0 <= i < records_of(self.nodes@).len() implies #[trigger] records_of(
            self.nodes@,
        )[i].id != node_id@ by {}
        None
    }

    /// Inserts the node, or overwrites the entry that has its id.
    pub fn add_node(&mut self, node: NodeInfo)
        ensures
            final(self)@ == old(self)@.insert(node.id@, node@),
            final(self).spec_local_node_id() == old(self).spec_local_node_id(),
    {
        proof {
            use_type_invariant(&*self);
        }
        let ghost before = records_of(self.nodes@);
        let place = self.position(node.id.as_str());
        let mut nodes = self.take_nodes();
        match place {
            Some(index) => {
                proof {
                    lemma_table_update(before, index as int, node@);
                }
                nodes.set(index, node);
                assert(records_of(nodes@) =~= before.update(index as int, node@));
            },
            None => {
                proof {
                    lemma_table_push(before, node@);
                }
                nodes.push(node);
                assert(records_of(nodes@) =~= before.push(node@));
            },
        }
        self.nodes = nodes;
    }

    /// Deletes the entry with the given id, if there is one.
    pub fn remove_node(&mut self, node_id: &str)
        ensures
            final(self)@ == old(self)@.remove(node_id@),
            final(self).spec_local_node_id() == old(self).spec_local_node_id(),
    {
        proof {
            use_type_invariant(&*self);
        }
        let ghost before = records_of(self.nodes@);
        match self.position(node_id) {
            Some(index) => {
                proof {
                    lemma_table_remove(before, index as int);
                }
                let mut nodes = self.take_nodes();
                nodes.remove(index);
                assert(records_of(nodes@) =~= before.remove(index as int));
                self.nodes = nodes;
            },
            None => {
                assert(self@.remove(node_id@) =~= self@);
            },
        }
    }

    /// The entry with the given id, if there is one.
    pub fn get_node(&self, node_id: &str) -> (found: Option<NodeInfo>)
        ensures
            match found {
                Some(node) => self@.contains_key(node_id@) && node@ == self@[node_id@]
                    && node.id@ == node_id@,
                None => !self@.contains_key(node_id@),
            },
    {
        proof {
            use_type_invariant(self);
            lemma_table_of_lists(records_of(self.nodes@));
        }
        match self.position(node_id) {
            Some(index) => {
                assert(records_of(self.nodes@)[index as int].id == node_id@);
                Some(self.nodes[index].clone())
            },
            None => None,
        }
    }

    /// A snapshot of all entries, each once.
    pub fn get_all_nodes(&self) -> (snapshot: Vec<NodeInfo>)
        ensures
            lists_table(records_of(snapshot@), self@),
    {
        let mut snapshot: Vec<NodeInfo> = Vec::new();
        let mut index: usize = 0;
        while index < self.nodes.len()
            invariant
                index <= self.nodes.len(),
                snapshot@.len() == index,
                forall|i: int| 0 <= i < index ==> snapshot@[i]@ == self.nodes@[i]@,
            decreases self.nodes.len() - index,
        {
            snapshot.push(self.nodes[index].clone());
            index = index + 1;
        }
        proof {
            use_type_invariant(self);
            assert(records_of(snapshot@) =~= records_of(self.nodes@));
            lemma_table_of_lists(records_of(self.nodes@));
        }
        snapshot
    }

    /// Deletes every entry that is stale at `now`: one whose `last_seen`
    /// cannot be read as a time, or whose age exceeds the timeout.
    pub fn cleanup_stale_nodes_at(&mut self, now: (i64, u32), timeout_seconds: u64)
        ensures
            final(self)@ == surviving(old(self)@, now, timeout_seconds),
            final(self).spec_local_node_id() == old(self).spec_local_node_id(),
    {
        proof {
            use_type_invariant(&*self);
        }
        let ghost before = records_of(self.nodes@);
        let ghost keep = fresh_at(now, timeout_seconds);
        let mut kept: Vec<NodeInfo> = Vec::new();
        let mut index: usize = 0;
        proof {
            reveal(Seq::filter);
            assert(before.take(0).filter(keep) =~= Seq::<NodeRecord>::empty());
            assert(records_of(kept@) =~= Seq::<NodeRecord>::empty());
        }
        while index < self.nodes.len()
            invariant
                index <= self.nodes.len(),
                before == records_of(self.nodes@),
                keep == fresh_at(now, timeout_seconds),
                records_of(kept@) == before.take(index as int).filter(keep),
            decreases self.nodes.len() - index,
        {
            let node = &self.nodes[index];
            let fresh = match parse_rfc3339(node.last_seen.as_str()) {
                Some(seen) => is_no_older_than(now, seen, timeout_seconds),
                None => false,
            };
            proof {
                let record = before[index as int];
                assert(before.take(index + 1) =~= before.take(index as int).push(record));
                before.take(index as int).lemma_filter_push(record, keep);
                assert(fresh == keep(record));
            }
            if fresh {
                let ghost so_far = records_of(kept@);
                kept.push(node.clone());
                assert(records_of(kept@) =~= so_far.push(before[index as int]));
            }
            index = index + 1;
        }
        proof {
            assert(before.take(before.len() as int) =~= before);
            lemma_table_filter(before, keep);
            assert(table_of(before.filter(keep)) =~= surviving(
                table_of(before),
                now,
                timeout_seconds,
            ));
        }
        self.nodes = kept;
    }

    /// Deletes every entry that is stale at the present moment.
    pub fn cleanup_stale_nodes(&mut self, timeout_seconds: u64)
        ensures
            exists|now: (i64, u32)| final(self)@ == surviving(old(self)@, now, timeout_seconds),
            final(self).spec_local_node_id() == old(self).spec_local_node_id(),
    {
        let now = utc_now();
        self.cleanup_stale_nodes_at(now, timeout_seconds);
    }
}

/// Draws a node id with `uuid::Uuid::new_v4` and writes it out in its
/// hyphenated form with `to_string`.
///
/// Trusted: that the text has the shape of a random UUID in that form.
/// Which id is drawn is left to chance.
#[verifier::external_body]
pub(crate) fn fresh_node_id() -> (id: String)
    ensures
        is_fresh_node_id(id@),
{
    uuid::Uuid::new_v4().to_string()
}

} // verus!
