//! Binding attractors to symbols.
//!
//! A concept graph holds nodes with metadata and a table from signature
//! hashes to the nodes of known symbols. When an attractor is promoted, its
//! signature hash is looked up: on a hit the attractor's node takes over the
//! symbol's metadata and is marked as coming from ELFIN; on a miss nothing
//! changes. The hash of a signature is computed by the caller.

use std::collections::HashMap;
use vstd::prelude::*;

verus! {

/// One piece of metadata: a key and its value.
#[derive(Debug)]
pub struct MetaEntry {
    pub key: String,
    pub value: String,
}

/// Metadata as a map from keys to values.
pub type Metadata = Map<Seq<char>, Seq<char>>;

/// The map that a list of entries stands for: a later entry overrides an
/// earlier one with the same key.
pub open spec fn meta_map(entries: Seq<MetaEntry>) -> Metadata
    decreases entries.len(),
{
    if entries.len() == 0 {
        Map::empty()
    } else {
        meta_map(entries.drop_last()).insert(entries.last().key@, entries.last().value@)
    }
}

/// Why an operation on the graph is refused.
#[derive(Clone, Copy, Debug, PartialEq, Eq, Structural)]
pub enum ConceptError {
    /// The graph has no node with this identifier.
    NotFound(u64),
}

/// The value that `entries` give `key`, the last entry with the key deciding.
fn find_entry(entries: &Vec<MetaEntry>, key: &String) -> (r: Option<usize>)
    ensures
        match r {
            Some(i) => i < entries@.len() && entries@[i as int].key@ == key@ && meta_map(
                entries@,
            ).contains_key(key@) && meta_map(entries@)[key@] == entries@[i as int].value@
                && forall|j: int| i < j < entries@.len() ==> entries@[j].key@ != key@,
            None => !meta_map(entries@).contains_key(key@) && forall|j: int|
                0 <= j < entries@.len() ==> entries@[j].key@ != key@,
        },
{
    let mut i: usize = entries.len();
    assert(entries@.take(entries@.len() as int) =~= entries@);
    while i > 0
        invariant
            i <= entries@.len(),
            forall|j: int| i <= j < entries@.len() ==> entries@[j].key@ != key@,
            meta_map(entries@).contains_key(key@) == meta_map(entries@.take(i as int)).contains_key(
                key@,
            ),
            meta_map(entries@).contains_key(key@) ==> meta_map(entries@)[key@] == meta_map(
                entries@.take(i as int),
            )[key@],
        decreases i,
    {
        proof {
            let upto = entries@.take(i as int);
            assert(upto.drop_last() =~= entries@.take(i - 1));
            assert(upto.last() == entries@[i - 1]);
        }
        if entries[i - 1].key == *key {
            return Some(i - 1);
        }
        i = i - 1;
    }
    None
}

/// Replacing the last entry that has a key changes the map as setting the
/// key does.
proof fn lemma_replace_entry(entries: Seq<MetaEntry>, i: int, entry: MetaEntry)
    requires
        0 <= i < entries.len(),
        entry.key@ == entries[i].key@,
        forall|j: int| i < j < entries.len() ==> entries[j].key@ != entry.key@,
    ensures
        meta_map(entries.update(i, entry)) == meta_map(entries).insert(entry.key@, entry.value@),
    decreases entries.len(),
{
    let updated = entries.update(i, entry);
    let last = entries.len() - 1;
    if i == last {
        assert(updated.drop_last() =~= entries.drop_last());
        assert(meta_map(updated) =~= meta_map(entries).insert(entry.key@, entry.value@));
    } else {
        assert(updated.drop_last() =~= entries.drop_last().update(i, entry));
        lemma_replace_entry(entries.drop_last(), i, entry);
        assert(entries[last].key@ != entry.key@);
        assert(meta_map(updated) =~= meta_map(entries).insert(entry.key@, entry.value@));
    }
}

/// Sets `key` to `value` in `entries`: the entry that gives the key its
/// value is replaced, or a new entry is added where there is none.
fn set_entry(entries: &mut Vec<MetaEntry>, key: String, value: String)
    ensures
        meta_map(final(entries)@) == meta_map(old(entries)@).insert(key@, value@),
{
    let ghost before = entries@;
    match find_entry(entries, &key) {
        Some(i) => {
            let entry = MetaEntry { key, value };
            proof {
                lemma_replace_entry(before, i as int, entry);
            }
            entries[i] = entry;
        },
        None => {
            entries.push(MetaEntry { key, value });
            assert(entries@.drop_last() =~= before);
        },
    }
}

/// A graph of concepts with metadata, and the table of symbol hashes.
pub struct ConceptGraph {
    nodes: HashMap<u64, Vec<MetaEntry>>,
    hash_lookup: HashMap<u64, u64>,
}

impl ConceptGraph {
    /// The metadata of every node.
    pub closed spec fn nodes(&self) -> Map<u64, Metadata> {
        Map::new(|id: u64| self.nodes@.contains_key(id), |id: u64| meta_map(self.nodes@[id]@))
    }

    /// The table from signature hashes to the nodes of symbols.
    pub closed spec fn hashes(&self) -> Map<u64, u64> {
        self.hash_lookup@
    }

    /// A graph without nodes.
    pub fn new() -> (g: Self)
        ensures
            g.nodes() == Map::<u64, Metadata>::empty(),
            g.hashes() == Map::<u64, u64>::empty(),
    {
        let g = ConceptGraph { nodes: HashMap::new(), hash_lookup: HashMap::new() };
        assert(g.nodes() =~= Map::<u64, Metadata>::empty());
        g
    }

    /// Makes sure that node `id` exists; a new node has no metadata.
    pub fn ensure_node(&mut self, id: u64)
        ensures
            final(self).hashes() == old(self).hashes(),
            final(self).nodes() == (if old(self).nodes().contains_key(id) {
                old(self).nodes()
            } else {
                old(self).nodes().insert(id, Map::empty())
            }),
    {
        broadcast use vstd::std_specs::hash::group_hash_axioms;

        if !self.nodes.contains_key(&id) {
            self.nodes.insert(id, Vec::new());
            assert(self.nodes() =~= old(self).nodes().insert(id, Map::empty()));
        } else {
            assert(self.nodes() =~= old(self).nodes());
        }
    }

    /// Whether node `id` exists.
    pub fn has_node(&self, id: u64) -> (b: bool)
        ensures
            b == self.nodes().contains_key(id),
    {
        broadcast use vstd::std_specs::hash::group_hash_axioms;

        self.nodes.contains_key(&id)
    }

    /// Sets `key` to `value` in the metadata of node `node_id`. Refuses, and
    /// changes nothing, where there is no such node.
    pub fn set_meta(&mut self, node_id: u64, key: &str, value: &str) -> (r: Result<
        (),
        ConceptError,
    >)
        ensures
            final(self).hashes() == old(self).hashes(),
            old(self).nodes().contains_key(node_id)
                ==> r is Ok
                && final(self).nodes()
                == old(self).nodes().insert(
                node_id,
                old(self).nodes()[node_id].insert(key@, value@),
            ),
            !old(self).nodes().contains_key(node_id) ==> r == Err::<(), ConceptError>(
                ConceptError::NotFound(node_id),
            ) && final(self).nodes() == old(self).nodes(),
    {
        broadcast use vstd::std_specs::hash::group_hash_axioms;

        match self.nodes.remove(&node_id) {
            Some(mut entries) => {
                set_entry(&mut entries, key.to_owned(), value.to_owned());
                self.nodes.insert(node_id, entries);
                assert(self.nodes() =~= old(self).nodes().insert(
                    node_id,
                    old(self).nodes()[node_id].insert(key@, value@),
                ));
                Ok(())
            },
            None => {
                assert(self.nodes() =~= old(self).nodes());
                Err(ConceptError::NotFound(node_id))
            },
        }
    }

    /// The value of `key` in the metadata of node `node_id`; none where the
    /// node or the key is missing.
    pub fn get_meta(&self, node_id: u64, key: &str) -> (r: Option<String>)
        ensures
            match r {
                Some(value) => self.nodes().contains_key(node_id)
                    && self.nodes()[node_id].contains_key(key@) && self.nodes()[node_id][key@]
                    == value@,
                None => !self.nodes().contains_key(node_id)
                    || !self.nodes()[node_id].contains_key(key@),
            },
    {
        broadcast use vstd::std_specs::hash::group_hash_axioms;

        match self.nodes.get(&node_id) {
            Some(entries) => {
                let wanted: String = key.to_owned();
                match find_entry(entries, &wanted) {
                    Some(i) => Some(entries[i].value.clone()),
                    None => None,
                }
            },
            None => None,
        }
    }

    /// The node registered for a signature hash.
    pub fn lookup_hash(&self, hash: u64) -> (r: Option<u64>)
        ensures
            match r {
                Some(id) => self.hashes().contains_key(hash) && self.hashes()[hash] == id,
                None => !self.hashes().contains_key(hash),
            },
    {
        broadcast use vstd::std_specs::hash::group_hash_axioms;

        match self.hash_lookup.get(&hash) {
            Some(id) => Some(*id),
            None => None,
        }
    }

    /// Registers node `node_id` for a signature hash.
    pub fn register_hash(&mut self, hash: u64, node_id: u64)
        ensures
            final(self).nodes() == old(self).nodes(),
            final(self).hashes() == old(self).hashes().insert(hash, node_id),
    {
        broadcast use vstd::std_specs::hash::group_hash_axioms;

        self.hash_lookup.insert(hash, node_id);
        assert(self.nodes() =~= old(self).nodes());
    }

    /// Merges node `node2` into node `node1`: `node1` gets the metadata of
    /// both, `node2`'s winning where both have a key. Refuses, and changes
    /// nothing, where either node is missing; it is the first missing node
    /// that is reported.
    pub fn merge(&mut self, node1: u64, node2: u64) -> (r: Result<(), ConceptError>)
        ensures
            final(self).hashes() == old(self).hashes(),
            old(self).nodes().contains_key(node1) && old(self).nodes().contains_key(node2) ==> r
                is Ok && final(self).nodes() == old(self).nodes().insert(
                node1,
                old(self).nodes()[node1].union_prefer_right(old(self).nodes()[node2]),
            ),
            !old(self).nodes().contains_key(node1) ==> r == Err::<(), ConceptError>(
                ConceptError::NotFound(node1),
            ) && final(self).nodes() == old(self).nodes(),
            old(self).nodes().contains_key(node1) && !old(self).nodes().contains_key(node2) ==> r
                == Err::<(), ConceptError>(ConceptError::NotFound(node2)) && final(self).nodes()
                == old(self).nodes(),
    {
        broadcast use vstd::std_specs::hash::group_hash_axioms;

        if !self.nodes.contains_key(&node1) {
            assert(self.nodes() =~= old(self).nodes());
            return Err(ConceptError::NotFound(node1));
        }
        let mut copied: Vec<MetaEntry> = Vec::new();
        match self.nodes.get(&node2) {
            Some(entries) => {
                let mut i: usize = 0;
                while i < entries.len()
                    invariant
                        i <= entries@.len(),
                        meta_map(copied@) == meta_map(entries@.take(i as int)),
                    decreases entries@.len() - i,
                {
                    let ghost before = copied@;
                    copied.push(
                        MetaEntry { key: entries[i].key.clone(), value: entries[i].value.clone() },
                    );
                    proof {
                        assert(copied@.drop_last() =~= before);
                        let upto = entries@.take(i + 1);
                        assert(upto.drop_last() =~= entries@.take(i as int));
                        assert(upto.last() == entries@[i as int]);
                    }
                    i = i + 1;
                }
                assert(entries@.take(entries@.len() as int) =~= entries@);
            },
            None => {
                assert(self.nodes() =~= old(self).nodes());
                return Err(ConceptError::NotFound(node2));
            },
        }
        let ghost second = old(self).nodes()[node2];
        assert(meta_map(copied@) == second);
        match self.nodes.remove(&node1) {
            Some(mut entries) => {
                let ghost first = meta_map(entries@);
                let mut i: usize = 0;
                assert(copied@.take(0) =~= Seq::<MetaEntry>::empty());
                assert(first.union_prefer_right(Map::empty()) =~= first);
                while i < copied.len()
                    invariant
                        i <= copied@.len(),
                        meta_map(entries@) == first.union_prefer_right(
                            meta_map(copied@.take(i as int)),
                        ),
                    decreases copied@.len() - i,
                {
                    let ghost before = meta_map(copied@.take(i as int));
                    set_entry(&mut entries, copied[i].key.clone(), copied[i].value.clone());
                    proof {
                        let upto = copied@.take(i + 1);
                        assert(upto.drop_last() =~= copied@.take(i as int));
                        assert(upto.last() == copied@[i as int]);
                        assert(first.union_prefer_right(before).insert(
                            copied@[i as int].key@,
                            copied@[i as int].value@,
                        ) =~= first.union_prefer_right(meta_map(upto)));
                    }
                    i = i + 1;
                }
                assert(copied@.take(copied@.len() as int) =~= copied@);
                self.nodes.insert(node1, entries);
                assert(self.nodes() =~= old(self).nodes().insert(
                    node1,
                    old(self).nodes()[node1].union_prefer_right(second),
                ));
                Ok(())
            },
            None => Err(ConceptError::NotFound(node1)),
        }
    }
}

/// The key under which a bound node says where it comes from.
pub open spec fn source_key() -> Seq<char> {
    "source"@
}

/// The value that marks a node as bound to an ELFIN symbol.
pub open spec fn elfin_source() -> Seq<char> {
    "ELFIN"@
}

/// The metadata of the graph after node `node_id` was bound to the symbol
/// node `symbol`: it has the metadata of both, the symbol's winning, and is
/// marked as coming from ELFIN.
pub open spec fn bound_nodes(nodes: Map<u64, Metadata>, node_id: u64, symbol: u64) -> Map<
    u64,
    Metadata,
> {
    nodes.insert(
        node_id,
        nodes[node_id].union_prefer_right(nodes[symbol]).insert(source_key(), elfin_source()),
    )
}

/// Whether a promoted attractor with this signature hash gets bound: the
/// hash is registered for a symbol, and both nodes exist.
pub open spec fn binds(graph: &ConceptGraph, node_id: u64, hash: u64) -> bool {
    &&& graph.hashes().contains_key(hash)
    &&& graph.nodes().contains_key(node_id)
    &&& graph.nodes().contains_key(graph.hashes()[hash])
}

/// Tries to bind node `node_id`, whose signature has the hash `hash`, to a
/// symbol.
///
/// On a hit the node is merged with the symbol's node and marked as coming
/// from ELFIN. On a miss, and where one of the two nodes is missing, nothing
/// changes.
pub fn try_bind_to_elfin(graph: &mut ConceptGraph, node_id: u64, hash: u64) -> (bound: bool)
    ensures
        bound == binds(old(graph), node_id, hash),
        final(graph).hashes() == old(graph).hashes(),
        bound ==> final(graph).nodes() == bound_nodes(
            old(graph).nodes(),
            node_id,
            old(graph).hashes()[hash],
        ),
        !bound ==> final(graph).nodes() == old(graph).nodes(),
{
    match graph.lookup_hash(hash) {
        Some(symbol) => {
            match graph.merge(node_id, symbol) {
                Ok(()) => {},
                Err(_) => {
                    return false;
                },
            }
            match graph.set_meta(node_id, "source", "ELFIN") {
                Ok(()) => {
                    assert(graph.nodes() =~= bound_nodes(old(graph).nodes(), node_id, symbol));
                    true
                },
                Err(_) => false,
            }
        },
        None => false,
    }
}

/// Called when an attractor is promoted to a concept: tries to bind it, and
/// says whether it was bound and under which symbol name.
pub fn on_attractor_promoted(graph: &mut ConceptGraph, node_id: u64, hash: u64) -> (r: (
    bool,
    Option<String>,
))
    ensures
        r.0 == binds(old(graph), node_id, hash),
        final(graph).hashes() == old(graph).hashes(),
        r.0 ==> final(graph).nodes() == bound_nodes(
            old(graph).nodes(),
            node_id,
            old(graph).hashes()[hash],
        ),
        !r.0 ==> final(graph).nodes() == old(graph).nodes() && r.1 is None,
        r.0 ==> (match r.1 {
            Some(name) => final(graph).nodes()[node_id].contains_key("elfin_name"@)
                && final(graph).nodes()[node_id]["elfin_name"@] == name@,
            None => !final(graph).nodes()[node_id].contains_key("elfin_name"@),
        }),
{
    let bound: bool = try_bind_to_elfin(graph, node_id, hash);
    if bound {
        let name: Option<String> = graph.get_meta(node_id, "elfin_name");
        (true, name)
    } else {
        (false, None)
    }
}

} // verus!
