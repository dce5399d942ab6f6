//! The table of live registrations and the seconds at which they expire.

use crate::heap::ExpireNode;
use vstd::hash_map::StringHashMap;
use vstd::multiset::Multiset;
use vstd::prelude::*;
use vstd::seq_lib::*;

verus! {

/// A map from address ranges to expiry times whose entries can also be walked.
///
/// The entries stand in a list without gaps; an index finds the place of an address range.
pub struct ExpiryTable {
    entries: Vec<ExpireNode>,
    places: StringHashMap<usize>,
}

impl View for ExpiryTable {
    type V = Map<Seq<char>, u64>;

    closed spec fn view(&self) -> Map<Seq<char>, u64> {
        Map::new(
            |cidr: Seq<char>| self.places@.contains_key(cidr),
            |cidr: Seq<char>| self.entries@[self.places@[cidr] as int].expire_at,
        )
    }
}

/// `entries` holds every entry of `table` exactly once, and nothing else.
pub open spec fn lists(entries: Seq<ExpireNode>, table: Map<Seq<char>, u64>) -> bool {
    &&& forall|i: int, j: int|
        0 <= i < j < entries.len() ==> #[trigger] entries[i].cidr@ != #[trigger] entries[j].cidr@
    &&& forall|i: int|
        0 <= i < entries.len() ==> {
            let entry = #[trigger] entries[i];
            table.contains_key(entry.cidr@) && table[entry.cidr@] == entry.expire_at
        }
    &&& forall|cidr: Seq<char>| #[trigger]
        table.contains_key(cidr) ==> exists|i: int|
            0 <= i < entries.len() && (#[trigger] entries[i]).cidr@ == cidr
}

/// The entries of a table as queue nodes, each of them once.
pub open spec fn live_nodes(table: Map<Seq<char>, u64>) -> Multiset<(Seq<char>, u64)> {
    Multiset::from_set(table.dom().map(|cidr: Seq<char>| (cidr, table[cidr])))
}

/// The table that a list of entries describes; where an address range occurs twice, the later
/// entry counts.
pub open spec fn table_of(entries: Seq<(Seq<char>, u64)>) -> Map<Seq<char>, u64>
    decreases entries.len(),
{
    if entries.len() == 0 {
        Map::empty()
    } else {
        table_of(entries.drop_last()).insert(entries.last().0, entries.last().1)
    }
}

/// `pairs` gives every entry of `table` exactly once, in any order, and nothing else.
pub open spec fn lists_pairs(pairs: Seq<(Seq<char>, u64)>, table: Map<Seq<char>, u64>) -> bool {
    &&& forall|i: int, j: int|
        0 <= i < j < pairs.len() ==> (#[trigger] pairs[i]).0 != (#[trigger] pairs[j]).0
    &&& forall|i: int|
        0 <= i < pairs.len() ==> table.contains_key((#[trigger] pairs[i]).0) && table[pairs[i].0]
            == pairs[i].1
    &&& forall|cidr: Seq<char>| #[trigger]
        table.contains_key(cidr) ==> exists|i: int|
            0 <= i < pairs.len() && (#[trigger] pairs[i]).0 == cidr
}

/// `live_nodes` holds an address range with its expiry time once, and nothing else.
pub proof fn lemma_live_nodes(table: Map<Seq<char>, u64>, node: (Seq<char>, u64))
    requires
        table.dom().finite(),
    ensures
        live_nodes(table).count(node) == if table.contains_key(node.0) && table[node.0] == node.1 {
            1nat
        } else {
            0nat
        },
{
    broadcast use vstd::multiset::group_multiset_axioms;

    let f = |cidr: Seq<char>| (cidr, table[cidr]);
    let nodes = table.dom().map(f);
    table.dom().lemma_map_finite(f);
    if table.contains_key(node.0) && table[node.0] == node.1 {
        assert(table.dom().contains(node.0) && f(node.0) == node);
    }
    assert(nodes.contains(node) <==> table.contains_key(node.0) && table[node.0] == node.1);
    assert(Map::new(|n: (Seq<char>, u64)| nodes.contains(n), |n: (Seq<char>, u64)| 1nat).dom()
        =~= nodes);
}

/// A list of all the entries of a table holds the nodes of that table.
pub proof fn lemma_listed_nodes(entries: Seq<ExpireNode>, table: Map<Seq<char>, u64>)
    requires
        lists(entries, table),
    ensures
        table.dom().finite(),
        table.len() == entries.len(),
        entries.map_values(|entry: ExpireNode| entry@).to_multiset() == live_nodes(table),
{
    broadcast use vstd::multiset::group_multiset_axioms;

    let names = entries.map_values(|entry: ExpireNode| entry.cidr@);
    assert(names.no_duplicates());
    names.unique_seq_to_set();
    assert(names.to_set() =~= table.dom()) by {
        assert forall|cidr: Seq<char>| table.dom().contains(cidr) implies names.contains(cidr) by {
            assert(table.contains_key(cidr));
            let i = choose|i: int|
                0 <= i < entries.len() && (#[trigger] entries[i]).cidr@ == cidr;
            assert(names[i] == cidr);
        }
    }
    let views = entries.map_values(|entry: ExpireNode| entry@);
    assert(views.no_duplicates()) by {
        assert forall|i: int, j: int| 0 <= i < j < views.len() implies views[i] != views[j] by {
            assert(entries[i].cidr@ != entries[j].cidr@);
        }
    }
    views.lemma_multiset_has_no_duplicates();
    assert forall|node: (Seq<char>, u64)| #[trigger]
        views.to_multiset().count(node) == live_nodes(table).count(node) by {
        lemma_live_nodes(table, node);
        to_multiset_contains(views, node);
        if table.contains_key(node.0) && table[node.0] == node.1 {
            let i = choose|i: int|
                0 <= i < entries.len() && (#[trigger] entries[i]).cidr@ == node.0;
            assert(views[i] == node);
            assert(views.to_multiset().contains(node));
        } else if views.contains(node) {
            let i = choose|i: int| 0 <= i < views.len() && views[i] == node;
            assert(entries[i]@ == node);
        }
    }
    assert(views.to_multiset() =~= live_nodes(table));
}

impl ExpiryTable {
    /// The index knows the place of every entry, and no other place.
    pub closed spec fn wf(&self) -> bool {
        &&& forall|i: int|
            0 <= i < self.entries@.len() ==> {
                let cidr = (#[trigger] self.entries@[i]).cidr@;
                self.places@.contains_key(cidr) && self.places@[cidr] == i
            }
        &&& forall|cidr: Seq<char>| #[trigger]
            self.places@.contains_key(cidr) ==> self.places@[cidr] < self.entries@.len()
                && self.entries@[self.places@[cidr] as int].cidr@ == cidr
    }

    proof fn lemma_lists(&self)
        requires
            self.wf(),
        ensures
            lists(self.entries@, self@),
    {
        assert forall|i: int, j: int| 0 <= i < j < self.entries@.len() implies #[trigger] self.entries@[i].cidr@
            != #[trigger] self.entries@[j].cidr@ by {
            assert(self.places@[self.entries@[i].cidr@] == i);
        }
        assert forall|cidr: Seq<char>| #[trigger] self@.contains_key(cidr) implies exists|i: int|
            0 <= i < self.entries@.len() && (#[trigger] self.entries@[i]).cidr@ == cidr by {
            let i = self.places@[cidr] as int;
            assert(self.entries@[i].cidr@ == cidr);
        }
    }

    /// A table has finitely many entries.
    pub proof fn lemma_finite(&self)
        requires
            self.wf(),
        ensures
            self@.dom().finite(),
    {
        self.lemma_lists();
        lemma_listed_nodes(self.entries@, self@);
    }

    /// An empty table.
    pub fn new() -> (table: Self)
        ensures
            table.wf(),
            table@ == Map::<Seq<char>, u64>::empty(),
    {
        let table = ExpiryTable { entries: Vec::new(), places: StringHashMap::new() };
        assert(table@ =~= Map::empty());
        table
    }

    /// The number of entries.
    pub fn len(&self) -> (len: usize)
        requires
            self.wf(),
        ensures
            len == self@.len(),
    {
        proof {
            self.lemma_lists();
            lemma_listed_nodes(self.entries@, self@);
        }
        self.entries.len()
    }

    /// The expiry time of an address range, if it is in the table.
    pub fn get(&self, cidr: &str) -> (expire_at: Option<u64>)
        requires
            self.wf(),
        ensures
            expire_at == if self@.contains_key(cidr@) {
                Some(self@[cidr@])
            } else {
                None
            },
    {
        match self.places.get(cidr) {
            Some(place) => Some(self.entries[*place].expire_at),
            None => None,
        }
    }

    /// Sets the expiry time of an address range.
    pub fn insert(&mut self, cidr: String, expire_at: u64)
        requires
            old(self).wf(),
        ensures
            final(self).wf(),
            final(self)@ == old(self)@.insert(cidr@, expire_at),
    {
        let found: Option<usize> = match self.places.get(cidr.as_str()) {
            Some(place) => Some(*place),
            None => None,
        };
        match found {
            Some(place) => {
                self.entries[place].expire_at = expire_at;
            },
            None => {
                let place: usize = self.entries.len();
                self.places.insert(cidr.clone(), place);
                self.entries.push(ExpireNode { cidr, expire_at });
            },
        }
        assert(self@ =~= old(self)@.insert(cidr@, expire_at));
    }

    /// Takes an address range out of the table.
    pub fn remove(&mut self, cidr: &str)
        requires
            old(self).wf(),
        ensures
            final(self).wf(),
            final(self)@ == old(self)@.remove(cidr@),
    {
        let found: Option<usize> = match self.places.get(cidr) {
            Some(place) => Some(*place),
            None => None,
        };
        if let Some(place) = found {
            self.places.remove(cidr);
            self.entries.swap_remove(place);
            if place < self.entries.len() {
                let moved = self.entries[place].cidr.clone();
                self.places.insert(moved, place);
            }
        }
        assert(self@ =~= old(self)@.remove(cidr@));
    }

    /// Takes every entry out of the table.
    pub fn clear(&mut self)
        ensures
            final(self).wf(),
            final(self)@ == Map::<Seq<char>, u64>::empty(),
    {
        *self = ExpiryTable::new();
    }

    /// The table that a list of entries describes.
    pub fn from_entries(entries: Vec<(String, u64)>) -> (table: Self)
        ensures
            table.wf(),
            table@ == table_of(
                entries@.map_values(|entry: (String, u64)| (entry.0@, entry.1)),
            ),
    {
        let ghost views = entries@.map_values(|entry: (String, u64)| (entry.0@, entry.1));
        let mut table = ExpiryTable::new();
        let mut i: usize = 0;
        while i < entries.len()
            invariant
                i <= entries@.len(),
                views == entries@.map_values(|entry: (String, u64)| (entry.0@, entry.1)),
                table.wf(),
                table@ == table_of(views.take(i as int)),
            decreases entries@.len() - i,
        {
            table.insert(entries[i].0.clone(), entries[i].1);
            assert(views.take(i + 1).drop_last() =~= views.take(i as int));
            i = i + 1;
        }
        assert(views.take(i as int) =~= views);
        table
    }

    /// All the entries, in no particular order.
    pub fn entries(&self) -> (entries: &Vec<ExpireNode>)
        requires
            self.wf(),
        ensures
            lists(entries@, self@),
    {
        proof {
            self.lemma_lists();
        }
        &self.entries
    }
}

} // verus!
