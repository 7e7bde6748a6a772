//! The storage behind a graph: a map from node names to neighbor lists that
//! remembers the order in which the nodes entered.

use vstd::prelude::*;
use vstd::hash_map::StringHashMap;
use crate::model::{Adjacency, NodeId, enumerates, with_neighbor, with_node, order_with_node};

verus! {

/// One node with its neighbor list.
struct Slot {
    name: String,
    neighbors: Vec<(String, i32)>,
}

/// A map from node names to neighbor lists.
///
/// Lookup by name goes through a hash index, so it takes constant expected
/// time; the nodes themselves are kept in the order in which they entered,
/// which is the order in which they are enumerated.
pub struct AdjacencyTable {
    index: StringHashMap<usize>,
    slots: Vec<Slot>,
}

impl View for AdjacencyTable {
    type V = Adjacency;

    closed spec fn view(&self) -> Adjacency {
        Map::new(
            |name: Seq<char>| self.index@.contains_key(name),
            |name: Seq<char>| self.slots[self.index@[name] as int].neighbors.deep_view(),
        )
    }
}

impl AdjacencyTable {
    /// The index and the slots describe the same nodes: every slot is found
    /// under its name, and every indexed name leads to the slot of that name.
    #[verifier::type_invariant]
    pub closed spec fn well_formed(&self) -> bool {
        &&& forall|i: int|
            0 <= i < self.slots.len() ==> self.index@.contains_key(#[trigger] self.slots[i].name@)
                && self.index@[self.slots[i].name@] == i
        &&& forall|name: Seq<char>| #[trigger]
            self.index@.contains_key(name) ==> self.index@[name] < self.slots.len()
                && self.slots[self.index@[name] as int].name@ == name
    }

    /// The nodes in the order in which they are enumerated.
    pub closed spec fn node_order(&self) -> Seq<NodeId> {
        Seq::new(self.slots.len() as nat, |i: int| self.slots[i].name@)
    }

    /// In a well-formed table the enumeration order lists every node exactly
    /// once, so there are finitely many nodes.
    pub proof fn lemma_node_order(&self)
        requires
            self.well_formed(),
        ensures
            enumerates(self.node_order(), self@),
            self@.dom().finite(),
            self@.dom().len() == self.node_order().len(),
    {
        let order = self.node_order();
        assert(order.to_set() =~= self@.dom()) by {
            assert forall|name: Seq<char>| self@.dom().contains(name) implies order.to_set().contains(
                name,
            ) by {
                assert(order[self.index@[name] as int] == name);
            }
        }
        order.unique_seq_to_set();
    }

    /// An empty table.
    pub fn new() -> (table: Self)
        ensures
            table@ == Map::<Seq<char>, Seq<(Seq<char>, i32)>>::empty(),
            table.node_order() == Seq::<Seq<char>>::empty(),
    {
        let table = AdjacencyTable { index: StringHashMap::new(), slots: Vec::new() };
        assert(table@ =~= Map::<Seq<char>, Seq<(Seq<char>, i32)>>::empty());
        assert(table.node_order() =~= Seq::<Seq<char>>::empty());
        table
    }

    /// The number of nodes.
    pub fn len(&self) -> (count: usize)
        ensures
            count == self.node_order().len(),
            count == self@.dom().len(),
    {
        proof {
            use_type_invariant(self);
            self.lemma_node_order();
        }
        self.slots.len()
    }

    /// The neighbor list of `node`, if the table holds that node.
    pub fn get(&self, node: &str) -> (found: Option<&Vec<(String, i32)>>)
        ensures
            match found {
                Some(neighbors) => self@.contains_key(node@) && neighbors.deep_view()
                    == self@[node@],
                None => !self@.contains_key(node@),
            },
    {
        proof {
            use_type_invariant(self);
        }
        match self.index.get(node) {
            Some(at) => Some(&self.slots[*at].neighbors),
            None => None,
        }
    }

    /// The node at `position` of the enumeration order with its neighbor
    /// list, or `None` past the last node.
    pub fn entry_at(&self, position: usize) -> (entry: Option<(&String, &Vec<(String, i32)>)>)
        ensures
            match entry {
                Some((name, neighbors)) => position < self.node_order().len() && name@
                    == self.node_order()[position as int] && self@.contains_key(name@)
                    && neighbors.deep_view() == self@[name@],
                None => position >= self.node_order().len(),
            },
    {
        proof {
            use_type_invariant(self);
        }
        if position < self.slots.len() {
            let slot = &self.slots[position];
            Some((&slot.name, &slot.neighbors))
        } else {
            None
        }
    }

    /// Makes sure that `node` is present: an absent node enters with an empty
    /// neighbor list at the end of the enumeration order, a present one is
    /// left as it is.
    pub fn or_insert_empty(&mut self, node: &str)
        ensures
            final(self)@ == with_node(old(self)@, node@),
            final(self).node_order() == order_with_node(old(self).node_order(), node@),
    {
        proof {
            use_type_invariant(&*self);
            self.lemma_node_order();
        }
        if self.index.contains_key(node) {
            assert(self.node_order()[self.index@[node@] as int] == node@);
        } else {
            assert(!self.node_order().contains(node@));
            let mut taken = AdjacencyTable::new();
            core::mem::swap(self, &mut taken);
            let AdjacencyTable { mut index, mut slots } = taken;
            let at: usize = slots.len();
            slots.push(Slot { name: node.to_string(), neighbors: Vec::new() });
            index.insert(node.to_string(), at);
            *self = AdjacencyTable { index, slots };
            proof {
                assert(self.slots[at as int].neighbors.deep_view() =~= Seq::<
                    (Seq<char>, i32),
                >::empty());
                assert forall|name: Seq<char>| old(self)@.contains_key(name) implies self@[name]
                    == old(self)@[name] by {
                    assert(self.slots[self.index@[name] as int] == old(self).slots[old(
                        self,
                    ).index@[name] as int]);
                }
                assert(self@ =~= with_node(old(self)@, node@));
                assert(self.node_order() =~= old(self).node_order().push(node@));
            }
        }
    }

    /// Appends `(neighbor, weight)` to the neighbor list of `node` and says
    /// whether the table holds `node`; where it does not, nothing changes.
    pub fn push_neighbor(&mut self, node: &str, neighbor: String, weight: i32) -> (found: bool)
        ensures
            found == old(self)@.contains_key(node@),
            final(self)@ == with_neighbor(old(self)@, node@, neighbor@, weight),
            final(self).node_order() == old(self).node_order(),
    {
        proof {
            use_type_invariant(&*self);
        }
        let at: usize = match self.index.get(node) {
            Some(at) => *at,
            None => {
                return false;
            },
        };
        let mut taken = AdjacencyTable::new();
        core::mem::swap(self, &mut taken);
        let AdjacencyTable { index, mut slots } = taken;
        slots[at].neighbors.push((neighbor, weight));
        *self = AdjacencyTable { index, slots };
        proof {
            assert(self.node_order() =~= old(self).node_order());
            assert(self.slots[at as int].neighbors.deep_view() =~= old(self).slots[at as int].neighbors.deep_view().push(
                (neighbor@, weight),
            ));
            assert(self@ =~= with_neighbor(old(self)@, node@, neighbor@, weight));
        }
        true
    }
}

} // verus!
