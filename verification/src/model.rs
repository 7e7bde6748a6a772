//! The mathematical model of an undirected weighted graph kept as adjacency
//! lists: a map from node names to neighbor lists, together with the order in
//! which the nodes are enumerated.

use vstd::prelude::*;

verus! {

/// A node's name, as contracts see it.
pub type NodeId = Seq<char>;

/// One stored adjacency entry: the neighbor's name and the weight of the edge.
pub type Neighbor = (Seq<char>, i32);

/// The neighbor list of every node of a graph.
pub type Adjacency = Map<Seq<char>, Seq<(Seq<char>, i32)>>;

/// One directed record `(from, to, weight)`; an undirected edge is stored as two.
pub type EdgeRecord = (Seq<char>, Seq<char>, i32);

/// `order` lists every node of `adj` exactly once.
pub open spec fn enumerates(order: Seq<NodeId>, adj: Adjacency) -> bool {
    &&& order.no_duplicates()
    &&& order.to_set() == adj.dom()
}

/// The adjacency after making sure that `node` is present: an absent node
/// enters with an empty neighbor list, a present one keeps its list.
pub open spec fn with_node(adj: Adjacency, node: NodeId) -> Adjacency {
    if adj.contains_key(node) {
        adj
    } else {
        adj.insert(node, Seq::empty())
    }
}

/// The enumeration order after making sure that `node` is present: a new node
/// goes to the end.
pub open spec fn order_with_node(order: Seq<NodeId>, node: NodeId) -> Seq<NodeId> {
    if order.contains(node) {
        order
    } else {
        order.push(node)
    }
}

/// The adjacency after appending `(to, weight)` to the neighbor list of
/// `from`; nothing changes when `from` is absent.
pub open spec fn with_neighbor(adj: Adjacency, from: NodeId, to: NodeId, weight: i32) -> Adjacency {
    if adj.contains_key(from) {
        adj.insert(from, adj[from].push((to, weight)))
    } else {
        adj
    }
}

/// The adjacency after adding the undirected edge between `from` and `to`:
/// both endpoints are made present, then each gets the other appended to its
/// neighbor list. Nothing is deduplicated, and a self-loop puts the node into
/// its own list twice.
pub open spec fn with_edge(adj: Adjacency, from: NodeId, to: NodeId, weight: i32) -> Adjacency {
    let both = with_node(with_node(adj, from), to);
    with_neighbor(with_neighbor(both, from, to, weight), to, from, weight)
}

/// The enumeration order after adding an edge between `from` and `to`.
pub open spec fn order_with_edge(order: Seq<NodeId>, from: NodeId, to: NodeId) -> Seq<NodeId> {
    order_with_node(order_with_node(order, from), to)
}

/// The records that one node contributes: one per entry of its neighbor list,
/// in the list's order.
pub open spec fn records_from(from: NodeId, neighbors: Seq<Neighbor>) -> Seq<EdgeRecord> {
    Seq::new(neighbors.len(), |i: int| (from, neighbors[i].0, neighbors[i].1))
}

/// All stored records: the nodes taken in `order`, each contributing its
/// neighbor list.
pub open spec fn edge_records(order: Seq<NodeId>, adj: Adjacency) -> Seq<EdgeRecord>
    decreases order.len(),
{
    if order.len() == 0 {
        Seq::empty()
    } else {
        edge_records(order.drop_last(), adj) + records_from(order.last(), adj[order.last()])
    }
}

/// How often `(to, weight)` occurs in the neighbor list of `from`; zero for a
/// node that is not there.
pub open spec fn neighbor_count(adj: Adjacency, from: NodeId, to: NodeId, weight: i32) -> nat {
    if adj.contains_key(from) {
        adj[from].to_multiset().count((to, weight))
    } else {
        0
    }
}

/// Every node that occurs in a neighbor list is itself a node of the graph.
pub open spec fn endpoints_present(adj: Adjacency) -> bool {
    forall|from: NodeId, i: int|
        adj.contains_key(from) && 0 <= i < adj[from].len() ==> adj.contains_key(
            #[trigger] adj[from][i].0,
        )
}

/// Every edge is stored in both directions: `to` is as often a neighbor of
/// `from` with a given weight as `from` is one of `to`.
pub open spec fn symmetric(adj: Adjacency) -> bool {
    forall|from: NodeId, to: NodeId, weight: i32|
        #[trigger] neighbor_count(adj, from, to, weight) == neighbor_count(adj, to, from, weight)
}

/// How often `record` occurs among `records`.
pub open spec fn occurrences(records: Seq<EdgeRecord>, record: EdgeRecord) -> nat {
    records.to_multiset().count(record)
}

} // verus!
