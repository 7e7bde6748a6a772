//! What holds of the stored records whatever nodes and edges are added.
//!
//! Everything here is stated over the model of the graph, the functions that
//! the contracts of [`crate::graph::Graph`] are written in.

use vstd::prelude::*;
use vstd::seq_lib::{group_to_multiset_ensures, lemma_multiset_commutative};
use crate::model::{
    Adjacency, EdgeRecord, Neighbor, NodeId, edge_records, endpoints_present, enumerates,
    neighbor_count, occurrences, order_with_edge, order_with_node, records_from, symmetric,
    with_edge, with_neighbor, with_node,
};

verus! {

/// The records of one node are its neighbor list, each entry prefixed with
/// the node: a record from another node does not occur among them, and one
/// from this node occurs as often as its entry does in the list.
pub proof fn lemma_records_from_count(from: NodeId, neighbors: Seq<Neighbor>, record: EdgeRecord)
    ensures
        occurrences(records_from(from, neighbors), record) == if record.0 == from {
            neighbors.to_multiset().count((record.1, record.2))
        } else {
            0
        },
    decreases neighbors.len(),
{
    broadcast use group_to_multiset_ensures;

    if neighbors.len() == 0 {
        assert(!records_from(from, neighbors).contains(record));
        assert(!neighbors.contains((record.1, record.2)));
    } else {
        let init = neighbors.drop_last();
        let last = neighbors.last();
        lemma_records_from_count(from, init, record);
        assert(neighbors == init.push(last));
        assert(records_from(from, neighbors) == records_from(from, init).push(
            (from, last.0, last.1),
        ));
    }
}

/// A record `(from, to, weight)` occurs among the stored records as often as
/// `(to, weight)` occurs in the neighbor list of `from`.
pub proof fn lemma_record_count(order: Seq<NodeId>, adj: Adjacency, record: EdgeRecord)
    requires
        enumerates(order, adj),
    ensures
        occurrences(edge_records(order, adj), record) == neighbor_count(
            adj,
            record.0,
            record.1,
            record.2,
        ),
{
    lemma_record_count_in(order, adj, record);
}

/// The count of [`lemma_record_count`], for any order without repetitions:
/// only the nodes in `order` contribute.
proof fn lemma_record_count_in(order: Seq<NodeId>, adj: Adjacency, record: EdgeRecord)
    requires
        order.no_duplicates(),
    ensures
        occurrences(edge_records(order, adj), record) == if order.contains(record.0) {
            adj[record.0].to_multiset().count((record.1, record.2))
        } else {
            0
        },
    decreases order.len(),
{
    broadcast use group_to_multiset_ensures;

    if order.len() == 0 {
        assert(!edge_records(order, adj).contains(record));
    } else {
        let init = order.drop_last();
        let last = order.last();
        lemma_record_count_in(init, adj, record);
        lemma_records_from_count(last, adj[last], record);
        lemma_multiset_commutative(edge_records(init, adj), records_from(last, adj[last]));
        assert(order == init.push(last));
        if init.contains(record.0) {
            let at = choose|at: int| 0 <= at < init.len() && init[at] == record.0;
            assert(order[at] == record.0);
            assert(order[order.len() - 1] == last);
        }
    }
}

/// The stored records depend only on the neighbor lists of the nodes that are
/// enumerated.
pub proof fn lemma_records_of_enumerated_nodes(order: Seq<NodeId>, adj: Adjacency, other: Adjacency)
    requires
        forall|i: int| 0 <= i < order.len() ==> adj[#[trigger] order[i]] == other[order[i]],
    ensures
        edge_records(order, adj) == edge_records(order, other),
    decreases order.len(),
{
    if order.len() > 0 {
        lemma_records_of_enumerated_nodes(order.drop_last(), adj, other);
    }
}

/// Making a node present keeps the enumeration in step with the nodes.
pub proof fn lemma_with_node_enumerates(order: Seq<NodeId>, adj: Adjacency, node: NodeId)
    requires
        enumerates(order, adj),
    ensures
        enumerates(order_with_node(order, node), with_node(adj, node)),
{
    if !order.contains(node) {
        order.lemma_push_to_set_commute(node);
        assert(order.push(node).no_duplicates());
    }
}

/// Adding an edge keeps the enumeration in step with the nodes.
pub proof fn lemma_with_edge_enumerates(
    order: Seq<NodeId>,
    adj: Adjacency,
    from: NodeId,
    to: NodeId,
    weight: i32,
)
    requires
        enumerates(order, adj),
    ensures
        enumerates(order_with_edge(order, from, to), with_edge(adj, from, to, weight)),
{
    lemma_with_node_enumerates(order, adj, from);
    lemma_with_node_enumerates(order_with_node(order, from), with_node(adj, from), to);
    let both = with_node(with_node(adj, from), to);
    let first = with_neighbor(both, from, to, weight);
    assert(first.dom() == both.dom());
    assert(with_neighbor(first, to, from, weight).dom() == both.dom());
}

/// Adding a node changes no stored record: the records are the same, in the
/// same order, whether the node was new or not.
pub proof fn lemma_add_node_keeps_records(order: Seq<NodeId>, adj: Adjacency, node: NodeId)
    requires
        enumerates(order, adj),
    ensures
        edge_records(order_with_node(order, node), with_node(adj, node)) == edge_records(
            order,
            adj,
        ),
{
    if !order.contains(node) {
        let after = with_node(adj, node);
        lemma_records_of_enumerated_nodes(order, adj, after);
        assert(order.push(node).drop_last() == order);
        assert(records_from(node, after[node]) == Seq::<EdgeRecord>::empty());
    }
}

/// Adding the edge `(from, to, weight)` puts `(to, weight)` once more into
/// the neighbor list of `from` and `(from, weight)` once more into that of
/// `to`, and changes no other count.
pub proof fn lemma_add_edge_neighbor_counts(
    adj: Adjacency,
    from: NodeId,
    to: NodeId,
    weight: i32,
    record: EdgeRecord,
)
    ensures
        neighbor_count(with_edge(adj, from, to, weight), record.0, record.1, record.2)
            == neighbor_count(adj, record.0, record.1, record.2) + (if record == (
            from,
            to,
            weight,
        ) {
            1nat
        } else {
            0nat
        }) + (if record == (to, from, weight) {
            1nat
        } else {
            0nat
        }),
{
    broadcast use group_to_multiset_ensures;

    let both = with_node(with_node(adj, from), to);
    let first = with_neighbor(both, from, to, weight);
    assert(Seq::<Neighbor>::empty().to_multiset().count((record.1, record.2)) == 0) by {
        assert(!Seq::<Neighbor>::empty().contains((record.1, record.2)));
    }
    assert(neighbor_count(both, record.0, record.1, record.2) == neighbor_count(
        adj,
        record.0,
        record.1,
        record.2,
    ));
    assert(neighbor_count(first, record.0, record.1, record.2) == neighbor_count(
        both,
        record.0,
        record.1,
        record.2,
    ) + (if record == (from, to, weight) {
        1nat
    } else {
        0nat
    }));
}

/// Adding the edge `(from, to, weight)` adds one record `(from, to, weight)`
/// and one record `(to, from, weight)` and changes no other count: for a
/// self-loop the two are the same record, which then occurs twice more.
pub proof fn lemma_add_edge_record_counts(
    order: Seq<NodeId>,
    adj: Adjacency,
    from: NodeId,
    to: NodeId,
    weight: i32,
    record: EdgeRecord,
)
    requires
        enumerates(order, adj),
    ensures
        occurrences(
            edge_records(order_with_edge(order, from, to), with_edge(adj, from, to, weight)),
            record,
        ) == occurrences(edge_records(order, adj), record) + (if record == (from, to, weight) {
            1nat
        } else {
            0nat
        }) + (if record == (to, from, weight) {
            1nat
        } else {
            0nat
        }),
{
    lemma_with_edge_enumerates(order, adj, from, to, weight);
    lemma_record_count(order, adj, record);
    lemma_record_count(
        order_with_edge(order, from, to),
        with_edge(adj, from, to, weight),
        record,
    );
    lemma_add_edge_neighbor_counts(adj, from, to, weight, record);
}

/// The empty graph stores every edge in both directions and names no node
/// that it lacks.
pub proof fn lemma_empty_is_consistent()
    ensures
        symmetric(Map::<Seq<char>, Seq<(Seq<char>, i32)>>::empty()),
        endpoints_present(Map::<Seq<char>, Seq<(Seq<char>, i32)>>::empty()),
{
}

/// Adding a node keeps a graph consistent: edges stay stored in both
/// directions, and every neighbor stays a node of the graph.
pub proof fn lemma_add_node_keeps_consistency(adj: Adjacency, node: NodeId)
    ensures
        symmetric(adj) ==> symmetric(with_node(adj, node)),
        endpoints_present(adj) ==> endpoints_present(with_node(adj, node)),
{
    broadcast use group_to_multiset_ensures;

    let after = with_node(adj, node);
    assert forall|from: NodeId, to: NodeId, weight: i32|
        neighbor_count(after, from, to, weight) == #[trigger] neighbor_count(
            adj,
            from,
            to,
            weight,
        ) by {
        assert(!Seq::<Neighbor>::empty().contains((to, weight)));
    }
    if symmetric(adj) {
        assert forall|from: NodeId, to: NodeId, weight: i32| #[trigger]
            neighbor_count(after, from, to, weight) == neighbor_count(
                after,
                to,
                from,
                weight,
            ) by {
            assert(neighbor_count(adj, from, to, weight) == neighbor_count(adj, to, from, weight));
        }
    }
}

/// Adding an edge keeps a graph consistent: edges stay stored in both
/// directions, and every neighbor stays a node of the graph.
pub proof fn lemma_add_edge_keeps_consistency(
    adj: Adjacency,
    from: NodeId,
    to: NodeId,
    weight: i32,
)
    ensures
        symmetric(adj) ==> symmetric(with_edge(adj, from, to, weight)),
        endpoints_present(adj) ==> endpoints_present(with_edge(adj, from, to, weight)),
{
    let after = with_edge(adj, from, to, weight);
    if symmetric(adj) {
        assert forall|a: NodeId, b: NodeId, w: i32| #[trigger]
            neighbor_count(after, a, b, w) == neighbor_count(after, b, a, w) by {
            lemma_add_edge_neighbor_counts(adj, from, to, weight, (a, b, w));
            lemma_add_edge_neighbor_counts(adj, from, to, weight, (b, a, w));
            assert(neighbor_count(adj, a, b, w) == neighbor_count(adj, b, a, w));
        }
    }
    if endpoints_present(adj) {
        let both = with_node(with_node(adj, from), to);
        let first = with_neighbor(both, from, to, weight);
        assert forall|a: NodeId, i: int|
            after.contains_key(a) && 0 <= i < after[a].len() implies after.contains_key(
            #[trigger] after[a][i].0,
        ) by {
            if adj.contains_key(a) && 0 <= i < adj[a].len() {
                assert(after[a][i] == adj[a][i]);
                assert(adj.contains_key(adj[a][i].0));
            }
        }
    }
}

/// An edge is stored in both directions: once `(from, to, weight)` was
/// added, the stored records hold `(from, to, weight)` and
/// `(to, from, weight)`.
pub proof fn lemma_edge_is_stored_both_ways(
    order: Seq<NodeId>,
    adj: Adjacency,
    from: NodeId,
    to: NodeId,
    weight: i32,
)
    requires
        enumerates(order, adj),
    ensures
        ({
            let records = edge_records(
                order_with_edge(order, from, to),
                with_edge(adj, from, to, weight),
            );
            records.contains((from, to, weight)) && records.contains((to, from, weight))
        }),
{
    broadcast use group_to_multiset_ensures;

    lemma_add_edge_record_counts(order, adj, from, to, weight, (from, to, weight));
    lemma_add_edge_record_counts(order, adj, from, to, weight, (to, from, weight));
}

/// Nothing is ever removed: a record that is stored is still stored after a
/// node or an edge was added.
pub proof fn lemma_records_persist(
    order: Seq<NodeId>,
    adj: Adjacency,
    from: NodeId,
    to: NodeId,
    weight: i32,
    record: EdgeRecord,
)
    requires
        enumerates(order, adj),
        edge_records(order, adj).contains(record),
    ensures
        edge_records(order_with_node(order, from), with_node(adj, from)).contains(record),
        edge_records(order_with_edge(order, from, to), with_edge(adj, from, to, weight)).contains(
            record,
        ),
{
    broadcast use group_to_multiset_ensures;

    lemma_add_node_keeps_records(order, adj, from);
    lemma_add_edge_record_counts(order, adj, from, to, weight, record);
}

/// Adding a node a second time changes nothing: the node is present after
/// the first call and after the second, and the set of nodes, its size and
/// the enumeration order are the same after both.
pub proof fn lemma_add_node_is_idempotent(order: Seq<NodeId>, adj: Adjacency, node: NodeId)
    ensures
        with_node(adj, node).contains_key(node),
        with_node(with_node(adj, node), node) == with_node(adj, node),
        with_node(with_node(adj, node), node).dom().len() == with_node(adj, node).dom().len(),
        order_with_node(order_with_node(order, node), node) == order_with_node(order, node),
{
    if !order.contains(node) {
        assert(order.push(node)[order.len() as int] == node);
    }
}

/// Adding a node adds that node and no other: the set of nodes grows by the
/// node if it was absent, and the neighbor lists that were there stay.
pub proof fn lemma_add_node_adds_one_node(adj: Adjacency, node: NodeId)
    ensures
        with_node(adj, node).dom() == adj.dom().insert(node),
        forall|other: NodeId| #[trigger]
            adj.contains_key(other) ==> with_node(adj, node)[other] == adj[other],
        !adj.contains_key(node) ==> with_node(adj, node)[node] == Seq::<Neighbor>::empty(),
{
}

/// Adding an edge makes both of its endpoints present, whether or not they
/// were, and adds no other node.
pub proof fn lemma_edge_creates_endpoints(adj: Adjacency, from: NodeId, to: NodeId, weight: i32)
    ensures
        with_edge(adj, from, to, weight).contains_key(from),
        with_edge(adj, from, to, weight).contains_key(to),
        with_edge(adj, from, to, weight).dom() == adj.dom().insert(from).insert(to),
{
}

/// Edges accumulate: after the same edge was added twice, each of its two
/// records occurs two times more than before between distinct nodes, and
/// the one record of a self-loop four times more.
pub proof fn lemma_repeated_edge_accumulates(
    order: Seq<NodeId>,
    adj: Adjacency,
    from: NodeId,
    to: NodeId,
    weight: i32,
)
    requires
        enumerates(order, adj),
    ensures
        ({
            let once = with_edge(adj, from, to, weight);
            let twice = with_edge(once, from, to, weight);
            let order_once = order_with_edge(order, from, to);
            let order_twice = order_with_edge(order_once, from, to);
            let more: nat = if from == to {
                4
            } else {
                2
            };
            &&& order_twice == order_once
            &&& occurrences(edge_records(order_twice, twice), (from, to, weight)) == occurrences(
                edge_records(order, adj),
                (from, to, weight),
            ) + more
            &&& occurrences(edge_records(order_twice, twice), (to, from, weight)) == occurrences(
                edge_records(order, adj),
                (to, from, weight),
            ) + more
        }),
{
    let once = with_edge(adj, from, to, weight);
    let order_once = order_with_edge(order, from, to);
    lemma_with_edge_enumerates(order, adj, from, to, weight);
    lemma_add_edge_record_counts(order, adj, from, to, weight, (from, to, weight));
    lemma_add_edge_record_counts(order, adj, from, to, weight, (to, from, weight));
    lemma_add_edge_record_counts(order_once, once, from, to, weight, (from, to, weight));
    lemma_add_edge_record_counts(order_once, once, from, to, weight, (to, from, weight));
    lemma_edge_creates_endpoints(adj, from, to, weight);
    assert(order_once.contains(from) && order_once.contains(to)) by {
        assert(order_once.to_set().contains(from));
        assert(order_once.to_set().contains(to));
    }
}

/// A node added to a graph that did not hold it is isolated: it is present,
/// and no stored record starts from it.
pub proof fn lemma_new_node_is_isolated(order: Seq<NodeId>, adj: Adjacency, node: NodeId)
    requires
        enumerates(order, adj),
        !adj.contains_key(node),
    ensures
        with_node(adj, node).contains_key(node),
        forall|to: NodeId, weight: i32|
            !(#[trigger] edge_records(
                order_with_node(order, node),
                with_node(adj, node),
            ).contains((node, to, weight))),
{
    broadcast use group_to_multiset_ensures;

    lemma_add_node_keeps_records(order, adj, node);
    assert forall|to: NodeId, weight: i32|
        !(#[trigger] edge_records(order, adj).contains((node, to, weight))) by {
        lemma_record_count(order, adj, (node, to, weight));
    }
}

} // verus!
