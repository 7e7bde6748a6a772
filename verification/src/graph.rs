//! The graph capability and the undirected graph that provides it.

use vstd::prelude::*;
use vstd::hash_set::StringHashSet;
use crate::model::{edge_records, order_with_edge, order_with_node, records_from, with_edge, with_node};
use crate::table::AdjacencyTable;

verus! {

/// The failure of reaching for a node that the graph does not hold.
///
/// No operation of [`Graph`] reports it: an edge is only added after both of
/// its endpoints were made present. It is kept for operations that look a
/// node up without creating it.
#[derive(Debug, Clone)]
pub struct NodeNotInGraph;

impl NodeNotInGraph {
    /// What went wrong, in words.
    pub fn message(&self) -> (text: String)
        ensures
            text@ == "accessing a node that is not in the graph"@,
    {
        "accessing a node that is not in the graph".to_string()
    }
}

/// What every graph kept in an [`AdjacencyTable`] can do.
///
/// An implementation says how to make an empty graph and how to reach its
/// table; adding nodes and edges and the queries are built on those two
/// accessors.
pub trait Graph: Sized {
    /// The table that holds the graph.
    spec fn table(&self) -> AdjacencyTable;

    /// An empty graph.
    fn new() -> (graph: Self)
        ensures
            graph.table()@ == Map::<Seq<char>, Seq<(Seq<char>, i32)>>::empty(),
            graph.table().node_order() == Seq::<Seq<char>>::empty(),
    ;

    /// The graph's table, to change it.
    fn adjacency_table_mutable(&mut self) -> (table: &mut AdjacencyTable)
        ensures
            *table == old(self).table(),
            final(self).table() == *final(table),
    ;

    /// The graph's table, to read it.
    fn adjacency_table(&self) -> (table: &AdjacencyTable)
        ensures
            *table == self.table(),
    ;

    /// Makes sure that `node` is in the graph and returns `true`: an absent
    /// node enters with no edges, a present one keeps its edges.
    fn add_node(&mut self, node: &str) -> (added: bool)
        ensures
            added,
            final(self).table()@ == with_node(old(self).table()@, node@),
            final(self).table().node_order() == order_with_node(
                old(self).table().node_order(),
                node@,
            ),
    {
        self.adjacency_table_mutable().or_insert_empty(node);
        true
    }

    /// Adds the undirected edge `(from, to, weight)`: both endpoints are made
    /// present, then `to` is appended to the neighbors of `from` and `from`
    /// to the neighbors of `to`, each with `weight`. An edge added twice is
    /// stored twice, and any weight is taken.
    fn add_edge(&mut self, edge: (&str, &str, i32))
        ensures
            final(self).table()@ == with_edge(old(self).table()@, edge.0@, edge.1@, edge.2),
            final(self).table().node_order() == order_with_edge(
                old(self).table().node_order(),
                edge.0@,
                edge.1@,
            ),
    {
        let (from, to, weight) = edge;
        let from_str = from.to_string();
        let to_str = to.to_string();

        self.add_node(from);
        self.add_node(to);

        self.adjacency_table_mutable().push_neighbor(from, to_str, weight);
        self.adjacency_table_mutable().push_neighbor(to, from_str, weight);
    }

    /// Whether `node` is in the graph, with or without edges.
    fn contains(&self, node: &str) -> (present: bool)
        ensures
            present == self.table()@.contains_key(node@),
    {
        self.adjacency_table().get(node).is_some()
    }

    /// The names of all nodes.
    fn nodes(&self) -> (names: StringHashSet)
        ensures
            names@ == self.table()@.dom(),
    {
        let table = self.adjacency_table();
        let mut names = StringHashSet::new();
        let count: usize = table.len();
        let mut i: usize = 0;
        while i < count
            invariant
                i <= count,
                count == table.node_order().len(),
                names@ == table.node_order().take(i as int).to_set(),
            decreases count - i,
        {
            if let Some((name, _)) = table.entry_at(i) {
                names.insert(name.clone());
                proof {
                    let seen = table.node_order().take(i as int);
                    assert(table.node_order().take(i + 1) == seen.push(name@));
                    seen.lemma_push_to_set_commute(name@);
                }
            }
            i += 1;
        }
        proof {
            use_type_invariant(table);
            table.lemma_node_order();
            assert(table.node_order().take(count as int) == table.node_order());
        }
        names
    }

    /// Every stored adjacency record as `(from, to, weight)`: the nodes in
    /// the table's enumeration order, each with its neighbors in the order in
    /// which they were added. An edge between two distinct nodes appears
    /// once in each direction.
    fn edges(&self) -> (records: Vec<(&String, &String, i32)>)
        ensures
            records.deep_view() == edge_records(self.table().node_order(), self.table()@),
    {
        let table = self.adjacency_table();
        let mut edges: Vec<(&String, &String, i32)> = Vec::new();
        let count: usize = table.len();
        let mut i: usize = 0;
        assert(edges.deep_view() == Seq::<(Seq<char>, Seq<char>, i32)>::empty());
        while i < count
            invariant
                i <= count,
                count == table.node_order().len(),
                edges.deep_view() == edge_records(table.node_order().take(i as int), table@),
            decreases count - i,
        {
            if let Some((from_node, neighbors)) = table.entry_at(i) {
                let ghost before = edges.deep_view();
                let mut j: usize = 0;
                while j < neighbors.len()
                    invariant
                        j <= neighbors.len(),
                        edges.deep_view() == before + records_from(
                            from_node@,
                            neighbors.deep_view().take(j as int),
                        ),
                    decreases neighbors.len() - j,
                {
                    let ghost sofar = edges.deep_view();
                    let to_node = &neighbors[j].0;
                    let weight = neighbors[j].1;
                    edges.push((from_node, to_node, weight));
                    assert(edges.deep_view() == sofar.push((from_node@, to_node@, weight)));
                    assert(records_from(from_node@, neighbors.deep_view().take(j + 1))
                        == records_from(from_node@, neighbors.deep_view().take(j as int)).push(
                        (from_node@, to_node@, weight),
                    ));
                    j += 1;
                }
                proof {
                    let order = table.node_order();
                    assert(neighbors.deep_view().take(j as int) == neighbors.deep_view());
                    assert(order.take(i + 1).drop_last() == order.take(i as int));
                    assert(order.take(i + 1).last() == from_node@);
                }
            }
            i += 1;
        }
        assert(table.node_order().take(count as int) == table.node_order());
        edges
    }
}

/// An undirected graph with integer edge weights.
///
/// Every edge is stored twice, once in the neighbor list of each endpoint.
/// Nothing is ever removed.
pub struct UndirectedGraph {
    adjacency_table: AdjacencyTable,
}

impl UndirectedGraph {
    /// An empty graph.
    pub fn new() -> (graph: Self)
        ensures
            graph.table()@ == Map::<Seq<char>, Seq<(Seq<char>, i32)>>::empty(),
            graph.table().node_order() == Seq::<Seq<char>>::empty(),
    {
        UndirectedGraph { adjacency_table: AdjacencyTable::new() }
    }
}

impl Graph for UndirectedGraph {
    closed spec fn table(&self) -> AdjacencyTable {
        self.adjacency_table
    }

    fn new() -> (graph: Self) {
        UndirectedGraph::new()
    }

    fn adjacency_table_mutable(&mut self) -> (table: &mut AdjacencyTable) {
        &mut self.adjacency_table
    }

    fn adjacency_table(&self) -> (table: &AdjacencyTable) {
        &self.adjacency_table
    }
}

} // verus!
