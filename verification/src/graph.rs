//! The entity store and the command engine.
//!
//! A `Graph` owns the authoritative sequences of nodes and edges together
//! with the two allocator counters that issue their identifiers. Commands
//! are applied one at a time; each application is an atomic transition that
//! preserves the graph's invariants: identifiers are unique within their
//! namespace, and every edge's endpoints name nodes that are present.

use vstd::prelude::*;
use crate::{CommandResult, Id, Label};
use crate::command::GraphCommand;
use crate::graphviz::{Exporter, ExportEvent};
use crate::seqs::{keep, lemma_keep_contains, lemma_keep_distinct, lemma_keep_retains};
use crate::text::{dec_str, lemma_dec_str_injective, lemma_dec_str_len, parse_dec, u64_to_dec};

verus! {

/// The mathematical value of one node.
pub struct NodeView {
    pub id: Seq<char>,
    pub label: Seq<char>,
}

/// The mathematical value of one edge.
pub struct EdgeView {
    pub id: Seq<char>,
    pub from: Seq<char>,
    pub to: Seq<char>,
}

/// The mathematical value of a graph: the two allocator counters and the
/// node and edge sequences, in creation order.
pub struct GraphView {
    pub node_high_water: nat,
    pub edge_high_water: nat,
    pub nodes: Seq<NodeView>,
    pub edges: Seq<EdgeView>,
}

/// One node: a stable identifier and a mutable label.
#[derive(Debug)]
pub struct Node {
    pub id: Id,
    pub label: Label,
}

impl View for Node {
    type V = NodeView;

    open spec fn view(&self) -> NodeView {
        NodeView { id: self.id@, label: self.label@ }
    }
}

/// One directed edge between two nodes, with its own identifier.
#[derive(Debug)]
pub struct Edge {
    pub id: Id,
    pub from: Id,
    pub to: Id,
}

impl View for Edge {
    type V = EdgeView;

    open spec fn view(&self) -> EdgeView {
        EdgeView { id: self.id@, from: self.from@, to: self.to@ }
    }
}

/// The views of a sequence of nodes.
pub open spec fn nodes_view(s: Seq<Node>) -> Seq<NodeView> {
    Seq::new(s.len(), |i: int| s[i]@)
}

/// The views of a sequence of edges.
pub open spec fn edges_view(s: Seq<Edge>) -> Seq<EdgeView> {
    Seq::new(s.len(), |i: int| s[i]@)
}

/// The identifier the node allocator issues for counter value `k`.
pub open spec fn node_id_seq(k: nat) -> Seq<char> {
    seq!['n'] + dec_str(k)
}

/// The identifier the edge allocator issues for counter value `k`.
pub open spec fn edge_id_seq(k: nat) -> Seq<char> {
    seq!['e'] + dec_str(k)
}

/// Distinct counter values give distinct node identifiers.
pub proof fn lemma_node_id_seq_injective(k1: nat, k2: nat)
    requires
        k1 != k2,
    ensures
        node_id_seq(k1) != node_id_seq(k2),
{
    lemma_dec_str_injective(k1, k2);
    if node_id_seq(k1) == node_id_seq(k2) {
        assert(node_id_seq(k1).skip(1) =~= dec_str(k1));
        assert(node_id_seq(k2).skip(1) =~= dec_str(k2));
        assert(false);
    }
}

/// Distinct counter values give distinct edge identifiers.
pub proof fn lemma_edge_id_seq_injective(k1: nat, k2: nat)
    requires
        k1 != k2,
    ensures
        edge_id_seq(k1) != edge_id_seq(k2),
{
    lemma_dec_str_injective(k1, k2);
    if edge_id_seq(k1) == edge_id_seq(k2) {
        assert(edge_id_seq(k1).skip(1) =~= dec_str(k1));
        assert(edge_id_seq(k2).skip(1) =~= dec_str(k2));
        assert(false);
    }
}

/// The two identifier namespaces never collide: a node identifier is never
/// an edge identifier, whatever the counters.
pub proof fn lemma_id_namespaces_disjoint(k1: nat, k2: nat)
    ensures
        node_id_seq(k1) != edge_id_seq(k2),
{
    lemma_dec_str_len(k1);
    assert(node_id_seq(k1)[0] == 'n');
    assert(edge_id_seq(k2)[0] == 'e');
}

/// Whether a node with this identifier is present.
pub open spec fn has_node_id(g: GraphView, id: Seq<char>) -> bool {
    exists|i: int| 0 <= i < g.nodes.len() && g.nodes[i].id == id
}

/// Whether an edge with this identifier is present.
pub open spec fn has_edge_id(g: GraphView, id: Seq<char>) -> bool {
    exists|i: int| 0 <= i < g.edges.len() && g.edges[i].id == id
}

/// The nodes that survive deleting the node named `id`.
pub open spec fn node_survives(id: Seq<char>) -> spec_fn(NodeView) -> bool {
    |n: NodeView| n.id != id
}

/// The edges that survive deleting the node named `id`: those that touch it
/// at neither endpoint.
pub open spec fn edge_survives(id: Seq<char>) -> spec_fn(EdgeView) -> bool {
    |e: EdgeView| e.from != id && e.to != id
}

/// The edges that survive unlinking the edge named `id`.
pub open spec fn edge_not_named(id: Seq<char>) -> spec_fn(EdgeView) -> bool {
    |e: EdgeView| e.id != id
}

/// The graph after inserting a node with this label.
pub open spec fn inserted_node(g: GraphView, label: Seq<char>) -> GraphView {
    GraphView {
        node_high_water: g.node_high_water + 1,
        nodes: g.nodes.push(NodeView { id: node_id_seq(g.node_high_water), label }),
        ..g
    }
}

/// The graph after deleting the node named `id`: every edge touching the
/// node goes first, then the node itself.
pub open spec fn deleted_node(g: GraphView, id: Seq<char>) -> GraphView {
    GraphView {
        nodes: keep(g.nodes, node_survives(id)),
        edges: keep(g.edges, edge_survives(id)),
        ..g
    }
}

/// The graph after linking `from` to `to`.
pub open spec fn linked_edge(g: GraphView, from: Seq<char>, to: Seq<char>) -> GraphView {
    GraphView {
        edge_high_water: g.edge_high_water + 1,
        edges: g.edges.push(EdgeView { id: edge_id_seq(g.edge_high_water), from, to }),
        ..g
    }
}

/// The graph after renaming the node named `id`: only that node's label
/// changes; every identifier and every edge is untouched.
pub open spec fn renamed_node(g: GraphView, id: Seq<char>, label: Seq<char>) -> GraphView {
    GraphView {
        nodes: Seq::new(
            g.nodes.len(),
            |i: int|
                if g.nodes[i].id == id {
                    NodeView { id: g.nodes[i].id, label }
                } else {
                    g.nodes[i]
                },
        ),
        ..g
    }
}

/// The graph after unlinking the edge named `id`.
pub open spec fn unlinked_edge(g: GraphView, id: Seq<char>) -> GraphView {
    GraphView { edges: keep(g.edges, edge_not_named(id)), ..g }
}

/// Whether `id` is an identifier the node allocator has issued while its
/// counter was below `hw`.
pub open spec fn issued_node_id(id: Seq<char>, hw: nat) -> bool {
    exists|k: nat| k < hw && id == #[trigger] node_id_seq(k)
}

/// Whether `id` is an identifier the edge allocator has issued while its
/// counter was below `hw`.
pub open spec fn issued_edge_id(id: Seq<char>, hw: nat) -> bool {
    exists|k: nat| k < hw && id == #[trigger] edge_id_seq(k)
}

/// An issued node identifier stays issued as the counter grows.
pub proof fn lemma_issued_node_id_mono(id: Seq<char>, hw1: nat, hw2: nat)
    requires
        issued_node_id(id, hw1),
        hw1 <= hw2,
    ensures
        issued_node_id(id, hw2),
{
    let k = choose|k: nat| k < hw1 && id == node_id_seq(k);
    assert(k < hw2 && id == node_id_seq(k));
}

/// An issued edge identifier stays issued as the counter grows.
pub proof fn lemma_issued_edge_id_mono(id: Seq<char>, hw1: nat, hw2: nat)
    requires
        issued_edge_id(id, hw1),
        hw1 <= hw2,
    ensures
        issued_edge_id(id, hw2),
{
    let k = choose|k: nat| k < hw1 && id == edge_id_seq(k);
    assert(k < hw2 && id == edge_id_seq(k));
}

/// The graph's invariant.
///
/// Every present identifier was issued by its allocator below the current
/// counter, identifiers are unique within each namespace, and every edge's
/// endpoints name present nodes.
pub open spec fn wf_view(g: GraphView) -> bool {
    &&& forall|i: int|
        #![trigger g.nodes[i]]
        0 <= i < g.nodes.len() ==> issued_node_id(g.nodes[i].id, g.node_high_water)
    &&& forall|i: int, j: int| 0 <= i < j < g.nodes.len() ==> g.nodes[i].id != g.nodes[j].id
    &&& forall|i: int|
        #![trigger g.edges[i]]
        0 <= i < g.edges.len() ==> issued_edge_id(g.edges[i].id, g.edge_high_water)
    &&& forall|i: int, j: int| 0 <= i < j < g.edges.len() ==> g.edges[i].id != g.edges[j].id
    &&& forall|i: int|
        0 <= i < g.edges.len() ==> has_node_id(g, #[trigger] g.edges[i].from) && has_node_id(
            g,
            g.edges[i].to,
        )
}

/// The identifier the node allocator issues next is not yet present.
pub proof fn lemma_insert_issues_fresh_id(g: GraphView)
    requires
        wf_view(g),
    ensures
        !has_node_id(g, node_id_seq(g.node_high_water)),
{
    if has_node_id(g, node_id_seq(g.node_high_water)) {
        let i = choose|i: int|
            0 <= i < g.nodes.len() && g.nodes[i].id == node_id_seq(g.node_high_water);
        assert(issued_node_id(g.nodes[i].id, g.node_high_water));
        let k = choose|k: nat| k < g.node_high_water && g.nodes[i].id == node_id_seq(k);
        lemma_node_id_seq_injective(k, g.node_high_water);
    }
}

/// The identifier the edge allocator issues next is not yet present.
pub proof fn lemma_link_issues_fresh_id(g: GraphView)
    requires
        wf_view(g),
    ensures
        !has_edge_id(g, edge_id_seq(g.edge_high_water)),
{
    if has_edge_id(g, edge_id_seq(g.edge_high_water)) {
        let i = choose|i: int|
            0 <= i < g.edges.len() && g.edges[i].id == edge_id_seq(g.edge_high_water);
        assert(issued_edge_id(g.edges[i].id, g.edge_high_water));
        let k = choose|k: nat| k < g.edge_high_water && g.edges[i].id == edge_id_seq(k);
        lemma_edge_id_seq_injective(k, g.edge_high_water);
    }
}

/// Identifiers issued by successive insertions are strictly increasing in
/// issuance order and never equal: one insertion issues the identifier of
/// the current node counter, the next issues the identifier of the counter
/// one higher, and identifiers of distinct counters differ.
pub proof fn lemma_insert_ids_strictly_increase(g: GraphView, l1: Seq<char>, l2: Seq<char>)
    ensures
        inserted_node(g, l1).nodes.last().id == node_id_seq(g.node_high_water),
        inserted_node(inserted_node(g, l1), l2).nodes.last().id == node_id_seq(
            g.node_high_water + 1,
        ),
        node_id_seq(g.node_high_water) != node_id_seq(g.node_high_water + 1),
{
    lemma_node_id_seq_injective(g.node_high_water, g.node_high_water + 1);
}

/// After a cascade delete, no surviving edge references the deleted
/// identifier at either endpoint.
pub proof fn lemma_delete_purges_references(g: GraphView, id: Seq<char>)
    ensures
        forall|i: int|
            0 <= i < deleted_node(g, id).edges.len() ==> #[trigger] deleted_node(
                g,
                id,
            ).edges[i].from != id && deleted_node(g, id).edges[i].to != id,
{
    lemma_keep_contains(g.edges, edge_survives(id));
    assert forall|i: int| 0 <= i < deleted_node(g, id).edges.len() implies #[trigger] deleted_node(
        g,
        id,
    ).edges[i].from != id && deleted_node(g, id).edges[i].to != id by {
        let e = keep(g.edges, edge_survives(id))[i];
        assert(keep(g.edges, edge_survives(id)).contains(e));
        assert(edge_survives(id)(e));
    }
}

/// Inserting a node preserves the graph's invariant.
proof fn lemma_insert_preserves_wf(g: GraphView, label: Seq<char>)
    requires
        wf_view(g),
    ensures
        wf_view(inserted_node(g, label)),
{
    let d = inserted_node(g, label);
    assert forall|i: int| #![trigger d.nodes[i]] 0 <= i < d.nodes.len() implies issued_node_id(
        d.nodes[i].id,
        d.node_high_water,
    ) by {
        if i < g.nodes.len() {
            assert(d.nodes[i] == g.nodes[i]);
            lemma_issued_node_id_mono(g.nodes[i].id, g.node_high_water, d.node_high_water);
        } else {
            assert(d.nodes[i].id == node_id_seq(g.node_high_water));
            assert(g.node_high_water < d.node_high_water && d.nodes[i].id == node_id_seq(
                g.node_high_water,
            ));
        }
    }
    assert forall|i: int, j: int| 0 <= i < j < d.nodes.len() implies d.nodes[i].id
        != d.nodes[j].id by {
        assert(d.nodes[i] == g.nodes[i]);
        if j == d.nodes.len() - 1 {
            assert(issued_node_id(g.nodes[i].id, g.node_high_water));
            let k = choose|k: nat| k < g.node_high_water && g.nodes[i].id == node_id_seq(k);
            lemma_node_id_seq_injective(k, g.node_high_water);
        } else {
            assert(d.nodes[j] == g.nodes[j]);
        }
    }
    assert forall|i: int| #![trigger d.edges[i]] 0 <= i < d.edges.len() implies issued_edge_id(
        d.edges[i].id,
        d.edge_high_water,
    ) by {
        assert(d.edges[i] == g.edges[i]);
        assert(issued_edge_id(g.edges[i].id, g.edge_high_water));
    }
    assert forall|i: int, j: int| 0 <= i < j < d.edges.len() implies d.edges[i].id
        != d.edges[j].id by {
        assert(d.edges[i] == g.edges[i] && d.edges[j] == g.edges[j]);
    }
    assert forall|i: int| 0 <= i < d.edges.len() implies has_node_id(
        d,
        #[trigger] d.edges[i].from,
    ) && has_node_id(d, d.edges[i].to) by {
        let e = d.edges[i];
        assert(e == g.edges[i]);
        assert(g.edges[i].from == e.from && g.edges[i].to == e.to);
        assert(has_node_id(g, e.from) && has_node_id(g, e.to));
        let nf = choose|nf: int| 0 <= nf < g.nodes.len() && g.nodes[nf].id == e.from;
        assert(d.nodes[nf] == g.nodes[nf]);
        assert(d.nodes[nf].id == e.from);
        let nt = choose|nt: int| 0 <= nt < g.nodes.len() && g.nodes[nt].id == e.to;
        assert(d.nodes[nt] == g.nodes[nt]);
        assert(d.nodes[nt].id == e.to);
    }
}

/// Linking two present nodes preserves the graph's invariant.
proof fn lemma_link_preserves_wf(g: GraphView, from: Seq<char>, to: Seq<char>)
    requires
        wf_view(g),
        has_node_id(g, from),
        has_node_id(g, to),
    ensures
        wf_view(linked_edge(g, from, to)),
{
    let d = linked_edge(g, from, to);
    assert forall|i: int| #![trigger d.nodes[i]] 0 <= i < d.nodes.len() implies issued_node_id(
        d.nodes[i].id,
        d.node_high_water,
    ) by {
        assert(d.nodes[i] == g.nodes[i]);
        assert(issued_node_id(g.nodes[i].id, g.node_high_water));
    }
    assert forall|i: int, j: int| 0 <= i < j < d.nodes.len() implies d.nodes[i].id
        != d.nodes[j].id by {
        assert(d.nodes[i] == g.nodes[i] && d.nodes[j] == g.nodes[j]);
    }
    assert forall|i: int| #![trigger d.edges[i]] 0 <= i < d.edges.len() implies issued_edge_id(
        d.edges[i].id,
        d.edge_high_water,
    ) by {
        if i < g.edges.len() {
            assert(d.edges[i] == g.edges[i]);
            lemma_issued_edge_id_mono(g.edges[i].id, g.edge_high_water, d.edge_high_water);
        } else {
            assert(d.edges[i].id == edge_id_seq(g.edge_high_water));
            assert(g.edge_high_water < d.edge_high_water && d.edges[i].id == edge_id_seq(
                g.edge_high_water,
            ));
        }
    }
    assert forall|i: int, j: int| 0 <= i < j < d.edges.len() implies d.edges[i].id
        != d.edges[j].id by {
        assert(d.edges[i] == g.edges[i]);
        if j == d.edges.len() - 1 {
            assert(issued_edge_id(g.edges[i].id, g.edge_high_water));
            let k = choose|k: nat| k < g.edge_high_water && g.edges[i].id == edge_id_seq(k);
            lemma_edge_id_seq_injective(k, g.edge_high_water);
        } else {
            assert(d.edges[j] == g.edges[j]);
        }
    }
    assert forall|i: int| 0 <= i < d.edges.len() implies has_node_id(
        d,
        #[trigger] d.edges[i].from,
    ) && has_node_id(d, d.edges[i].to) by {
        let e = d.edges[i];
        if i < g.edges.len() {
            assert(e == g.edges[i]);
            assert(has_node_id(g, e.from) && has_node_id(g, e.to));
        }
        let nf = choose|nf: int| 0 <= nf < g.nodes.len() && g.nodes[nf].id == e.from;
        assert(d.nodes[nf] == g.nodes[nf]);
        assert(d.nodes[nf].id == e.from);
        let nt = choose|nt: int| 0 <= nt < g.nodes.len() && g.nodes[nt].id == e.to;
        assert(d.nodes[nt] == g.nodes[nt]);
        assert(d.nodes[nt].id == e.to);
    }
}

/// Deleting a node preserves the graph's invariant.
proof fn lemma_delete_preserves_wf(g: GraphView, id: Seq<char>)
    requires
        wf_view(g),
    ensures
        wf_view(deleted_node(g, id)),
{
    let d = deleted_node(g, id);
    lemma_keep_contains(g.nodes, node_survives(id));
    lemma_keep_contains(g.edges, edge_survives(id));
    lemma_keep_retains(g.nodes, node_survives(id));
    lemma_keep_distinct(g.nodes, node_survives(id), |n: NodeView| n.id);
    lemma_keep_distinct(g.edges, edge_survives(id), |e: EdgeView| e.id);
    assert forall|i: int| #![trigger d.nodes[i]] 0 <= i < d.nodes.len() implies issued_node_id(
        d.nodes[i].id,
        d.node_high_water,
    ) by {
        assert(keep(g.nodes, node_survives(id)).contains(d.nodes[i]));
        assert(g.nodes.contains(d.nodes[i]));
        let j = choose|j: int| 0 <= j < g.nodes.len() && g.nodes[j] == d.nodes[i];
        assert(d.nodes[i].id == g.nodes[j].id);
        assert(issued_node_id(g.nodes[j].id, g.node_high_water));
    }
    assert forall|i: int, j: int| 0 <= i < j < d.nodes.len() implies d.nodes[i].id
        != d.nodes[j].id by {
        let key = |n: NodeView| n.id;
        assert(key(keep(g.nodes, node_survives(id))[i]) != key(keep(g.nodes, node_survives(id))[j]));
    }
    assert forall|i: int| #![trigger d.edges[i]] 0 <= i < d.edges.len() implies issued_edge_id(
        d.edges[i].id,
        d.edge_high_water,
    ) by {
        assert(keep(g.edges, edge_survives(id)).contains(d.edges[i]));
        assert(g.edges.contains(d.edges[i]));
        let j = choose|j: int| 0 <= j < g.edges.len() && g.edges[j] == d.edges[i];
        assert(d.edges[i].id == g.edges[j].id);
        assert(issued_edge_id(g.edges[j].id, g.edge_high_water));
    }
    assert forall|i: int, j: int| 0 <= i < j < d.edges.len() implies d.edges[i].id
        != d.edges[j].id by {
        let key = |e: EdgeView| e.id;
        assert(key(keep(g.edges, edge_survives(id))[i]) != key(keep(g.edges, edge_survives(id))[j]));
    }
    assert forall|i: int| 0 <= i < d.edges.len() implies has_node_id(
        d,
        #[trigger] d.edges[i].from,
    ) && has_node_id(d, d.edges[i].to) by {
        let e = d.edges[i];
        assert(keep(g.edges, edge_survives(id)).contains(e));
        assert(edge_survives(id)(e));
        assert(g.edges.contains(e));
        let j = choose|j: int| 0 <= j < g.edges.len() && g.edges[j] == e;
        assert(e == g.edges[j]);
        assert(has_node_id(g, e.from) && has_node_id(g, e.to));
        let nf = choose|nf: int| 0 <= nf < g.nodes.len() && g.nodes[nf].id == e.from;
        assert(node_survives(id)(g.nodes[nf]));
        assert(keep(g.nodes, node_survives(id)).contains(g.nodes[nf]));
        let wf_i = choose|w: int| 0 <= w < d.nodes.len() && d.nodes[w] == g.nodes[nf];
        assert(d.nodes[wf_i].id == e.from);
        let nt = choose|nt: int| 0 <= nt < g.nodes.len() && g.nodes[nt].id == e.to;
        assert(node_survives(id)(g.nodes[nt]));
        assert(keep(g.nodes, node_survives(id)).contains(g.nodes[nt]));
        let wt = choose|w: int| 0 <= w < d.nodes.len() && d.nodes[w] == g.nodes[nt];
        assert(d.nodes[wt].id == e.to);
    }
}

/// Unlinking an edge preserves the graph's invariant.
proof fn lemma_unlink_preserves_wf(g: GraphView, id: Seq<char>)
    requires
        wf_view(g),
    ensures
        wf_view(unlinked_edge(g, id)),
{
    let d = unlinked_edge(g, id);
    lemma_keep_contains(g.edges, edge_not_named(id));
    lemma_keep_distinct(g.edges, edge_not_named(id), |e: EdgeView| e.id);
    assert forall|i: int| #![trigger d.nodes[i]] 0 <= i < d.nodes.len() implies issued_node_id(
        d.nodes[i].id,
        d.node_high_water,
    ) by {
        assert(d.nodes[i] == g.nodes[i]);
        assert(issued_node_id(g.nodes[i].id, g.node_high_water));
    }
    assert forall|i: int, j: int| 0 <= i < j < d.nodes.len() implies d.nodes[i].id
        != d.nodes[j].id by {
        assert(d.nodes[i] == g.nodes[i] && d.nodes[j] == g.nodes[j]);
    }
    assert forall|i: int| #![trigger d.edges[i]] 0 <= i < d.edges.len() implies issued_edge_id(
        d.edges[i].id,
        d.edge_high_water,
    ) by {
        assert(keep(g.edges, edge_not_named(id)).contains(d.edges[i]));
        assert(g.edges.contains(d.edges[i]));
        let j = choose|j: int| 0 <= j < g.edges.len() && g.edges[j] == d.edges[i];
        assert(d.edges[i].id == g.edges[j].id);
        assert(issued_edge_id(g.edges[j].id, g.edge_high_water));
    }
    assert forall|i: int, j: int| 0 <= i < j < d.edges.len() implies d.edges[i].id
        != d.edges[j].id by {
        let key = |e: EdgeView| e.id;
        assert(key(keep(g.edges, edge_not_named(id))[i]) != key(keep(g.edges, edge_not_named(id))[j]));
    }
    assert forall|i: int| 0 <= i < d.edges.len() implies has_node_id(
        d,
        #[trigger] d.edges[i].from,
    ) && has_node_id(d, d.edges[i].to) by {
        let e = d.edges[i];
        assert(keep(g.edges, edge_not_named(id)).contains(e));
        assert(g.edges.contains(e));
        let j = choose|j: int| 0 <= j < g.edges.len() && g.edges[j] == e;
        assert(e == g.edges[j]);
        assert(g.edges[j].from == e.from && g.edges[j].to == e.to);
        assert(has_node_id(g, e.from) && has_node_id(g, e.to));
        let nf = choose|nf: int| 0 <= nf < g.nodes.len() && g.nodes[nf].id == e.from;
        assert(d.nodes[nf] == g.nodes[nf]);
        assert(d.nodes[nf].id == e.from);
        let nt = choose|nt: int| 0 <= nt < g.nodes.len() && g.nodes[nt].id == e.to;
        assert(d.nodes[nt] == g.nodes[nt]);
        assert(d.nodes[nt].id == e.to);
    }
}

/// Renaming a node preserves the graph's invariant.
proof fn lemma_rename_preserves_wf(g: GraphView, id: Seq<char>, label: Seq<char>)
    requires
        wf_view(g),
    ensures
        wf_view(renamed_node(g, id, label)),
{
    let d = renamed_node(g, id, label);
    assert(forall|i: int| 0 <= i < d.nodes.len() ==> #[trigger] d.nodes[i].id == g.nodes[i].id);
    assert forall|i: int| #![trigger d.nodes[i]] 0 <= i < d.nodes.len() implies issued_node_id(
        d.nodes[i].id,
        d.node_high_water,
    ) by {
        assert(d.nodes[i].id == g.nodes[i].id);
        assert(issued_node_id(g.nodes[i].id, g.node_high_water));
    }
    assert forall|i: int, j: int| 0 <= i < j < d.nodes.len() implies d.nodes[i].id
        != d.nodes[j].id by {
        assert(d.nodes[i].id == g.nodes[i].id && d.nodes[j].id == g.nodes[j].id);
    }
    assert forall|i: int| #![trigger d.edges[i]] 0 <= i < d.edges.len() implies issued_edge_id(
        d.edges[i].id,
        d.edge_high_water,
    ) by {
        assert(d.edges[i] == g.edges[i]);
        assert(issued_edge_id(g.edges[i].id, g.edge_high_water));
    }
    assert forall|i: int, j: int| 0 <= i < j < d.edges.len() implies d.edges[i].id
        != d.edges[j].id by {
        assert(d.edges[i] == g.edges[i] && d.edges[j] == g.edges[j]);
    }
    assert forall|i: int| 0 <= i < d.edges.len() implies has_node_id(
        d,
        #[trigger] d.edges[i].from,
    ) && has_node_id(d, d.edges[i].to) by {
        let e = d.edges[i];
        assert(e == g.edges[i]);
        assert(g.edges[i].from == e.from && g.edges[i].to == e.to);
        assert(has_node_id(g, e.from) && has_node_id(g, e.to));
        let nf = choose|nf: int| 0 <= nf < g.nodes.len() && g.nodes[nf].id == e.from;
        assert(d.nodes[nf].id == e.from);
        let nt = choose|nt: int| 0 <= nt < g.nodes.len() && g.nodes[nt].id == e.to;
        assert(d.nodes[nt].id == e.to);
    }
}

/// The message reporting an inserted node.
pub open spec fn msg_inserted(id: Seq<char>, label: Seq<char>) -> Seq<char> {
    "inserted node "@ + id + ": '"@ + label + "'"@
}

/// The message reporting a removed node.
pub open spec fn msg_node_removed(id: Seq<char>) -> Seq<char> {
    "node "@ + id + " removed"@
}

/// The message reporting that a node to delete was not found.
pub open spec fn msg_node_not_found(id: Seq<char>) -> Seq<char> {
    "node "@ + id + " not found"@
}

/// The message reporting a missing link source.
pub open spec fn msg_source_missing(from: Seq<char>) -> Seq<char> {
    "source node "@ + from + " not found"@
}

/// The message reporting a missing link target.
pub open spec fn msg_target_missing(to: Seq<char>) -> Seq<char> {
    "target node "@ + to + " not found"@
}

/// The message reporting an added edge.
pub open spec fn msg_edge_added(id: Seq<char>, from: Seq<char>, to: Seq<char>) -> Seq<char> {
    "Added edge "@ + id + " from "@ + from + " to "@ + to
}

/// The message reporting a renamed node.
pub open spec fn msg_renamed(id: Seq<char>, label: Seq<char>) -> Seq<char> {
    "Node "@ + id + " renamed to '"@ + label + "'"@
}

/// The message reporting that a node to rename was not found.
pub open spec fn msg_rename_missing(id: Seq<char>) -> Seq<char> {
    "Could not find node "@ + id
}

/// The message reporting a removed edge.
pub open spec fn msg_edge_removed(id: Seq<char>) -> Seq<char> {
    "edge "@ + id + " removed"@
}

/// The message reporting that an edge to unlink was not found.
pub open spec fn msg_edge_not_found(id: Seq<char>) -> Seq<char> {
    "edge "@ + id + " not found"@
}

/// What `apply_command` does for each command, relating the new graph and
/// the result message to the old graph.
pub open spec fn applied(g: GraphView, command: GraphCommand, r: GraphView, msg: Seq<char>) -> bool {
    match command {
        GraphCommand::InsertNode { label } => r == inserted_node(g, label@) && msg == msg_inserted(
            node_id_seq(g.node_high_water),
            label@,
        ),
        GraphCommand::DeleteNode { id } => if has_node_id(g, id@) {
            r == deleted_node(g, id@) && msg == msg_node_removed(id@)
        } else {
            r == g && msg == msg_node_not_found(id@)
        },
        GraphCommand::LinkEdge { from, to } => if !has_node_id(g, from@) {
            r == g && msg == msg_source_missing(from@)
        } else if !has_node_id(g, to@) {
            r == g && msg == msg_target_missing(to@)
        } else {
            r == linked_edge(g, from@, to@) && msg == msg_edge_added(
                edge_id_seq(g.edge_high_water),
                from@,
                to@,
            )
        },
        GraphCommand::RenameNode { id, label } => if has_node_id(g, id@) {
            r == renamed_node(g, id@, label@) && msg == msg_renamed(id@, label@)
        } else {
            r == g && msg == msg_rename_missing(id@)
        },
        GraphCommand::UnlinkEdge { id } => if has_edge_id(g, id@) {
            r == unlinked_edge(g, id@) && msg == msg_edge_removed(id@)
        } else {
            r == g && msg == msg_edge_not_found(id@)
        },
    }
}

/// The entity store: the authoritative graph of one editing session.
#[derive(Debug)]
pub struct Graph {
    node_high_water: u64,
    edge_high_water: u64,
    nodes: Vec<Node>,
    edges: Vec<Edge>,
}

impl View for Graph {
    type V = GraphView;

    closed spec fn view(&self) -> GraphView {
        GraphView {
            node_high_water: self.node_high_water as nat,
            edge_high_water: self.edge_high_water as nat,
            nodes: nodes_view(self.nodes@),
            edges: edges_view(self.edges@),
        }
    }
}

impl Default for Graph {
    /// The empty graph, with both allocator counters at zero.
    fn default() -> (g: Graph)
        ensures
            g@.node_high_water == 0,
            g@.edge_high_water == 0,
            g@.nodes.len() == 0,
            g@.edges.len() == 0,
            g.wf(),
    {
        let g = Graph { node_high_water: 0, edge_high_water: 0, nodes: Vec::new(), edges: Vec::new() };
        proof {
            assert(g@.nodes =~= Seq::<NodeView>::empty());
            assert(g@.edges =~= Seq::<EdgeView>::empty());
        }
        g
    }
}

impl Graph {
    /// The graph's invariant; see [`wf_view`].
    pub open spec fn wf(&self) -> bool {
        wf_view(self@)
    }

    /// An empty graph.
    pub fn new() -> (g: Graph)
        ensures
            g@.node_high_water == 0,
            g@.edge_high_water == 0,
            g@.nodes.len() == 0,
            g@.edges.len() == 0,
            g.wf(),
    {
        Graph::default()
    }

    /// Issue the next node identifier and advance the node counter.
    fn next_node_id(&mut self) -> (id: Id)
        requires
            old(self).node_high_water < u64::MAX,
        ensures
            id@ == node_id_seq(old(self)@.node_high_water),
            final(self)@.node_high_water == old(self)@.node_high_water + 1,
            final(self)@.edge_high_water == old(self)@.edge_high_water,
            final(self)@.nodes == old(self)@.nodes,
            final(self)@.edges == old(self)@.edges,
    {
        let id = String::from_str("n").concat(u64_to_dec(self.node_high_water).as_str());
        self.node_high_water = self.node_high_water + 1;
        proof {
            reveal_strlit("n");
            assert(id@ =~= node_id_seq(old(self)@.node_high_water));
            assert(final(self)@.nodes =~= old(self)@.nodes);
            assert(final(self)@.edges =~= old(self)@.edges);
        }
        Id(id)
    }

    /// Issue the next edge identifier and advance the edge counter.
    fn next_edge_id(&mut self) -> (id: Id)
        requires
            old(self).edge_high_water < u64::MAX,
        ensures
            id@ == edge_id_seq(old(self)@.edge_high_water),
            final(self)@.edge_high_water == old(self)@.edge_high_water + 1,
            final(self)@.node_high_water == old(self)@.node_high_water,
            final(self)@.nodes == old(self)@.nodes,
            final(self)@.edges == old(self)@.edges,
    {
        let id = String::from_str("e").concat(u64_to_dec(self.edge_high_water).as_str());
        self.edge_high_water = self.edge_high_water + 1;
        proof {
            reveal_strlit("e");
            assert(id@ =~= edge_id_seq(old(self)@.edge_high_water));
            assert(final(self)@.nodes =~= old(self)@.nodes);
            assert(final(self)@.edges =~= old(self)@.edges);
        }
        Id(id)
    }

    /// Whether both allocators still have counter room: commands may only
    /// be applied while they do.
    pub fn can_allocate(&self) -> (r: bool)
        ensures
            r == (self@.node_high_water < u64::MAX && self@.edge_high_water < u64::MAX),
    {
        self.node_high_water < u64::MAX && self.edge_high_water < u64::MAX
    }

    /// The position of the first node with this identifier, by linear scan.
    pub fn find_node_idx(&self, id: &Id) -> (r: Option<usize>)
        ensures
            match r {
                Some(i) => i < self@.nodes.len() && self@.nodes[i as int].id == id@ && forall|j: int|
                    0 <= j < i ==> self@.nodes[j].id != id@,
                None => !has_node_id(self@, id@),
            },
            r is Some == has_node_id(self@, id@),
    {
        let n = self.nodes.len();
        for i in 0..n
            invariant
                n == self.nodes.len(),
                forall|j: int| 0 <= j < i ==> self@.nodes[j].id != id@,
        {
            if self.nodes[i].id.same_as(id) {
                return Some(i);
            }
        }
        proof {
            assert(!has_node_id(self@, id@));
        }
        None
    }

    /// The position of the first edge with this identifier, by linear scan.
    pub fn find_edge_idx(&self, id: &Id) -> (r: Option<usize>)
        ensures
            match r {
                Some(i) => i < self@.edges.len() && self@.edges[i as int].id == id@ && forall|j: int|
                    0 <= j < i ==> self@.edges[j].id != id@,
                None => !has_edge_id(self@, id@),
            },
            r is Some == has_edge_id(self@, id@),
    {
        let n = self.edges.len();
        for i in 0..n
            invariant
                n == self.edges.len(),
                forall|j: int| 0 <= j < i ==> self@.edges[j].id != id@,
        {
            if self.edges[i].id.same_as(id) {
                return Some(i);
            }
        }
        proof {
            assert(!has_edge_id(self@, id@));
        }
        None
    }

    /// Apply one command atomically, returning the human-readable outcome.
    ///
    /// The relation between the old graph, the new graph and the message is
    /// exactly [`applied`]: an insertion always succeeds and issues the next
    /// node identifier; a deletion of a present node removes it and every
    /// edge touching it; a link fails, mutating nothing, iff an endpoint is
    /// absent — the source is checked first — and otherwise appends exactly
    /// one edge with the endpoints preserved; a rename changes one label and
    /// nothing else; an unlink removes one edge.
    pub fn apply_command(&mut self, command: GraphCommand) -> (r: CommandResult)
        requires
            old(self).wf(),
            old(self)@.node_high_water < u64::MAX,
            old(self)@.edge_high_water < u64::MAX,
        ensures
            final(self).wf(),
            applied(old(self)@, command, final(self)@, r@),
    {
        match command {
            GraphCommand::InsertNode { label } => {
                let id = self.next_node_id();
                let message = String::from_str("inserted node ").concat(
                    id.as_string().as_str(),
                ).concat(": '").concat(label.as_string().as_str()).concat("'");
                let node = Node { id, label };
                self.nodes.push(node);
                proof {
                    let g = old(self)@;
                    assert(final(self)@.nodes =~= g.nodes.push(node@));
                    assert(final(self)@.edges =~= g.edges);
                    assert(final(self)@ == inserted_node(g, node@.label));
                    lemma_insert_preserves_wf(g, node@.label);
                }
                CommandResult::new(message)
            },
            GraphCommand::DeleteNode { id } => {
                match self.find_node_idx(&id) {
                    Some(_idx) => {
                        let ghost g = self@;
                        let mut kept_edges: Vec<Edge> = Vec::new();
                        let edge_count = self.edges.len();
                        for i in 0..edge_count
                            invariant
                                edge_count == self.edges.len(),
                                self == old(self),
                                edges_view(kept_edges@) =~= keep(
                                    edges_view(self.edges@).take(i as int),
                                    edge_survives(id@),
                                ),
                        {
                            let e = &self.edges[i];
                            proof {
                                assert(edges_view(self.edges@).take(i + 1).drop_last() =~= edges_view(
                                    self.edges@,
                                ).take(i as int));
                                assert(edges_view(self.edges@).take(i + 1).last() == e@);
                            }
                            if !(e.from.same_as(&id) || e.to.same_as(&id)) {
                                kept_edges.push(
                                    Edge {
                                        id: e.id.duplicate(),
                                        from: e.from.duplicate(),
                                        to: e.to.duplicate(),
                                    },
                                );
                            }
                            proof {
                                assert(edges_view(kept_edges@) =~= keep(
                                    edges_view(self.edges@).take(i + 1),
                                    edge_survives(id@),
                                ));
                            }
                        }
                        self.edges = kept_edges;
                        let mut kept_nodes: Vec<Node> = Vec::new();
                        let node_count = self.nodes.len();
                        for i in 0..node_count
                            invariant
                                node_count == self.nodes.len(),
                                self.nodes == old(self).nodes,
                                nodes_view(kept_nodes@) =~= keep(
                                    nodes_view(self.nodes@).take(i as int),
                                    node_survives(id@),
                                ),
                        {
                            let n = &self.nodes[i];
                            proof {
                                assert(nodes_view(self.nodes@).take(i + 1).drop_last() =~= nodes_view(
                                    self.nodes@,
                                ).take(i as int));
                                assert(nodes_view(self.nodes@).take(i + 1).last() == n@);
                            }
                            if !n.id.same_as(&id) {
                                kept_nodes.push(
                                    Node { id: n.id.duplicate(), label: n.label.duplicate() },
                                );
                            }
                            proof {
                                assert(nodes_view(kept_nodes@) =~= keep(
                                    nodes_view(self.nodes@).take(i + 1),
                                    node_survives(id@),
                                ));
                            }
                        }
                        self.nodes = kept_nodes;
                        proof {
                            assert(edges_view(old(self).edges@).take(
                                edges_view(old(self).edges@).len() as int,
                            ) =~= edges_view(old(self).edges@));
                            assert(nodes_view(old(self).nodes@).take(
                                nodes_view(old(self).nodes@).len() as int,
                            ) =~= nodes_view(old(self).nodes@));
                            assert(final(self)@ == deleted_node(g, id@));
                            lemma_delete_preserves_wf(g, id@);
                        }
                        CommandResult::new(
                            String::from_str("node ").concat(id.as_string().as_str()).concat(
                                " removed",
                            ),
                        )
                    },
                    None => CommandResult::new(
                        String::from_str("node ").concat(id.as_string().as_str()).concat(
                            " not found",
                        ),
                    ),
                }
            },
            GraphCommand::LinkEdge { from, to } => {
                if self.find_node_idx(&from).is_none() {
                    return CommandResult::new(
                        String::from_str("source node ").concat(from.as_string().as_str()).concat(
                            " not found",
                        ),
                    );
                }
                if self.find_node_idx(&to).is_none() {
                    return CommandResult::new(
                        String::from_str("target node ").concat(to.as_string().as_str()).concat(
                            " not found",
                        ),
                    );
                }
                let id = self.next_edge_id();
                let message = String::from_str("Added edge ").concat(id.as_string().as_str()).concat(
                    " from ",
                ).concat(from.as_string().as_str()).concat(" to ").concat(to.as_string().as_str());
                let edge = Edge { id, from, to };
                self.edges.push(edge);
                proof {
                    let g = old(self)@;
                    assert(final(self)@.nodes =~= g.nodes);
                    assert(final(self)@.edges =~= g.edges.push(edge@));
                    assert(final(self)@ == linked_edge(g, edge@.from, edge@.to));
                    lemma_link_preserves_wf(g, edge@.from, edge@.to);
                }
                CommandResult::new(message)
            },
            GraphCommand::RenameNode { id, label } => {
                match self.find_node_idx(&id) {
                    Some(idx) => {
                        let message = String::from_str("Node ").concat(
                            id.as_string().as_str(),
                        ).concat(" renamed to '").concat(label.as_string().as_str()).concat("'");
                        let previous = self.nodes.remove(idx);
                        self.nodes.insert(idx, Node { id: previous.id, label });
                        proof {
                            let g = old(self)@;
                            assert forall|j: int|
                                0 <= j < final(self)@.nodes.len() implies final(self)@.nodes[j]
                                == renamed_node(g, id@, label@).nodes[j] by {
                                assert(final(self)@.nodes[j] == nodes_view(self.nodes@)[j]);
                                if j != idx {
                                    assert(g.nodes[j].id != g.nodes[idx as int].id);
                                }
                            }
                            assert(final(self)@.nodes =~= renamed_node(g, id@, label@).nodes);
                            assert(final(self)@.edges =~= g.edges);
                            assert(final(self)@ == renamed_node(g, id@, label@));
                            lemma_rename_preserves_wf(g, id@, label@);
                        }
                        CommandResult::new(message)
                    },
                    None => CommandResult::new(
                        String::from_str("Could not find node ").concat(id.as_string().as_str()),
                    ),
                }
            },
            GraphCommand::UnlinkEdge { id } => {
                match self.find_edge_idx(&id) {
                    Some(_idx) => {
                        let ghost g = self@;
                        let mut kept_edges: Vec<Edge> = Vec::new();
                        let edge_count = self.edges.len();
                        for i in 0..edge_count
                            invariant
                                edge_count == self.edges.len(),
                                self == old(self),
                                edges_view(kept_edges@) =~= keep(
                                    edges_view(self.edges@).take(i as int),
                                    edge_not_named(id@),
                                ),
                        {
                            let e = &self.edges[i];
                            proof {
                                assert(edges_view(self.edges@).take(i + 1).drop_last() =~= edges_view(
                                    self.edges@,
                                ).take(i as int));
                                assert(edges_view(self.edges@).take(i + 1).last() == e@);
                            }
                            if !e.id.same_as(&id) {
                                kept_edges.push(
                                    Edge {
                                        id: e.id.duplicate(),
                                        from: e.from.duplicate(),
                                        to: e.to.duplicate(),
                                    },
                                );
                            }
                            proof {
                                assert(edges_view(kept_edges@) =~= keep(
                                    edges_view(self.edges@).take(i + 1),
                                    edge_not_named(id@),
                                ));
                            }
                        }
                        self.edges = kept_edges;
                        proof {
                            assert(edges_view(old(self).edges@).take(
                                edges_view(old(self).edges@).len() as int,
                            ) =~= edges_view(old(self).edges@));
                            assert(final(self)@.nodes =~= g.nodes);
                            assert(final(self)@ == unlinked_edge(g, id@));
                            lemma_unlink_preserves_wf(g, id@);
                        }
                        CommandResult::new(
                            String::from_str("edge ").concat(id.as_string().as_str()).concat(
                                " removed",
                            ),
                        )
                    },
                    None => CommandResult::new(
                        String::from_str("edge ").concat(id.as_string().as_str()).concat(
                            " not found",
                        ),
                    ),
                }
            },
        }
    }
}

/// Whether `id` is an identifier the node allocator can have issued with
/// counter room left.
pub open spec fn reloadable_node_id(id: Seq<char>) -> bool {
    exists|k: nat| k < u64::MAX && id == #[trigger] node_id_seq(k)
}

/// Whether `id` is an identifier the edge allocator can have issued with
/// counter room left.
pub open spec fn reloadable_edge_id(id: Seq<char>) -> bool {
    exists|k: nat| k < u64::MAX && id == #[trigger] edge_id_seq(k)
}

/// Whether a node with this identifier stands in the document's node list.
pub open spec fn doc_has_node(nodes: Seq<NodeView>, id: Seq<char>) -> bool {
    exists|j: int| 0 <= j < nodes.len() && nodes[j].id == id
}

/// Whether a reloaded document can stand as a graph again: identifiers of
/// the allocators' shapes, unique within each namespace, and every edge
/// endpoint present among the nodes.
pub open spec fn doc_valid(nodes: Seq<NodeView>, edges: Seq<EdgeView>) -> bool {
    &&& forall|i: int| #![trigger nodes[i]] 0 <= i < nodes.len() ==> reloadable_node_id(nodes[i].id)
    &&& forall|i: int, j: int| 0 <= i < j < nodes.len() ==> nodes[i].id != nodes[j].id
    &&& forall|i: int| #![trigger edges[i]] 0 <= i < edges.len() ==> reloadable_edge_id(edges[i].id)
    &&& forall|i: int, j: int| 0 <= i < j < edges.len() ==> edges[i].id != edges[j].id
    &&& forall|i: int|
        #![trigger edges[i]]
        0 <= i < edges.len() ==> doc_has_node(nodes, edges[i].from) && doc_has_node(
            nodes,
            edges[i].to,
        )
}

/// The counter behind a node identifier, if it has the allocator's shape.
fn parse_node_counter(id: &Id) -> (r: Option<u64>)
    ensures
        match r {
            Some(k) => id@ == node_id_seq(k as nat),
            None => forall|k: u64| id@ != #[trigger] node_id_seq(k as nat),
        },
{
    let text = id.as_string().as_str();
    let len = text.unicode_len();
    if len == 0 {
        proof {
            assert forall|k: u64| id@ != #[trigger] node_id_seq(k as nat) by {
                lemma_dec_str_len(k as nat);
            }
        }
        return None;
    }
    let c0 = text.get_char(0);
    if c0 != 'n' {
        proof {
            assert forall|k: u64| id@ != #[trigger] node_id_seq(k as nat) by {
                lemma_dec_str_len(k as nat);
                if id@ == node_id_seq(k as nat) {
                    assert(id@[0] == 'n');
                }
            }
        }
        return None;
    }
    match parse_dec(text, 1) {
        Some(k) => {
            proof {
                assert(id@.skip(1) == dec_str(k as nat));
                assert(id@ =~= node_id_seq(k as nat));
            }
            Some(k)
        },
        None => {
            proof {
                assert forall|k: u64| id@ != #[trigger] node_id_seq(k as nat) by {
                    if id@ == node_id_seq(k as nat) {
                        assert(id@.skip(1) =~= dec_str(k as nat));
                    }
                }
            }
            None
        },
    }
}

/// The counter behind an edge identifier, if it has the allocator's shape.
fn parse_edge_counter(id: &Id) -> (r: Option<u64>)
    ensures
        match r {
            Some(k) => id@ == edge_id_seq(k as nat),
            None => forall|k: u64| id@ != #[trigger] edge_id_seq(k as nat),
        },
{
    let text = id.as_string().as_str();
    let len = text.unicode_len();
    if len == 0 {
        proof {
            assert forall|k: u64| id@ != #[trigger] edge_id_seq(k as nat) by {
                lemma_dec_str_len(k as nat);
            }
        }
        return None;
    }
    let c0 = text.get_char(0);
    if c0 != 'e' {
        proof {
            assert forall|k: u64| id@ != #[trigger] edge_id_seq(k as nat) by {
                lemma_dec_str_len(k as nat);
                if id@ == edge_id_seq(k as nat) {
                    assert(id@[0] == 'e');
                }
            }
        }
        return None;
    }
    match parse_dec(text, 1) {
        Some(k) => {
            proof {
                assert(id@.skip(1) == dec_str(k as nat));
                assert(id@ =~= edge_id_seq(k as nat));
            }
            Some(k)
        },
        None => {
            proof {
                assert forall|k: u64| id@ != #[trigger] edge_id_seq(k as nat) by {
                    if id@ == edge_id_seq(k as nat) {
                        assert(id@.skip(1) =~= dec_str(k as nat));
                    }
                }
            }
            None
        },
    }
}

/// Whether the node list holds a node with this identifier.
fn doc_contains_node(nodes: &Vec<Node>, id: &Id) -> (r: bool)
    ensures
        r == doc_has_node(nodes_view(nodes@), id@),
{
    let n = nodes.len();
    for i in 0..n
        invariant
            n == nodes.len(),
            forall|j: int| 0 <= j < i ==> nodes_view(nodes@)[j].id != id@,
    {
        if nodes[i].id.same_as(id) {
            proof {
                assert(nodes_view(nodes@)[i as int].id == id@);
            }
            return true;
        }
    }
    false
}

impl Graph {
    /// Rebuild a graph from a reloaded document.
    ///
    /// The node and edge lists are validated exactly as [`doc_valid`] says:
    /// identifiers must have the allocators' shapes with counter room left,
    /// must be unique within each namespace, and every edge endpoint must
    /// name a present node. On success the graph holds exactly the
    /// document's nodes and edges, in order, and both allocator counters
    /// point past every identifier present — they may legitimately differ
    /// from the counters of the graph that exported the document.
    pub fn from_document(nodes: Vec<Node>, edges: Vec<Edge>) -> (r: Option<Graph>)
        ensures
            match r {
                Some(g) => {
                    &&& doc_valid(nodes_view(nodes@), edges_view(edges@))
                    &&& g.wf()
                    &&& g@.nodes == nodes_view(nodes@)
                    &&& g@.edges == edges_view(edges@)
                },
                None => !doc_valid(nodes_view(nodes@), edges_view(edges@)),
            },
    {
        let ghost nv = nodes_view(nodes@);
        let ghost ev = edges_view(edges@);
        let mut node_hw: u64 = 0;
        let node_count = nodes.len();
        for i in 0..node_count
            invariant
                node_count == nodes.len(),
                nv == nodes_view(nodes@),
                forall|j: int|
                    #![trigger nv[j]]
                    0 <= j < i ==> issued_node_id(nv[j].id, node_hw as nat),
        {
            match parse_node_counter(&nodes[i].id) {
                Some(k) => {
                    proof {
                        assert(nv[i as int].id == node_id_seq(k as nat));
                    }
                    if k == u64::MAX {
                        proof {
                            assert forall|k2: nat|
                                k2 < u64::MAX implies nv[i as int].id != node_id_seq(k2) by {
                                lemma_node_id_seq_injective(k2, u64::MAX as nat);
                            }
                            assert(!reloadable_node_id(nv[i as int].id));
                        }
                        return None;
                    }
                    if k >= node_hw {
                        let new_hw = k + 1;
                        proof {
                            assert forall|j: int|
                                #![trigger nv[j]]
                                0 <= j < i implies issued_node_id(nv[j].id, new_hw as nat) by {
                                lemma_issued_node_id_mono(nv[j].id, node_hw as nat, new_hw as nat);
                            }
                        }
                        node_hw = new_hw;
                    }
                    proof {
                        assert((k as nat) < node_hw as nat && nv[i as int].id == node_id_seq(
                            k as nat,
                        ));
                        assert(issued_node_id(nv[i as int].id, node_hw as nat));
                    }
                },
                None => {
                    proof {
                        if reloadable_node_id(nv[i as int].id) {
                            let k = choose|k: nat|
                                k < u64::MAX && nv[i as int].id == node_id_seq(k);
                            assert(((k as u64) as nat) == k);
                            assert(nv[i as int].id == node_id_seq((k as u64) as nat));
                        }
                        assert(!reloadable_node_id(nv[i as int].id));
                    }
                    return None;
                },
            }
        }
        let mut edge_hw: u64 = 0;
        let edge_count = edges.len();
        for i in 0..edge_count
            invariant
                edge_count == edges.len(),
                ev == edges_view(edges@),
                forall|j: int|
                    #![trigger ev[j]]
                    0 <= j < i ==> issued_edge_id(ev[j].id, edge_hw as nat),
        {
            match parse_edge_counter(&edges[i].id) {
                Some(k) => {
                    proof {
                        assert(ev[i as int].id == edge_id_seq(k as nat));
                    }
                    if k == u64::MAX {
                        proof {
                            assert forall|k2: nat|
                                k2 < u64::MAX implies ev[i as int].id != edge_id_seq(k2) by {
                                lemma_edge_id_seq_injective(k2, u64::MAX as nat);
                            }
                            assert(!reloadable_edge_id(ev[i as int].id));
                        }
                        return None;
                    }
                    if k >= edge_hw {
                        let new_hw = k + 1;
                        proof {
                            assert forall|j: int|
                                #![trigger ev[j]]
                                0 <= j < i implies issued_edge_id(ev[j].id, new_hw as nat) by {
                                lemma_issued_edge_id_mono(ev[j].id, edge_hw as nat, new_hw as nat);
                            }
                        }
                        edge_hw = new_hw;
                    }
                    proof {
                        assert((k as nat) < edge_hw as nat && ev[i as int].id == edge_id_seq(
                            k as nat,
                        ));
                        assert(issued_edge_id(ev[i as int].id, edge_hw as nat));
                    }
                },
                None => {
                    proof {
                        if reloadable_edge_id(ev[i as int].id) {
                            let k = choose|k: nat|
                                k < u64::MAX && ev[i as int].id == edge_id_seq(k);
                            assert(((k as u64) as nat) == k);
                            assert(ev[i as int].id == edge_id_seq((k as u64) as nat));
                        }
                        assert(!reloadable_edge_id(ev[i as int].id));
                    }
                    return None;
                },
            }
        }
        for i in 0..node_count
            invariant
                node_count == nodes.len(),
                nv == nodes_view(nodes@),
                forall|a: int, b: int| 0 <= a < b < node_count && a < i ==> nv[a].id != nv[b].id,
        {
            for j in (i + 1)..node_count
                invariant
                    i < node_count == nodes.len(),
                    nv == nodes_view(nodes@),
                    forall|a: int, b: int|
                        0 <= a < b < node_count && a < i ==> nv[a].id != nv[b].id,
                    forall|b: int| i < b < j ==> nv[i as int].id != nv[b].id,
            {
                if nodes[i].id.same_as(&nodes[j].id) {
                    proof {
                        assert(nv[i as int].id == nv[j as int].id);
                    }
                    return None;
                }
            }
        }
        for i in 0..edge_count
            invariant
                edge_count == edges.len(),
                ev == edges_view(edges@),
                forall|a: int, b: int| 0 <= a < b < edge_count && a < i ==> ev[a].id != ev[b].id,
        {
            for j in (i + 1)..edge_count
                invariant
                    i < edge_count == edges.len(),
                    ev == edges_view(edges@),
                    forall|a: int, b: int|
                        0 <= a < b < edge_count && a < i ==> ev[a].id != ev[b].id,
                    forall|b: int| i < b < j ==> ev[i as int].id != ev[b].id,
            {
                if edges[i].id.same_as(&edges[j].id) {
                    proof {
                        assert(ev[i as int].id == ev[j as int].id);
                    }
                    return None;
                }
            }
        }
        for i in 0..edge_count
            invariant
                edge_count == edges.len(),
                nv == nodes_view(nodes@),
                ev == edges_view(edges@),
                forall|j: int|
                    #![trigger ev[j]]
                    0 <= j < i ==> doc_has_node(nv, ev[j].from) && doc_has_node(nv, ev[j].to),
        {
            if !doc_contains_node(&nodes, &edges[i].from) {
                proof {
                    assert(ev[i as int].from == edges@[i as int]@.from);
                }
                return None;
            }
            if !doc_contains_node(&nodes, &edges[i].to) {
                proof {
                    assert(ev[i as int].to == edges@[i as int]@.to);
                }
                return None;
            }
            proof {
                assert(ev[i as int].from == edges@[i as int]@.from);
                assert(ev[i as int].to == edges@[i as int]@.to);
            }
        }
        let g = Graph { node_high_water: node_hw, edge_high_water: edge_hw, nodes, edges };
        proof {
            assert(g@.nodes =~= nv);
            assert(g@.edges =~= ev);
            assert forall|i: int|
                #![trigger g@.nodes[i]]
                0 <= i < g@.nodes.len() implies issued_node_id(
                g@.nodes[i].id,
                g@.node_high_water,
            ) by {
                assert(g@.nodes[i] == nv[i]);
            }
            assert forall|i: int|
                #![trigger g@.edges[i]]
                0 <= i < g@.edges.len() implies issued_edge_id(
                g@.edges[i].id,
                g@.edge_high_water,
            ) by {
                assert(g@.edges[i] == ev[i]);
            }
            assert forall|i: int| 0 <= i < g@.edges.len() implies has_node_id(
                g@,
                #[trigger] g@.edges[i].from,
            ) && has_node_id(g@, g@.edges[i].to) by {
                let e = g@.edges[i];
                assert(e == ev[i]);
                assert(ev[i].from == e.from && ev[i].to == e.to);
                assert(doc_has_node(nv, e.from) && doc_has_node(nv, e.to));
                let nf = choose|nf: int| 0 <= nf < nv.len() && nv[nf].id == e.from;
                assert(g@.nodes[nf].id == e.from);
                let nt = choose|nt: int| 0 <= nt < nv.len() && nv[nt].id == e.to;
                assert(g@.nodes[nt].id == e.to);
            }
            assert(wf_view(g@));
            assert forall|i: int|
                #![trigger nv[i]]
                0 <= i < nv.len() implies reloadable_node_id(nv[i].id) by {
                assert(issued_node_id(nv[i].id, node_hw as nat));
                let k = choose|k: nat| k < node_hw as nat && nv[i].id == node_id_seq(k);
                assert(k < u64::MAX && nv[i].id == node_id_seq(k));
            }
            assert forall|i: int|
                #![trigger ev[i]]
                0 <= i < ev.len() implies reloadable_edge_id(ev[i].id) by {
                assert(issued_edge_id(ev[i].id, edge_hw as nat));
                let k = choose|k: nat| k < edge_hw as nat && ev[i].id == edge_id_seq(k);
                assert(k < u64::MAX && ev[i].id == edge_id_seq(k));
            }
            assert(doc_valid(nv, ev));
        }
        Some(g)
    }
}

/// Whether `needle` occurs in `hay` starting at position `i`.
pub open spec fn occurs_at(hay: Seq<char>, needle: Seq<char>, i: int) -> bool {
    0 <= i && i + needle.len() <= hay.len() && hay.subrange(i, i + needle.len()) == needle
}

/// Whether `needle` occurs somewhere in `hay`.
pub open spec fn contains_text(hay: Seq<char>, needle: Seq<char>) -> bool {
    exists|i: int| occurs_at(hay, needle, i)
}

/// The identifiers of the nodes whose labels contain the text, in order.
pub open spec fn matching_node_ids(nodes: Seq<NodeView>, needle: Seq<char>) -> Seq<Seq<char>>
    decreases nodes.len(),
{
    if nodes.len() == 0 {
        Seq::empty()
    } else {
        let rest = matching_node_ids(nodes.drop_last(), needle);
        if contains_text(nodes.last().label, needle) {
            rest.push(nodes.last().id)
        } else {
            rest
        }
    }
}

/// The views of a sequence of identifiers.
pub open spec fn ids_view(s: Seq<Id>) -> Seq<Seq<char>> {
    Seq::new(s.len(), |i: int| s[i]@)
}

/// Whether `needle` occurs in `hay`, by scanning every position.
fn text_contains(hay: &str, needle: &str) -> (r: bool)
    ensures
        r == contains_text(hay@, needle@),
{
    let n = hay.unicode_len();
    let m = needle.unicode_len();
    if m > n {
        proof {
            assert forall|p: int| !occurs_at(hay@, needle@, p) by {}
        }
        return false;
    }
    if m == 0 {
        proof {
            assert(hay@.subrange(0, 0) =~= needle@);
            assert(occurs_at(hay@, needle@, 0));
        }
        return true;
    }
    let mut i: usize = 0;
    while i <= n - m
        invariant
            1 <= m <= n,
            n == hay@.len(),
            m == needle@.len(),
            i <= n - m + 1,
            forall|p: int| 0 <= p < i ==> !occurs_at(hay@, needle@, p),
        decreases n - m + 1 - i,
    {
        let mut j: usize = 0;
        let mut ok = true;
        while ok && j < m
            invariant
                1 <= m <= n,
                n == hay@.len(),
                m == needle@.len(),
                i <= n - m,
                j <= m,
                ok ==> forall|q: int| 0 <= q < j ==> hay@[i + q] == needle@[q],
                !ok ==> !occurs_at(hay@, needle@, i as int),
            decreases m - j + (if ok { 1int } else { 0int }),
        {
            if hay.get_char(i + j) == needle.get_char(j) {
                j = j + 1;
            } else {
                proof {
                    if occurs_at(hay@, needle@, i as int) {
                        assert(hay@.subrange(i as int, i + m as int)[j as int] == needle@[j as int]);
                        assert(hay@[i + j] == needle@[j as int]);
                    }
                }
                ok = false;
            }
        }
        if ok {
            proof {
                assert(j == m);
                assert(hay@.subrange(i as int, i + m as int) =~= needle@);
                assert(occurs_at(hay@, needle@, i as int));
            }
            return true;
        }
        i = i + 1;
    }
    proof {
        assert forall|p: int| !occurs_at(hay@, needle@, p) by {
            if p >= i {
                assert(p + needle@.len() > hay@.len());
            }
        }
    }
    false
}

impl Graph {
    /// The identifiers of the nodes whose labels contain the search text,
    /// in creation order: the transient highlight set a search marks.
    pub fn search_matches(&self, sub_label: &Label) -> (r: Vec<Id>)
        ensures
            ids_view(r@) == matching_node_ids(self@.nodes, sub_label@),
    {
        let mut out: Vec<Id> = Vec::new();
        let node_count = self.nodes.len();
        for i in 0..node_count
            invariant
                node_count == self.nodes.len(),
                ids_view(out@) =~= matching_node_ids(
                    nodes_view(self.nodes@).take(i as int),
                    sub_label@,
                ),
        {
            let node = &self.nodes[i];
            proof {
                assert(nodes_view(self.nodes@).take(i + 1).drop_last() =~= nodes_view(
                    self.nodes@,
                ).take(i as int));
                assert(nodes_view(self.nodes@).take(i + 1).last() == node@);
            }
            if text_contains(node.label.as_string().as_str(), sub_label.as_string().as_str()) {
                out.push(node.id.duplicate());
            }
            proof {
                assert(ids_view(out@) =~= matching_node_ids(
                    nodes_view(self.nodes@).take(i + 1),
                    sub_label@,
                ));
            }
        }
        proof {
            assert(nodes_view(self.nodes@).take(self.nodes@.len() as int) =~= nodes_view(
                self.nodes@,
            ));
        }
        out
    }
}

/// The export events for a node sequence, in creation order./// The export events for a node sequence, in creation order.
pub open spec fn node_events(nodes: Seq<NodeView>) -> Seq<ExportEvent>
    decreases nodes.len(),
{
    if nodes.len() == 0 {
        Seq::empty()
    } else {
        node_events(nodes.drop_last()).push(
            ExportEvent::Node { id: nodes.last().id, label: nodes.last().label },
        )
    }
}

/// The export events for an edge sequence, in creation order.
pub open spec fn edge_events(edges: Seq<EdgeView>) -> Seq<ExportEvent>
    decreases edges.len(),
{
    if edges.len() == 0 {
        Seq::empty()
    } else {
        edge_events(edges.drop_last()).push(
            ExportEvent::Edge {
                id: edges.last().id,
                from: edges.last().from,
                to: edges.last().to,
            },
        )
    }
}

/// The callback stream an export pass makes on a backend: every node, then
/// every edge, each in creation order.
pub open spec fn export_events(g: GraphView) -> Seq<ExportEvent> {
    node_events(g.nodes) + edge_events(g.edges)
}

impl Graph {
    /// Walk the graph through an exporter: every node, then every edge, in
    /// creation order. The backend absorbs exactly [`export_events`] of the
    /// graph, appended to whatever it had absorbed before.
    pub fn export<E: Exporter>(&self, exporter: &mut E)
        requires
            old(exporter).inv(),
        ensures
            final(exporter).inv(),
            final(exporter).mode() == old(exporter).mode(),
            final(exporter).events() == old(exporter).events() + export_events(self@),
    {
        let ghost base = exporter.events();
        let ghost base_mode = exporter.mode();
        let node_count = self.nodes.len();
        for i in 0..node_count
            invariant
                node_count == self.nodes.len(),
                exporter.inv(),
                exporter.mode() == base_mode,
                exporter.events() == base + node_events(nodes_view(self.nodes@).take(i as int)),
        {
            let node = &self.nodes[i];
            proof {
                assert(nodes_view(self.nodes@).take(i + 1).drop_last() =~= nodes_view(
                    self.nodes@,
                ).take(i as int));
                assert(nodes_view(self.nodes@).take(i + 1).last() == node@);
            }
            exporter.add_node(&node.id, &node.label);
            proof {
                assert(exporter.events() =~= base + node_events(
                    nodes_view(self.nodes@).take(i + 1),
                ));
            }
        }
        proof {
            assert(nodes_view(self.nodes@).take(self.nodes@.len() as int) =~= nodes_view(
                self.nodes@,
            ));
        }
        let edge_count = self.edges.len();
        for i in 0..edge_count
            invariant
                edge_count == self.edges.len(),
                exporter.inv(),
                exporter.mode() == base_mode,
                exporter.events() == base + node_events(nodes_view(self.nodes@)) + edge_events(
                    edges_view(self.edges@).take(i as int),
                ),
        {
            let edge = &self.edges[i];
            proof {
                assert(edges_view(self.edges@).take(i + 1).drop_last() =~= edges_view(
                    self.edges@,
                ).take(i as int));
                assert(edges_view(self.edges@).take(i + 1).last() == edge@);
            }
            exporter.add_edge(&edge.id, &edge.from, &edge.to);
            proof {
                assert(exporter.events() =~= base + node_events(nodes_view(self.nodes@))
                    + edge_events(edges_view(self.edges@).take(i + 1)));
            }
        }
        proof {
            assert(edges_view(self.edges@).take(self.edges@.len() as int) =~= edges_view(
                self.edges@,
            ));
            assert(exporter.events() =~= base + export_events(self@));
        }
    }
}

} // verus!
