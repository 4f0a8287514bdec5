//! The serialized-document render backend.
//!
//! The JSON backend absorbs the same export stream as every other backend
//! and accumulates the document structure itself — the node list and the
//! edge list — which it can render as a JSON text or hand out for
//! reloading. A reload validates the document and rebuilds a graph with
//! exactly the document's nodes and edges, while the allocator counters
//! are recomputed and may legitimately differ from the counters the
//! exporting graph had.

use vstd::prelude::*;
use crate::{Id, Label};
use crate::graph::{
    edge_events, edge_id_seq, edges_view, export_events, issued_edge_id, issued_node_id,
    node_events, node_id_seq, nodes_view, Edge, EdgeView, Graph, GraphView, Node, NodeView,
};
use crate::graphviz::{Exporter, ExportEvent};
use crate::text::string_from_chars;

verus! {

/// The nodes a callback stream carries, in order.
pub open spec fn event_nodes(events: Seq<ExportEvent>) -> Seq<NodeView>
    decreases events.len(),
{
    if events.len() == 0 {
        Seq::empty()
    } else {
        let rest = event_nodes(events.drop_last());
        match events.last() {
            ExportEvent::Node { id, label } => rest.push(NodeView { id, label }),
            _ => rest,
        }
    }
}

/// The edges a callback stream carries, in order.
pub open spec fn event_edges(events: Seq<ExportEvent>) -> Seq<EdgeView>
    decreases events.len(),
{
    if events.len() == 0 {
        Seq::empty()
    } else {
        let rest = event_edges(events.drop_last());
        match events.last() {
            ExportEvent::Edge { id, from, to } => rest.push(EdgeView { id, from, to }),
            _ => rest,
        }
    }
}

/// The export stream of a graph carries exactly the graph's nodes and
/// edges.
pub proof fn lemma_export_stream_carries_graph(g: GraphView)
    ensures
        event_nodes(export_events(g)) == g.nodes,
        event_edges(export_events(g)) == g.edges,
{
    lemma_event_nodes_of_node_events(g.nodes);
    lemma_append_edge_events(node_events(g.nodes), g.edges);
    assert(event_nodes(export_events(g)) =~= g.nodes);
    assert(event_edges(export_events(g)) =~= g.edges);
}

/// A stream of node events carries exactly those nodes and no edges.
proof fn lemma_event_nodes_of_node_events(nodes: Seq<NodeView>)
    ensures
        event_nodes(node_events(nodes)) =~= nodes,
        event_edges(node_events(nodes)) =~= Seq::<EdgeView>::empty(),
    decreases nodes.len(),
{
    if nodes.len() > 0 {
        lemma_event_nodes_of_node_events(nodes.drop_last());
        assert(node_events(nodes).drop_last() =~= node_events(nodes.drop_last()));
        assert(NodeView { id: nodes.last().id, label: nodes.last().label } == nodes.last());
    }
}

/// Appending edge events appends those edges and carries no further nodes.
proof fn lemma_append_edge_events(events: Seq<ExportEvent>, edges: Seq<EdgeView>)
    ensures
        event_nodes(events + edge_events(edges)) =~= event_nodes(events),
        event_edges(events + edge_events(edges)) =~= event_edges(events) + edges,
    decreases edges.len(),
{
    if edges.len() == 0 {
        assert(events + edge_events(edges) =~= events);
        assert(event_edges(events) + edges =~= event_edges(events));
    } else {
        lemma_append_edge_events(events, edges.drop_last());
        let whole = events + edge_events(edges);
        assert(whole.drop_last() =~= events + edge_events(edges.drop_last()));
        assert(whole.last() == ExportEvent::Edge {
            id: edges.last().id,
            from: edges.last().from,
            to: edges.last().to,
        });
        assert(EdgeView {
            id: edges.last().id,
            from: edges.last().from,
            to: edges.last().to,
        } == edges.last());
        assert(event_edges(whole) =~= event_edges(events) + edges);
    }
}

/// Exporting is a pure function of the graph state: equal graph values
/// give the same callback stream, and the stream alone determines every
/// backend's rendering, so exporting twice without an intervening command
/// yields byte-identical output from each backend.
pub proof fn lemma_export_pure(g1: GraphView, g2: GraphView, annotated: bool)
    requires
        g1 == g2,
    ensures
        export_events(g1) == export_events(g2),
        crate::graphviz::dot_output(
            seq![ExportEvent::Direction { is_left_right: true }] + export_events(g1),
            annotated,
        ) == crate::graphviz::dot_output(
            seq![ExportEvent::Direction { is_left_right: true }] + export_events(g2),
            annotated,
        ),
        json_doc(event_nodes(export_events(g1)), event_edges(export_events(g1))) == json_doc(
            event_nodes(export_events(g2)),
            event_edges(export_events(g2)),
        ),
{
}

/// Round trip through the document backend: a well-formed graph's export
/// stream carries exactly its nodes and edges, and the carried lists form
/// a valid document, so [`Graph::from_document`] accepts them and the
/// reloaded graph has identical node and edge sets — though the
/// identifier allocators' counters may legitimately differ.
pub proof fn lemma_document_round_trip(g: GraphView)
    requires
        crate::graph::wf_view(g),
        g.node_high_water <= u64::MAX,
        g.edge_high_water <= u64::MAX,
    ensures
        event_nodes(export_events(g)) == g.nodes,
        event_edges(export_events(g)) == g.edges,
        crate::graph::doc_valid(g.nodes, g.edges),
{
    lemma_export_stream_carries_graph(g);
    assert forall|i: int|
        #![trigger g.nodes[i]]
        0 <= i < g.nodes.len() implies crate::graph::reloadable_node_id(g.nodes[i].id) by {
        assert(issued_node_id(g.nodes[i].id, g.node_high_water));
        let k = choose|k: nat| k < g.node_high_water && g.nodes[i].id == node_id_seq(k);
        assert(k < u64::MAX && g.nodes[i].id == node_id_seq(k));
    }
    assert forall|i: int|
        #![trigger g.edges[i]]
        0 <= i < g.edges.len() implies crate::graph::reloadable_edge_id(g.edges[i].id) by {
        assert(issued_edge_id(g.edges[i].id, g.edge_high_water));
        let k = choose|k: nat| k < g.edge_high_water && g.edges[i].id == edge_id_seq(k);
        assert(k < u64::MAX && g.edges[i].id == edge_id_seq(k));
    }
    assert forall|i: int|
        #![trigger g.edges[i]]
        0 <= i < g.edges.len() implies crate::graph::doc_has_node(g.nodes, g.edges[i].from)
        && crate::graph::doc_has_node(g.nodes, g.edges[i].to) by {
        let e = g.edges[i];
        assert(g.edges[i].from == e.from && g.edges[i].to == e.to);
        assert(crate::graph::has_node_id(g, e.from) && crate::graph::has_node_id(g, e.to));
        let nf = choose|nf: int| 0 <= nf < g.nodes.len() && g.nodes[nf].id == e.from;
        assert(g.nodes[nf].id == e.from);
        let nt = choose|nt: int| 0 <= nt < g.nodes.len() && g.nodes[nt].id == e.to;
        assert(g.nodes[nt].id == e.to);
    }
}

/// How one character appears inside a JSON string/// How one character appears inside a JSON string: backslashes, quotes and
/// newlines are escaped, all else is verbatim.
pub open spec fn json_escaped_char(c: char) -> Seq<char> {
    if c == '\\' {
        seq!['\\', '\\']
    } else if c == '"' {
        seq!['\\', '"']
    } else if c == '\n' {
        seq!['\\', 'n']
    } else {
        seq![c]
    }
}

/// The body of a JSON string.
pub open spec fn json_escaped(s: Seq<char>) -> Seq<char>
    decreases s.len(),
{
    if s.len() == 0 {
        Seq::empty()
    } else {
        json_escaped(s.drop_last()) + json_escaped_char(s.last())
    }
}

/// One node as a JSON object.
pub open spec fn json_node_entry(n: NodeView) -> Seq<char> {
    "{\"id\":\""@ + json_escaped(n.id) + "\",\"label\":\""@ + json_escaped(n.label) + "\"}"@
}

/// A node list as the members of a JSON array.
pub open spec fn json_node_entries(nodes: Seq<NodeView>) -> Seq<char>
    decreases nodes.len(),
{
    if nodes.len() == 0 {
        Seq::empty()
    } else if nodes.len() == 1 {
        json_node_entry(nodes[0])
    } else {
        json_node_entries(nodes.drop_last()) + ","@ + json_node_entry(nodes.last())
    }
}

/// One edge as a JSON object.
pub open spec fn json_edge_entry(e: EdgeView) -> Seq<char> {
    "{\"id\":\""@ + json_escaped(e.id) + "\",\"from\":\""@ + json_escaped(e.from) + "\",\"to\":\""@
        + json_escaped(e.to) + "\"}"@
}

/// An edge list as the members of a JSON array.
pub open spec fn json_edge_entries(edges: Seq<EdgeView>) -> Seq<char>
    decreases edges.len(),
{
    if edges.len() == 0 {
        Seq::empty()
    } else if edges.len() == 1 {
        json_edge_entry(edges[0])
    } else {
        json_edge_entries(edges.drop_last()) + ","@ + json_edge_entry(edges.last())
    }
}

/// A whole graph document as JSON text.
pub open spec fn json_doc(nodes: Seq<NodeView>, edges: Seq<EdgeView>) -> Seq<char> {
    "{\"nodes\":["@ + json_node_entries(nodes) + "],\"edges\":["@ + json_edge_entries(edges)
        + "]}"@
}

/// Escape a string for embedding in a JSON string literal.
fn json_escape(text: &str) -> (r: String)
    ensures
        r@ == json_escaped(text@),
{
    let n = text.unicode_len();
    let mut out: Vec<char> = Vec::new();
    for i in 0..n
        invariant
            n == text@.len(),
            out@ =~= json_escaped(text@.take(i as int)),
    {
        let c = text.get_char(i);
        proof {
            assert(text@.take(i + 1).drop_last() =~= text@.take(i as int));
            assert(text@.take(i + 1).last() == c);
        }
        if c == '\\' {
            out.push('\\');
            out.push('\\');
        } else if c == '"' {
            out.push('\\');
            out.push('"');
        } else if c == '\n' {
            out.push('\\');
            out.push('n');
        } else {
            out.push(c);
        }
        proof {
            assert(out@ =~= json_escaped(text@.take(i + 1)));
        }
    }
    proof {
        assert(text@.take(text@.len() as int) =~= text@);
    }
    string_from_chars(&out)
}

/// The serialized-document backend: accumulates the document structure.
pub struct JsonExporter {
    nodes: Vec<Node>,
    edges: Vec<Edge>,
    events_seen: Ghost<Seq<ExportEvent>>,
}

impl Exporter for JsonExporter {
    /// The accumulated lists are exactly what the absorbed stream carries.
    closed spec fn inv(&self) -> bool {
        nodes_view(self.nodes@) == event_nodes(self.events_seen@) && edges_view(self.edges@)
            == event_edges(self.events_seen@)
    }

    closed spec fn events(&self) -> Seq<ExportEvent> {
        self.events_seen@
    }

    closed spec fn mode(&self) -> bool {
        true
    }

    fn set_direction(&mut self, is_left_right: bool) {
        let ghost ev = ExportEvent::Direction { is_left_right };
        proof {
            self.events_seen@ = self.events_seen@.push(ev);
            assert(self.events_seen@.drop_last() =~= old(self).events_seen@);
        }
    }

    fn add_node(&mut self, id: &Id, label: &Label) {
        self.nodes.push(Node { id: id.duplicate(), label: label.duplicate() });
        let ghost ev = ExportEvent::Node { id: id@, label: label@ };
        proof {
            self.events_seen@ = self.events_seen@.push(ev);
            assert(self.events_seen@.drop_last() =~= old(self).events_seen@);
            assert(nodes_view(self.nodes@) =~= event_nodes(self.events_seen@));
            assert(edges_view(self.edges@) =~= event_edges(self.events_seen@));
        }
    }

    fn add_edge(&mut self, id: &Id, from: &Id, to: &Id) {
        self.edges.push(
            Edge { id: id.duplicate(), from: from.duplicate(), to: to.duplicate() },
        );
        let ghost ev = ExportEvent::Edge { id: id@, from: from@, to: to@ };
        proof {
            self.events_seen@ = self.events_seen@.push(ev);
            assert(self.events_seen@.drop_last() =~= old(self).events_seen@);
            assert(nodes_view(self.nodes@) =~= event_nodes(self.events_seen@));
            assert(edges_view(self.edges@) =~= event_edges(self.events_seen@));
        }
    }
}

impl JsonExporter {
    /// A fresh document backend with an empty document.
    pub fn new() -> (r: JsonExporter)
        ensures
            r.inv(),
            r.events() == Seq::<ExportEvent>::empty(),
    {
        let r = JsonExporter {
            nodes: Vec::new(),
            edges: Vec::new(),
            events_seen: Ghost(Seq::empty()),
        };
        proof {
            assert(nodes_view(r.nodes@) =~= event_nodes(r.events_seen@));
            assert(edges_view(r.edges@) =~= event_edges(r.events_seen@));
        }
        r
    }

    /// Render the graph as a JSON document: every node, then every edge,
    /// each with its identifier, label or endpoints preserved.
    pub fn export_json(&mut self, graph: &Graph) -> (r: String)
        requires
            old(self).inv(),
        ensures
            final(self).inv(),
            final(self).events() == old(self).events() + export_events(graph@),
            r@ == json_doc(
                event_nodes(final(self).events()),
                event_edges(final(self).events()),
            ),
    {
        graph.export(self);
        let mut out = String::from_str("{\"nodes\":[");
        let node_count = self.nodes.len();
        for i in 0..node_count
            invariant
                node_count == self.nodes.len(),
                out@ =~= "{\"nodes\":["@ + json_node_entries(
                    nodes_view(self.nodes@).take(i as int),
                ),
        {
            proof {
                assert(nodes_view(self.nodes@).take(i + 1).drop_last() =~= nodes_view(
                    self.nodes@,
                ).take(i as int));
                assert(nodes_view(self.nodes@).take(i + 1).last() == self.nodes@[i as int]@);
            }
            if i > 0 {
                out.append(",");
            }
            let node = &self.nodes[i];
            out.append("{\"id\":\"");
            out.append(json_escape(node.id.as_string().as_str()).as_str());
            out.append("\",\"label\":\"");
            out.append(json_escape(node.label.as_string().as_str()).as_str());
            out.append("\"}");
            proof {
                assert(out@ =~= "{\"nodes\":["@ + json_node_entries(
                    nodes_view(self.nodes@).take(i + 1),
                ));
            }
        }
        proof {
            assert(nodes_view(self.nodes@).take(self.nodes@.len() as int) =~= nodes_view(
                self.nodes@,
            ));
        }
        out.append("],\"edges\":[");
        proof {
            assert(out@ =~= "{\"nodes\":["@ + json_node_entries(nodes_view(self.nodes@))
                + "],\"edges\":["@ + json_edge_entries(edges_view(self.edges@).take(0)));
        }
        let edge_count = self.edges.len();
        for i in 0..edge_count
            invariant
                edge_count == self.edges.len(),
                out@ =~= "{\"nodes\":["@ + json_node_entries(nodes_view(self.nodes@))
                    + "],\"edges\":["@ + json_edge_entries(edges_view(self.edges@).take(i as int)),
        {
            proof {
                assert(edges_view(self.edges@).take(i + 1).drop_last() =~= edges_view(
                    self.edges@,
                ).take(i as int));
                assert(edges_view(self.edges@).take(i + 1).last() == self.edges@[i as int]@);
            }
            if i > 0 {
                out.append(",");
            }
            let edge = &self.edges[i];
            out.append("{\"id\":\"");
            out.append(json_escape(edge.id.as_string().as_str()).as_str());
            out.append("\",\"from\":\"");
            out.append(json_escape(edge.from.as_string().as_str()).as_str());
            out.append("\",\"to\":\"");
            out.append(json_escape(edge.to.as_string().as_str()).as_str());
            out.append("\"}");
            proof {
                assert(out@ =~= "{\"nodes\":["@ + json_node_entries(nodes_view(self.nodes@))
                    + "],\"edges\":["@ + json_edge_entries(edges_view(self.edges@).take(i + 1)));
            }
        }
        out.append("]}");
        proof {
            assert(nodes_view(self.nodes@).take(self.nodes@.len() as int) =~= nodes_view(
                self.nodes@,
            ));
            assert(edges_view(self.edges@).take(self.edges@.len() as int) =~= edges_view(
                self.edges@,
            ));
            assert(out@ =~= json_doc(
                event_nodes(final(self).events()),
                event_edges(final(self).events()),
            ));
        }
        out
    }

    /// Hand out the accumulated document: the node and edge lists, in the
    /// order the stream carried them.
    pub fn into_document(self) -> (r: (Vec<Node>, Vec<Edge>))
        requires
            self.inv(),
        ensures
            nodes_view(r.0@) == event_nodes(self.events()),
            edges_view(r.1@) == event_edges(self.events()),
    {
        (self.nodes, self.edges)
    }
}

} // verus!
