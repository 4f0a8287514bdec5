use microdot::command::GraphCommand;
use microdot::graph::{Edge, Graph, Node};
use microdot::json::JsonExporter;
use microdot::{Id, Label};

fn sample_graph() -> Graph {
    let mut graph = Graph::new();
    graph.apply_command(GraphCommand::InsertNode {
        label: Label::new("abc"),
    });
    graph.apply_command(GraphCommand::InsertNode {
        label: Label::new("def"),
    });
    graph.apply_command(GraphCommand::LinkEdge {
        from: Id::new("n0"),
        to: Id::new("n1"),
    });
    graph
}

#[test]
fn exports_json_document() {
    let graph = sample_graph();
    let mut exporter = JsonExporter::new();
    let json = exporter.export_json(&graph);
    assert_eq!(
        "{\"nodes\":[{\"id\":\"n0\",\"label\":\"abc\"},{\"id\":\"n1\",\"label\":\"def\"}],\"edges\":[{\"id\":\"e0\",\"from\":\"n0\",\"to\":\"n1\"}]}",
        json
    );
}

#[test]
fn json_escapes_quotes_newlines_and_backslashes() {
    let mut graph = Graph::new();
    graph.apply_command(GraphCommand::InsertNode {
        label: Label::new("a\"b\\c\nd"),
    });
    let mut exporter = JsonExporter::new();
    let json = exporter.export_json(&graph);
    assert_eq!(
        "{\"nodes\":[{\"id\":\"n0\",\"label\":\"a\\\"b\\\\c\\nd\"}],\"edges\":[]}",
        json
    );
}

#[test]
fn json_export_is_deterministic() {
    let graph = sample_graph();
    let first = JsonExporter::new().export_json(&graph);
    let second = JsonExporter::new().export_json(&graph);
    assert_eq!(first, second);
}

#[test]
fn document_round_trips_through_reload() {
    let mut graph = sample_graph();
    // Leave a gap in the identifiers so the reloaded counters differ from a
    // freshly counted graph.
    graph.apply_command(GraphCommand::InsertNode {
        label: Label::new("ghi"),
    });
    graph.apply_command(GraphCommand::DeleteNode { id: Id::new("n0") });
    let before = JsonExporter::new().export_json(&graph);

    let mut exporter = JsonExporter::new();
    exporter.export_json(&graph);
    let (nodes, edges) = exporter.into_document();
    let reloaded = Graph::from_document(nodes, edges).expect("exported documents reload");

    let after = JsonExporter::new().export_json(&reloaded);
    assert_eq!(before, after);
}

#[test]
fn reloaded_graph_keeps_allocating_fresh_ids() {
    let graph = sample_graph();
    let mut exporter = JsonExporter::new();
    exporter.export_json(&graph);
    let (nodes, edges) = exporter.into_document();
    // The reloaded counters point past every identifier present, so fresh
    // identifiers never collide with reloaded ones.
    let mut reloaded = Graph::from_document(nodes, edges).expect("exported documents reload");
    let r = reloaded.apply_command(GraphCommand::InsertNode {
        label: Label::new("new"),
    });
    assert_eq!("inserted node n2: 'new'", r.message().as_str());
}

#[test]
fn reload_rejects_malformed_documents() {
    // An identifier outside the allocator's shape.
    let nodes = vec![Node {
        id: Id::new("x1"),
        label: Label::new("abc"),
    }];
    assert!(Graph::from_document(nodes, Vec::new()).is_none());

    // A duplicated node identifier.
    let nodes = vec![
        Node {
            id: Id::new("n0"),
            label: Label::new("abc"),
        },
        Node {
            id: Id::new("n0"),
            label: Label::new("def"),
        },
    ];
    assert!(Graph::from_document(nodes, Vec::new()).is_none());

    // An edge whose endpoint names no node.
    let nodes = vec![Node {
        id: Id::new("n0"),
        label: Label::new("abc"),
    }];
    let edges = vec![Edge {
        id: Id::new("e0"),
        from: Id::new("n0"),
        to: Id::new("n7"),
    }];
    assert!(Graph::from_document(nodes, edges).is_none());

    // A non-canonical counter: leading zero.
    let nodes = vec![Node {
        id: Id::new("n01"),
        label: Label::new("abc"),
    }];
    assert!(Graph::from_document(nodes, Vec::new()).is_none());
}
