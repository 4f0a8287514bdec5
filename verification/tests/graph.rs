use microdot::command::GraphCommand;
use microdot::graph::Graph;
use microdot::json::JsonExporter;
use microdot::{Id, Label};

fn json_of(graph: &Graph) -> String {
    let mut exporter = JsonExporter::new();
    exporter.export_json(graph)
}

#[test]
fn insert_issues_unique_increasing_ids() {
    let mut graph = Graph::new();
    let first = graph.apply_command(GraphCommand::InsertNode {
        label: Label::new("one"),
    });
    let second = graph.apply_command(GraphCommand::InsertNode {
        label: Label::new("two"),
    });
    let third = graph.apply_command(GraphCommand::InsertNode {
        label: Label::new("three"),
    });
    assert_eq!("inserted node n0: 'one'", first.message().as_str());
    assert_eq!("inserted node n1: 'two'", second.message().as_str());
    assert_eq!("inserted node n2: 'three'", third.message().as_str());
}

#[test]
fn deleted_ids_are_never_reused() {
    let mut graph = Graph::new();
    graph.apply_command(GraphCommand::InsertNode {
        label: Label::new("one"),
    });
    graph.apply_command(GraphCommand::DeleteNode { id: Id::new("n0") });
    let next = graph.apply_command(GraphCommand::InsertNode {
        label: Label::new("two"),
    });
    assert_eq!("inserted node n1: 'two'", next.message().as_str());
}

#[test]
fn insert_link_delete_cascades() {
    let mut graph = Graph::new();
    let r1 = graph.apply_command(GraphCommand::InsertNode {
        label: Label::new("abc"),
    });
    assert_eq!("inserted node n0: 'abc'", r1.message().as_str());
    let r2 = graph.apply_command(GraphCommand::InsertNode {
        label: Label::new("def"),
    });
    assert_eq!("inserted node n1: 'def'", r2.message().as_str());
    let r3 = graph.apply_command(GraphCommand::LinkEdge {
        from: Id::new("n0"),
        to: Id::new("n1"),
    });
    assert_eq!("Added edge e0 from n0 to n1", r3.message().as_str());
    let r4 = graph.apply_command(GraphCommand::DeleteNode { id: Id::new("n0") });
    assert_eq!("node n0 removed", r4.message().as_str());
    assert_eq!(
        "{\"nodes\":[{\"id\":\"n1\",\"label\":\"def\"}],\"edges\":[]}",
        json_of(&graph)
    );
}

#[test]
fn delete_unknown_node_is_a_no_op() {
    let mut graph = Graph::new();
    graph.apply_command(GraphCommand::InsertNode {
        label: Label::new("abc"),
    });
    let before = json_of(&graph);
    let r = graph.apply_command(GraphCommand::DeleteNode { id: Id::new("n9") });
    assert_eq!("node n9 not found", r.message().as_str());
    assert_eq!(before, json_of(&graph));
}

#[test]
fn link_on_empty_graph_reports_missing_source() {
    let mut graph = Graph::new();
    let before = json_of(&graph);
    let r = graph.apply_command(GraphCommand::LinkEdge {
        from: Id::new("n5"),
        to: Id::new("n6"),
    });
    assert_eq!("source node n5 not found", r.message().as_str());
    assert_eq!(before, json_of(&graph));
}

#[test]
fn link_reports_missing_target_when_source_exists() {
    let mut graph = Graph::new();
    graph.apply_command(GraphCommand::InsertNode {
        label: Label::new("abc"),
    });
    let before = json_of(&graph);
    let r = graph.apply_command(GraphCommand::LinkEdge {
        from: Id::new("n0"),
        to: Id::new("n6"),
    });
    assert_eq!("target node n6 not found", r.message().as_str());
    assert_eq!(before, json_of(&graph));
}

#[test]
fn self_loops_and_parallel_edges_are_allowed() {
    let mut graph = Graph::new();
    graph.apply_command(GraphCommand::InsertNode {
        label: Label::new("abc"),
    });
    let loop_edge = graph.apply_command(GraphCommand::LinkEdge {
        from: Id::new("n0"),
        to: Id::new("n0"),
    });
    assert_eq!("Added edge e0 from n0 to n0", loop_edge.message().as_str());
    let parallel = graph.apply_command(GraphCommand::LinkEdge {
        from: Id::new("n0"),
        to: Id::new("n0"),
    });
    assert_eq!("Added edge e1 from n0 to n0", parallel.message().as_str());
}

#[test]
fn rename_changes_only_the_label() {
    let mut graph = Graph::new();
    graph.apply_command(GraphCommand::InsertNode {
        label: Label::new("abc"),
    });
    graph.apply_command(GraphCommand::InsertNode {
        label: Label::new("def"),
    });
    graph.apply_command(GraphCommand::LinkEdge {
        from: Id::new("n0"),
        to: Id::new("n1"),
    });
    let r = graph.apply_command(GraphCommand::RenameNode {
        id: Id::new("n0"),
        label: Label::new("xyz"),
    });
    assert_eq!("Node n0 renamed to 'xyz'", r.message().as_str());
    assert_eq!(
        "{\"nodes\":[{\"id\":\"n0\",\"label\":\"xyz\"},{\"id\":\"n1\",\"label\":\"def\"}],\"edges\":[{\"id\":\"e0\",\"from\":\"n0\",\"to\":\"n1\"}]}",
        json_of(&graph)
    );
}

#[test]
fn rename_unknown_node_reports_it() {
    let mut graph = Graph::new();
    let r = graph.apply_command(GraphCommand::RenameNode {
        id: Id::new("n3"),
        label: Label::new("xyz"),
    });
    assert_eq!("Could not find node n3", r.message().as_str());
}

#[test]
fn unlink_removes_one_edge() {
    let mut graph = Graph::new();
    graph.apply_command(GraphCommand::InsertNode {
        label: Label::new("abc"),
    });
    graph.apply_command(GraphCommand::InsertNode {
        label: Label::new("def"),
    });
    graph.apply_command(GraphCommand::LinkEdge {
        from: Id::new("n0"),
        to: Id::new("n1"),
    });
    graph.apply_command(GraphCommand::LinkEdge {
        from: Id::new("n1"),
        to: Id::new("n0"),
    });
    let r = graph.apply_command(GraphCommand::UnlinkEdge { id: Id::new("e0") });
    assert_eq!("edge e0 removed", r.message().as_str());
    assert_eq!(
        "{\"nodes\":[{\"id\":\"n0\",\"label\":\"abc\"},{\"id\":\"n1\",\"label\":\"def\"}],\"edges\":[{\"id\":\"e1\",\"from\":\"n1\",\"to\":\"n0\"}]}",
        json_of(&graph)
    );
    let missing = graph.apply_command(GraphCommand::UnlinkEdge { id: Id::new("e0") });
    assert_eq!("edge e0 not found", missing.message().as_str());
}

#[test]
fn help_strings_describe_commands() {
    let insert = GraphCommand::InsertNode {
        label: Label::new("abc"),
    };
    assert_eq!("insert new node with label 'abc'", insert.to_help_string());
    let link = GraphCommand::LinkEdge {
        from: Id::new("n0"),
        to: Id::new("n1"),
    };
    assert_eq!("link <n0> to <n1>", link.to_help_string());
}

#[test]
fn search_matches_finds_labels_containing_the_text() {
    let mut graph = Graph::new();
    graph.apply_command(GraphCommand::InsertNode {
        label: Label::new("alpha"),
    });
    graph.apply_command(GraphCommand::InsertNode {
        label: Label::new("beta"),
    });
    graph.apply_command(GraphCommand::InsertNode {
        label: Label::new("alphabet"),
    });
    let matches = graph.search_matches(&Label::new("alpha"));
    assert_eq!(vec![Id::new("n0"), Id::new("n2")], matches);
    let none = graph.search_matches(&Label::new("gamma"));
    assert!(none.is_empty());
}
