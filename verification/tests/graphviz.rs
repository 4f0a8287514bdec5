use microdot::command::GraphCommand;
use microdot::graph::Graph;
use microdot::graphviz::{colors, escape_id, escape_label, parse_graphviz_version, GraphVizExporter};
use microdot::{Id, Label};

#[test]
fn escapes_label() {
    assert_eq!(r#""abc""#, escape_label("abc"));
    assert_eq!(r#""a\"bc""#, escape_label("a\"bc"));
}

#[test]
fn escapes_newline_in_label() {
    assert_eq!("\"a\\n b\"", escape_label("a\nb"));
}

#[test]
fn escapes_id() {
    assert_eq!(r#""n0""#, escape_id("n0"));
    assert_eq!(r#""a\"b""#, escape_id("a\"b"));
}

#[test]
fn exports_graph() {
    let mut graph = Graph::new();

    graph.apply_command(GraphCommand::InsertNode {
        label: Label::new("abc"),
    });

    graph.apply_command(GraphCommand::InsertNode {
        label: Label::new("def"),
    });

    graph.apply_command(GraphCommand::LinkEdge {
        from: Id::new("n0"),
        to: Id::new("n1"),
    });

    let mut exporter = GraphVizExporter::new();

    let dot = exporter.export(&graph);

    let expected = "digraph G {\n    node [fontname = \"helvetica\" shape=box style=filled fillcolor=\"#FFDD99\" fontcolor=\"#242D48\"];\n    graph [fontname = \"helvetica\" rankdir=LR ranksep=0.8 nodesep=0.4];\n    \"n0\" [label=\"n0: abc\"];\n    \"n1\" [label=\"n1: def\"];\n    \"n0\" -> \"n1\" [label=e0];\n}\n";
    assert_eq!(expected.to_string(), dot);
}

#[test]
fn exports_graph_plain_mode() {
    let mut graph = Graph::new();
    graph.apply_command(GraphCommand::InsertNode {
        label: Label::new("abc"),
    });
    let mut exporter = GraphVizExporter::new_plain();
    let dot = exporter.export(&graph);
    assert!(dot.contains("    \"n0\" [label=\"abc\"];\n"));
    assert!(!dot.contains("n0: abc"));
}

#[test]
fn long_labels_are_wrapped() {
    // A label well past the 40-column fill width must come back with a
    // break, which the DOT escaping shows as a literal "\n " sequence. If
    // the fill handed its input back unchanged, no such sequence could
    // appear: the identifier prefix and label hold none.
    let mut graph = Graph::new();
    let long_label = "alpha beta gamma delta epsilon zeta eta theta iota kappa";
    graph.apply_command(GraphCommand::InsertNode {
        label: Label::new(long_label),
    });
    let mut exporter = GraphVizExporter::new();
    let dot = exporter.export(&graph);
    assert!(dot.contains("\\n "));
}

#[test]
fn palette_has_the_named_colors() {
    let palette = colors();
    assert_eq!(13, palette.len());
    assert_eq!(("lemonade".to_string(), "#FFDD99".to_string()), palette[2]);
    assert_eq!(("martinique".to_string(), "#242D48".to_string()), palette[8]);
    assert_eq!(("julep".to_string(), "#73DBE6".to_string()), palette[0]);
    assert_eq!(("rain".to_string(), "#A136B4".to_string()), palette[12]);
}

#[test]
fn export_is_deterministic() {
    let mut graph = Graph::new();
    graph.apply_command(GraphCommand::InsertNode {
        label: Label::new("abc"),
    });
    graph.apply_command(GraphCommand::InsertNode {
        label: Label::new("def"),
    });
    graph.apply_command(GraphCommand::LinkEdge {
        from: Id::new("n0"),
        to: Id::new("n1"),
    });
    let first = GraphVizExporter::new().export(&graph);
    let second = GraphVizExporter::new().export(&graph);
    assert_eq!(first, second);
}

#[test]
fn parses_graphviz_banner_version() {
    let version = parse_graphviz_version("dot - graphviz version 2.49.1 (20210923.0004)");
    assert_eq!(Some("2.49.1".to_string()), version);
    assert_eq!(None, parse_graphviz_version("something else"));
    assert_eq!(None, parse_graphviz_version("dot - graphviz version "));
}
