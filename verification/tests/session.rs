use microdot::command::GraphCommand;
use microdot::graph::Graph;
use microdot::graphviz::GraphVizExporter;
use microdot::json::JsonExporter;
use microdot::session::{session_step, Command, SessionEffect};
use microdot::{Id, Label, Line};

#[test]
fn graph_commands_are_applied_and_dirty() {
    let mut graph = Graph::new();
    let step = session_step(
        &mut graph,
        Command::GraphCommand(GraphCommand::InsertNode {
            label: Label::new("abc"),
        }),
    );
    assert!(step.dirty);
    match step.effect {
        SessionEffect::Applied { result } => {
            assert_eq!("inserted node n0: 'abc'", result.message().as_str())
        }
        other => panic!("unexpected effect: {:?}", other),
    }
}

#[test]
fn search_and_save_are_dirty_without_mutating() {
    let mut graph = Graph::new();
    graph.apply_command(GraphCommand::InsertNode {
        label: Label::new("abc"),
    });
    let before = JsonExporter::new().export_json(&graph);

    let step = session_step(
        &mut graph,
        Command::Search {
            sub_label: Label::new("ab"),
        },
    );
    assert!(step.dirty);
    match step.effect {
        SessionEffect::Searched { result, matches } => {
            assert_eq!("searching for 'ab'", result.message().as_str());
            assert_eq!(vec![Id::new("n0")], matches);
        }
        other => panic!("unexpected effect: {:?}", other),
    }

    let save = session_step(&mut graph, Command::Save);
    assert!(save.dirty);
    assert!(matches!(save.effect, SessionEffect::SaveRequested));

    assert_eq!(before, JsonExporter::new().export_json(&graph));
}

#[test]
fn print_commands_render_the_current_graph() {
    let mut graph = Graph::new();
    graph.apply_command(GraphCommand::InsertNode {
        label: Label::new("abc"),
    });
    let dot = GraphVizExporter::new().export(&graph);
    let json = JsonExporter::new().export_json(&graph);

    let dot_step = session_step(&mut graph, Command::PrintDot);
    assert!(!dot_step.dirty);
    match dot_step.effect {
        SessionEffect::DotText { dot: printed } => assert_eq!(dot, printed),
        other => panic!("unexpected effect: {:?}", other),
    }

    let json_step = session_step(&mut graph, Command::PrintJson);
    assert!(!json_step.dirty);
    match json_step.effect {
        SessionEffect::JsonText { json: printed } => assert_eq!(json, printed),
        other => panic!("unexpected effect: {:?}", other),
    }
}

#[test]
fn bookkeeping_commands_do_not_dirty() {
    let mut graph = Graph::new();
    let help = session_step(&mut graph, Command::ShowHelp);
    assert!(!help.dirty);
    assert!(matches!(help.effect, SessionEffect::ShowHelpText));

    let noop = session_step(&mut graph, Command::RenameNodeUnlabelled { id: Id::new("n0") });
    assert!(!noop.dirty);
    assert!(matches!(noop.effect, SessionEffect::NoAction));

    let show = session_step(&mut graph, Command::Show);
    assert!(!show.dirty);
    assert!(matches!(show.effect, SessionEffect::OpenDiagram));

    let exit = session_step(&mut graph, Command::Exit);
    assert!(!exit.dirty);
    assert!(matches!(exit.effect, SessionEffect::Quit));

    let bad = session_step(
        &mut graph,
        Command::ParseError {
            line: Line::new("nonsense"),
        },
    );
    assert!(!bad.dirty);
    assert!(matches!(bad.effect, SessionEffect::ParseFailure));
}

#[test]
fn command_help_strings() {
    assert_eq!(
        "search for <ab> and highlight matching nodes",
        Command::Search {
            sub_label: Label::new("ab")
        }
        .to_help_string()
    );
    assert_eq!("exit microdot", Command::Exit.to_help_string());
    assert_eq!(
        "could not parse: \"xyz\"",
        Command::ParseError {
            line: Line::new("xyz")
        }
        .to_help_string()
    );
}

#[test]
fn graph_command_converts_into_command() {
    let command = Command::from(GraphCommand::DeleteNode { id: Id::new("n0") });
    assert_eq!(
        Command::GraphCommand(GraphCommand::DeleteNode { id: Id::new("n0") }),
        command
    );
}
