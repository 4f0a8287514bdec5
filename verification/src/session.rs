//! The session vocabulary and the orchestration decisions.
//!
//! A session reads one line at a time, parses it into a [`Command`], and
//! hands the command to [`session_step`], which applies it to the shared
//! graph where it mutates, renders where it prints, and reports which
//! outside action — logging, saving, opening the diagram — is owed, along
//! with whether the graph must be re-rendered ("dirty").

use vstd::prelude::*;
use crate::{CommandResult, Id, Label, Line};
use crate::command::{
    help_delete, help_insert, help_link, help_rename, help_unlink, GraphCommand,
};
use crate::graph::{applied, export_events, ids_view, matching_node_ids, Graph};
use crate::graphviz::{dot_output, ExportEvent, GraphVizExporter};
use crate::json::{event_edges, event_nodes, json_doc, JsonExporter};

verus! {

/// Everything a session line can ask for: a graph mutation, a search, a
/// printout, bookkeeping, or leaving.
#[derive(Debug, PartialEq, Eq)]
pub enum Command {
    /// Apply a graph-mutating command.
    GraphCommand(GraphCommand),
    /// Display the command help.
    ShowHelp,
    /// Highlight the nodes whose labels match.
    Search { sub_label: Label },
    /// Print the DOT rendering of the graph.
    PrintDot,
    /// Print the JSON document of the graph.
    PrintJson,
    /// A rename that supplied no new label; kept for completion only.
    RenameNodeUnlabelled { id: Id },
    /// Persist the serialized document.
    Save,
    /// Open the rendered diagram.
    Show,
    /// Leave the session.
    Exit,
    /// A line the parser could not understand, kept verbatim.
    ParseError { line: Line },
}

impl From<GraphCommand> for Command {
    /// A graph command is a session command.
    fn from(c: GraphCommand) -> (r: Command) {
        Command::GraphCommand(c)
    }
}

impl vstd::std_specs::convert::FromSpecImpl<GraphCommand> for Command {
    open spec fn obeys_from_spec() -> bool {
        true
    }

    open spec fn from_spec(c: GraphCommand) -> Command {
        Command::GraphCommand(c)
    }
}

/// The description `to_help_string` gives of a search.
pub open spec fn help_search(sub_label: Seq<char>) -> Seq<char> {
    "search for <"@ + sub_label + "> and highlight matching nodes"@
}

/// The description `to_help_string` gives of a label-less rename.
pub open spec fn help_rename_unlabelled(id: Seq<char>) -> Seq<char> {
    "rename <"@ + id + "> but no new label text supplied"@
}

/// The description `to_help_string` gives of an unparseable line.
pub open spec fn help_parse_error(line: Seq<char>) -> Seq<char> {
    "could not parse: \""@ + line + "\""@
}

impl Command {
    /// A one-line, human-readable description of this command.
    pub fn to_help_string(&self) -> (r: String)
        ensures
            r@ == match *self {
                Command::GraphCommand(ref c) => match *c {
                    GraphCommand::InsertNode { ref label } => help_insert(label@),
                    GraphCommand::DeleteNode { ref id } => help_delete(id@),
                    GraphCommand::LinkEdge { ref from, ref to } => help_link(from@, to@),
                    GraphCommand::RenameNode { ref id, ref label } => help_rename(id@, label@),
                    GraphCommand::UnlinkEdge { ref id } => help_unlink(id@),
                },
                Command::ShowHelp => "display this help"@,
                Command::Search { ref sub_label } => help_search(sub_label@),
                Command::PrintDot => "print the dot definition for this graph to the terminal"@,
                Command::PrintJson => "print the json definition for this graph to the terminal"@,
                Command::RenameNodeUnlabelled { ref id } => help_rename_unlabelled(id@),
                Command::Save => "save the graph to disc"@,
                Command::Show => "open the diagram in Gapplin"@,
                Command::Exit => "exit microdot"@,
                Command::ParseError { ref line } => help_parse_error(line@),
            },
    {
        match self {
            Command::GraphCommand(c) => c.to_help_string(),
            Command::ShowHelp => String::from_str("display this help"),
            Command::Search { sub_label } => String::from_str("search for <").concat(
                sub_label.as_string().as_str(),
            ).concat("> and highlight matching nodes"),
            Command::PrintDot => String::from_str(
                "print the dot definition for this graph to the terminal",
            ),
            Command::PrintJson => String::from_str(
                "print the json definition for this graph to the terminal",
            ),
            Command::RenameNodeUnlabelled { id } => String::from_str("rename <").concat(
                id.as_string().as_str(),
            ).concat("> but no new label text supplied"),
            Command::Save => String::from_str("save the graph to disc"),
            Command::Show => String::from_str("open the diagram in Gapplin"),
            Command::Exit => String::from_str("exit microdot"),
            Command::ParseError { line } => String::from_str("could not parse: \"").concat(
                line.as_string().as_str(),
            ).concat("\""),
        }
    }
}

/// The message reporting a search.
pub open spec fn msg_searching(sub_label: Seq<char>) -> Seq<char> {
    "searching for '"@ + sub_label + "'"@
}

/// Whether a command changes the graph or the searchable state, so that
/// the renders must be refreshed afterwards.
pub open spec fn dirty_command(command: Command) -> bool {
    match command {
        Command::GraphCommand(_) => true,
        Command::Search { .. } => true,
        Command::Save => true,
        _ => false,
    }
}

/// The outside action one session step owes, beyond the graph mutation it
/// already performed.
#[derive(Debug)]
pub enum SessionEffect {
    /// Log the outcome of the applied graph command.
    Applied { result: CommandResult },
    /// Log the command help.
    ShowHelpText,
    /// Log the search outcome; `matches` is the transient highlight set —
    /// the nodes whose labels contain the search text, in creation order.
    Searched { result: CommandResult, matches: Vec<Id> },
    /// Log this DOT text.
    DotText { dot: String },
    /// Log this JSON text.
    JsonText { json: String },
    /// Nothing; the command exists for auto-completion only.
    NoAction,
    /// Persist the serialized document.
    SaveRequested,
    /// Open the rendered diagram.
    OpenDiagram,
    /// Log that the line was not understood.
    ParseFailure,
    /// Leave the session loop.
    Quit,
}

/// One session step: whether a re-render is owed, and the outside action.
#[derive(Debug)]
pub struct SessionStep {
    pub dirty: bool,
    pub effect: SessionEffect,
}

/// Apply one parsed command to the shared graph.
///
/// Graph commands mutate the graph exactly as [`applied`] states and are
/// dirty; Search and Save are dirty without touching the graph; the print
/// commands render the present graph; everything else neither mutates nor
/// dirties.
pub fn session_step(graph: &mut Graph, command: Command) -> (step: SessionStep)
    requires
        old(graph).wf(),
        old(graph)@.node_high_water < u64::MAX,
        old(graph)@.edge_high_water < u64::MAX,
    ensures
        final(graph).wf(),
        step.dirty == dirty_command(command),
        match command {
            Command::GraphCommand(c) => match step.effect {
                SessionEffect::Applied { result } => applied(
                    old(graph)@,
                    c,
                    final(graph)@,
                    result@,
                ),
                _ => false,
            },
            Command::ShowHelp => final(graph)@ == old(graph)@ && step.effect
                is ShowHelpText,
            Command::Search { sub_label } => final(graph)@ == old(graph)@ && match step.effect {
                SessionEffect::Searched { result, matches } => result@ == msg_searching(sub_label@)
                    && ids_view(matches@) == matching_node_ids(old(graph)@.nodes, sub_label@),
                _ => false,
            },
            Command::PrintDot => final(graph)@ == old(graph)@ && match step.effect {
                SessionEffect::DotText { dot } => dot@ == dot_output(
                    seq![ExportEvent::Direction { is_left_right: true }] + export_events(
                        old(graph)@,
                    ),
                    true,
                ),
                _ => false,
            },
            Command::PrintJson => final(graph)@ == old(graph)@ && match step.effect {
                SessionEffect::JsonText { json } => json@ == json_doc(
                    old(graph)@.nodes,
                    old(graph)@.edges,
                ),
                _ => false,
            },
            Command::RenameNodeUnlabelled { .. } => final(graph)@ == old(graph)@ && step.effect
                is NoAction,
            Command::Save => final(graph)@ == old(graph)@ && step.effect is SaveRequested,
            Command::Show => final(graph)@ == old(graph)@ && step.effect is OpenDiagram,
            Command::Exit => final(graph)@ == old(graph)@ && step.effect is Quit,
            Command::ParseError { .. } => final(graph)@ == old(graph)@ && step.effect
                is ParseFailure,
        },
{
    match command {
        Command::GraphCommand(c) => {
            let result = graph.apply_command(c);
            SessionStep { dirty: true, effect: SessionEffect::Applied { result } }
        },
        Command::ShowHelp => SessionStep { dirty: false, effect: SessionEffect::ShowHelpText },
        Command::Search { sub_label } => {
            let matches = graph.search_matches(&sub_label);
            let message = String::from_str("searching for '").concat(
                sub_label.as_string().as_str(),
            ).concat("'");
            SessionStep {
                dirty: true,
                effect: SessionEffect::Searched { result: CommandResult::new(message), matches },
            }
        },
        Command::PrintDot => {
            let mut exporter = GraphVizExporter::new();
            let dot = exporter.export(graph);
            proof {
                assert(Seq::<ExportEvent>::empty().push(
                    ExportEvent::Direction { is_left_right: true },
                ) =~= seq![ExportEvent::Direction { is_left_right: true }]);
            }
            SessionStep { dirty: false, effect: SessionEffect::DotText { dot } }
        },
        Command::PrintJson => {
            let mut exporter = JsonExporter::new();
            let json = exporter.export_json(graph);
            proof {
                assert(Seq::<ExportEvent>::empty() + export_events(graph@) =~= export_events(
                    graph@,
                ));
                crate::json::lemma_export_stream_carries_graph(graph@);
            }
            SessionStep { dirty: false, effect: SessionEffect::JsonText { json } }
        },
        Command::RenameNodeUnlabelled { .. } => SessionStep {
            dirty: false,
            effect: SessionEffect::NoAction,
        },
        Command::Save => SessionStep { dirty: true, effect: SessionEffect::SaveRequested },
        Command::Show => SessionStep { dirty: false, effect: SessionEffect::OpenDiagram },
        Command::Exit => SessionStep { dirty: false, effect: SessionEffect::Quit },
        Command::ParseError { .. } => SessionStep {
            dirty: false,
            effect: SessionEffect::ParseFailure,
        },
    }
}

/// The message reporting a successful diagram compilation.
pub open spec fn msg_compiled(path: Seq<char>) -> Seq<char> {
    "compiled interactive dot: "@ + path
}

/// The message reporting a failed compilation to SVG.
pub open spec fn msg_svg_failed(error: Seq<char>) -> Seq<char> {
    "failed to compile interactive dot to svg: "@ + error
}

/// The message reporting a failed compilation to PNG.
pub open spec fn msg_png_failed(error: Seq<char>) -> Seq<char> {
    "failed to compile interactive dot to png: "@ + error
}

/// The outcome report of compiling the DOT file to its two images: success
/// names the file; a failure names the format that failed, SVG first.
pub fn compile_report(
    path: &str,
    svg_error: Option<String>,
    png_error: Option<String>,
) -> (r: CommandResult)
    ensures
        r@ == match svg_error {
            Option::Some(e) => msg_svg_failed(e@),
            Option::None => match png_error {
                Option::Some(e) => msg_png_failed(e@),
                Option::None => msg_compiled(path@),
            },
        },
{
    match svg_error {
        Option::Some(e) => CommandResult::new(
            String::from_str("failed to compile interactive dot to svg: ").concat(e.as_str()),
        ),
        Option::None => match png_error {
            Option::Some(e) => CommandResult::new(
                String::from_str("failed to compile interactive dot to png: ").concat(e.as_str()),
            ),
            Option::None => CommandResult::new(
                String::from_str("compiled interactive dot: ").concat(path),
            ),
        },
    }
}

} // verus!
