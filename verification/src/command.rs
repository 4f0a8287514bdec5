//! The graph-mutating commands and their one-line descriptions.

use vstd::prelude::*;
use crate::{Id, Label};

verus! {

/// One atomic mutation of the graph.
///
/// Every command application returns a free-text result describing the
/// outcome; unknown identifiers and missing endpoints are expected,
/// recoverable outcomes, never errors.
#[derive(Debug, PartialEq, Eq)]
pub enum GraphCommand {
    /// Add a node with a fresh identifier and the given label.
    InsertNode { label: Label },
    /// Remove the node, cascading over every edge that touches it.
    DeleteNode { id: Id },
    /// Add an edge between two existing nodes.
    LinkEdge { from: Id, to: Id },
    /// Change a node's label in place; its identifier is untouched.
    RenameNode { id: Id, label: Label },
    /// Remove one edge.
    UnlinkEdge { id: Id },
}

/// The description `to_help_string` gives of an insertion.
pub open spec fn help_insert(label: Seq<char>) -> Seq<char> {
    "insert new node with label '"@ + label + "'"@
}

/// The description `to_help_string` gives of a deletion.
pub open spec fn help_delete(id: Seq<char>) -> Seq<char> {
    "delete node <"@ + id + ">"@
}

/// The description `to_help_string` gives of a link.
pub open spec fn help_link(from: Seq<char>, to: Seq<char>) -> Seq<char> {
    "link <"@ + from + "> to <"@ + to + ">"@
}

/// The description `to_help_string` gives of a rename.
pub open spec fn help_rename(id: Seq<char>, label: Seq<char>) -> Seq<char> {
    "rename <"@ + id + "> to '"@ + label + "'"@
}

/// The description `to_help_string` gives of an unlink.
pub open spec fn help_unlink(id: Seq<char>) -> Seq<char> {
    "unlink edge <"@ + id + ">"@
}

impl GraphCommand {
    /// A one-line, human-readable description of this command.
    pub fn to_help_string(&self) -> (r: String)
        ensures
            r@ == match *self {
                GraphCommand::InsertNode { ref label } => help_insert(label@),
                GraphCommand::DeleteNode { ref id } => help_delete(id@),
                GraphCommand::LinkEdge { ref from, ref to } => help_link(from@, to@),
                GraphCommand::RenameNode { ref id, ref label } => help_rename(id@, label@),
                GraphCommand::UnlinkEdge { ref id } => help_unlink(id@),
            },
    {
        match self {
            GraphCommand::InsertNode { label } => String::from_str(
                "insert new node with label '",
            ).concat(label.as_string().as_str()).concat("'"),
            GraphCommand::DeleteNode { id } => String::from_str("delete node <").concat(
                id.as_string().as_str(),
            ).concat(">"),
            GraphCommand::LinkEdge { from, to } => String::from_str("link <").concat(
                from.as_string().as_str(),
            ).concat("> to <").concat(to.as_string().as_str()).concat(">"),
            GraphCommand::RenameNode { id, label } => String::from_str("rename <").concat(
                id.as_string().as_str(),
            ).concat("> to '").concat(label.as_string().as_str()).concat("'"),
            GraphCommand::UnlinkEdge { id } => String::from_str("unlink edge <").concat(
                id.as_string().as_str(),
            ).concat(">"),
        }
    }
}

} // verus!
