//! An interactive editor core for small directed graphs.
//!
//! The library keeps an authoritative in-memory graph of labelled nodes and
//! directed edges, applies editing commands one at a time while preserving
//! referential integrity, and walks the graph through an `Exporter` capability
//! so that independent render backends (a DOT text backend, a JSON document
//! backend) can consume it without coupling to its internals.

use vstd::prelude::*;

pub mod command;
pub mod graph;
pub mod graphviz;
pub mod json;
pub mod seqs;
pub mod session;
pub mod text;

verus! {

/// A stable identifier for a node or an edge.
///
/// Identifiers are opaque strings compared by equality; node identifiers and
/// edge identifiers carry distinct prefixes (`n`, `e`) so the two namespaces
/// never collide.
#[derive(Debug, PartialEq, Eq)]
pub struct Id(pub String);

impl View for Id {
    type V = Seq<char>;

    open spec fn view(&self) -> Seq<char> {
        self.0@
    }
}

impl Id {
    /// Wrap a string as an identifier.
    pub fn new(text: &str) -> (r: Id)
        ensures
            r@ == text@,
    {
        Id(text.to_owned())
    }

    /// The identifier's text.
    pub fn as_string(&self) -> (r: &String)
        ensures
            r@ == self@,
    {
        &self.0
    }

    /// A copy of this identifier.
    pub fn duplicate(&self) -> (r: Id)
        ensures
            r@ == self@,
    {
        Id(self.0.clone())
    }

    /// Whether two identifiers are the same.
    pub fn same_as(&self, other: &Id) -> (r: bool)
        ensures
            r == (self@ == other@),
    {
        self.0 == other.0
    }
}

/// The user-visible, freely mutable text attached to a node.
#[derive(Debug, PartialEq, Eq)]
pub struct Label(pub String);

impl View for Label {
    type V = Seq<char>;

    open spec fn view(&self) -> Seq<char> {
        self.0@
    }
}

impl Label {
    /// Wrap a string as a label.
    pub fn new(text: &str) -> (r: Label)
        ensures
            r@ == text@,
    {
        Label(text.to_owned())
    }

    /// The label's text.
    pub fn as_string(&self) -> (r: &String)
        ensures
            r@ == self@,
    {
        &self.0
    }

    /// A copy of this label.
    pub fn duplicate(&self) -> (r: Label)
        ensures
            r@ == self@,
    {
        Label(self.0.clone())
    }
}

/// One raw line of user input, kept verbatim.
#[derive(Debug, PartialEq, Eq)]
pub struct Line(pub String);

impl View for Line {
    type V = Seq<char>;

    open spec fn view(&self) -> Seq<char> {
        self.0@
    }
}

impl Line {
    /// Wrap a string as an input line.
    pub fn new(text: &str) -> (r: Line)
        ensures
            r@ == text@,
    {
        Line(text.to_owned())
    }

    /// The line's text.
    pub fn as_string(&self) -> (r: &String)
        ensures
            r@ == self@,
    {
        &self.0
    }
}

/// The human-readable outcome of applying one command.
///
/// Both successes and expected "not found" outcomes are reported this way;
/// command application never fails for a user-input mistake.
#[derive(Debug)]
pub struct CommandResult(pub String);

impl View for CommandResult {
    type V = Seq<char>;

    open spec fn view(&self) -> Seq<char> {
        self.0@
    }
}

impl CommandResult {
    /// Wrap a message as a command result.
    pub fn new(message: String) -> (r: CommandResult)
        ensures
            r@ == message@,
    {
        CommandResult(message)
    }

    /// The result's message text.
    pub fn message(&self) -> (r: &String)
        ensures
            r@ == self@,
    {
        &self.0
    }
}

} // verus!
