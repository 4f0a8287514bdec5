//! The `Exporter` capability and the DOT render backend.
//!
//! The graph walks itself through an `Exporter` — every node, then every
//! edge, in creation order — so a backend never reaches into the graph's
//! internals. The DOT backend turns that stream into a declarative text
//! body, escaping quotes and newlines, and wraps it in a fixed template
//! with the palette colors substituted. In annotated mode a node's label is
//! prefixed with its identifier and wrapped to a fixed width, and edges
//! show their own identifier; in plain mode labels appear verbatim.

use vstd::prelude::*;
use crate::{Id, Label};
use crate::graph::{export_events, Graph};
use crate::text::string_from_chars;
use hyphenation::Load;

verus! {

/// One callback the graph makes on an exporter during an export pass.
pub enum ExportEvent {
    /// The rendering direction: left-to-right when true, else top-to-bottom.
    Direction { is_left_right: bool },
    /// A node, with its current identifier and label.
    Node { id: Seq<char>, label: Seq<char> },
    /// An edge, with its identifier and its two endpoints.
    Edge { id: Seq<char>, from: Seq<char>, to: Seq<char> },
}

/// The capability a render backend offers to the graph.
///
/// `events()` is the backend's abstract state: the exact stream of
/// callbacks it has absorbed so far. Each callback appends one event and
/// nothing else, so what a backend renders is a function of the stream
/// alone. `inv()` is the backend's private well-formedness, preserved by
/// every callback.
pub trait Exporter {
    /// The backend's private well-formedness.
    spec fn inv(&self) -> bool;

    /// The stream of callbacks absorbed so far.
    spec fn events(&self) -> Seq<ExportEvent>;

    /// The backend's presentation mode, fixed at construction; callbacks
    /// never change it.
    spec fn mode(&self) -> bool;

    /// Record the rendering direction.
    fn set_direction(&mut self, is_left_right: bool)
        requires
            old(self).inv(),
        ensures
            final(self).inv(),
            final(self).mode() == old(self).mode(),
            final(self).events() == old(self).events().push(
                ExportEvent::Direction { is_left_right },
            ),
    ;

    /// Record one node.
    fn add_node(&mut self, id: &Id, label: &Label)
        requires
            old(self).inv(),
        ensures
            final(self).inv(),
            final(self).mode() == old(self).mode(),
            final(self).events() == old(self).events().push(
                ExportEvent::Node { id: id@, label: label@ },
            ),
    ;

    /// Record one edge.
    fn add_edge(&mut self, id: &Id, from: &Id, to: &Id)
        requires
            old(self).inv(),
        ensures
            final(self).inv(),
            final(self).mode() == old(self).mode(),
            final(self).events() == old(self).events().push(
                ExportEvent::Edge { id: id@, from: from@, to: to@ },
            ),
    ;
}

/// What the fixed-width fill returns for a given text.
pub uninterp spec fn wrap_of(s: Seq<char>) -> Seq<char>;

/// Relies on `textwrap::fill` at width 40, with the embedded US-English
/// dictionary of `hyphenation` as the word splitter: the filled text is a
/// pure function of the input text alone.
#[verifier::external_body]
fn wrap_text(s: &str) -> (r: String)
    ensures
        r@ == wrap_of(s@),
{
    let dictionary = hyphenation::Standard::from_embedded(hyphenation::Language::EnglishUS)
        .expect("embedded dictionary");
    let options = textwrap::Options::new(40).word_splitter(
        textwrap::WordSplitter::Hyphenation(dictionary),
    );
    textwrap::fill(s, options)
}

/// How one character appears inside a quoted DOT label: newlines become a
/// literal escape, quotes are escaped, all else is verbatim.
pub open spec fn escaped_label_char(c: char) -> Seq<char> {
    if c == '\n' {
        seq!['\\', 'n', ' ']
    } else if c == '"' {
        seq!['\\', '"']
    } else {
        seq![c]
    }
}

/// The body of a quoted DOT label.
pub open spec fn escaped_label_chars(s: Seq<char>) -> Seq<char>
    decreases s.len(),
{
    if s.len() == 0 {
        Seq::empty()
    } else {
        escaped_label_chars(s.drop_last()) + escaped_label_char(s.last())
    }
}

/// A label as it appears in DOT: quoted, with newlines and quotes escaped.
pub open spec fn escaped_label(s: Seq<char>) -> Seq<char> {
    seq!['"'] + escaped_label_chars(s) + seq!['"']
}

/// How one character appears inside a quoted DOT identifier.
pub open spec fn escaped_id_char(c: char) -> Seq<char> {
    if c == '"' {
        seq!['\\', '"']
    } else {
        seq![c]
    }
}

/// The body of a quoted DOT identifier.
pub open spec fn escaped_id_chars(s: Seq<char>) -> Seq<char>
    decreases s.len(),
{
    if s.len() == 0 {
        Seq::empty()
    } else {
        escaped_id_chars(s.drop_last()) + escaped_id_char(s.last())
    }
}

/// An identifier as it appears in DOT: quoted, with quotes escaped.
pub open spec fn escaped_id(s: Seq<char>) -> Seq<char> {
    seq!['"'] + escaped_id_chars(s) + seq!['"']
}

/// Quote a label for DOT, escaping embedded quotes and newlines.
pub fn escape_label(label: &str) -> (r: String)
    ensures
        r@ == escaped_label(label@),
{
    let n = label.unicode_len();
    let mut out: Vec<char> = Vec::new();
    out.push('"');
    for i in 0..n
        invariant
            n == label@.len(),
            out@ =~= seq!['"'] + escaped_label_chars(label@.take(i as int)),
    {
        let c = label.get_char(i);
        proof {
            assert(label@.take(i + 1).drop_last() =~= label@.take(i as int));
            assert(label@.take(i + 1).last() == c);
        }
        if c == '\n' {
            out.push('\\');
            out.push('n');
            out.push(' ');
        } else if c == '"' {
            out.push('\\');
            out.push('"');
        } else {
            out.push(c);
        }
        proof {
            assert(out@ =~= seq!['"'] + escaped_label_chars(label@.take(i + 1)));
        }
    }
    out.push('"');
    proof {
        assert(label@.take(label@.len() as int) =~= label@);
        assert(out@ =~= escaped_label(label@));
    }
    string_from_chars(&out)
}

/// Quote an identifier for DOT, escaping embedded quotes.
pub fn escape_id(id: &str) -> (r: String)
    ensures
        r@ == escaped_id(id@),
{
    let n = id.unicode_len();
    let mut out: Vec<char> = Vec::new();
    out.push('"');
    for i in 0..n
        invariant
            n == id@.len(),
            out@ =~= seq!['"'] + escaped_id_chars(id@.take(i as int)),
    {
        let c = id.get_char(i);
        proof {
            assert(id@.take(i + 1).drop_last() =~= id@.take(i as int));
            assert(id@.take(i + 1).last() == c);
        }
        if c == '"' {
            out.push('\\');
            out.push('"');
        } else {
            out.push(c);
        }
        proof {
            assert(out@ =~= seq!['"'] + escaped_id_chars(id@.take(i + 1)));
        }
    }
    out.push('"');
    proof {
        assert(id@.take(id@.len() as int) =~= id@);
        assert(out@ =~= escaped_id(id@));
    }
    string_from_chars(&out)
}

/// The named palette colors, in their fixed order.
pub fn colors() -> (r: Vec<(String, String)>)
    ensures
        r@.len() == 13,
        r@[0].0@ == "julep"@ && r@[0].1@ == "#73DBE6"@,
        r@[1].0@ == "pacifica"@ && r@[1].1@ == "#2BBDCB"@,
        r@[2].0@ == "lemonade"@ && r@[2].1@ == "#FFDD99"@,
        r@[3].0@ == "bright_sun"@ && r@[3].1@ == "#FFBB16"@,
        r@[4].0@ == "athens"@ && r@[4].1@ == "#F8F8FA"@,
        r@[5].0@ == "linkwater"@ && r@[5].1@ == "#E6EBF8"@,
        r@[6].0@ == "ghost"@ && r@[6].1@ == "#DFE2EB"@,
        r@[7].0@ == "comet"@ && r@[7].1@ == "#485478"@,
        r@[8].0@ == "martinique"@ && r@[8].1@ == "#242D48"@,
        r@[9].0@ == "iris"@ && r@[9].1@ == "#C882D9"@,
        r@[10].0@ == "orchid"@ && r@[10].1@ == "#B25DC6"@,
        r@[11].0@ == "empire"@ && r@[11].1@ == "#821499"@,
        r@[12].0@ == "rain"@ && r@[12].1@ == "#A136B4"@,
{
    let mut r: Vec<(String, String)> = Vec::new();
    r.push((String::from_str("julep"), String::from_str("#73DBE6")));
    r.push((String::from_str("pacifica"), String::from_str("#2BBDCB")));
    r.push((String::from_str("lemonade"), String::from_str("#FFDD99")));
    r.push((String::from_str("bright_sun"), String::from_str("#FFBB16")));
    r.push((String::from_str("athens"), String::from_str("#F8F8FA")));
    r.push((String::from_str("linkwater"), String::from_str("#E6EBF8")));
    r.push((String::from_str("ghost"), String::from_str("#DFE2EB")));
    r.push((String::from_str("comet"), String::from_str("#485478")));
    r.push((String::from_str("martinique"), String::from_str("#242D48")));
    r.push((String::from_str("iris"), String::from_str("#C882D9")));
    r.push((String::from_str("orchid"), String::from_str("#B25DC6")));
    r.push((String::from_str("empire"), String::from_str("#821499")));
    r.push((String::from_str("rain"), String::from_str("#A136B4")));
    r
}

/// The DOT line one event renders to, in the given mode.
pub open spec fn dot_line(ev: ExportEvent, annotated: bool) -> Seq<char> {
    match ev {
        ExportEvent::Direction { is_left_right } => if is_left_right {
            "    graph [fontname = \"helvetica\" rankdir=LR ranksep=0.8 nodesep=0.4];\n"@
        } else {
            "    graph [fontname = \"helvetica\" rankdir=TB ranksep=0.8 nodesep=0.4];\n"@
        },
        ExportEvent::Node { id, label } => {
            let shown = if annotated {
                wrap_of(id + ": "@ + label)
            } else {
                label
            };
            "    "@ + escaped_id(id) + " [label="@ + escaped_label(shown) + "];\n"@
        },
        ExportEvent::Edge { id, from, to } => {
            let tag = if annotated {
                " [label="@ + id + "]"@
            } else {
                Seq::empty()
            };
            "    "@ + escaped_id(from) + " -> "@ + escaped_id(to) + tag + ";\n"@
        },
    }
}

/// The DOT body an event stream renders to.
pub open spec fn dot_body(events: Seq<ExportEvent>, annotated: bool) -> Seq<char>
    decreases events.len(),
{
    if events.len() == 0 {
        Seq::empty()
    } else {
        dot_body(events.drop_last(), annotated) + dot_line(events.last(), annotated)
    }
}

/// A DOT body wrapped in the fixed template, with the node fill and font
/// colors of the palette substituted.
pub open spec fn dot_output(events: Seq<ExportEvent>, annotated: bool) -> Seq<char> {
    "digraph G {\n    node [fontname = \"helvetica\" shape=box style=filled fillcolor=\""@
        + "#FFDD99"@ + "\" fontcolor=\""@ + "#242D48"@ + "\"];\n"@ + dot_body(events, annotated)
        + "}\n"@
}

/// The DOT render backend: accumulates the body text line by line.
pub struct GraphVizExporter {
    inner_content: String,
    debug_mode: bool,
    events_seen: Ghost<Seq<ExportEvent>>,
}

impl Exporter for GraphVizExporter {
    /// The accumulated text is exactly the rendering of the absorbed events.
    closed spec fn inv(&self) -> bool {
        self.inner_content@ == dot_body(self.events_seen@, self.debug_mode)
    }

    closed spec fn events(&self) -> Seq<ExportEvent> {
        self.events_seen@
    }

    closed spec fn mode(&self) -> bool {
        self.debug_mode
    }

    fn set_direction(&mut self, is_left_right: bool) {
        let line: &str = if is_left_right {
            "    graph [fontname = \"helvetica\" rankdir=LR ranksep=0.8 nodesep=0.4];\n"
        } else {
            "    graph [fontname = \"helvetica\" rankdir=TB ranksep=0.8 nodesep=0.4];\n"
        };
        self.inner_content.append(line);
        let ghost ev = ExportEvent::Direction { is_left_right };
        proof {
            self.events_seen@ = self.events_seen@.push(ev);
            assert(self.events_seen@.drop_last() =~= old(self).events_seen@);
            assert(self.inner_content@ == dot_body(self.events_seen@, self.debug_mode));
        }
    }

    fn add_node(&mut self, id: &Id, label: &Label) {
        let shown: String = if self.debug_mode {
            let mut unwrapped = id.as_string().clone();
            unwrapped.append(": ");
            unwrapped.append(label.as_string().as_str());
            wrap_text(unwrapped.as_str())
        } else {
            label.as_string().clone()
        };
        let mut line = String::from_str("    ");
        line.append(escape_id(id.as_string().as_str()).as_str());
        line.append(" [label=");
        line.append(escape_label(shown.as_str()).as_str());
        line.append("];\n");
        self.inner_content.append(line.as_str());
        let ghost ev = ExportEvent::Node { id: id@, label: label@ };
        proof {
            self.events_seen@ = self.events_seen@.push(ev);
            assert(self.events_seen@.drop_last() =~= old(self).events_seen@);
            assert(line@ =~= dot_line(ev, self.debug_mode));
            assert(self.inner_content@ == dot_body(self.events_seen@, self.debug_mode));
        }
    }

    fn add_edge(&mut self, id: &Id, from: &Id, to: &Id) {
        let mut line = String::from_str("    ");
        line.append(escape_id(from.as_string().as_str()).as_str());
        line.append(" -> ");
        line.append(escape_id(to.as_string().as_str()).as_str());
        if self.debug_mode {
            line.append(" [label=");
            line.append(id.as_string().as_str());
            line.append("]");
        }
        line.append(";\n");
        self.inner_content.append(line.as_str());
        let ghost ev = ExportEvent::Edge { id: id@, from: from@, to: to@ };
        proof {
            self.events_seen@ = self.events_seen@.push(ev);
            assert(self.events_seen@.drop_last() =~= old(self).events_seen@);
            assert(line@ =~= dot_line(ev, self.debug_mode));
            assert(self.inner_content@ == dot_body(self.events_seen@, self.debug_mode));
        }
    }
}

impl GraphVizExporter {
    /// Whether this backend annotates: identifier-prefixed, wrapped node
    /// labels, and edge identifiers shown.
    pub open spec fn annotated(&self) -> bool {
        self.mode()
    }

    /// A fresh backend in annotated mode.
    pub fn new() -> (r: GraphVizExporter)
        ensures
            r.inv(),
            r.events() == Seq::<ExportEvent>::empty(),
            r.annotated(),
    {
        let r = GraphVizExporter {
            inner_content: String::new(),
            debug_mode: true,
            events_seen: Ghost(Seq::empty()),
        };
        r
    }

    /// A fresh backend that renders labels verbatim.
    pub fn new_plain() -> (r: GraphVizExporter)
        ensures
            r.inv(),
            r.events() == Seq::<ExportEvent>::empty(),
            !r.annotated(),
    {
        let r = GraphVizExporter {
            inner_content: String::new(),
            debug_mode: false,
            events_seen: Ghost(Seq::empty()),
        };
        r
    }

    /// Render the graph as a DOT document: the direction line, every node,
    /// every edge, wrapped in the fixed template with the palette's
    /// `lemonade` fill and `martinique` font colors.
    pub fn export(&mut self, graph: &Graph) -> (r: String)
        requires
            old(self).inv(),
        ensures
            final(self).inv(),
            final(self).annotated() == old(self).annotated(),
            final(self).events() == old(self).events().push(
                ExportEvent::Direction { is_left_right: true },
            ) + export_events(graph@),
            r@ == dot_output(final(self).events(), old(self).annotated()),
    {
        self.set_direction(true);
        graph.export(self);
        let palette = colors();
        let node_color = &palette[2].1;
        let font_color = &palette[8].1;
        let mut out = String::from_str(
            "digraph G {\n    node [fontname = \"helvetica\" shape=box style=filled fillcolor=\"",
        );
        out.append(node_color.as_str());
        out.append("\" fontcolor=\"");
        out.append(font_color.as_str());
        out.append("\"];\n");
        out.append(self.inner_content.as_str());
        out.append("}\n");
        proof {
            assert(out@ =~= dot_output(final(self).events(), old(self).annotated()));
        }
        out
    }
}

/// Whether a character may appear in a reported version: a digit or a dot.
pub open spec fn is_version_char(c: char) -> bool {
    (48 <= c as u32 && c as u32 <= 57) || c == '.'
}

/// The longest prefix of version characters.
pub open spec fn version_run(s: Seq<char>) -> Seq<char>
    decreases s.len(),
{
    if s.len() > 0 && is_version_char(s[0]) {
        seq![s[0]] + version_run(s.skip(1))
    } else {
        Seq::empty()
    }
}

/// The banner prefix the diagram compiler prints before its version.
pub open spec fn version_banner() -> Seq<char> {
    "dot - graphviz version "@
}

/// The version that a diagram-compiler banner reports: the banner prefix
/// must open the text, and at least one version character must follow.
pub open spec fn banner_version(s: Seq<char>) -> Option<Seq<char>> {
    if s.len() >= version_banner().len() && s.take(version_banner().len() as int)
        == version_banner() && version_run(s.skip(version_banner().len() as int)).len() > 0 {
        Some(version_run(s.skip(version_banner().len() as int)))
    } else {
        None
    }
}

/// A run of version characters up to the first non-version character is the
/// whole longest prefix.
proof fn lemma_version_run_take(s: Seq<char>, m: int)
    requires
        0 <= m <= s.len(),
        forall|j: int| 0 <= j < m ==> is_version_char(s[j]),
        m == s.len() || !is_version_char(s[m]),
    ensures
        version_run(s) == s.take(m),
    decreases s.len(),
{
    if m == 0 {
        assert(s.take(0) =~= Seq::<char>::empty());
    } else {
        assert(is_version_char(s[0]));
        let rest = s.skip(1);
        assert forall|j: int| 0 <= j < m - 1 implies is_version_char(rest[j]) by {
            assert(rest[j] == s[j + 1]);
        }
        if m - 1 < rest.len() {
            assert(rest[m - 1] == s[m]);
        }
        lemma_version_run_take(rest, m - 1);
        assert(seq![s[0]] + rest.take(m - 1) =~= s.take(m));
    }
}

/// Whether a character may appear in a reported version.
fn is_version_char_exec(c: char) -> (r: bool)
    ensures
        r == is_version_char(c),
{
    let u = c as u32;
    (48 <= u && u <= 57) || c == '.'
}

/// The version the installed diagram compiler reports, read from its
/// banner: the text must open with the banner prefix, and the version is
/// the run of digits and dots that follows.
pub fn parse_graphviz_version(output: &str) -> (r: Option<String>)
    ensures
        match r {
            Some(v) => banner_version(output@) == Some(v@),
            None => banner_version(output@) is None,
        },
{
    let banner = "dot - graphviz version ";
    let banner_len = banner.unicode_len();
    let n = output.unicode_len();
    if n < banner_len {
        return None;
    }
    for i in 0..banner_len
        invariant
            banner_len == version_banner().len(),
            n == output@.len(),
            banner_len <= n,
            banner@ == version_banner(),
            forall|j: int| 0 <= j < i ==> output@[j] == version_banner()[j],
    {
        if output.get_char(i) != banner.get_char(i) {
            proof {
                if output@.take(banner_len as int) == version_banner() {
                    assert(output@.take(banner_len as int)[i as int] == output@[i as int]);
                }
            }
            return None;
        }
    }
    proof {
        assert(output@.take(banner_len as int) =~= version_banner());
    }
    let ghost rest = output@.skip(banner_len as int);
    let mut j: usize = banner_len;
    let mut run: Vec<char> = Vec::new();
    let mut more = true;
    while more
        invariant
            banner_len <= j <= n,
            n == output@.len(),
            rest == output@.skip(banner_len as int),
            run@.len() == j - banner_len,
            forall|x: int| 0 <= x < j - banner_len ==> is_version_char(rest[x]) && run@[x]
                == rest[x],
            !more ==> j == n || !is_version_char(rest[j - banner_len]),
        decreases n - j + (if more { 1int } else { 0int }),
    {
        if j < n {
            let c = output.get_char(j);
            proof {
                assert(rest[j - banner_len] == output@[j as int]);
            }
            if is_version_char_exec(c) {
                run.push(c);
                j = j + 1;
            } else {
                more = false;
            }
        } else {
            more = false;
        }
    }
    proof {
        lemma_version_run_take(rest, j - banner_len);
        assert(run@ =~= rest.take(j - banner_len));
    }
    if run.len() == 0 {
        return None;
    }
    Some(string_from_chars(&run))
}

} // verus!
