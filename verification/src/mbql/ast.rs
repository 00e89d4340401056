//! The syntax tree of MBQL statements, and its text.
//!
//! Each node writes itself back as MBQL text; `render` says what that text is. `verbose`
//! asks for the long form of a node (`Allege(..)`, `Ground(..)`, `Text(..)`), `nest` for
//! parentheses around a bare pair that stands inside another.
use vstd::prelude::*;

use crate::mbql::error::Position;
use crate::ids::AgentId;
use crate::mbql::quoting::{escape_quotes, escaped};
use crate::wrappers::{base64_decoded_no_pad, base64_standard, decode_standard_no_pad, encode_standard};
use vstd::string::StringExecFns;

verus! {

/// An artifact variable, written `@name`.
#[derive(Debug)]
pub struct ArtifactVar {
    pub var: String,
    pub position: Position,
}

/// A symbol variable, written `$name`.
#[derive(Debug)]
pub struct SymbolVar {
    pub var: String,
    pub position: Position,
}

/// `@name = artifact`: binds an artifact to a variable.
#[derive(Debug)]
pub struct ArtifactStatement {
    pub var: ArtifactVar,
    pub artifact: Artifact,
    pub position: Position,
}

/// `$name = symbol`, or a symbol alone: a symbol to make, bound to a variable if one is given.
#[derive(Debug)]
pub struct SymbolStatement {
    pub var: Option<SymbolVar>,
    pub symbol: Symbolizable,
}

/// `Ground(..)`: the ground symbol of what it holds.
#[derive(Debug)]
pub struct Ground {
    pub symbolizable: Box<GroundSymbolizable>,
    pub position: Position,
}

/// `Allege(left : right)`: an analogy alleged between two symbols.
#[derive(Debug)]
pub struct Allege {
    pub left: Box<Symbolizable>,
    pub right: Box<Symbolizable>,
}

/// `Symbolize(..)`: a new symbol for what it holds.
#[derive(Debug)]
pub struct Symbolize(pub Box<Symbolizable>);

/// Anything that stands for a symbol.
#[derive(Debug)]
pub enum Symbolizable {
    Artifact(Artifact),
    Allege(Allege),
    SymbolVar(SymbolVar),
    Ground(Ground),
    Symbolize(Symbolize),
}

/// Anything that a ground symbol can be sought for.
#[derive(Debug)]
pub enum GroundSymbolizable {
    Artifact(Artifact),
    SymbolVar(SymbolVar),
    Ground(Ground),
    GroundPair(GroundPair),
}

/// `left : right` inside a ground statement.
#[derive(Debug)]
pub struct GroundPair {
    pub left: Box<GroundSymbolizable>,
    pub right: Box<GroundSymbolizable>,
    pub position: Position,
}

/// Something outside the store that symbols refer to.
#[derive(Debug)]
pub enum Artifact {
    Agent(Agent),
    Url(Url),
    Text(Text),
    DataNode(DataNode),
    DataRelation(DataRelation),
    ArtifactVar(ArtifactVar),
}

/// `Agent(ident)`: an agent, by its base64 id or as `default`.
#[derive(Debug)]
pub struct Agent {
    pub ident: String,
    pub position: Position,
}

/// `Url("..")`.
#[derive(Debug)]
pub struct Url {
    pub url: String,
    pub position: Position,
}

/// `Text("..")`, or a bare quoted string.
#[derive(Debug)]
pub struct Text {
    pub text: String,
    pub position: Position,
}

/// `DataNode(type; data)`: data of a type, the data optional.
#[derive(Debug)]
pub struct DataNode {
    pub data_type: Box<Symbolizable>,
    pub data: Option<Vec<u8>>,
    pub position: Position,
}

/// `DataRelation(type; from > to)`: a typed relation between two symbols.
#[derive(Debug)]
pub struct DataRelation {
    pub relation_type: Box<Symbolizable>,
    pub from: Box<Symbolizable>,
    pub to: Box<Symbolizable>,
    pub position: Position,
}

/// `open`, then `body`, then `close`, where `wrap` holds; `body` alone otherwise.
pub open spec fn wrapped(wrap: bool, open: Seq<char>, body: Seq<char>, close: Seq<char>) -> Seq<char> {
    if wrap {
        open + body + close
    } else {
        body
    }
}

impl ArtifactVar {
    /// The MBQL text that `write` produces for this node.
    pub open spec fn render(self) -> Seq<char> {
        "@"@ + self.var@
    }

    /// Writes `@name`.
    pub fn write(&self, out: &mut String)
        ensures
            final(out)@ == old(out)@ + self.render(),
    {
        out.append("@");
        out.append(self.var.as_str());
    }
}

impl SymbolVar {
    /// The MBQL text that `write` produces for this node.
    pub open spec fn render(self) -> Seq<char> {
        "$"@ + self.var@
    }

    /// Writes `$name`.
    pub fn write(&self, out: &mut String)
        ensures
            final(out)@ == old(out)@ + self.render(),
    {
        out.append("$");
        out.append(self.var.as_str());
    }

    /// The name of the variable, without its `$`.
    pub fn to_string(&self) -> (r: String)
        ensures
            r@ == self.var@,
    {
        self.var.clone()
    }
}

impl ArtifactStatement {
    /// The MBQL text that `write` produces for this node.
    pub open spec fn render(self) -> Seq<char> {
        self.var.render() + " = "@ + self.artifact.render(true) + "\n"@
    }

    /// Writes the statement on a line of its own, the artifact in its long form.
    pub fn write(&self, out: &mut String)
        ensures
            final(out)@ == old(out)@ + self.render(),
    {
        self.var.write(out);
        out.append(" = ");
        self.artifact.write(out, true);
        out.append("\n");
    }
}

impl SymbolStatement {
    /// The MBQL text that `write` produces for this node.
    pub open spec fn render(self) -> Seq<char> {
        let head = match self.var {
            Some(v) => v.render() + " = "@,
            None => Seq::empty(),
        };
        head + self.symbol.render(true, false) + "\n"@
    }

    /// Writes the statement on a line of its own, the symbol in its long form.
    pub fn write(&self, out: &mut String)
        ensures
            final(out)@ == old(out)@ + self.render(),
    {
        if let Some(var) = &self.var {
            var.write(out);
            out.append(" = ");
        }
        self.symbol.write(out, true, false);
        out.append("\n");
    }
}

impl Ground {
    /// The MBQL text that `write` produces for this node.
    pub open spec fn render(self, verbose: bool) -> Seq<char>
        decreases self,
    {
        if verbose {
            "Ground("@ + self.symbolizable.render(false, false) + ")"@
        } else {
            "{"@ + self.symbolizable.render(false, false) + "}"@
        }
    }

    /// Writes `Ground(..)`, or `{..}` in the short form.
    pub fn write(&self, out: &mut String, verbose: bool)
        ensures
            final(out)@ == old(out)@ + self.render(verbose),
        decreases self,
    {
        if verbose {
            out.append("Ground(");
            self.symbolizable.write(out, false, false);
            out.append(")");
        } else {
            out.append("{");
            self.symbolizable.write(out, false, false);
            out.append("}");
        }
    }
}

impl Allege {
    /// The MBQL text that `write` produces for this node.
    pub open spec fn render(self, verbose: bool, nest: bool) -> Seq<char>
        decreases self,
    {
        let body = self.left.render(false, true) + " : "@ + self.right.render(false, true);
        if verbose {
            "Allege("@ + body + ")"@
        } else {
            wrapped(nest, "("@, body, ")"@)
        }
    }

    /// Writes `Allege(left : right)`, or `left : right`, in parentheses where nested.
    pub fn write(&self, out: &mut String, verbose: bool, nest: bool)
        ensures
            final(out)@ == old(out)@ + self.render(verbose, nest),
        decreases self,
    {
        if verbose {
            out.append("Allege(");
        } else if nest {
            out.append("(");
        }
        self.left.write(out, false, true);
        out.append(" : ");
        self.right.write(out, false, true);
        if verbose {
            out.append(")");
        } else if nest {
            out.append(")");
        }
    }
}

impl Symbolize {
    /// The MBQL text that `write` produces for this node.
    pub open spec fn render(self, verbose: bool) -> Seq<char>
        decreases self,
    {
        wrapped(verbose, "Symbolize("@, self.0.render(false, false), ")"@)
    }

    /// Writes `Symbolize(..)`, or what it holds alone in the short form.
    pub fn write(&self, out: &mut String, verbose: bool)
        ensures
            final(out)@ == old(out)@ + self.render(verbose),
        decreases self,
    {
        if verbose {
            out.append("Symbolize(");
        }
        self.0.write(out, false, false);
        if verbose {
            out.append(")");
        }
    }
}

impl Symbolizable {
    /// The MBQL text that `write` produces for this node.
    pub open spec fn render(self, verbose: bool, nest: bool) -> Seq<char>
        decreases self,
    {
        match self {
            Symbolizable::Artifact(a) => a.render(verbose),
            Symbolizable::Allege(a) => a.render(verbose, nest),
            Symbolizable::SymbolVar(sv) => sv.render(),
            Symbolizable::Ground(g) => g.render(verbose),
            Symbolizable::Symbolize(s) => s.render(verbose),
        }
    }

    /// Writes whichever node this is.
    pub fn write(&self, out: &mut String, verbose: bool, nest: bool)
        ensures
            final(out)@ == old(out)@ + self.render(verbose, nest),
        decreases self,
    {
        match self {
            Symbolizable::Artifact(a) => a.write(out, verbose),
            Symbolizable::Allege(a) => a.write(out, verbose, nest),
            Symbolizable::SymbolVar(sv) => sv.write(out),
            Symbolizable::Ground(g) => g.write(out, verbose),
            Symbolizable::Symbolize(s) => s.write(out, verbose),
        }
    }
}

impl GroundSymbolizable {
    /// The MBQL text that `write` produces for this node.
    pub open spec fn render(self, verbose: bool, nest: bool) -> Seq<char>
        decreases self,
    {
        match self {
            GroundSymbolizable::Artifact(a) => a.render(verbose),
            GroundSymbolizable::GroundPair(p) => p.render(nest),
            GroundSymbolizable::SymbolVar(sv) => sv.render(),
            GroundSymbolizable::Ground(g) => g.render(verbose),
        }
    }

    /// Writes whichever node this is.
    pub fn write(&self, out: &mut String, verbose: bool, nest: bool)
        ensures
            final(out)@ == old(out)@ + self.render(verbose, nest),
        decreases self,
    {
        match self {
            GroundSymbolizable::Artifact(a) => a.write(out, verbose),
            GroundSymbolizable::GroundPair(p) => p.write(out, nest),
            GroundSymbolizable::SymbolVar(sv) => sv.write(out),
            GroundSymbolizable::Ground(g) => g.write(out, verbose),
        }
    }
}

impl GroundPair {
    /// The MBQL text that `write` produces for this node.
    pub open spec fn render(self, nest: bool) -> Seq<char>
        decreases self,
    {
        wrapped(
            nest,
            "("@,
            self.left.render(false, true) + " : "@ + self.right.render(false, true),
            ")"@,
        )
    }

    /// Writes `left : right`, in parentheses where nested.
    pub fn write(&self, out: &mut String, nest: bool)
        ensures
            final(out)@ == old(out)@ + self.render(nest),
        decreases self,
    {
        if nest {
            out.append("(");
        }
        self.left.write(out, false, true);
        out.append(" : ");
        self.right.write(out, false, true);
        if nest {
            out.append(")");
        }
    }
}

impl Artifact {
    /// The MBQL text that `write` produces for this node.
    pub open spec fn render(self, verbose: bool) -> Seq<char>
        decreases self,
    {
        match self {
            Artifact::Agent(agent) => agent.render(),
            Artifact::Url(url) => url.render(),
            Artifact::Text(text) => text.render(verbose),
            Artifact::DataNode(node) => node.render(),
            Artifact::DataRelation(relation) => relation.render(),
            Artifact::ArtifactVar(var) => var.render(),
        }
    }

    /// Writes whichever artifact this is; only text has a long and a short form.
    pub fn write(&self, out: &mut String, verbose: bool)
        ensures
            final(out)@ == old(out)@ + self.render(verbose),
        decreases self,
    {
        match self {
            Artifact::Agent(agent) => agent.write(out),
            Artifact::Url(url) => url.write(out, false),
            Artifact::Text(text) => text.write(out, verbose),
            Artifact::DataNode(node) => node.write(out),
            Artifact::DataRelation(relation) => relation.write(out),
            Artifact::ArtifactVar(var) => var.write(out),
        }
    }
}

impl Agent {
    /// The MBQL text that `write` produces for this node.
    pub open spec fn render(self) -> Seq<char> {
        "Agent("@ + self.ident@ + ")"@
    }

    /// Writes `Agent(ident)`.
    pub fn write(&self, out: &mut String)
        ensures
            final(out)@ == old(out)@ + self.render(),
    {
        out.append("Agent(");
        out.append(self.ident.as_str());
        out.append(")");
    }
}

/// Which agent an `Agent(..)` artifact names.
pub enum AgentIdent {
    /// The store's default agent.
    Default,
    /// The agent with this id.
    Id(AgentId),
}

impl Agent {
    /// Which agent the identifier names: `default` names the store's default agent; any other
    /// identifier is the id of an agent in standard base64 without padding, and names nothing
    /// (`None`) where it does not decode to thirty-two bytes.
    pub fn get_agent_id(&self) -> (r: Option<AgentIdent>)
        ensures
            self.ident@ == "default"@ ==> r matches Some(AgentIdent::Default),
            self.ident@ != "default"@ ==> (r is Some <==> (base64_decoded_no_pad(self.ident@) matches Some(b) && b.len() == 32)),
            self.ident@ != "default"@ && r is Some ==> (r matches Some(AgentIdent::Id(a))
                && base64_decoded_no_pad(self.ident@) == Some(a@)),
    {
        let default = String::from_str("default");
        if self.ident == default {
            return Some(AgentIdent::Default);
        }
        match decode_standard_no_pad(self.ident.as_str()) {
            Some(bytes) => {
                if bytes.len() != 32 {
                    return None;
                }
                let mut id: [u8; 32] = [0u8; 32];
                let mut i: usize = 0;
                while i < 32
                    invariant
                        i <= 32,
                        bytes@.len() == 32,
                        id@.len() == 32,
                        forall|k: int| 0 <= k < i ==> id@[k] == bytes@[k],
                    decreases 32 - i,
                {
                    id[i] = bytes[i];
                    i = i + 1;
                }
                assert(id@ =~= bytes@);
                Some(AgentIdent::Id(AgentId::from_bytes(id)))
            },
            None => None,
        }
    }
}

impl Url {
    /// The MBQL text that `write` produces for this node.
    pub open spec fn render(self) -> Seq<char> {
        "Url(\""@ + escaped(self.url@) + "\")"@
    }

    /// Writes `Url("..")`, with every quote in the url escaped.
    pub fn write(&self, out: &mut String, _verbose: bool)
        ensures
            final(out)@ == old(out)@ + self.render(),
    {
        out.append("Url(\"");
        let e = escape_quotes(self.url.as_str());
        out.append(e.as_str());
        out.append("\")");
    }
}

impl Text {
    /// The MBQL text that `write` produces for this node.
    pub open spec fn render(self, verbose: bool) -> Seq<char> {
        if verbose {
            "Text(\""@ + escaped(self.text@) + "\")"@
        } else {
            "\""@ + escaped(self.text@) + "\""@
        }
    }

    /// Writes the text quoted, with every quote in it escaped; `Text(..)` around it in the
    /// long form.
    pub fn write(&self, out: &mut String, verbose: bool)
        ensures
            final(out)@ == old(out)@ + self.render(verbose),
    {
        let e = escape_quotes(self.text.as_str());
        if verbose {
            out.append("Text(\"");
            out.append(e.as_str());
            out.append("\")");
        } else {
            out.append("\"");
            out.append(e.as_str());
            out.append("\"");
        }
    }
}

impl DataNode {
    /// The MBQL text that `write` produces for this node.
    pub open spec fn render(self) -> Seq<char>
        decreases self,
    {
        let data = match self.data {
            Some(d) => ";"@ + base64_standard(d@),
            None => Seq::empty(),
        };
        "DataNode("@ + self.data_type.render(false, false) + data + ")"@
    }

    /// Writes `DataNode(type)`, or `DataNode(type;data)` with the data in standard base64.
    pub fn write(&self, out: &mut String)
        ensures
            final(out)@ == old(out)@ + self.render(),
        decreases self,
    {
        out.append("DataNode(");
        self.data_type.write(out, false, false);
        if let Some(data) = &self.data {
            out.append(";");
            let enc = encode_standard(data.as_slice());
            out.append(enc.as_str());
        }
        out.append(")");
    }
}

impl DataRelation {
    /// The MBQL text that `write` produces for this node.
    pub open spec fn render(self) -> Seq<char>
        decreases self,
    {
        "DataRelation("@ + self.relation_type.render(false, false) + ";"@ + self.from.render(
            false,
            false,
        ) + " > "@ + self.to.render(false, false) + ")"@
    }

    /// Writes `DataRelation(type;from > to)`.
    pub fn write(&self, out: &mut String)
        ensures
            final(out)@ == old(out)@ + self.render(),
        decreases self,
    {
        out.append("DataRelation(");
        self.relation_type.write(out, false, false);
        out.append(";");
        self.from.write(out, false, false);
        out.append(" > ");
        self.to.write(out, false, false);
        out.append(")");
    }
}

} // verus!
