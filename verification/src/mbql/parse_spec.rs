//! What a parse tree must look like to be read, and what reading it gives.
//!
//! `accepts` says of a node that the reading can take it: the rules and the numbers of
//! children that the grammar guarantees. `parsed_from` says of a syntax tree that it is what
//! the reading makes of a node: every string is the text of the node it comes from, unescaped
//! where the syntax quotes it, and every position is the one the reading was given.
use vstd::prelude::*;

use crate::mbql::ast::{
    Agent, Allege, Artifact, ArtifactStatement, ArtifactVar, DataNode, DataRelation, Ground,
    GroundPair, GroundSymbolizable, Symbolizable, Symbolize, SymbolStatement, SymbolVar, Text, Url,
};
use crate::mbql::error::Position;
use crate::mbql::parse::{ParseNode, Rule};
use crate::mbql::quoting::{escaped, unescaped};
use crate::wrappers::base64_decoded;
use vstd::utf8::encode_utf8;

verus! {

impl ArtifactVar {
    /// Whether `parse` can read the node: the rules and children the reading takes.
    pub open spec fn accepts(n: ParseNode) -> bool {
        n.rule == Rule::artifactvar && n.inner@.len() >= 1
    }

    /// Whether this is what `parse` makes of the node, at the given position.
    pub open spec fn parsed_from(self, n: ParseNode, p: Position) -> bool {
        n.inner@.len() >= 1 && self.var@ == n.inner@[0].text@ && self.position == p
    }
}

impl SymbolVar {
    /// Whether `parse` can read the node: the rules and children the reading takes.
    pub open spec fn accepts(n: ParseNode) -> bool {
        n.rule == Rule::symbolvar && n.inner@.len() >= 1
    }

    /// Whether this is what `parse` makes of the node, at the given position.
    pub open spec fn parsed_from(self, n: ParseNode, p: Position) -> bool {
        n.inner@.len() >= 1 && self.var@ == n.inner@[0].text@ && self.position == p
    }
}

impl Agent {
    /// Whether `parse` can read the node: the rules and children the reading takes.
    pub open spec fn accepts(n: ParseNode) -> bool {
        n.rule == Rule::agent && n.inner@.len() >= 1
    }

    /// Whether this is what `parse` makes of the node, at the given position.
    pub open spec fn parsed_from(self, n: ParseNode, p: Position) -> bool {
        n.inner@.len() >= 1 && self.ident@ == n.inner@[0].text@ && self.position == p
    }
}

impl Url {
    /// Whether `parse` can read the node: the rules and children the reading takes.
    pub open spec fn accepts(n: ParseNode) -> bool {
        n.inner@.len() >= 1
    }

    /// Whether this is what `parse` makes of the node, at the given position.
    pub open spec fn parsed_from(self, n: ParseNode, p: Position) -> bool {
        n.inner@.len() >= 1 && self.url@ == unescaped(n.inner@[0].text@) && self.position == p
    }
}

impl Text {
    /// Whether `parse` can read the node: the rules and children the reading takes.
    pub open spec fn accepts(n: ParseNode) -> bool {
        n.inner@.len() >= 1 && n.inner@[0].inner@.len() >= 1
    }

    /// Whether this is what `parse` makes of the node, at the given position.
    pub open spec fn parsed_from(self, n: ParseNode, p: Position) -> bool {
        Text::accepts(n) && self.text@ == unescaped(n.inner@[0].inner@[0].text@) && self.position == p
    }
}

impl DataNode {
    /// Whether `parse` can read the node: the rules and children the reading takes.
    pub open spec fn accepts(n: ParseNode) -> bool
        decreases n, 0nat,
    {
        &&& n.inner@.len() >= 1
        &&& Symbolizable::accepts(n.inner@[0])
        &&& n.inner@.len() >= 2 ==> {
            ||| n.inner@[1].rule == Rule::base64 && base64_decoded(n.inner@[1].text@) is Some
            ||| n.inner@[1].rule == Rule::quoted_string
        }
    }

    /// Whether this is what `parse` makes of the node, at the given position.
    pub open spec fn parsed_from(self, n: ParseNode, p: Position) -> bool
        decreases n, 0nat,
    {
        &&& n.inner@.len() >= 1
        &&& self.data_type.parsed_from(n.inner@[0], p)
        &&& self.position == p
        &&& if n.inner@.len() >= 2 {
            let d = n.inner@[1];
            if d.rule == Rule::base64 {
                self.data matches Some(v) && base64_decoded(d.text@) == Some(v@)
            } else {
                self.data matches Some(v) && v@ == encode_utf8(unescaped(d.text@))
            }
        } else {
            self.data is None
        }
    }
}

impl DataRelation {
    /// Whether `parse` can read the node: the rules and children the reading takes.
    pub open spec fn accepts(n: ParseNode) -> bool
        decreases n, 0nat,
    {
        &&& n.inner@.len() >= 3
        &&& Symbolizable::accepts(n.inner@[0])
        &&& Symbolizable::accepts(n.inner@[1])
        &&& Symbolizable::accepts(n.inner@[2])
    }

    /// Whether this is what `parse` makes of the node, at the given position.
    pub open spec fn parsed_from(self, n: ParseNode, p: Position) -> bool
        decreases n, 0nat,
    {
        &&& n.inner@.len() >= 3
        &&& self.relation_type.parsed_from(n.inner@[0], p)
        &&& self.from.parsed_from(n.inner@[1], p)
        &&& self.to.parsed_from(n.inner@[2], p)
        &&& self.position == p
    }
}

impl Artifact {
    /// Whether `parse` can read the node: the rules and children the reading takes.
    pub open spec fn accepts(n: ParseNode) -> bool
        decreases n, 0nat,
    {
        &&& n.rule == Rule::artifact
        &&& n.inner@.len() >= 1
        &&& {
            let c = n.inner@[0];
            match c.rule {
                Rule::artifactvar => ArtifactVar::accepts(c),
                Rule::agent => Agent::accepts(c),
                Rule::datanode => DataNode::accepts(c),
                Rule::datarelation => DataRelation::accepts(c),
                Rule::text => Text::accepts(c),
                Rule::url => Url::accepts(c),
                _ => false,
            }
        }
    }

    /// Whether this is what `parse` makes of the node, at the given position.
    pub open spec fn parsed_from(self, n: ParseNode, p: Position) -> bool
        decreases n, 0nat,
    {
        n.inner@.len() >= 1 && {
        let c = n.inner@[0];
        match c.rule {
            Rule::artifactvar => self matches Artifact::ArtifactVar(v) && v.parsed_from(c, p),
            Rule::agent => self matches Artifact::Agent(v) && v.parsed_from(c, p),
            Rule::datanode => self matches Artifact::DataNode(v) && v.parsed_from(c, p),
            Rule::datarelation => self matches Artifact::DataRelation(v) && v.parsed_from(c, p),
            Rule::text => self matches Artifact::Text(v) && v.parsed_from(c, p),
            Rule::url => self matches Artifact::Url(v) && v.parsed_from(c, p),
            _ => false,
        }
        }
    }
}

impl Allege {
    /// Whether `parse` can read the node: the rules and children the reading takes.
    pub open spec fn accepts(n: ParseNode) -> bool
        decreases n, 0nat,
    {
        &&& n.rule == Rule::allege
        &&& n.inner@.len() >= 1
        &&& n.inner@[0].inner@.len() >= 2
        &&& Symbolizable::accepts(n.inner@[0].inner@[0])
        &&& Symbolizable::accepts(n.inner@[0].inner@[1])
    }

    /// Whether this is what `parse` makes of the node, at the given position.
    pub open spec fn parsed_from(self, n: ParseNode, p: Position) -> bool
        decreases n, 0nat,
    {
        &&& n.inner@.len() >= 1
        &&& n.inner@[0].inner@.len() >= 2
        &&& self.left.parsed_from(n.inner@[0].inner@[0], p)
        &&& self.right.parsed_from(n.inner@[0].inner@[1], p)
    }
}

impl Symbolize {
    /// Whether `parse` can read the node: the rules and children the reading takes.
    pub open spec fn accepts(n: ParseNode) -> bool
        decreases n, 0nat,
    {
        n.rule == Rule::symbolize && n.inner@.len() >= 1 && Symbolizable::accepts(n.inner@[0])
    }

    /// Whether this is what `parse` makes of the node, at the given position.
    pub open spec fn parsed_from(self, n: ParseNode, p: Position) -> bool
        decreases n, 0nat,
    {
        n.inner@.len() >= 1 && self.0.parsed_from(n.inner@[0], p)
    }
}

impl Ground {
    /// Whether `parse` can read the node: the rules and children the reading takes.
    pub open spec fn accepts(n: ParseNode) -> bool
        decreases n, 0nat,
    {
        n.rule == Rule::ground && n.inner@.len() >= 1 && GroundSymbolizable::accepts(n.inner@[0])
    }

    /// Whether this is what `parse` makes of the node, at the given position.
    pub open spec fn parsed_from(self, n: ParseNode, p: Position) -> bool
        decreases n, 0nat,
    {
        n.inner@.len() >= 1 && self.symbolizable.parsed_from(n.inner@[0], p) && self.position == p
    }
}

impl Symbolizable {
    /// A `symbol_pair` node with two readable sides.
    pub open spec fn accepts_pair(n: ParseNode) -> bool
        decreases n, 1nat,
    {
        n.inner@.len() >= 2 && Symbolizable::accepts(n.inner@[0]) && Symbolizable::accepts(
            n.inner@[1],
        )
    }

    /// Whether `parse` can read the node: the rules and children the reading takes.
    pub open spec fn accepts(n: ParseNode) -> bool
        decreases n, 2nat,
    {
        match n.rule {
            Rule::symbol_pair => Symbolizable::accepts_pair(n),
            Rule::symbolizable => n.inner@.len() >= 1 && {
                let e = n.inner@[0];
                match e.rule {
                    Rule::artifact => Artifact::accepts(e),
                    Rule::symbolvar => SymbolVar::accepts(e),
                    Rule::ground => Ground::accepts(e),
                    Rule::symbolize => Symbolize::accepts(e),
                    Rule::allege => Allege::accepts(e),
                    Rule::symbol_pair => Symbolizable::accepts_pair(e),
                    _ => false,
                }
            },
            _ => false,
        }
    }

    /// What a `symbol_pair` node reads as: an allegation between its two sides.
    pub open spec fn parsed_from_pair(self, n: ParseNode, p: Position) -> bool
        decreases n, 1nat,
    {
        n.inner@.len() >= 2 && (self matches Symbolizable::Allege(a) && a.left.parsed_from(n.inner@[0], p)
            && a.right.parsed_from(n.inner@[1], p))
    }

    /// Whether this is what `parse` makes of the node, at the given position.
    pub open spec fn parsed_from(self, n: ParseNode, p: Position) -> bool
        decreases n, 2nat,
    {
        match n.rule {
            Rule::symbol_pair => self.parsed_from_pair(n, p),
            Rule::symbolizable => n.inner@.len() >= 1 && {
                let e = n.inner@[0];
                match e.rule {
                    Rule::artifact => self matches Symbolizable::Artifact(v) && v.parsed_from(e, p),
                    Rule::symbolvar => self matches Symbolizable::SymbolVar(v) && v.parsed_from(e, p),
                    Rule::ground => self matches Symbolizable::Ground(v) && v.parsed_from(e, p),
                    Rule::symbolize => self matches Symbolizable::Symbolize(v) && v.parsed_from(e, p),
                    Rule::allege => self matches Symbolizable::Allege(v) && v.parsed_from(e, p),
                    Rule::symbol_pair => self.parsed_from_pair(e, p),
                    _ => false,
                }
            },
            _ => false,
        }
    }
}

impl GroundSymbolizable {
    /// A `ground_symbol_pair` node with two readable sides.
    pub open spec fn accepts_pair(n: ParseNode) -> bool
        decreases n, 1nat,
    {
        n.inner@.len() >= 2 && GroundSymbolizable::accepts(n.inner@[0])
            && GroundSymbolizable::accepts(n.inner@[1])
    }

    /// Whether `parse` can read the node: the rules and children the reading takes.
    pub open spec fn accepts(n: ParseNode) -> bool
        decreases n, 2nat,
    {
        match n.rule {
            Rule::ground_symbol_pair => GroundSymbolizable::accepts_pair(n),
            Rule::ground_symbolizable => n.inner@.len() >= 1 && {
                let e = n.inner@[0];
                match e.rule {
                    Rule::artifact => Artifact::accepts(e),
                    Rule::symbolvar => SymbolVar::accepts(e),
                    Rule::ground => Ground::accepts(e),
                    Rule::ground_symbol_pair => GroundSymbolizable::accepts_pair(e),
                    _ => false,
                }
            },
            _ => false,
        }
    }

    /// What a `ground_symbol_pair` node reads as: a ground pair of its two sides.
    pub open spec fn parsed_from_pair(self, n: ParseNode, p: Position) -> bool
        decreases n, 1nat,
    {
        n.inner@.len() >= 2 && (self matches GroundSymbolizable::GroundPair(g) && g.left.parsed_from(n.inner@[0], p)
            && g.right.parsed_from(n.inner@[1], p) && g.position == p)
    }

    /// Whether this is what `parse` makes of the node, at the given position.
    pub open spec fn parsed_from(self, n: ParseNode, p: Position) -> bool
        decreases n, 2nat,
    {
        match n.rule {
            Rule::ground_symbol_pair => self.parsed_from_pair(n, p),
            Rule::ground_symbolizable => n.inner@.len() >= 1 && {
                let e = n.inner@[0];
                match e.rule {
                    Rule::artifact => self matches GroundSymbolizable::Artifact(v) && v.parsed_from(e, p),
                    Rule::symbolvar => self matches GroundSymbolizable::SymbolVar(v) && v.parsed_from(e, p),
                    Rule::ground => self matches GroundSymbolizable::Ground(v) && v.parsed_from(e, p),
                    Rule::ground_symbol_pair => self.parsed_from_pair(e, p),
                    _ => false,
                }
            },
            _ => false,
        }
    }
}

impl GroundPair {
    /// Whether `parse` can read the node: the rules and children the reading takes.
    pub open spec fn accepts(n: ParseNode) -> bool {
        &&& n.rule == Rule::allege
        &&& n.inner@.len() >= 1
        &&& n.inner@[0].inner@.len() >= 2
        &&& GroundSymbolizable::accepts(n.inner@[0].inner@[0])
        &&& GroundSymbolizable::accepts(n.inner@[0].inner@[1])
    }

    /// Whether this is what `parse` makes of the node, at the given position.
    pub open spec fn parsed_from(self, n: ParseNode, p: Position) -> bool {
        &&& n.inner@.len() >= 1
        &&& n.inner@[0].inner@.len() >= 2
        &&& self.left.parsed_from(n.inner@[0].inner@[0], p)
        &&& self.right.parsed_from(n.inner@[0].inner@[1], p)
        &&& self.position == p
    }
}

impl ArtifactStatement {
    /// Whether `parse` can read the node: the rules and children the reading takes.
    pub open spec fn accepts(n: ParseNode) -> bool {
        &&& n.rule == Rule::artifactstatement
        &&& n.inner@.len() >= 2
        &&& ArtifactVar::accepts(n.inner@[0])
        &&& Artifact::accepts(n.inner@[1])
    }

    /// Whether this is what `parse` makes of the node, at the given position.
    pub open spec fn parsed_from(self, n: ParseNode, p: Position) -> bool {
        &&& n.inner@.len() >= 2
        &&& self.var.parsed_from(n.inner@[0], p)
        &&& self.artifact.parsed_from(n.inner@[1], p)
        &&& self.position == p
    }
}

impl SymbolStatement {
    /// The body of a symbol statement: an allegation, a ground or a symbolize.
    pub open spec fn accepts_body(b: ParseNode) -> bool {
        match b.rule {
            Rule::allege => Allege::accepts(b),
            Rule::ground => Ground::accepts(b),
            Rule::symbolize => Symbolize::accepts(b),
            _ => false,
        }
    }

    pub open spec fn body_parsed_from(s: Symbolizable, b: ParseNode, p: Position) -> bool {
        match b.rule {
            Rule::allege => s matches Symbolizable::Allege(v) && v.parsed_from(b, p),
            Rule::ground => s matches Symbolizable::Ground(v) && v.parsed_from(b, p),
            Rule::symbolize => s matches Symbolizable::Symbolize(v) && v.parsed_from(b, p),
            _ => false,
        }
    }

    /// Whether `parse` can read the node: the rules and children the reading takes.
    pub open spec fn accepts(n: ParseNode) -> bool {
        &&& n.rule == Rule::symbolstatement
        &&& n.inner@.len() >= 1
        &&& if n.inner@[0].rule == Rule::symbolvar {
            SymbolVar::accepts(n.inner@[0]) && n.inner@.len() >= 2 && SymbolStatement::accepts_body(
                n.inner@[1],
            )
        } else {
            SymbolStatement::accepts_body(n.inner@[0])
        }
    }

    /// Whether this is what `parse` makes of the node, at the given position.
    pub open spec fn parsed_from(self, n: ParseNode, p: Position) -> bool {
        n.inner@.len() >= 1 && if n.inner@[0].rule == Rule::symbolvar {
            n.inner@.len() >= 2 && {
            &&& self.var matches Some(v) && v.parsed_from(n.inner@[0], p)
            &&& SymbolStatement::body_parsed_from(self.symbol, n.inner@[1], p)
            }
        } else {
            &&& self.var is None
            &&& SymbolStatement::body_parsed_from(self.symbol, n.inner@[0], p)
        }
    }
}

/// An escaped string never begins with a bare quote.
proof fn lemma_escaped_head(s: Seq<char>)
    requires
        s.len() > 0,
    ensures
        escaped(s).len() > 0,
        escaped(s)[0] != '"',
{
}

/// What a writer quotes, a reader gets back: unescaping an escaped string gives the string.
/// So a url or text written by `write` and read by `parse` keeps its characters.
pub proof fn lemma_unescape_escaped(s: Seq<char>)
    ensures
        unescaped(escaped(s)) == s,
    decreases s.len(),
{
    if s.len() == 0 {
        assert(escaped(s) =~= Seq::<char>::empty());
    } else {
        let rest = s.drop_first();
        lemma_unescape_escaped(rest);
        let er = escaped(rest);
        if s[0] == '"' {
            let e = seq!['\\', '"'] + er;
            assert(escaped(s) == e);
            assert(e.skip(2) =~= er);
            assert(unescaped(e) == seq!['"'] + unescaped(er));
        } else {
            let e = seq![s[0]] + er;
            assert(escaped(s) == e);
            assert(e.drop_first() =~= er);
            if rest.len() > 0 {
                lemma_escaped_head(rest);
            }
            assert(unescaped(e) == seq![s[0]] + unescaped(er));
        }
        assert(s =~= seq![s[0]] + rest);
    }
}


/// Every alternative of the grammar's `symbolizable` rule is readable: a `symbolizable` node
/// whose child is a symbol variable, an artifact, a ground, a symbolize, an allegation or a
/// symbol pair that can be read is itself accepted, and reads as that kind of symbolizable.
/// A symbol variable reads as itself, with its name and the position given.
pub proof fn lemma_symbolizable_alternatives(n: ParseNode, p: Position)
    requires
        n.rule == Rule::symbolizable,
        n.inner@.len() >= 1,
    ensures
        n.inner@[0].rule == Rule::symbolvar && n.inner@[0].inner@.len() >= 1 ==> {
            &&& Symbolizable::accepts(n)
            &&& forall|s: Symbolizable| #[trigger] s.parsed_from(n, p) ==> (s matches Symbolizable::SymbolVar(v)
                && v.var@ == n.inner@[0].inner@[0].text@ && v.position == p)
        },
        Artifact::accepts(n.inner@[0]) ==> Symbolizable::accepts(n) && forall|s: Symbolizable|
            #[trigger] s.parsed_from(n, p) ==> s is Artifact,
        Ground::accepts(n.inner@[0]) ==> Symbolizable::accepts(n) && forall|s: Symbolizable|
            #[trigger] s.parsed_from(n, p) ==> s is Ground,
        Symbolize::accepts(n.inner@[0]) ==> Symbolizable::accepts(n) && forall|s: Symbolizable|
            #[trigger] s.parsed_from(n, p) ==> s is Symbolize,
        Allege::accepts(n.inner@[0]) ==> Symbolizable::accepts(n) && forall|s: Symbolizable|
            #[trigger] s.parsed_from(n, p) ==> s is Allege,
        n.inner@[0].rule == Rule::symbol_pair && Symbolizable::accepts_pair(n.inner@[0])
            ==> Symbolizable::accepts(n) && forall|s: Symbolizable| #[trigger] s.parsed_from(n, p) ==> s is Allege,
{
}

/// A `symbolizable` node that holds just a symbol variable.
pub open spec fn is_variable_side(side: ParseNode) -> bool {
    &&& side.rule == Rule::symbolizable
    &&& side.inner@.len() >= 1
    &&& side.inner@[0].rule == Rule::symbolvar
    &&& side.inner@[0].inner@.len() >= 1
}

/// An allegation between two symbol variables, bound to a variable (`$c = Allege($a : $b)`),
/// is a readable symbol statement: it reads as that variable, bound to an allegation whose
/// sides are the two symbol variables, named as written.
pub proof fn lemma_allegation_of_variables_is_read(st: ParseNode, p: Position)
    requires
        st.rule == Rule::symbolstatement,
        st.inner@.len() >= 2,
        st.inner@[0].rule == Rule::symbolvar,
        st.inner@[0].inner@.len() >= 1,
        st.inner@[1].rule == Rule::allege,
        st.inner@[1].inner@.len() >= 1,
        st.inner@[1].inner@[0].rule == Rule::symbol_pair,
        st.inner@[1].inner@[0].inner@.len() >= 2,
        is_variable_side(st.inner@[1].inner@[0].inner@[0]),
        is_variable_side(st.inner@[1].inner@[0].inner@[1]),
    ensures
        SymbolStatement::accepts(st),
        forall|ss: SymbolStatement| #[trigger] ss.parsed_from(st, p) ==> {
            &&& ss.var matches Some(v) && v.var@ == st.inner@[0].inner@[0].text@
            &&& ss.symbol matches Symbolizable::Allege(al) && {
                &&& *al.left matches Symbolizable::SymbolVar(a)
                    && a.var@ == st.inner@[1].inner@[0].inner@[0].inner@[0].inner@[0].text@
                &&& *al.right matches Symbolizable::SymbolVar(b)
                    && b.var@ == st.inner@[1].inner@[0].inner@[1].inner@[0].inner@[0].text@
            }
        },
{
    let pair = st.inner@[1].inner@[0];
    lemma_symbolizable_alternatives(pair.inner@[0], p);
    lemma_symbolizable_alternatives(pair.inner@[1], p);
}

} // verus!
