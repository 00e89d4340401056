//! The canonical MBQL spelling of a parse tree, and the law that writing what a tree reads as
//! gives that spelling back.
//!
//! Canonical MBQL puts `$name = ` before a bound statement, writes the statement's body in its
//! long form (`Allege(..)`, `Ground(..)`, `Symbolize(..)`), puts parentheses around nested
//! pairs, single spaces around `:`, quotes text, and gives data in standard base64. Its quoted
//! strings escape every quote they hold.
use vstd::prelude::*;

use crate::mbql::ast::{
    wrapped, Agent, Allege, Artifact, ArtifactStatement, ArtifactVar, DataNode, DataRelation,
    Ground, GroundSymbolizable, Symbolizable, Symbolize, SymbolStatement, SymbolVar, Text, Url,
};
use crate::mbql::parse::{ParseNode, Rule};
use crate::mbql::quoting::{escaped, unescaped};
use crate::wrappers::{base64_decoded, base64_standard};
use vstd::utf8::encode_utf8;

verus! {

/// Every quote in `s` is escaped: it follows a backslash that does not itself close an
/// escape.
pub open spec fn quotes_escaped(s: Seq<char>) -> bool
    decreases s.len(),
{
    if s.len() == 0 {
        true
    } else if s.len() >= 2 && s[0] == '\\' && s[1] == '"' {
        quotes_escaped(s.skip(2))
    } else {
        s[0] != '"' && quotes_escaped(s.drop_first())
    }
}

/// The quoted strings of a tree (the bodies of its urls and texts) escape their quotes.
pub open spec fn quoted_strings_escaped(n: ParseNode) -> bool
    decreases n,
{
    &&& (n.rule == Rule::url && n.inner@.len() >= 1) ==> quotes_escaped(n.inner@[0].text@)
    &&& (n.rule == Rule::text && n.inner@.len() >= 1 && n.inner@[0].inner@.len() >= 1)
        ==> quotes_escaped(n.inner@[0].inner@[0].text@)
    &&& forall|i: int| 0 <= i < n.inner@.len() ==> quoted_strings_escaped(#[trigger] n.inner@[i])
}

/// An escaped string escapes again to itself once unescaped.
pub proof fn lemma_escape_unescaped(s: Seq<char>)
    requires
        quotes_escaped(s),
    ensures
        escaped(unescaped(s)) == s,
    decreases s.len(),
{
    if s.len() == 0 {
        assert(unescaped(s) =~= Seq::<char>::empty());
        assert(escaped(Seq::<char>::empty()) =~= Seq::<char>::empty());
    } else if s.len() >= 2 && s[0] == '\\' && s[1] == '"' {
        let rest = s.skip(2);
        lemma_escape_unescaped(rest);
        let u = seq!['"'] + unescaped(rest);
        assert(unescaped(s) == u);
        assert(u[0] == '"');
        assert(u.drop_first() =~= unescaped(rest));
        assert(escaped(u) == seq!['\\', '"'] + escaped(unescaped(rest)));
        assert(s =~= seq!['\\', '"'] + rest);
    } else {
        let rest = s.drop_first();
        lemma_escape_unescaped(rest);
        let u = seq![s[0]] + unescaped(rest);
        assert(unescaped(s) == u);
        assert(u[0] == s[0]);
        assert(u.drop_first() =~= unescaped(rest));
        assert(escaped(u) == seq![s[0]] + escaped(unescaped(rest)));
        assert(s =~= seq![s[0]] + rest);
    }
}

impl ArtifactVar {
    /// The canonical spelling of an `artifactvar` node.
    pub open spec fn spelled(n: ParseNode) -> Seq<char> {
        "@"@ + n.inner@[0].text@
    }
}

impl SymbolVar {
    /// The canonical spelling of a `symbolvar` node.
    pub open spec fn spelled(n: ParseNode) -> Seq<char> {
        "$"@ + n.inner@[0].text@
    }
}

impl Agent {
    /// The canonical spelling of an `agent` node.
    pub open spec fn spelled(n: ParseNode) -> Seq<char> {
        "Agent("@ + n.inner@[0].text@ + ")"@
    }
}

impl Url {
    /// The canonical spelling of a `url` node.
    pub open spec fn spelled(n: ParseNode) -> Seq<char> {
        "Url(\""@ + n.inner@[0].text@ + "\")"@
    }
}

impl Text {
    /// The canonical spelling of a `text` node, long or short.
    pub open spec fn spelled(n: ParseNode, verbose: bool) -> Seq<char> {
        let body = n.inner@[0].inner@[0].text@;
        if verbose {
            "Text(\""@ + body + "\")"@
        } else {
            "\""@ + body + "\""@
        }
    }
}

impl DataNode {
    /// The canonical spelling of a `datanode` node: its data in standard base64.
    pub open spec fn spelled(n: ParseNode) -> Seq<char>
        decreases n, 0nat,
    {
        let data = if n.inner@.len() >= 2 {
            let d = n.inner@[1];
            if d.rule == Rule::base64 {
                ";"@ + base64_standard(base64_decoded(d.text@).unwrap())
            } else {
                ";"@ + base64_standard(encode_utf8(unescaped(d.text@)))
            }
        } else {
            Seq::empty()
        };
        if n.inner@.len() >= 1 {
            "DataNode("@ + Symbolizable::spelled(n.inner@[0], false, false) + data + ")"@
        } else {
            Seq::empty()
        }
    }
}

impl DataRelation {
    /// The canonical spelling of a `datarelation` node.
    pub open spec fn spelled(n: ParseNode) -> Seq<char>
        decreases n, 0nat,
    {
        if n.inner@.len() >= 3 {
            "DataRelation("@ + Symbolizable::spelled(n.inner@[0], false, false) + ";"@
                + Symbolizable::spelled(n.inner@[1], false, false) + " > "@ + Symbolizable::spelled(
                n.inner@[2],
                false,
                false,
            ) + ")"@
        } else {
            Seq::empty()
        }
    }
}

impl Artifact {
    /// The canonical spelling of an `artifact` node, by the rule of its child.
    pub open spec fn spelled(n: ParseNode, verbose: bool) -> Seq<char>
        decreases n, 0nat,
    {
        if n.inner@.len() >= 1 {
            let c = n.inner@[0];
            match c.rule {
                Rule::artifactvar => ArtifactVar::spelled(c),
                Rule::agent => Agent::spelled(c),
                Rule::datanode => DataNode::spelled(c),
                Rule::datarelation => DataRelation::spelled(c),
                Rule::text => Text::spelled(c, verbose),
                _ => Url::spelled(c),
            }
        } else {
            Seq::empty()
        }
    }
}

impl Allege {
    /// The canonical spelling of an `allege` node.
    pub open spec fn spelled(n: ParseNode, verbose: bool, nest: bool) -> Seq<char>
        decreases n, 0nat,
    {
        if n.inner@.len() >= 1 && n.inner@[0].inner@.len() >= 2 {
            let body = Symbolizable::spelled(n.inner@[0].inner@[0], false, true) + " : "@
                + Symbolizable::spelled(n.inner@[0].inner@[1], false, true);
            if verbose {
                "Allege("@ + body + ")"@
            } else {
                wrapped(nest, "("@, body, ")"@)
            }
        } else {
            Seq::empty()
        }
    }
}

impl Symbolize {
    /// The canonical spelling of a `symbolize` node.
    pub open spec fn spelled(n: ParseNode, verbose: bool) -> Seq<char>
        decreases n, 0nat,
    {
        if n.inner@.len() >= 1 {
            wrapped(verbose, "Symbolize("@, Symbolizable::spelled(n.inner@[0], false, false), ")"@)
        } else {
            Seq::empty()
        }
    }
}

impl Ground {
    /// The canonical spelling of a `ground` node.
    pub open spec fn spelled(n: ParseNode, verbose: bool) -> Seq<char>
        decreases n, 0nat,
    {
        if n.inner@.len() >= 1 {
            let inner = GroundSymbolizable::spelled(n.inner@[0], false, false);
            if verbose {
                "Ground("@ + inner + ")"@
            } else {
                "{"@ + inner + "}"@
            }
        } else {
            Seq::empty()
        }
    }
}

impl Symbolizable {
    /// The canonical spelling of a `symbol_pair` node: an allegation of its two sides.
    pub open spec fn spelled_pair(n: ParseNode, verbose: bool, nest: bool) -> Seq<char>
        decreases n, 1nat,
    {
        if n.inner@.len() >= 2 {
            let body = Symbolizable::spelled(n.inner@[0], false, true) + " : "@
                + Symbolizable::spelled(n.inner@[1], false, true);
            if verbose {
                "Allege("@ + body + ")"@
            } else {
                wrapped(nest, "("@, body, ")"@)
            }
        } else {
            Seq::empty()
        }
    }

    /// The canonical spelling of a `symbol_pair` or `symbolizable` node.
    pub open spec fn spelled(n: ParseNode, verbose: bool, nest: bool) -> Seq<char>
        decreases n, 2nat,
    {
        match n.rule {
            Rule::symbol_pair => Symbolizable::spelled_pair(n, verbose, nest),
            _ => if n.inner@.len() >= 1 {
                let e = n.inner@[0];
                match e.rule {
                    Rule::artifact => Artifact::spelled(e, verbose),
                    Rule::symbolvar => SymbolVar::spelled(e),
                    Rule::ground => Ground::spelled(e, verbose),
                    Rule::symbolize => Symbolize::spelled(e, verbose),
                    Rule::allege => Allege::spelled(e, verbose, nest),
                    _ => Symbolizable::spelled_pair(e, verbose, nest),
                }
            } else {
                Seq::empty()
            },
        }
    }
}

impl GroundSymbolizable {
    /// The canonical spelling of a `ground_symbol_pair` node.
    pub open spec fn spelled_pair(n: ParseNode, nest: bool) -> Seq<char>
        decreases n, 1nat,
    {
        if n.inner@.len() >= 2 {
            wrapped(
                nest,
                "("@,
                GroundSymbolizable::spelled(n.inner@[0], false, true) + " : "@
                    + GroundSymbolizable::spelled(n.inner@[1], false, true),
                ")"@,
            )
        } else {
            Seq::empty()
        }
    }

    /// The canonical spelling of a `ground_symbol_pair` or `ground_symbolizable` node.
    pub open spec fn spelled(n: ParseNode, verbose: bool, nest: bool) -> Seq<char>
        decreases n, 2nat,
    {
        match n.rule {
            Rule::ground_symbol_pair => GroundSymbolizable::spelled_pair(n, nest),
            _ => if n.inner@.len() >= 1 {
                let e = n.inner@[0];
                match e.rule {
                    Rule::artifact => Artifact::spelled(e, verbose),
                    Rule::symbolvar => SymbolVar::spelled(e),
                    Rule::ground => Ground::spelled(e, verbose),
                    _ => GroundSymbolizable::spelled_pair(e, nest),
                }
            } else {
                Seq::empty()
            },
        }
    }
}

impl SymbolStatement {
    /// The canonical spelling of the body of a symbol statement, in its long form.
    pub open spec fn spelled_body(b: ParseNode) -> Seq<char> {
        match b.rule {
            Rule::allege => Allege::spelled(b, true, false),
            Rule::ground => Ground::spelled(b, true),
            _ => Symbolize::spelled(b, true),
        }
    }

    /// The canonical spelling of a `symbolstatement` node, without a line end.
    pub open spec fn spelled(n: ParseNode) -> Seq<char> {
        if n.inner@.len() >= 2 && n.inner@[0].rule == Rule::symbolvar {
            SymbolVar::spelled(n.inner@[0]) + " = "@ + SymbolStatement::spelled_body(n.inner@[1])
        } else if n.inner@.len() >= 1 {
            SymbolStatement::spelled_body(n.inner@[0])
        } else {
            Seq::empty()
        }
    }
}

impl ArtifactStatement {
    /// The canonical spelling of an `artifactstatement` node, without a line end.
    pub open spec fn spelled(n: ParseNode) -> Seq<char> {
        if n.inner@.len() >= 2 {
            ArtifactVar::spelled(n.inner@[0]) + " = "@ + Artifact::spelled(n.inner@[1], true)
        } else {
            Seq::empty()
        }
    }
}

proof fn lemma_child_escaped(n: ParseNode, i: int)
    requires
        quoted_strings_escaped(n),
        0 <= i < n.inner@.len(),
    ensures
        quoted_strings_escaped(n.inner@[i]),
{
}

proof fn lemma_artifact_spelled(a: Artifact, n: ParseNode, p: crate::mbql::error::Position, verbose: bool)
    requires
        Artifact::accepts(n),
        a.parsed_from(n, p),
        quoted_strings_escaped(n),
    ensures
        a.render(verbose) == Artifact::spelled(n, verbose),
    decreases n, 0nat,
{
    let c = n.inner@[0];
    lemma_child_escaped(n, 0);
    match a {
        Artifact::DataNode(v) => {
            lemma_data_node_spelled(v, c, p);
        },
        Artifact::DataRelation(v) => {
            lemma_data_relation_spelled(v, c, p);
        },
        Artifact::Text(v) => {
            lemma_escape_unescaped(c.inner@[0].inner@[0].text@);
        },
        Artifact::Url(v) => {
            lemma_escape_unescaped(c.inner@[0].text@);
        },
        _ => {},
    }
}

proof fn lemma_data_node_spelled(d: DataNode, n: ParseNode, p: crate::mbql::error::Position)
    requires
        DataNode::accepts(n),
        d.parsed_from(n, p),
        quoted_strings_escaped(n),
    ensures
        d.render() == DataNode::spelled(n),
    decreases n, 0nat,
{
    lemma_child_escaped(n, 0);
    lemma_symbolizable_spelled(*d.data_type, n.inner@[0], p, false, false);
}

proof fn lemma_data_relation_spelled(d: DataRelation, n: ParseNode, p: crate::mbql::error::Position)
    requires
        DataRelation::accepts(n),
        d.parsed_from(n, p),
        quoted_strings_escaped(n),
    ensures
        d.render() == DataRelation::spelled(n),
    decreases n, 0nat,
{
    lemma_child_escaped(n, 0);
    lemma_child_escaped(n, 1);
    lemma_child_escaped(n, 2);
    lemma_symbolizable_spelled(*d.relation_type, n.inner@[0], p, false, false);
    lemma_symbolizable_spelled(*d.from, n.inner@[1], p, false, false);
    lemma_symbolizable_spelled(*d.to, n.inner@[2], p, false, false);
}

proof fn lemma_allege_spelled(a: Allege, n: ParseNode, p: crate::mbql::error::Position, verbose: bool, nest: bool)
    requires
        Allege::accepts(n),
        a.parsed_from(n, p),
        quoted_strings_escaped(n),
    ensures
        a.render(verbose, nest) == Allege::spelled(n, verbose, nest),
    decreases n, 0nat,
{
    lemma_child_escaped(n, 0);
    let c = n.inner@[0];
    lemma_child_escaped(c, 0);
    lemma_child_escaped(c, 1);
    lemma_symbolizable_spelled(*a.left, c.inner@[0], p, false, true);
    lemma_symbolizable_spelled(*a.right, c.inner@[1], p, false, true);
}

proof fn lemma_symbolize_spelled(s: Symbolize, n: ParseNode, p: crate::mbql::error::Position, verbose: bool)
    requires
        Symbolize::accepts(n),
        s.parsed_from(n, p),
        quoted_strings_escaped(n),
    ensures
        s.render(verbose) == Symbolize::spelled(n, verbose),
    decreases n, 0nat,
{
    lemma_child_escaped(n, 0);
    lemma_symbolizable_spelled(*s.0, n.inner@[0], p, false, false);
}

proof fn lemma_ground_spelled(g: Ground, n: ParseNode, p: crate::mbql::error::Position, verbose: bool)
    requires
        Ground::accepts(n),
        g.parsed_from(n, p),
        quoted_strings_escaped(n),
    ensures
        g.render(verbose) == Ground::spelled(n, verbose),
    decreases n, 0nat,
{
    lemma_child_escaped(n, 0);
    lemma_ground_symbolizable_spelled(*g.symbolizable, n.inner@[0], p, false, false);
}

proof fn lemma_symbolizable_pair_spelled(s: Symbolizable, n: ParseNode, p: crate::mbql::error::Position, verbose: bool, nest: bool)
    requires
        Symbolizable::accepts_pair(n),
        s.parsed_from_pair(n, p),
        quoted_strings_escaped(n),
    ensures
        s.render(verbose, nest) == Symbolizable::spelled_pair(n, verbose, nest),
    decreases n, 1nat,
{
    lemma_child_escaped(n, 0);
    lemma_child_escaped(n, 1);
    match s {
        Symbolizable::Allege(a) => {
            lemma_symbolizable_spelled(*a.left, n.inner@[0], p, false, true);
            lemma_symbolizable_spelled(*a.right, n.inner@[1], p, false, true);
        },
        _ => {},
    }
}

proof fn lemma_symbolizable_spelled(s: Symbolizable, n: ParseNode, p: crate::mbql::error::Position, verbose: bool, nest: bool)
    requires
        Symbolizable::accepts(n),
        s.parsed_from(n, p),
        quoted_strings_escaped(n),
    ensures
        s.render(verbose, nest) == Symbolizable::spelled(n, verbose, nest),
    decreases n, 2nat,
{
    if n.rule == Rule::symbol_pair {
        lemma_symbolizable_pair_spelled(s, n, p, verbose, nest);
    } else {
        let e = n.inner@[0];
        lemma_child_escaped(n, 0);
        if e.rule == Rule::symbol_pair {
            lemma_symbolizable_pair_spelled(s, e, p, verbose, nest);
        } else {
            match s {
                Symbolizable::Artifact(v) => lemma_artifact_spelled(v, e, p, verbose),
                Symbolizable::Ground(v) => lemma_ground_spelled(v, e, p, verbose),
                Symbolizable::Symbolize(v) => lemma_symbolize_spelled(v, e, p, verbose),
                Symbolizable::Allege(v) => lemma_allege_spelled(v, e, p, verbose, nest),
                _ => {},
            }
        }
    }
}

proof fn lemma_ground_symbolizable_pair_spelled(g: GroundSymbolizable, n: ParseNode, p: crate::mbql::error::Position, verbose: bool, nest: bool)
    requires
        GroundSymbolizable::accepts_pair(n),
        g.parsed_from_pair(n, p),
        quoted_strings_escaped(n),
    ensures
        g.render(verbose, nest) == GroundSymbolizable::spelled_pair(n, nest),
    decreases n, 1nat,
{
    lemma_child_escaped(n, 0);
    lemma_child_escaped(n, 1);
    match g {
        GroundSymbolizable::GroundPair(q) => {
            lemma_ground_symbolizable_spelled(*q.left, n.inner@[0], p, false, true);
            lemma_ground_symbolizable_spelled(*q.right, n.inner@[1], p, false, true);
        },
        _ => {},
    }
}

proof fn lemma_ground_symbolizable_spelled(g: GroundSymbolizable, n: ParseNode, p: crate::mbql::error::Position, verbose: bool, nest: bool)
    requires
        GroundSymbolizable::accepts(n),
        g.parsed_from(n, p),
        quoted_strings_escaped(n),
    ensures
        g.render(verbose, nest) == GroundSymbolizable::spelled(n, verbose, nest),
    decreases n, 2nat,
{
    if n.rule == Rule::ground_symbol_pair {
        lemma_ground_symbolizable_pair_spelled(g, n, p, verbose, nest);
    } else {
        let e = n.inner@[0];
        lemma_child_escaped(n, 0);
        if e.rule == Rule::ground_symbol_pair {
            lemma_ground_symbolizable_pair_spelled(g, e, p, verbose, nest);
        } else {
            match g {
                GroundSymbolizable::Artifact(v) => lemma_artifact_spelled(v, e, p, verbose),
                GroundSymbolizable::Ground(v) => lemma_ground_spelled(v, e, p, verbose),
                _ => {},
            }
        }
    }
}

/// Writing what a symbol statement reads as gives its canonical spelling and a line end; so on
/// canonical MBQL text (a tree whose text is its canonical spelling), `write` gives back the
/// text that `parse` read.
pub proof fn lemma_symbol_statement_round_trip(st: SymbolStatement, n: ParseNode, p: crate::mbql::error::Position)
    requires
        SymbolStatement::accepts(n),
        st.parsed_from(n, p),
        quoted_strings_escaped(n),
    ensures
        st.render() == SymbolStatement::spelled(n) + "\n"@,
        n.text@ == SymbolStatement::spelled(n) ==> st.render() == n.text@ + "\n"@,
{
    let b = if n.inner@[0].rule == Rule::symbolvar { n.inner@[1] } else { n.inner@[0] };
    if n.inner@[0].rule == Rule::symbolvar {
        lemma_child_escaped(n, 1);
    } else {
        lemma_child_escaped(n, 0);
    }
    match st.symbol {
        Symbolizable::Allege(v) => lemma_allege_spelled(v, b, p, true, false),
        Symbolizable::Ground(v) => lemma_ground_spelled(v, b, p, true),
        Symbolizable::Symbolize(v) => lemma_symbolize_spelled(v, b, p, true),
        _ => {},
    }
}

/// Writing what an artifact statement reads as gives its canonical spelling and a line end;
/// on canonical text, the text that was read.
pub proof fn lemma_artifact_statement_round_trip(st: ArtifactStatement, n: ParseNode, p: crate::mbql::error::Position)
    requires
        ArtifactStatement::accepts(n),
        st.parsed_from(n, p),
        quoted_strings_escaped(n),
    ensures
        st.render() == ArtifactStatement::spelled(n) + "\n"@,
        n.text@ == ArtifactStatement::spelled(n) ==> st.render() == n.text@ + "\n"@,
{
    lemma_child_escaped(n, 1);
    lemma_artifact_spelled(st.artifact, n.inner@[1], p, true);
}

} // verus!
