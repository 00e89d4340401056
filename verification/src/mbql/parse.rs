//! Parse trees of MBQL text, and the syntax tree read off them.
use vstd::prelude::*;

use crate::mbql::ast::{
    Agent, Allege, Artifact, ArtifactStatement, ArtifactVar, DataNode, DataRelation, Ground,
    GroundPair, GroundSymbolizable, Symbolizable, Symbolize, SymbolStatement, SymbolVar, Text, Url,
};
use crate::mbql::error::{MBQLError, Position};
use crate::mbql::quoting::unescape_quotes;
use crate::wrappers::decode_standard;

verus! {

/// The grammar rules that the reading of a parse tree tells apart.
#[allow(non_camel_case_types)]
#[derive(PartialEq, Eq, Structural, Clone, Copy, Debug)]
pub enum Rule {
    artifactstatement,
    symbolstatement,
    artifactvar,
    symbolvar,
    artifact,
    agent,
    url,
    text,
    datanode,
    datarelation,
    base64,
    quoted_string,
    symbolizable,
    symbol_pair,
    allege,
    ground,
    symbolize,
    ground_symbolizable,
    ground_symbol_pair,
    /// Any other rule of the grammar: names, string bodies and the like.
    other,
}

/// One node of a parse tree: the rule it matched, the text it spans, and its children.
pub struct ParseNode {
    pub rule: Rule,
    pub text: String,
    pub inner: Vec<ParseNode>,
}

impl ArtifactVar {
    /// Reads an `artifactvar` node: the variable is the text of its first child.
    pub fn parse(pair: &ParseNode, position: Position) -> (r: Result<Self, MBQLError>)
        requires
            ArtifactVar::accepts(*pair),
        ensures
            r matches Ok(v) && v.parsed_from(*pair, position),
    {
        Ok(ArtifactVar { var: pair.inner[0].text.clone(), position })
    }

    /// Whether `parse` can read the node.
    pub fn check(pair: &ParseNode) -> (r: bool)
        ensures
            r == ArtifactVar::accepts(*pair),
    {
        pair.rule == Rule::artifactvar && pair.inner.len() >= 1
    }
}

impl SymbolVar {
    /// Reads a `symbolvar` node: the variable is the text of its first child.
    pub fn parse(pair: &ParseNode, position: Position) -> (r: Result<Self, MBQLError>)
        requires
            SymbolVar::accepts(*pair),
        ensures
            r matches Ok(v) && v.parsed_from(*pair, position),
    {
        Ok(SymbolVar { var: pair.inner[0].text.clone(), position })
    }

    /// Whether `parse` can read the node.
    pub fn check(pair: &ParseNode) -> (r: bool)
        ensures
            r == SymbolVar::accepts(*pair),
    {
        pair.rule == Rule::symbolvar && pair.inner.len() >= 1
    }
}

impl Agent {
    /// Reads an `agent` node: the identifier is the text of its first child.
    pub fn parse(pair: &ParseNode, position: Position) -> (r: Result<Self, MBQLError>)
        requires
            Agent::accepts(*pair),
        ensures
            r matches Ok(v) && v.parsed_from(*pair, position),
    {
        Ok(Agent { ident: pair.inner[0].text.clone(), position })
    }

    /// Whether `parse` can read the node.
    pub fn check(pair: &ParseNode) -> (r: bool)
        ensures
            r == Agent::accepts(*pair),
    {
        pair.rule == Rule::agent && pair.inner.len() >= 1
    }
}

impl Url {
    /// Reads a `url` node: the url is the text of its first child, unescaped.
    pub fn parse(pair: &ParseNode, position: Position) -> (r: Result<Self, MBQLError>)
        requires
            Url::accepts(*pair),
        ensures
            r matches Ok(v) && v.parsed_from(*pair, position),
    {
        Ok(Url { url: unescape_quotes(pair.inner[0].text.as_str()), position })
    }

    /// Whether `parse` can read the node.
    pub fn check(pair: &ParseNode) -> (r: bool)
        ensures
            r == Url::accepts(*pair),
    {
        pair.inner.len() >= 1
    }
}

impl Text {
    /// Reads a `text` node: the text is the body of its quoted string, unescaped.
    pub fn parse(pair: &ParseNode, position: Position) -> (r: Result<Self, MBQLError>)
        requires
            Text::accepts(*pair),
        ensures
            r matches Ok(v) && v.parsed_from(*pair, position),
    {
        let qs = &pair.inner[0];
        let s = &qs.inner[0];
        Ok(Text { text: unescape_quotes(s.text.as_str()), position })
    }

    /// Whether `parse` can read the node.
    pub fn check(pair: &ParseNode) -> (r: bool)
        ensures
            r == Text::accepts(*pair),
    {
        pair.inner.len() >= 1 && pair.inner[0].inner.len() >= 1
    }
}

impl DataNode {
    /// Reads a `datanode` node: its type, then optional data, given in base64 or as a quoted
    /// string.
    pub fn parse(pair: &ParseNode, position: Position) -> (r: Result<Self, MBQLError>)
        requires
            DataNode::accepts(*pair),
        ensures
            r matches Ok(v) && v.parsed_from(*pair, position),
        decreases pair, 1nat,
    {
        let data_type = Symbolizable::parse(&pair.inner[0], position);
        let data_type = match data_type {
            Ok(d) => d,
            Err(e) => return Err(e),
        };
        let data = if pair.inner.len() >= 2 {
            let next = &pair.inner[1];
            if next.rule == Rule::base64 {
                match decode_standard(next.text.as_str()) {
                    Some(v) => Some(v),
                    None => {
                        proof {
                            assert(false);
                        }
                        None
                    },
                }
            } else {
                let u = unescape_quotes(next.text.as_str());
                Some(vstd::slice::slice_to_vec(u.as_str().as_bytes()))
            }
        } else {
            None
        };
        Ok(DataNode { data_type: Box::new(data_type), data, position })
    }

    /// Whether `parse` can read the node; base64 data must decode.
    pub fn check(pair: &ParseNode) -> (r: bool)
        ensures
            r == DataNode::accepts(*pair),
        decreases pair, 1nat,
    {
        if pair.inner.len() < 1 {
            return false;
        }
        if !Symbolizable::check(&pair.inner[0]) {
            return false;
        }
        if pair.inner.len() >= 2 {
            let next = &pair.inner[1];
            if next.rule == Rule::base64 {
                decode_standard(next.text.as_str()).is_some()
            } else {
                next.rule == Rule::quoted_string
            }
        } else {
            true
        }
    }
}

impl DataRelation {
    /// Reads a `datarelation` node: its type, then the two symbols it relates.
    pub fn parse(pair: &ParseNode, position: Position) -> (r: Result<Self, MBQLError>)
        requires
            DataRelation::accepts(*pair),
        ensures
            r matches Ok(v) && v.parsed_from(*pair, position),
        decreases pair, 1nat,
    {
        let relation_type = match Symbolizable::parse(&pair.inner[0], position) {
            Ok(v) => v,
            Err(e) => return Err(e),
        };
        let from = match Symbolizable::parse(&pair.inner[1], position) {
            Ok(v) => v,
            Err(e) => return Err(e),
        };
        let to = match Symbolizable::parse(&pair.inner[2], position) {
            Ok(v) => v,
            Err(e) => return Err(e),
        };
        Ok(DataRelation { relation_type: Box::new(relation_type), from: Box::new(from), to: Box::new(to), position })
    }

    /// Whether `parse` can read the node.
    pub fn check(pair: &ParseNode) -> (r: bool)
        ensures
            r == DataRelation::accepts(*pair),
        decreases pair, 1nat,
    {
        pair.inner.len() >= 3 && Symbolizable::check(&pair.inner[0]) && Symbolizable::check(&pair.inner[1])
            && Symbolizable::check(&pair.inner[2])
    }
}

impl Artifact {
    /// Reads an `artifact` node by the rule of its child.
    pub fn parse(pair: &ParseNode, position: Position) -> (r: Result<Self, MBQLError>)
        requires
            Artifact::accepts(*pair),
        ensures
            r matches Ok(v) && v.parsed_from(*pair, position),
        decreases pair, 1nat,
    {
        let child = &pair.inner[0];
        let a = match child.rule {
            Rule::artifactvar => match ArtifactVar::parse(child, position) {
                Ok(v) => Artifact::ArtifactVar(v),
                Err(e) => return Err(e),
            },
            Rule::agent => match Agent::parse(child, position) {
                Ok(v) => Artifact::Agent(v),
                Err(e) => return Err(e),
            },
            Rule::datanode => match DataNode::parse(child, position) {
                Ok(v) => Artifact::DataNode(v),
                Err(e) => return Err(e),
            },
            Rule::datarelation => match DataRelation::parse(child, position) {
                Ok(v) => Artifact::DataRelation(v),
                Err(e) => return Err(e),
            },
            Rule::text => match Text::parse(child, position) {
                Ok(v) => Artifact::Text(v),
                Err(e) => return Err(e),
            },
            _ => match Url::parse(child, position) {
                Ok(v) => Artifact::Url(v),
                Err(e) => return Err(e),
            },
        };
        Ok(a)
    }

    /// Whether `parse` can read the node.
    pub fn check(pair: &ParseNode) -> (r: bool)
        ensures
            r == Artifact::accepts(*pair),
        decreases pair, 1nat,
    {
        if pair.rule != Rule::artifact || pair.inner.len() < 1 {
            return false;
        }
        let c = &pair.inner[0];
        match c.rule {
            Rule::artifactvar => ArtifactVar::check(c),
            Rule::agent => Agent::check(c),
            Rule::datanode => DataNode::check(c),
            Rule::datarelation => DataRelation::check(c),
            Rule::text => Text::check(c),
            Rule::url => Url::check(c),
            _ => false,
        }
    }
}

impl Allege {
    /// Reads an `allege` node: the two sides of the symbol pair it holds.
    pub fn parse(pair: &ParseNode, position: Position) -> (r: Result<Self, MBQLError>)
        requires
            Allege::accepts(*pair),
        ensures
            r matches Ok(v) && v.parsed_from(*pair, position),
        decreases pair, 1nat,
    {
        let symbol_pair = &pair.inner[0];
        let left = match Symbolizable::parse(&symbol_pair.inner[0], position) {
            Ok(v) => v,
            Err(e) => return Err(e),
        };
        let right = match Symbolizable::parse(&symbol_pair.inner[1], position) {
            Ok(v) => v,
            Err(e) => return Err(e),
        };
        Ok(Allege { left: Box::new(left), right: Box::new(right) })
    }

    /// Whether `parse` can read the node.
    pub fn check(pair: &ParseNode) -> (r: bool)
        ensures
            r == Allege::accepts(*pair),
        decreases pair, 1nat,
    {
        pair.rule == Rule::allege && pair.inner.len() >= 1 && pair.inner[0].inner.len() >= 2
            && Symbolizable::check(&pair.inner[0].inner[0]) && Symbolizable::check(&pair.inner[0].inner[1])
    }
}

impl Symbolize {
    /// Reads a `symbolize` node: the symbolizable it holds.
    pub fn parse(pair: &ParseNode, position: Position) -> (r: Result<Self, MBQLError>)
        requires
            Symbolize::accepts(*pair),
        ensures
            r matches Ok(v) && v.parsed_from(*pair, position),
        decreases pair, 1nat,
    {
        match Symbolizable::parse(&pair.inner[0], position) {
            Ok(v) => Ok(Symbolize(Box::new(v))),
            Err(e) => Err(e),
        }
    }

    /// Whether `parse` can read the node.
    pub fn check(pair: &ParseNode) -> (r: bool)
        ensures
            r == Symbolize::accepts(*pair),
        decreases pair, 1nat,
    {
        pair.rule == Rule::symbolize && pair.inner.len() >= 1 && Symbolizable::check(&pair.inner[0])
    }
}

impl Ground {
    /// Reads a `ground` node: the ground symbolizable it holds.
    pub fn parse(pair: &ParseNode, position: Position) -> (r: Result<Self, MBQLError>)
        requires
            Ground::accepts(*pair),
        ensures
            r matches Ok(v) && v.parsed_from(*pair, position),
        decreases pair, 1nat,
    {
        match GroundSymbolizable::parse(&pair.inner[0], position) {
            Ok(v) => Ok(Ground { symbolizable: Box::new(v), position }),
            Err(e) => Err(e),
        }
    }

    /// Whether `parse` can read the node.
    pub fn check(pair: &ParseNode) -> (r: bool)
        ensures
            r == Ground::accepts(*pair),
        decreases pair, 1nat,
    {
        pair.rule == Rule::ground && pair.inner.len() >= 1 && GroundSymbolizable::check(&pair.inner[0])
    }
}

impl Symbolizable {
    /// Reads the two sides of a `symbol_pair` node as an allegation.
    fn parse_pair(pair: &ParseNode, position: Position) -> (r: Result<Self, MBQLError>)
        requires
            Symbolizable::accepts_pair(*pair),
        ensures
            r matches Ok(v) && v.parsed_from_pair(*pair, position),
        decreases pair, 0nat,
    {
        let left = match Symbolizable::parse(&pair.inner[0], position) {
            Ok(v) => v,
            Err(e) => return Err(e),
        };
        let right = match Symbolizable::parse(&pair.inner[1], position) {
            Ok(v) => v,
            Err(e) => return Err(e),
        };
        Ok(Symbolizable::Allege(Allege { left: Box::new(left), right: Box::new(right) }))
    }

    /// Reads a `symbol_pair` node as an allegation, or a `symbolizable` node by the rule of
    /// its child.
    pub fn parse(pair: &ParseNode, position: Position) -> (r: Result<Self, MBQLError>)
        requires
            Symbolizable::accepts(*pair),
        ensures
            r matches Ok(v) && v.parsed_from(*pair, position),
        decreases pair, 1nat,
    {
        if pair.rule == Rule::symbol_pair {
            return Symbolizable::parse_pair(pair, position);
        }
        let element = &pair.inner[0];
        let s = match element.rule {
            Rule::artifact => match Artifact::parse(element, position) {
                Ok(v) => Symbolizable::Artifact(v),
                Err(e) => return Err(e),
            },
            Rule::symbolvar => match SymbolVar::parse(element, position) {
                Ok(v) => Symbolizable::SymbolVar(v),
                Err(e) => return Err(e),
            },
            Rule::ground => match Ground::parse(element, position) {
                Ok(v) => Symbolizable::Ground(v),
                Err(e) => return Err(e),
            },
            Rule::symbolize => match Symbolize::parse(element, position) {
                Ok(v) => Symbolizable::Symbolize(v),
                Err(e) => return Err(e),
            },
            Rule::allege => match Allege::parse(element, position) {
                Ok(v) => Symbolizable::Allege(v),
                Err(e) => return Err(e),
            },
            _ => match Symbolizable::parse_pair(element, position) {
                Ok(v) => v,
                Err(e) => return Err(e),
            },
        };
        Ok(s)
    }

    fn check_pair(pair: &ParseNode) -> (r: bool)
        ensures
            r == Symbolizable::accepts_pair(*pair),
        decreases pair, 0nat,
    {
        pair.inner.len() >= 2 && Symbolizable::check(&pair.inner[0]) && Symbolizable::check(&pair.inner[1])
    }

    /// Whether `parse` can read the node.
    pub fn check(pair: &ParseNode) -> (r: bool)
        ensures
            r == Symbolizable::accepts(*pair),
        decreases pair, 1nat,
    {
        match pair.rule {
            Rule::symbol_pair => Symbolizable::check_pair(pair),
            Rule::symbolizable => {
                if pair.inner.len() < 1 {
                    return false;
                }
                let e = &pair.inner[0];
                match e.rule {
                    Rule::artifact => Artifact::check(e),
                    Rule::symbolvar => SymbolVar::check(e),
                    Rule::ground => Ground::check(e),
                    Rule::symbolize => Symbolize::check(e),
                    Rule::allege => Allege::check(e),
                    Rule::symbol_pair => Symbolizable::check_pair(e),
                    _ => false,
                }
            },
            _ => false,
        }
    }
}

impl GroundSymbolizable {
    /// Reads the two sides of a `ground_symbol_pair` node as a ground pair.
    fn parse_pair(pair: &ParseNode, position: Position) -> (r: Result<Self, MBQLError>)
        requires
            GroundSymbolizable::accepts_pair(*pair),
        ensures
            r matches Ok(v) && v.parsed_from_pair(*pair, position),
        decreases pair, 0nat,
    {
        let left = match GroundSymbolizable::parse(&pair.inner[0], position) {
            Ok(v) => v,
            Err(e) => return Err(e),
        };
        let right = match GroundSymbolizable::parse(&pair.inner[1], position) {
            Ok(v) => v,
            Err(e) => return Err(e),
        };
        Ok(GroundSymbolizable::GroundPair(GroundPair { left: Box::new(left), right: Box::new(right), position }))
    }

    /// Reads a `ground_symbol_pair` node as a ground pair, or a `ground_symbolizable` node by
    /// the rule of its child.
    pub fn parse(pair: &ParseNode, position: Position) -> (r: Result<Self, MBQLError>)
        requires
            GroundSymbolizable::accepts(*pair),
        ensures
            r matches Ok(v) && v.parsed_from(*pair, position),
        decreases pair, 1nat,
    {
        if pair.rule == Rule::ground_symbol_pair {
            return GroundSymbolizable::parse_pair(pair, position);
        }
        let element = &pair.inner[0];
        let s = match element.rule {
            Rule::artifact => match Artifact::parse(element, position) {
                Ok(v) => GroundSymbolizable::Artifact(v),
                Err(e) => return Err(e),
            },
            Rule::symbolvar => match SymbolVar::parse(element, position) {
                Ok(v) => GroundSymbolizable::SymbolVar(v),
                Err(e) => return Err(e),
            },
            Rule::ground => match Ground::parse(element, position) {
                Ok(v) => GroundSymbolizable::Ground(v),
                Err(e) => return Err(e),
            },
            _ => match GroundSymbolizable::parse_pair(element, position) {
                Ok(v) => v,
                Err(e) => return Err(e),
            },
        };
        Ok(s)
    }

    fn check_pair(pair: &ParseNode) -> (r: bool)
        ensures
            r == GroundSymbolizable::accepts_pair(*pair),
        decreases pair, 0nat,
    {
        pair.inner.len() >= 2 && GroundSymbolizable::check(&pair.inner[0]) && GroundSymbolizable::check(&pair.inner[1])
    }

    /// Whether `parse` can read the node.
    pub fn check(pair: &ParseNode) -> (r: bool)
        ensures
            r == GroundSymbolizable::accepts(*pair),
        decreases pair, 1nat,
    {
        match pair.rule {
            Rule::ground_symbol_pair => GroundSymbolizable::check_pair(pair),
            Rule::ground_symbolizable => {
                if pair.inner.len() < 1 {
                    return false;
                }
                let e = &pair.inner[0];
                match e.rule {
                    Rule::artifact => Artifact::check(e),
                    Rule::symbolvar => SymbolVar::check(e),
                    Rule::ground => Ground::check(e),
                    Rule::ground_symbol_pair => GroundSymbolizable::check_pair(e),
                    _ => false,
                }
            },
            _ => false,
        }
    }
}

impl GroundPair {
    /// Reads an `allege` node inside a ground statement: the two sides of the pair it holds.
    pub fn parse(pair: &ParseNode, position: Position) -> (r: Result<Self, MBQLError>)
        requires
            GroundPair::accepts(*pair),
        ensures
            r matches Ok(v) && v.parsed_from(*pair, position),
    {
        let ground_symbol_pair = &pair.inner[0];
        let left = match GroundSymbolizable::parse(&ground_symbol_pair.inner[0], position) {
            Ok(v) => v,
            Err(e) => return Err(e),
        };
        let right = match GroundSymbolizable::parse(&ground_symbol_pair.inner[1], position) {
            Ok(v) => v,
            Err(e) => return Err(e),
        };
        Ok(GroundPair { left: Box::new(left), right: Box::new(right), position })
    }
}

impl ArtifactStatement {
    /// Reads an `artifactstatement` node: the variable, then the artifact bound to it.
    pub fn parse(pair: &ParseNode, position: Position) -> (r: Result<Self, MBQLError>)
        requires
            ArtifactStatement::accepts(*pair),
        ensures
            r matches Ok(v) && v.parsed_from(*pair, position),
    {
        let var = match ArtifactVar::parse(&pair.inner[0], position) {
            Ok(v) => v,
            Err(e) => return Err(e),
        };
        let artifact = match Artifact::parse(&pair.inner[1], position) {
            Ok(v) => v,
            Err(e) => return Err(e),
        };
        Ok(ArtifactStatement { var, artifact, position })
    }

    /// Reads the node where it is readable, `None` otherwise.
    pub fn parse_checked(pair: &ParseNode, position: Position) -> (r: Option<Self>)
        ensures
            r is Some <==> ArtifactStatement::accepts(*pair),
            r matches Some(v) ==> v.parsed_from(*pair, position),
    {
        if pair.rule == Rule::artifactstatement && pair.inner.len() >= 2 && ArtifactVar::check(&pair.inner[0])
            && Artifact::check(&pair.inner[1]) {
            match ArtifactStatement::parse(pair, position) {
                Ok(v) => Some(v),
                Err(_) => None,
            }
        } else {
            None
        }
    }
}

impl SymbolStatement {
    fn parse_body(next: &ParseNode, position: Position) -> (r: Result<Symbolizable, MBQLError>)
        requires
            SymbolStatement::accepts_body(*next),
        ensures
            r matches Ok(v) && SymbolStatement::body_parsed_from(v, *next, position),
    {
        match next.rule {
            Rule::allege => match Allege::parse(next, position) {
                Ok(v) => Ok(Symbolizable::Allege(v)),
                Err(e) => Err(e),
            },
            Rule::ground => match Ground::parse(next, position) {
                Ok(v) => Ok(Symbolizable::Ground(v)),
                Err(e) => Err(e),
            },
            _ => match Symbolize::parse(next, position) {
                Ok(v) => Ok(Symbolizable::Symbolize(v)),
                Err(e) => Err(e),
            },
        }
    }

    /// Reads a `symbolstatement` node: an optional variable, then an allegation, a ground or
    /// a symbolize.
    pub fn parse(pair: &ParseNode, position: Position) -> (r: Result<Self, MBQLError>)
        requires
            SymbolStatement::accepts(*pair),
        ensures
            r matches Ok(v) && v.parsed_from(*pair, position),
    {
        let first = &pair.inner[0];
        if first.rule == Rule::symbolvar {
            let var = match SymbolVar::parse(first, position) {
                Ok(v) => v,
                Err(e) => return Err(e),
            };
            let symbol = match SymbolStatement::parse_body(&pair.inner[1], position) {
                Ok(v) => v,
                Err(e) => return Err(e),
            };
            Ok(SymbolStatement { var: Some(var), symbol })
        } else {
            let symbol = match SymbolStatement::parse_body(first, position) {
                Ok(v) => v,
                Err(e) => return Err(e),
            };
            Ok(SymbolStatement { var: None, symbol })
        }
    }

    fn check_body(next: &ParseNode) -> (r: bool)
        ensures
            r == SymbolStatement::accepts_body(*next),
    {
        match next.rule {
            Rule::allege => Allege::check(next),
            Rule::ground => Ground::check(next),
            Rule::symbolize => Symbolize::check(next),
            _ => false,
        }
    }

    /// Reads the node where it is readable, `None` otherwise.
    pub fn parse_checked(pair: &ParseNode, position: Position) -> (r: Option<Self>)
        ensures
            r is Some <==> SymbolStatement::accepts(*pair),
            r matches Some(v) ==> v.parsed_from(*pair, position),
    {
        if pair.rule != Rule::symbolstatement || pair.inner.len() < 1 {
            return None;
        }
        let first = &pair.inner[0];
        let ok = if first.rule == Rule::symbolvar {
            SymbolVar::check(first) && pair.inner.len() >= 2 && SymbolStatement::check_body(&pair.inner[1])
        } else {
            SymbolStatement::check_body(first)
        };
        if ok {
            match SymbolStatement::parse(pair, position) {
                Ok(v) => Some(v),
                Err(_) => None,
            }
        } else {
            None
        }
    }
}

} // verus!
