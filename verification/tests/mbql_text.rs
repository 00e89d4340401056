use mindbase::mbql::quoting::{escape_quotes, unescape_quotes};
use mindbase::mbql::ast::{
    Agent, Allege, Artifact, ArtifactStatement, ArtifactVar, DataNode, DataRelation, Ground, GroundPair,
    GroundSymbolizable, Symbolizable, Symbolize, SymbolStatement, SymbolVar, Text, Url,
};
use mindbase::ids::AgentId;
use mindbase::mbql::ast::AgentIdent;
use mindbase::mbql::error::Position;

fn pos() -> Position {
    Position { row: 1, col: 1 }
}

fn text(s: &str) -> Artifact {
    Artifact::Text(Text { text: s.to_string(), position: pos() })
}

fn gtext(s: &str) -> Box<GroundSymbolizable> {
    Box::new(GroundSymbolizable::Artifact(text(s)))
}

fn gpair(l: Box<GroundSymbolizable>, r: Box<GroundSymbolizable>) -> Box<GroundSymbolizable> {
    Box::new(GroundSymbolizable::GroundPair(GroundPair { left: l, right: r, position: pos() }))
}

fn written<F: Fn(&mut String)>(f: F) -> String {
    let mut s = String::new();
    f(&mut s);
    s
}

#[test]
fn ground_statement_writes_back_as_mbql() {
    let stmt = SymbolStatement {
        var: Some(SymbolVar { var: "emote".to_string(), position: pos() }),
        symbol: Symbolizable::Ground(Ground {
            symbolizable: gpair(gpair(gtext("Smile"), gtext("Mouth")), gpair(gtext("Wink"), gtext("Eye"))),
            position: pos(),
        }),
    };
    assert_eq!(written(|o| stmt.write(o)), "$emote = Ground((\"Smile\" : \"Mouth\") : (\"Wink\" : \"Eye\"))\n");
    if let Symbolizable::Ground(g) = &stmt.symbol {
        assert_eq!(
            written(|o| g.write(o, false)),
            "{(\"Smile\" : \"Mouth\") : (\"Wink\" : \"Eye\")}"
        );
    }
}

#[test]
fn allege_writes_long_short_and_nested_forms() {
    let a = Allege {
        left: Box::new(Symbolizable::Artifact(text("Hot"))),
        right: Box::new(Symbolizable::Artifact(text("Cold"))),
    };
    assert_eq!(written(|o| a.write(o, true, false)), "Allege(\"Hot\" : \"Cold\")");
    assert_eq!(written(|o| a.write(o, false, false)), "\"Hot\" : \"Cold\"");
    assert_eq!(written(|o| a.write(o, false, true)), "(\"Hot\" : \"Cold\")");
    let stmt = SymbolStatement { var: None, symbol: Symbolizable::Allege(a) };
    assert_eq!(written(|o| stmt.write(o)), "Allege(\"Hot\" : \"Cold\")\n");
}

#[test]
fn artifacts_write_their_own_syntax() {
    assert_eq!(written(|o| text("say \"hi\"").write(o, true)), "Text(\"say \\\"hi\\\"\")");
    assert_eq!(written(|o| text("a").write(o, false)), "\"a\"");
    let url = Url { url: "http://x/\"q\"".to_string(), position: pos() };
    assert_eq!(written(|o| url.write(o, true)), "Url(\"http://x/\\\"q\\\"\")");
    let agent = Agent { ident: "default".to_string(), position: pos() };
    assert_eq!(written(|o| agent.write(o)), "Agent(default)");
    let av = ArtifactVar { var: "a".to_string(), position: pos() };
    assert_eq!(written(|o| av.write(o)), "@a");
    let sv = SymbolVar { var: "s".to_string(), position: pos() };
    assert_eq!(written(|o| sv.write(o)), "$s");
    assert_eq!(sv.to_string(), "s");
}

#[test]
fn data_nodes_write_their_data_in_base64() {
    let node = DataNode {
        data_type: Box::new(Symbolizable::Artifact(text("bytes"))),
        data: Some(vec![104, 105]),
        position: pos(),
    };
    assert_eq!(written(|o| node.write(o)), "DataNode(\"bytes\";aGk=)");
    let empty = DataNode { data_type: Box::new(Symbolizable::Artifact(text("t"))), data: None, position: pos() };
    assert_eq!(written(|o| empty.write(o)), "DataNode(\"t\")");
}

#[test]
fn data_relations_and_statements_write_back() {
    let rel = DataRelation {
        relation_type: Box::new(Symbolizable::Artifact(text("parent"))),
        from: Box::new(Symbolizable::SymbolVar(SymbolVar { var: "a".to_string(), position: pos() })),
        to: Box::new(Symbolizable::Symbolize(Symbolize(Box::new(Symbolizable::Artifact(text("b")))))),
        position: pos(),
    };
    assert_eq!(written(|o| rel.write(o)), "DataRelation(\"parent\";$a > \"b\")");
    let stmt = ArtifactStatement {
        var: ArtifactVar { var: "t".to_string(), position: pos() },
        artifact: text("x"),
        position: pos(),
    };
    assert_eq!(written(|o| stmt.write(o)), "@t = Text(\"x\")\n");
    let sym = Symbolize(Box::new(Symbolizable::Artifact(text("y"))));
    assert_eq!(written(|o| sym.write(o, true)), "Symbolize(\"y\")");
    assert_eq!(written(|o| sym.write(o, false)), "\"y\"");
}

#[test]
fn agent_identifiers_name_the_default_agent_or_an_id() {
    let a = Agent { ident: "default".to_string(), position: pos() };
    assert!(matches!(a.get_agent_id(), Some(AgentIdent::Default)));
    let text = base64::encode_config(&[7u8; 32], base64::STANDARD_NO_PAD);
    let b = Agent { ident: text, position: pos() };
    match b.get_agent_id() {
        Some(AgentIdent::Id(id)) => assert!(id == AgentId::from_bytes([7u8; 32])),
        _ => panic!("expected an id"),
    }
    let short = Agent { ident: base64::encode_config(&[7u8; 16], base64::STANDARD_NO_PAD), position: pos() };
    assert!(short.get_agent_id().is_none());
    let bad = Agent { ident: "not base64!".to_string(), position: pos() };
    assert!(bad.get_agent_id().is_none());
}

#[test]
fn quotes_are_escaped_and_unescaped() {
    assert_eq!(escape_quotes("say \"hi\""), "say \\\"hi\\\"");
    assert_eq!(escape_quotes("no quotes"), "no quotes");
    assert_eq!(escape_quotes(""), "");
    assert_eq!(escape_quotes("\"é\""), "\\\"é\\\"");
    assert_eq!(unescape_quotes("say \\\"hi\\\""), "say \"hi\"");
    // A backslash before a backslash-quote pair stays; the pair becomes a quote.
    assert_eq!(unescape_quotes("a\\\\\"b"), "a\\\"b");
    // A lone backslash and a lone quote stay as they are.
    assert_eq!(unescape_quotes("a\\b\"c\\"), "a\\b\"c\\");
    for s in ["", "x", "\"", "\\", "\\\"", "a\"b\\\"c\\", "ü\"ß"] {
        assert_eq!(unescape_quotes(&escape_quotes(s)), s);
    }
}
