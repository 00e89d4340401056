use mindbase::mbql::ast::{Text, Artifact, ArtifactStatement, GroundSymbolizable, Symbolizable, SymbolStatement};
use mindbase::mbql::error::Position;
use mindbase::mbql::parse::{ParseNode, Rule};

fn node(rule: Rule, text: &str, inner: Vec<ParseNode>) -> ParseNode {
    ParseNode { rule, text: text.to_string(), inner }
}

fn leaf(text: &str) -> ParseNode {
    node(Rule::other, text, vec![])
}

fn text_artifact(s: &str) -> ParseNode {
    node(Rule::artifact, "", vec![node(Rule::text, "", vec![node(Rule::quoted_string, "", vec![leaf(s)])])])
}

fn gsym_text(s: &str) -> ParseNode {
    node(Rule::ground_symbolizable, "", vec![text_artifact(s)])
}

fn gpair(l: ParseNode, r: ParseNode) -> ParseNode {
    node(Rule::ground_symbol_pair, "", vec![l, r])
}

fn pos() -> Position {
    Position { row: 2, col: 5 }
}

fn written(s: &SymbolStatement) -> String {
    let mut o = String::new();
    s.write(&mut o);
    o
}

#[test]
fn ground_statement_is_read_and_written_back() {
    let tree = node(
        Rule::symbolstatement,
        "",
        vec![
            node(Rule::symbolvar, "$emote", vec![leaf("emote")]),
            node(
                Rule::ground,
                "",
                vec![gpair(gpair(gsym_text("Smile"), gsym_text("Mouth")), gpair(gsym_text("Wink"), gsym_text("Eye")))],
            ),
        ],
    );
    let stmt = SymbolStatement::parse_checked(&tree, pos()).expect("readable");
    assert_eq!(stmt.var.as_ref().unwrap().var, "emote");
    assert_eq!(stmt.var.as_ref().unwrap().position, pos());
    match &stmt.symbol {
        Symbolizable::Ground(g) => {
            assert_eq!(g.position, pos());
            assert!(matches!(*g.symbolizable, GroundSymbolizable::GroundPair(_)));
        },
        _ => panic!("expected a ground"),
    }
    assert_eq!(written(&stmt), "$emote = Ground((\"Smile\" : \"Mouth\") : (\"Wink\" : \"Eye\"))\n");
}

#[test]
fn allege_statement_without_variable() {
    let pair = node(
        Rule::symbol_pair,
        "",
        vec![node(Rule::symbolizable, "", vec![text_artifact("Hot")]), node(Rule::symbolizable, "", vec![text_artifact("Cold")])],
    );
    let tree = node(Rule::symbolstatement, "", vec![node(Rule::allege, "", vec![pair])]);
    let stmt = SymbolStatement::parse(&tree, pos()).ok().unwrap();
    assert!(stmt.var.is_none());
    assert_eq!(written(&stmt), "Allege(\"Hot\" : \"Cold\")\n");
}

#[test]
fn quoted_text_is_unescaped() {
    let tree = node(
        Rule::artifactstatement,
        "",
        vec![node(Rule::artifactvar, "@t", vec![leaf("t")]), text_artifact("say \\\"hi\\\"")],
    );
    let stmt = ArtifactStatement::parse_checked(&tree, pos()).unwrap();
    assert_eq!(stmt.var.var, "t");
    match &stmt.artifact {
        Artifact::Text(t) => assert_eq!(t.text, "say \"hi\""),
        _ => panic!("expected text"),
    }
    let url_tree = node(
        Rule::artifactstatement,
        "",
        vec![
            node(Rule::artifactvar, "@u", vec![leaf("u")]),
            node(Rule::artifact, "", vec![node(Rule::url, "", vec![leaf("http://a/\\\"b\\\"")])]),
        ],
    );
    match ArtifactStatement::parse_checked(&url_tree, pos()).unwrap().artifact {
        Artifact::Url(u) => assert_eq!(u.url, "http://a/\"b\""),
        _ => panic!("expected a url"),
    }
}

#[test]
fn data_node_reads_base64_or_quoted_data() {
    let dtype = node(Rule::symbolizable, "", vec![text_artifact("bytes")]);
    let b64 = node(
        Rule::artifactstatement,
        "",
        vec![
            node(Rule::artifactvar, "", vec![leaf("d")]),
            node(Rule::artifact, "", vec![node(Rule::datanode, "", vec![dtype, node(Rule::base64, "aGk=", vec![])])]),
        ],
    );
    match ArtifactStatement::parse_checked(&b64, pos()).unwrap().artifact {
        Artifact::DataNode(d) => assert_eq!(d.data, Some(vec![104, 105])),
        _ => panic!("expected a data node"),
    }
    let dtype = node(Rule::symbolizable, "", vec![text_artifact("bytes")]);
    let quoted = node(
        Rule::artifactstatement,
        "",
        vec![
            node(Rule::artifactvar, "", vec![leaf("d")]),
            node(Rule::artifact, "", vec![node(Rule::datanode, "", vec![dtype, node(Rule::quoted_string, "a\\\"b", vec![])])]),
        ],
    );
    match ArtifactStatement::parse_checked(&quoted, pos()).unwrap().artifact {
        Artifact::DataNode(d) => assert_eq!(d.data, Some(b"a\"b".to_vec())),
        _ => panic!("expected a data node"),
    }
}

#[test]
fn unreadable_trees_are_refused() {
    let dtype = node(Rule::symbolizable, "", vec![text_artifact("bytes")]);
    let bad_b64 = node(
        Rule::artifactstatement,
        "",
        vec![
            node(Rule::artifactvar, "", vec![leaf("d")]),
            node(Rule::artifact, "", vec![node(Rule::datanode, "", vec![dtype, node(Rule::base64, "%%%", vec![])])]),
        ],
    );
    assert!(ArtifactStatement::parse_checked(&bad_b64, pos()).is_none());
    let no_body = node(Rule::symbolstatement, "", vec![node(Rule::symbolvar, "", vec![leaf("x")])]);
    assert!(SymbolStatement::parse_checked(&no_body, pos()).is_none());
    let wrong_rule = node(Rule::ground, "", vec![]);
    assert!(SymbolStatement::parse_checked(&wrong_rule, pos()).is_none());
}

#[test]
fn written_text_reads_back_unchanged() {
    let original = "a \\\"quoted\\\" \\ word";
    let t = Text { text: original.to_string(), position: pos() };
    let mut out = String::new();
    t.write(&mut out, false);
    // the writer quotes the text; the reader takes the body between the quotes
    let body = &out[1..out.len() - 1];
    let tree = node(
        Rule::artifactstatement,
        "",
        vec![node(Rule::artifactvar, "", vec![leaf("t")]), text_artifact(body)],
    );
    match ArtifactStatement::parse_checked(&tree, pos()).unwrap().artifact {
        Artifact::Text(read) => assert_eq!(read.text, original),
        _ => panic!("expected text"),
    }
}
