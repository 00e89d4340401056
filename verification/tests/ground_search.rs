use mindbase::allegation::{Allegation, Body};
use mindbase::ground::{ArtifactStep, BindResult, GSContext, GSNode, IndexEntry, NovelPlan, PairStep, RecurseStep, SymbolVarStep};
use mindbase::ids::{AgentId, AllegationId, ArtifactId};
use mindbase::mbql::ast::{Artifact, GroundPair, GroundSymbolizable, SymbolVar, Text};
use mindbase::mbql::error::{MBQLErrorKind, Position};
use mindbase::symbol::{Analogy, Atom, Spin, Symbol};
use std::rc::Rc;

fn aid(n: u8) -> AllegationId {
    let mut b = [0u8; 16];
    b[15] = n;
    AllegationId::from_bytes(b)
}

fn agent(n: u8) -> AgentId {
    let mut b = [0u8; 32];
    b[31] = n;
    AgentId::from_bytes(b)
}

fn artifact(n: u8) -> ArtifactId {
    let mut b = [0u8; 32];
    b[0] = n;
    ArtifactId::from_bytes(b)
}

fn sym(ns: &[u8]) -> Symbol {
    Symbol { atoms: ns.iter().map(|n| Atom::up(aid(*n))).collect() }
}

fn entry(art: u8, ag: u8, ids: &[u8]) -> IndexEntry {
    let mut key = artifact(art).as_bytes().to_vec();
    key.extend_from_slice(agent(ag).as_bytes());
    let mut atoms = Vec::new();
    for n in ids {
        atoms.extend_from_slice(aid(*n).as_bytes());
    }
    IndexEntry { key, atoms }
}

fn pos() -> Position {
    Position { row: 1, col: 1 }
}

fn analogy(id: u8, by: u8, left: &[u8], right: &[u8]) -> Allegation {
    Allegation {
        id: aid(id),
        by: agent(by),
        body: Body::Analogy(Analogy::declarative(sym(left), sym(right))),
        signature: [0u8; 64],
    }
}

fn ids_of(s: &Symbol) -> Vec<u8> {
    s.atoms.iter().map(|a| a.id.as_bytes()[15]).collect()
}

#[test]
fn scan_bounds_span_the_grounding_agents() {
    let mut ctx = GSContext::new(vec![agent(2), agent(5), agent(9)]);
    let (lo, hi) = ctx.scan_bounds();
    assert_eq!(&lo[0..32], &[0u8; 32][..]);
    assert_eq!(&lo[32..64], &agent(2).as_bytes()[..]);
    assert_eq!(&hi[32..64], &agent(9).as_bytes()[..]);
    ctx.set_scan_artifact(&artifact(7));
    let (lo, hi) = ctx.scan_bounds();
    assert_eq!(&lo[0..32], &artifact(7).as_bytes()[..]);
    assert_eq!(&hi[0..32], &artifact(7).as_bytes()[..]);
    assert_eq!(&lo[32..64], &agent(2).as_bytes()[..]);
    assert_eq!(&hi[32..64], &agent(9).as_bytes()[..]);
    // every key of the artifact and a grounding agent lies in the range
    for a in [2u8, 5, 9] {
        let key = entry(7, a, &[]).key;
        assert!(&lo[..] <= &key[..] && &key[..] <= &hi[..]);
    }
}

#[test]
fn unrefined_symbol_unites_grounding_agents_lists() {
    let ctx = GSContext::new(vec![agent(2), agent(5)]);
    let entries = vec![entry(1, 2, &[3, 8]), entry(1, 3, &[1, 2]), entry(1, 5, &[4, 8, 10])];
    let s = ctx.unrefined_symbol_for_artifact(&entries).unwrap();
    assert_eq!(ids_of(&s), vec![3, 4, 8, 10]);
    assert!(s.atoms.iter().all(|a| a.spin == Spin::Up));
}

#[test]
fn unrefined_symbol_is_none_without_grounding_entries() {
    let ctx = GSContext::new(vec![agent(2)]);
    assert!(ctx.unrefined_symbol_for_artifact(&[entry(1, 3, &[1])]).is_none());
    assert!(ctx.unrefined_symbol_for_artifact(&[]).is_none());
    assert!(ctx.unrefined_symbol_for_artifact(&[entry(1, 2, &[])]).is_none());
}

#[test]
fn matching_analogies_are_found_either_way_round() {
    let ctx = GSContext::new(vec![agent(1)]);
    let left = GSNode::Given(sym(&[10, 11]));
    let right = GSNode::Given(sym(&[20]));
    let alls = vec![
        analogy(30, 1, &[11], &[20]),
        analogy(31, 1, &[20], &[10]),
        analogy(32, 2, &[11], &[20]),
        analogy(33, 1, &[11], &[21]),
        Allegation { id: aid(34), by: agent(1), body: Body::Unit, signature: [0u8; 64] },
    ];
    let found = ctx.find_matching_analogy_symbol(&left, &right, &alls).unwrap();
    assert_eq!(ids_of(&found), vec![30, 31]);
    let swapped = ctx.find_matching_analogy_symbol(&right, &left, &alls).unwrap();
    assert_eq!(ids_of(&swapped), vec![30, 31]);
    let none = ctx.find_matching_analogy_symbol(&left, &GSNode::Given(sym(&[99])), &alls);
    assert!(none.is_none());
}

#[test]
fn artifact_step_decides_found_vivify_or_error() {
    let ctx = GSContext::new(vec![agent(2)]);
    match GSNode::artifact(&ctx, false, artifact(1), &[entry(1, 2, &[5])], pos()) {
        ArtifactStep::Found(GSNode::Artifact { artifact_id, symbol }) => {
            assert!(artifact_id == artifact(1));
            assert_eq!(ids_of(&symbol), vec![5]);
        },
        _ => panic!("expected a found artifact"),
    }
    match GSNode::artifact(&ctx, true, artifact(1), &[], pos()) {
        ArtifactStep::Vivify(id) => assert!(id == artifact(1)),
        _ => panic!("expected vivification"),
    }
    match GSNode::artifact(&ctx, false, artifact(1), &[], Position { row: 3, col: 4 }) {
        ArtifactStep::NotFound(e) => {
            assert_eq!(e.position, Position { row: 3, col: 4 });
            assert!(matches!(e.kind, MBQLErrorKind::GSymNotFound));
        },
        _ => panic!("expected an error"),
    }
}

#[test]
fn pair_step_decides_found_vivify_or_error() {
    let ctx = GSContext::new(vec![agent(1)]);
    let alls = vec![analogy(30, 1, &[1], &[2])];
    match GSNode::pair(&ctx, false, GSNode::Given(sym(&[1])), GSNode::Given(sym(&[2])), &alls, pos()) {
        PairStep::Found(node) => assert_eq!(ids_of(node.symbol()), vec![30]),
        _ => panic!("expected a found pair"),
    }
    match GSNode::pair(&ctx, true, GSNode::Given(sym(&[1])), GSNode::Given(sym(&[3])), &alls, pos()) {
        PairStep::Vivify(l, r) => {
            assert_eq!(ids_of(&l.take_symbol()), vec![1]);
            assert_eq!(ids_of(&r.take_symbol()), vec![3]);
        },
        _ => panic!("expected vivification"),
    }
    match GSNode::pair(&ctx, false, GSNode::Given(sym(&[1])), GSNode::Given(sym(&[3])), &alls, pos()) {
        PairStep::NotFound(e) => assert!(matches!(e.kind, MBQLErrorKind::GSymNotFound)),
        _ => panic!("expected an error"),
    }
}

#[test]
fn bound_nodes_carry_the_symbol_of_their_inner_node() {
    let sv = Rc::new(SymbolVar { var: "x".to_string(), position: pos() });
    let node = GSNode::Bound { gsnode: Box::new(GSNode::Created(sym(&[7]))), sv: sv.clone() };
    assert_eq!(ids_of(node.symbol()), vec![7]);
    assert_eq!(ids_of(&node.take_symbol()), vec![7]);
}

#[test]
fn novel_plan_makes_leaves_first() {
    let sv = Rc::new(SymbolVar { var: "x".to_string(), position: pos() });
    let node = GSNode::Pair {
        symbol: sym(&[1]),
        left: Box::new(GSNode::Artifact { artifact_id: artifact(4), symbol: sym(&[2]) }),
        right: Box::new(GSNode::Bound { gsnode: Box::new(GSNode::Given(sym(&[3]))), sv }),
    };
    match node.novel_symbol() {
        NovelPlan::Analogy(l, r) => {
            assert!(matches!(*l, NovelPlan::Symbolize(id) if id == artifact(4)));
            match *r {
                NovelPlan::Store(v, inner) => {
                    assert_eq!(v.var, "x");
                    assert!(matches!(*inner, NovelPlan::Existing(ref s) if ids_of(s) == vec![3]));
                },
                _ => panic!("expected a store"),
            }
        },
        _ => panic!("expected an analogy"),
    }
}

#[test]
fn symbol_variables_are_searched_given_or_reported() {
    let sv = SymbolVar { var: "foo".to_string(), position: Position { row: 4, col: 2 } };
    match GSNode::symbolvar(&sv, None) {
        SymbolVarStep::NotFound(e) => {
            assert_eq!(e.position, Position { row: 4, col: 2 });
            match e.kind {
                MBQLErrorKind::SymbolVarNotFound { var } => assert_eq!(var, "foo"),
                _ => panic!("expected SymbolVarNotFound"),
            }
        },
        _ => panic!("expected an error"),
    }
    match GSNode::symbolvar(&sv, Some(BindResult::Symbol(sym(&[6])))) {
        SymbolVarStep::Done(GSNode::Given(s)) => assert_eq!(ids_of(&s), vec![6]),
        _ => panic!("expected a given symbol"),
    }
    let g = Rc::new(mindbase::mbql::ast::GroundSymbolizable::SymbolVar(SymbolVar { var: "bar".to_string(), position: pos() }));
    match GSNode::symbolvar(&sv, Some(BindResult::Bound(g))) {
        SymbolVarStep::Search(_) => {},
        _ => panic!("expected a search"),
    }
    let node = GSNode::bound(GSNode::Given(sym(&[8])), Rc::new(sv));
    assert_eq!(ids_of(node.symbol()), vec![8]);
}

#[test]
fn unsorted_grounding_agents_are_accepted() {
    let ctx = GSContext::new(vec![agent(5), agent(2)]);
    let entries = vec![entry(1, 2, &[3]), entry(1, 4, &[6]), entry(1, 5, &[1])];
    let s = ctx.unrefined_symbol_for_artifact(&entries).unwrap();
    assert_eq!(ids_of(&s), vec![1, 3]);
}

#[test]
fn recursion_dispatches_on_the_kind_of_node() {
    let ctx = GSContext::new(vec![agent(1)]);
    let art = GroundSymbolizable::Artifact(Artifact::Text(Text { text: "hi".to_string(), position: pos() }));
    match ctx.symbolize_recurse(&art) {
        RecurseStep::Artifact(Artifact::Text(t)) => assert_eq!(t.text, "hi"),
        _ => panic!("expected the artifact"),
    }
    let var = GroundSymbolizable::SymbolVar(SymbolVar { var: "v".to_string(), position: Position { row: 3, col: 7 } });
    match ctx.symbolize_recurse(&var) {
        RecurseStep::SymbolVar(sv) => {
            assert_eq!(sv.var, "v");
            assert_eq!(sv.position.col, 7);
        },
        _ => panic!("expected the variable"),
    }
    let pair = GroundSymbolizable::GroundPair(GroundPair {
        left: Box::new(var),
        right: Box::new(art),
        position: Position { row: 2, col: 5 },
    });
    match ctx.symbolize_recurse(&pair) {
        RecurseStep::Pair(p) => {
            assert_eq!(p.position.row, 2);
            assert!(matches!(*p.left, GroundSymbolizable::SymbolVar(_)));
            assert!(matches!(*p.right, GroundSymbolizable::Artifact(_)));
        },
        _ => panic!("expected the pair"),
    }
}
