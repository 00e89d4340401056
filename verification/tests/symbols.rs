use mindbase::ids::{compare_bytes, AgentId, AllegationId, Comparison};
use mindbase::sorted::{intersect_symbols, ItemSide, SidedMerge, SortedIntersect};
use mindbase::symbol::{compare_atoms, Analogy, Atom, Spin, Symbol};

fn aid(n: u8) -> AllegationId {
    let mut b = [0u8; 16];
    b[15] = n;
    AllegationId::from_bytes(b)
}

fn sym(ns: &[u8]) -> Symbol {
    Symbol { atoms: ns.iter().map(|n| Atom::up(aid(*n))).collect() }
}

#[test]
fn compare_bytes_orders_lexicographically() {
    assert_eq!(compare_bytes(&[1, 2, 3], &[1, 2, 4]), Comparison::Less);
    assert_eq!(compare_bytes(&[2, 0, 0], &[1, 9, 9]), Comparison::Greater);
    assert_eq!(compare_bytes(&[7, 7], &[7, 7]), Comparison::Equal);
    assert_eq!(compare_bytes(&[], &[]), Comparison::Equal);
}

#[test]
fn ids_compare_by_bytes() {
    assert!(aid(3) == aid(3));
    assert!(aid(3) != aid(4));
    let mut a = [0u8; 32];
    a[0] = 9;
    assert!(AgentId::from_bytes(a) == AgentId::from_bytes(a));
    assert_eq!(aid(5).as_bytes()[15], 5);
}

#[test]
fn atoms_order_by_id_then_spin() {
    let up = Atom::up(aid(1));
    let down = Atom::down(aid(1));
    assert_eq!(compare_atoms(&up, &down), Comparison::Less);
    assert_eq!(compare_atoms(&down, &up), Comparison::Greater);
    assert_eq!(compare_atoms(&down, &Atom::up(aid(2))), Comparison::Less);
    assert_eq!(compare_atoms(&up, &Atom::up(aid(1))), Comparison::Equal);
}

#[test]
fn new_option_is_none_for_no_atoms() {
    assert!(Symbol::new_option(Vec::new()).is_none());
    let s = Symbol::new_option(vec![Atom::up(aid(1))]).unwrap();
    assert_eq!(s.atoms.len(), 1);
    let an = Analogy::declarative(sym(&[1]), sym(&[2]));
    assert_eq!(an.left.atoms[0].id, aid(1));
    assert_eq!(an.right.atoms[0].id, aid(2));
}

#[test]
fn intersect_symbols_finds_common_atoms() {
    assert!(intersect_symbols(&sym(&[1, 3, 5]), &sym(&[2, 5, 9])));
    assert!(!intersect_symbols(&sym(&[1, 3, 5]), &sym(&[2, 4, 6])));
    assert!(!intersect_symbols(&sym(&[]), &sym(&[1])));
    assert!(!intersect_symbols(&sym(&[1]), &sym(&[])));
    assert!(intersect_symbols(&sym(&[9]), &sym(&[1, 2, 9])));
    // symmetric on well-formed symbols
    assert_eq!(intersect_symbols(&sym(&[2, 4]), &sym(&[4])), intersect_symbols(&sym(&[4]), &sym(&[2, 4])));
}

#[test]
fn intersect_symbols_distinguishes_spin() {
    let a = Symbol { atoms: vec![Atom::up(aid(1))] };
    let b = Symbol { atoms: vec![Atom::down(aid(1))] };
    assert!(!intersect_symbols(&a, &b));
}

#[test]
fn sided_merge_interleaves_left_first_on_ties() {
    let l = sym(&[1, 3, 5]).atoms;
    let r = sym(&[2, 3, 6]).atoms;
    let mut m = SidedMerge::new(&l, &r);
    let mut got = Vec::new();
    while let Some(it) = m.next() {
        let owned = it.to_owned();
        got.push((owned.item.id.as_bytes()[15], owned.side));
    }
    assert_eq!(
        got,
        vec![
            (1, ItemSide::Left),
            (2, ItemSide::Right),
            (3, ItemSide::Left),
            (3, ItemSide::Right),
            (5, ItemSide::Left),
            (6, ItemSide::Right),
        ]
    );
    assert!(m.next().is_none());
}

#[test]
fn sided_merge_of_empty_runs_is_empty() {
    let l: Vec<Atom> = Vec::new();
    let r = sym(&[4]).atoms;
    let mut m = SidedMerge::new(&l, &r);
    let it = m.next().unwrap();
    assert_eq!(it.side, ItemSide::Right);
    assert!(m.next().is_none());
}

#[test]
fn sorted_intersect_yields_common_atoms_in_order() {
    let l = sym(&[1, 2, 4, 7, 9]).atoms;
    let r = sym(&[2, 3, 7, 8, 9]).atoms;
    let mut it = SortedIntersect::new(&l, &r);
    let mut got = Vec::new();
    while let Some(a) = it.next() {
        got.push(a.id.as_bytes()[15]);
    }
    assert_eq!(got, vec![2, 7, 9]);
}

#[test]
fn sorted_intersect_of_disjoint_runs_is_empty() {
    let l = sym(&[1, 3]).atoms;
    let r = sym(&[2, 4]).atoms;
    let mut it = SortedIntersect::new(&l, &r);
    assert!(it.next().is_none());
}

#[test]
fn sorted_intersect_counts_repeated_atoms() {
    let l = sym(&[1, 1, 3, 3, 3, 5]).atoms;
    let r = sym(&[1, 3, 3, 4, 5, 5]).atoms;
    let mut it = SortedIntersect::new(&l, &r);
    let mut got = Vec::new();
    while let Some(a) = it.next() {
        got.push(a.id.as_bytes()[15]);
    }
    assert_eq!(got, vec![1, 3, 3, 5]);
    let l = sym(&[1, 3, 5, 7]).atoms;
    let r = sym(&[2, 3, 4, 7]).atoms;
    let mut it = SortedIntersect::new(&l, &r);
    assert_eq!(it.next().unwrap().id.as_bytes()[15], 3);
    assert_eq!(it.next().unwrap().id.as_bytes()[15], 7);
    assert!(it.next().is_none());
}

#[test]
fn sided_merge_puts_left_items_first_among_equals() {
    let l = sym(&[1, 3]).atoms;
    let r = sym(&[2, 3]).atoms;
    let mut m = SidedMerge::new(&l, &r);
    let mut got = Vec::new();
    while let Some(it) = m.next() {
        got.push((it.item.id.as_bytes()[15], it.side));
    }
    assert_eq!(got, vec![(1, ItemSide::Left), (2, ItemSide::Right), (3, ItemSide::Left), (3, ItemSide::Right)]);
}
