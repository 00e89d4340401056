//! Atoms, symbols, analogies and concepts.
use vstd::prelude::*;

use crate::ids::{bytes_value, compare_bytes, AllegationId, Comparison};

verus! {

/// The orientation in which an atom refers to its allegation.
#[derive(PartialEq, Eq, Structural, Clone, Copy, Debug)]
pub enum Spin {
    Up,
    Down,
}

/// One reference to an allegation, with a spin.
#[derive(Clone, Copy, Debug)]
pub struct Atom {
    pub id: AllegationId,
    pub spin: Spin,
}

/// `Up` sorts before `Down`.
pub open spec fn spin_rank(s: Spin) -> nat {
    match s {
        Spin::Up => 0,
        Spin::Down => 1,
    }
}

impl Atom {
    /// The sort key of an atom: atoms are ordered by the bytes of their id, then by spin.
    pub open spec fn key(self) -> nat {
        bytes_value(self.id@) * 2 + spin_rank(self.spin)
    }

    /// An atom that refers to `id` with spin `Up`.
    pub fn up(id: AllegationId) -> (r: Atom)
        ensures
            r.id == id,
            r.spin == Spin::Up,
    {
        Atom { id, spin: Spin::Up }
    }

    /// An atom that refers to `id` with spin `Down`.
    pub fn down(id: AllegationId) -> (r: Atom)
        ensures
            r.id == id,
            r.spin == Spin::Down,
    {
        Atom { id, spin: Spin::Down }
    }
}

/// Compares two atoms in their sort order.
pub fn compare_atoms(a: &Atom, b: &Atom) -> (r: Comparison)
    ensures
        r == Comparison::Less <==> a.key() < b.key(),
        r == Comparison::Equal <==> a.key() == b.key(),
        r == Comparison::Greater <==> a.key() > b.key(),
{
    let ab = a.id.as_bytes();
    let bb = b.id.as_bytes();
    let c = compare_bytes(ab, bb);
    match c {
        Comparison::Less => Comparison::Less,
        Comparison::Greater => Comparison::Greater,
        Comparison::Equal => {
            match (a.spin, b.spin) {
                (Spin::Up, Spin::Down) => Comparison::Less,
                (Spin::Down, Spin::Up) => Comparison::Greater,
                _ => Comparison::Equal,
            }
        },
    }
}

/// Keys strictly ascending: the atoms are sorted and none occurs twice.
pub open spec fn strictly_ascending(atoms: Seq<Atom>) -> bool {
    forall|i: int, j: int| 0 <= i < j < atoms.len() ==> atoms[i].key() < atoms[j].key()
}

/// Whether some atom of `a` and some atom of `b` are equal in the sort order.
pub open spec fn share_atom(a: Seq<Atom>, b: Seq<Atom>) -> bool {
    exists|i: int, j: int| 0 <= i < a.len() && 0 <= j < b.len() && a[i].key() == b[j].key()
}

/// A set of atoms: what a symbol means is the allegations its atoms refer to.
#[derive(Clone, Debug)]
pub struct Symbol {
    pub atoms: Vec<Atom>,
}

impl Symbol {
    /// A well-formed symbol holds its atoms in strictly ascending order.
    pub open spec fn wf(self) -> bool {
        strictly_ascending(self.atoms@)
    }

    /// A symbol of the given atoms, or `None` where there are none.
    pub fn new_option(atoms: Vec<Atom>) -> (r: Option<Symbol>)
        ensures
            atoms@.len() == 0 ==> r is None,
            atoms@.len() > 0 ==> (r matches Some(s) && s.atoms@ == atoms@),
    {
        if atoms.len() == 0 {
            None
        } else {
            Some(Symbol { atoms })
        }
    }
}

/// A pairing of two symbols: `left` stands to `right` as the analogy says.
#[derive(Clone, Debug)]
pub struct Analogy {
    pub left: Symbol,
    pub right: Symbol,
}

impl Analogy {
    /// An analogy that declares `left` to stand to `right`.
    pub fn declarative(left: Symbol, right: Symbol) -> (r: Analogy)
        ensures
            r.left == left,
            r.right == right,
    {
        Analogy { left, right }
    }
}

/// A concept: the allegations that together refer to it.
#[derive(Clone, Debug)]
pub struct Concept {
    pub members: Vec<AllegationId>,
}

} // verus!
