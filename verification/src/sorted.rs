//! Walks over sorted runs of atoms: intersection tests, sided merges and sorted intersections.
use vstd::prelude::*;

use crate::ids::Comparison;
use crate::symbol::{compare_atoms, share_atom, strictly_ascending, Atom, Symbol};

verus! {

/// Whether two symbols have an atom in common, found by walking both in step.
///
/// A `true` answer is always backed by a common atom; on well-formed (strictly ascending)
/// symbols the answer is exact.
pub fn intersect_symbols(symbol_a: &Symbol, symbol_b: &Symbol) -> (r: bool)
    ensures
        r ==> share_atom(symbol_a.atoms@, symbol_b.atoms@),
        symbol_a.wf() && symbol_b.wf() ==> (r <==> share_atom(symbol_a.atoms@, symbol_b.atoms@)),
{
    let a = &symbol_a.atoms;
    let b = &symbol_b.atoms;
    let ghost wf = symbol_a.wf() && symbol_b.wf();
    if a.len() == 0 {
        return false;
    }
    if b.len() == 0 {
        return false;
    }
    let mut i: usize = 0;
    let mut j: usize = 0;
    loop
        invariant
            a@ == symbol_a.atoms@,
            b@ == symbol_b.atoms@,
            i < a@.len(),
            j < b@.len(),
            wf == (strictly_ascending(a@) && strictly_ascending(b@)),
            wf ==> forall|x: int, y: int|
                0 <= x < a@.len() && 0 <= y < b@.len() && (x < i || y < j) ==> a@[x].key()
                    != b@[y].key(),
        decreases a@.len() - i + b@.len() - j,
    {
        let c = compare_atoms(&a[i], &b[j]);
        match c {
            Comparison::Less => {
                proof {
                    if wf {
                        assert forall|y: int| 0 <= y < b@.len() implies a@[i as int].key() != b@[y].key() by {
                            if y > j {
                                assert(b@[j as int].key() < b@[y].key());
                            }
                        }
                    }
                }
                if i == a.len() - 1 {
                    proof {
                        if wf {
                            assert forall|x: int, y: int| 0 <= x < a@.len() && 0 <= y < b@.len() implies a@[x].key() != b@[y].key() by {
                                if x == i {
                                    assert(a@[i as int].key() != b@[y].key());
                                }
                            }
                        }
                    }
                    return false;
                }
                i = i + 1;
            },
            Comparison::Greater => {
                proof {
                    if wf {
                        assert forall|x: int| 0 <= x < a@.len() implies a@[x].key() != b@[j as int].key() by {
                            if x > i {
                                assert(a@[i as int].key() < a@[x].key());
                            }
                        }
                    }
                }
                if j == b.len() - 1 {
                    proof {
                        if wf {
                            assert forall|x: int, y: int| 0 <= x < a@.len() && 0 <= y < b@.len() implies a@[x].key() != b@[y].key() by {
                                if y == j {
                                    assert(a@[x].key() != b@[j as int].key());
                                }
                            }
                        }
                    }
                    return false;
                }
                j = j + 1;
            },
            Comparison::Equal => {
                assert(a@[i as int].key() == b@[j as int].key());
                return true;
            },
        }
    }
}

/// Sharing an atom does not depend on the order of the two runs; so `intersect_symbols` of two
/// well-formed symbols gives one answer whichever way round they are passed.
pub proof fn lemma_share_atom_symmetric(a: Seq<Atom>, b: Seq<Atom>)
    ensures
        share_atom(a, b) == share_atom(b, a),
{
    if share_atom(a, b) {
        let (i, j) = choose|i: int, j: int| 0 <= i < a.len() && 0 <= j < b.len() && a[i].key() == b[j].key();
        assert(0 <= j < b.len() && 0 <= i < a.len() && b[j].key() == a[i].key());
    }
    if share_atom(b, a) {
        let (j, i) = choose|j: int, i: int| 0 <= j < b.len() && 0 <= i < a.len() && b[j].key() == a[i].key();
        assert(0 <= i < a.len() && 0 <= j < b.len() && a[i].key() == b[j].key());
    }
}

/// Which of the two merged runs an item came from.
#[derive(PartialEq, Eq, Structural, Clone, Copy, Debug)]
pub enum ItemSide {
    Left,
    Right,
}

/// An item of a sided merge, tagged with the run it came from.
pub struct SidedMergeItem<T> {
    pub item: T,
    pub side: ItemSide,
}

impl<'a, T: Clone> SidedMergeItem<&'a T> {
    /// The same item, owned: its value is cloned and its side kept.
    pub fn to_owned(self) -> (r: SidedMergeItem<T>)
        ensures
            r.side == self.side,
            cloned(*self.item, r.item),
    {
        SidedMergeItem { item: self.item.clone(), side: self.side }
    }
}

/// Keys never decrease along the run.
pub open spec fn ascending(atoms: Seq<Atom>) -> bool {
    forall|i: int, j: int| 0 <= i <= j < atoms.len() ==> atoms[i].key() <= atoms[j].key()
}

/// The merge takes its next item from the left run: the left run has one and the right
/// run has none, or none smaller. On a tie the left run goes first.
pub open spec fn takes_left(l: Seq<Atom>, r: Seq<Atom>) -> bool {
    l.len() > 0 && (r.len() == 0 || l[0].key() <= r[0].key())
}

/// Everything that a sided merge of `l` and `r` yields, in order, each atom with its side.
pub open spec fn sided_merge(l: Seq<Atom>, r: Seq<Atom>) -> Seq<(Atom, ItemSide)>
    decreases l.len() + r.len(),
{
    if l.len() == 0 && r.len() == 0 {
        Seq::empty()
    } else if takes_left(l, r) {
        seq![(l[0], ItemSide::Left)] + sided_merge(l.drop_first(), r)
    } else {
        seq![(r[0], ItemSide::Right)] + sided_merge(l, r.drop_first())
    }
}

/// The atoms of a tagged run that came from one side, in order.
pub open spec fn side_items(s: Seq<(Atom, ItemSide)>, side: ItemSide) -> Seq<Atom>
    decreases s.len(),
{
    if s.len() == 0 {
        Seq::empty()
    } else if s[0].1 == side {
        seq![s[0].0] + side_items(s.drop_first(), side)
    } else {
        side_items(s.drop_first(), side)
    }
}

/// Keys never decrease along a tagged run.
pub open spec fn ascending_tagged(s: Seq<(Atom, ItemSide)>) -> bool {
    forall|i: int, j: int| 0 <= i <= j < s.len() ==> s[i].0.key() <= s[j].0.key()
}

proof fn lemma_merge_lower_bound(l: Seq<Atom>, r: Seq<Atom>, b: nat)
    requires
        forall|i: int| 0 <= i < l.len() ==> l[i].key() >= b,
        forall|i: int| 0 <= i < r.len() ==> r[i].key() >= b,
    ensures
        forall|k: int| 0 <= k < sided_merge(l, r).len() ==> sided_merge(l, r)[k].0.key() >= b,
    decreases l.len() + r.len(),
{
    let m = sided_merge(l, r);
    if l.len() == 0 && r.len() == 0 {
    } else if takes_left(l, r) {
        lemma_merge_lower_bound(l.drop_first(), r, b);
        let rest = sided_merge(l.drop_first(), r);
        assert forall|k: int| 0 <= k < m.len() implies m[k].0.key() >= b by {
            if k > 0 {
                assert(m[k] == rest[k - 1]);
            }
        }
    } else {
        lemma_merge_lower_bound(l, r.drop_first(), b);
        let rest = sided_merge(l, r.drop_first());
        assert forall|k: int| 0 <= k < m.len() implies m[k].0.key() >= b by {
            if k > 0 {
                assert(m[k] == rest[k - 1]);
            }
        }
    }
}

proof fn lemma_merge_left_bound(l: Seq<Atom>, r: Seq<Atom>, b: nat)
    requires
        forall|i: int| 0 <= i < l.len() ==> l[i].key() >= b,
    ensures
        forall|k: int|
            0 <= k < sided_merge(l, r).len() && sided_merge(l, r)[k].1 == ItemSide::Left
                ==> sided_merge(l, r)[k].0.key() >= b,
    decreases l.len() + r.len(),
{
    let m = sided_merge(l, r);
    if l.len() == 0 && r.len() == 0 {
    } else if takes_left(l, r) {
        lemma_merge_left_bound(l.drop_first(), r, b);
        let rest = sided_merge(l.drop_first(), r);
        assert forall|k: int| 0 <= k < m.len() && m[k].1 == ItemSide::Left implies m[k].0.key() >= b by {
            if k > 0 {
                assert(m[k] == rest[k - 1]);
            }
        }
    } else {
        lemma_merge_left_bound(l, r.drop_first(), b);
        let rest = sided_merge(l, r.drop_first());
        assert forall|k: int| 0 <= k < m.len() && m[k].1 == ItemSide::Left implies m[k].0.key() >= b by {
            if k > 0 {
                assert(m[k] == rest[k - 1]);
            }
        }
    }
}

/// Merging two ascending runs yields an ascending run that holds every item of both: taken
/// side by side, the left items are the left run and the right items the right run; among
/// items with one key, those from the left run come first.
pub proof fn lemma_sided_merge_sorted(l: Seq<Atom>, r: Seq<Atom>)
    requires
        ascending(l),
        ascending(r),
    ensures
        ascending_tagged(sided_merge(l, r)),
        sided_merge(l, r).len() == l.len() + r.len(),
        side_items(sided_merge(l, r), ItemSide::Left) == l,
        side_items(sided_merge(l, r), ItemSide::Right) == r,
        forall|i: int, j: int|
            0 <= i < j < sided_merge(l, r).len() && sided_merge(l, r)[i].0.key() == sided_merge(
                l,
                r,
            )[j].0.key() && sided_merge(l, r)[j].1 == ItemSide::Left ==> sided_merge(l, r)[i].1
                == ItemSide::Left,
    decreases l.len() + r.len(),
{
    let m = sided_merge(l, r);
    if l.len() == 0 && r.len() == 0 {
        assert(l =~= Seq::<Atom>::empty());
        assert(r =~= Seq::<Atom>::empty());
    } else if takes_left(l, r) {
        let l2 = l.drop_first();
        lemma_sided_merge_sorted(l2, r);
        let rest = sided_merge(l2, r);
        lemma_merge_lower_bound(l2, r, l[0].key());
        assert(m == seq![(l[0], ItemSide::Left)] + rest);
        assert(m.drop_first() =~= rest);
        assert forall|i: int, j: int| 0 <= i <= j < m.len() implies m[i].0.key() <= m[j].0.key() by {
            if i > 0 {
                assert(m[i] == rest[i - 1]);
                assert(m[j] == rest[j - 1]);
            } else if j > 0 {
                assert(m[j] == rest[j - 1]);
            }
        }
        assert(side_items(m, ItemSide::Left) == seq![l[0]] + side_items(rest, ItemSide::Left));
        assert(l =~= seq![l[0]] + l2);
        assert(side_items(m, ItemSide::Right) == side_items(rest, ItemSide::Right));
        assert forall|i: int, j: int| 0 <= i < j < m.len() && m[i].0.key() == m[j].0.key() && m[j].1 == ItemSide::Left implies m[i].1 == ItemSide::Left by {
            assert(m[j] == rest[j - 1]);
            if i > 0 {
                assert(m[i] == rest[i - 1]);
            }
        }
    } else {
        let r2 = r.drop_first();
        lemma_sided_merge_sorted(l, r2);
        let rest = sided_merge(l, r2);
        lemma_merge_lower_bound(l, r2, r[0].key());
        assert(m == seq![(r[0], ItemSide::Right)] + rest);
        assert(m.drop_first() =~= rest);
        assert forall|i: int, j: int| 0 <= i <= j < m.len() implies m[i].0.key() <= m[j].0.key() by {
            if i > 0 {
                assert(m[i] == rest[i - 1]);
                assert(m[j] == rest[j - 1]);
            } else if j > 0 {
                assert(m[j] == rest[j - 1]);
            }
        }
        assert(side_items(m, ItemSide::Right) == seq![r[0]] + side_items(rest, ItemSide::Right));
        assert(r =~= seq![r[0]] + r2);
        assert(side_items(m, ItemSide::Left) == side_items(rest, ItemSide::Left));
        if l.len() > 0 {
            lemma_merge_left_bound(l, r2, l[0].key());
        }
        assert forall|i: int, j: int| 0 <= i < j < m.len() && m[i].0.key() == m[j].0.key() && m[j].1 == ItemSide::Left implies m[i].1 == ItemSide::Left by {
            assert(m[j] == rest[j - 1]);
            if i > 0 {
                assert(m[i] == rest[i - 1]);
            } else {
                assert(l.len() > 0);
                assert(l[0].key() > r[0].key());
            }
        }
    }
}

/// A merge of two runs of atoms that tags every item with the run it came from.
pub struct SidedMerge<'a> {
    left: &'a [Atom],
    right: &'a [Atom],
    left_pos: usize,
    right_pos: usize,
}

impl<'a> SidedMerge<'a> {
    /// The part of the left run not yet yielded.
    pub closed spec fn rest_left(self) -> Seq<Atom> {
        self.left@.skip(self.left_pos as int)
    }

    /// The part of the right run not yet yielded.
    pub closed spec fn rest_right(self) -> Seq<Atom> {
        self.right@.skip(self.right_pos as int)
    }

    /// Both positions stand within their runs.
    pub closed spec fn wf(self) -> bool {
        self.left_pos <= self.left@.len() && self.right_pos <= self.right@.len()
    }

    /// A merge of `left` and `right` that has yielded nothing yet.
    pub fn new(left: &'a [Atom], right: &'a [Atom]) -> (r: Self)
        ensures
            r.wf(),
            r.rest_left() == left@,
            r.rest_right() == right@,
    {
        let r = SidedMerge { left, right, left_pos: 0, right_pos: 0 };
        assert(r.left@.skip(0) =~= left@);
        assert(r.right@.skip(0) =~= right@);
        r
    }

    /// The next item: the smaller head of the two runs, the left one on a tie; `None` once
    /// both runs are spent. So the items that successive calls yield, from `new(left, right)`
    /// on, are `sided_merge(left@, right@)`, and then `None`.
    pub fn next(&mut self) -> (r: Option<SidedMergeItem<&'a Atom>>)
        requires
            old(self).wf(),
        ensures
            final(self).wf(),
            ({
                let l = old(self).rest_left();
                let rr = old(self).rest_right();
                match r {
                    None => l.len() == 0 && rr.len() == 0 && final(self).rest_left() == l
                        && final(self).rest_right() == rr,
                    Some(it) => if takes_left(l, rr) {
                        *it.item == l[0] && it.side == ItemSide::Left && final(self).rest_left()
                            == l.drop_first() && final(self).rest_right() == rr
                    } else {
                        *it.item == rr[0] && it.side == ItemSide::Right && final(self).rest_left()
                            == l && final(self).rest_right() == rr.drop_first()
                    },
                }
            }),
            sided_merge(old(self).rest_left(), old(self).rest_right()) == match r {
                None => Seq::<(Atom, ItemSide)>::empty(),
                Some(it) => seq![(*it.item, it.side)] + sided_merge(
                    final(self).rest_left(),
                    final(self).rest_right(),
                ),
            },
    {
        let ghost l = self.rest_left();
        let ghost rr = self.rest_right();
        let has_left = self.left_pos < self.left.len();
        let has_right = self.right_pos < self.right.len();
        let go_left = if has_left && has_right {
            match compare_atoms(&self.left[self.left_pos], &self.right[self.right_pos]) {
                Comparison::Greater => false,
                _ => true,
            }
        } else {
            has_left
        };
        if go_left {
            let item = &self.left[self.left_pos];
            self.left_pos = self.left_pos + 1;
            assert(self.rest_left() =~= l.drop_first());
            Some(SidedMergeItem { item, side: ItemSide::Left })
        } else if has_right {
            let item = &self.right[self.right_pos];
            self.right_pos = self.right_pos + 1;
            assert(self.rest_right() =~= rr.drop_first());
            Some(SidedMergeItem { item, side: ItemSide::Right })
        } else {
            None
        }
    }
}

/// The inner walk of a sorted intersection: `x` and `y` are the current heads, `l` and `r` what
/// is left behind them. Yields the first pair of equal heads and what is left behind them, or
/// `None` once a run is spent.
pub open spec fn intersect_scan(l: Seq<Atom>, r: Seq<Atom>, x: Atom, y: Atom) -> (Option<Atom>, Seq<Atom>, Seq<Atom>)
    decreases l.len() + r.len(),
{
    if x.key() < y.key() {
        if l.len() == 0 {
            (None, l, r)
        } else {
            intersect_scan(l.drop_first(), r, l[0], y)
        }
    } else if x.key() > y.key() {
        if r.len() == 0 {
            (None, l, r)
        } else {
            intersect_scan(l, r.drop_first(), x, r[0])
        }
    } else {
        (Some(x), l, r)
    }
}

/// One step of a sorted intersection over the runs `l` and `r`: what it yields and what is left
/// of each run. Both heads are taken before they are compared; where the right run is empty
/// the left head is spent all the same.
pub open spec fn intersect_step(l: Seq<Atom>, r: Seq<Atom>) -> (Option<Atom>, Seq<Atom>, Seq<Atom>) {
    if l.len() == 0 {
        (None, l, r)
    } else if r.len() == 0 {
        (None, l.drop_first(), r)
    } else {
        intersect_scan(l.drop_first(), r.drop_first(), l[0], r[0])
    }
}

/// How many atoms of `s` have the key `k`.
pub open spec fn key_count(s: Seq<Atom>, k: nat) -> nat
    decreases s.len(),
{
    if s.len() == 0 {
        0
    } else {
        (if s[0].key() == k { 1nat } else { 0nat }) + key_count(s.drop_first(), k)
    }
}

/// The smaller of two counts.
pub open spec fn min_count(a: nat, b: nat) -> nat {
    if a <= b {
        a
    } else {
        b
    }
}

proof fn lemma_count_cons(x: Atom, l: Seq<Atom>, k: nat)
    ensures
        key_count(seq![x] + l, k) == (if x.key() == k { 1nat } else { 0nat }) + key_count(l, k),
{
    let f = seq![x] + l;
    assert(f.drop_first() =~= l);
    assert(f[0] == x);
}

proof fn lemma_count_absent(s: Seq<Atom>, k: nat)
    requires
        forall|i: int| 0 <= i < s.len() ==> #[trigger] s[i].key() != k,
    ensures
        key_count(s, k) == 0,
    decreases s.len(),
{
    if s.len() > 0 {
        assert(s[0].key() != k);
        assert forall|i: int| 0 <= i < s.drop_first().len() implies #[trigger] s.drop_first()[i].key() != k by {
            assert(s.drop_first()[i] == s[i + 1]);
        }
        lemma_count_absent(s.drop_first(), k);
    }
}

proof fn lemma_count_present(s: Seq<Atom>, k: nat)
    requires
        key_count(s, k) > 0,
    ensures
        exists|i: int| 0 <= i < s.len() && #[trigger] s[i].key() == k,
    decreases s.len(),
{
    if s[0].key() != k {
        lemma_count_present(s.drop_first(), k);
        let i = choose|i: int| 0 <= i < s.drop_first().len() && #[trigger] s.drop_first()[i].key() == k;
        assert(s[i + 1] == s.drop_first()[i]);
    }
}

proof fn lemma_ascending_tail(x: Atom, l: Seq<Atom>)
    requires
        ascending(seq![x] + l),
    ensures
        ascending(l),
        forall|i: int| 0 <= i < l.len() ==> x.key() <= #[trigger] l[i].key(),
        l.len() > 0 ==> seq![l[0]] + l.drop_first() == l,
{
    let f = seq![x] + l;
    assert forall|i: int, j: int| 0 <= i <= j < l.len() implies l[i].key() <= l[j].key() by {
        assert(f[i + 1] == l[i]);
        assert(f[j + 1] == l[j]);
    }
    assert forall|i: int| 0 <= i < l.len() implies x.key() <= #[trigger] l[i].key() by {
        assert(f[i + 1] == l[i]);
        assert(f[0] == x);
    }
    if l.len() > 0 {
        assert(seq![l[0]] + l.drop_first() =~= l);
    }
}

/// What the inner walk finds, on ascending runs `x` then `l` and `y` then `r`: it leaves
/// suffixes of `l` and `r` behind. Where it yields `z`, `z` is an atom of the left run, no
/// key below `z`'s is in both runs, and each run holds, at `z`'s key and above, what is left
/// of it plus the one atom at `z`'s key that the walk consumed. Where it yields nothing, no
/// key is in both runs.
proof fn lemma_intersect_scan(l: Seq<Atom>, r: Seq<Atom>, x: Atom, y: Atom)
    requires
        ascending(seq![x] + l),
        ascending(seq![y] + r),
    ensures
        ({
            let (o, l2, r2) = intersect_scan(l, r, x, y);
            let fl = seq![x] + l;
            let fr = seq![y] + r;
            &&& exists|a: int| 0 <= a <= l.len() && l2 == l.skip(a)
            &&& exists|b: int| 0 <= b <= r.len() && r2 == r.skip(b)
            &&& match o {
                None => forall|k: nat| key_count(fl, k) == 0 || key_count(fr, k) == 0,
                Some(z) => {
                    &&& fl.contains(z)
                    &&& forall|k: nat| k < z.key() ==> key_count(fl, k) == 0 || key_count(fr, k) == 0
                    &&& forall|k: nat| k >= z.key() ==> key_count(fl, k) == key_count(l2, k) + (if k == z.key() { 1nat } else { 0nat })
                    &&& forall|k: nat| k >= z.key() ==> key_count(fr, k) == key_count(r2, k) + (if k == z.key() { 1nat } else { 0nat })
                    &&& forall|i: int| 0 <= i < l2.len() ==> #[trigger] l2[i].key() >= z.key()
                    &&& forall|i: int| 0 <= i < r2.len() ==> #[trigger] r2[i].key() >= z.key()
                    &&& ascending(l2)
                    &&& ascending(r2)
                },
            }
        }),
    decreases l.len() + r.len(),
{
    let fl = seq![x] + l;
    let fr = seq![y] + r;
    lemma_ascending_tail(x, l);
    lemma_ascending_tail(y, r);
    assert(fl[0] == x);
    assert(fr[0] == y);
    assert(l.skip(0) =~= l);
    assert(r.skip(0) =~= r);
    if x.key() < y.key() {
        assert forall|i: int| 0 <= i < fr.len() implies #[trigger] fr[i].key() != x.key() by {
            if i > 0 {
                assert(fr[i] == r[i - 1]);
            }
        }
        lemma_count_absent(fr, x.key());
        if l.len() == 0 {
            assert forall|k: nat| key_count(fl, k) == 0 || key_count(fr, k) == 0 by {
                lemma_count_cons(x, l, k);
            }
        } else {
            let l1 = l.drop_first();
            lemma_intersect_scan(l1, r, l[0], y);
            let (o, l2, r2) = intersect_scan(l1, r, l[0], y);
            let a = choose|a: int| 0 <= a <= l1.len() && l2 == l1.skip(a);
            assert(l2 =~= l.skip(a + 1));
            match o {
                None => {
                    assert forall|k: nat| key_count(fl, k) == 0 || key_count(fr, k) == 0 by {
                        lemma_count_cons(x, l, k);
                    }
                },
                Some(z) => {
                    let i = choose|i: int| 0 <= i < l.len() && l[i] == z;
                    assert(fl[i + 1] == z);
                    assert(key_count(fr, z.key()) > 0);
                    lemma_count_present(fr, z.key());
                    let j = choose|j: int| 0 <= j < fr.len() && #[trigger] fr[j].key() == z.key();
                    if j > 0 {
                        assert(fr[j] == r[j - 1]);
                    }
                    assert(z.key() >= y.key());
                    assert forall|k: nat| k < z.key() implies key_count(fl, k) == 0 || key_count(fr, k) == 0 by {
                        lemma_count_cons(x, l, k);
                    }
                    assert forall|k: nat| k >= z.key() implies key_count(fl, k) == key_count(l2, k) + (if k == z.key() { 1nat } else { 0nat }) by {
                        lemma_count_cons(x, l, k);
                    }
                },
            }
        }
    } else if x.key() > y.key() {
        assert forall|i: int| 0 <= i < fl.len() implies #[trigger] fl[i].key() != y.key() by {
            if i > 0 {
                assert(fl[i] == l[i - 1]);
            }
        }
        lemma_count_absent(fl, y.key());
        if r.len() == 0 {
            assert forall|k: nat| key_count(fl, k) == 0 || key_count(fr, k) == 0 by {
                lemma_count_cons(y, r, k);
            }
        } else {
            let r1 = r.drop_first();
            lemma_intersect_scan(l, r1, x, r[0]);
            let (o, l2, r2) = intersect_scan(l, r1, x, r[0]);
            let b = choose|b: int| 0 <= b <= r1.len() && r2 == r1.skip(b);
            assert(r2 =~= r.skip(b + 1));
            match o {
                None => {
                    assert forall|k: nat| key_count(fl, k) == 0 || key_count(fr, k) == 0 by {
                        lemma_count_cons(y, r, k);
                    }
                },
                Some(z) => {
                    let i = choose|i: int| 0 <= i < fl.len() && fl[i] == z;
                    assert(z.key() >= x.key());
                    assert forall|k: nat| k < z.key() implies key_count(fl, k) == 0 || key_count(fr, k) == 0 by {
                        lemma_count_cons(y, r, k);
                    }
                    assert forall|k: nat| k >= z.key() implies key_count(fr, k) == key_count(r2, k) + (if k == z.key() { 1nat } else { 0nat }) by {
                        lemma_count_cons(y, r, k);
                    }
                },
            }
        }
    } else {
        assert(fl.contains(x));
        assert forall|k: nat| k < x.key() implies key_count(fl, k) == 0 || key_count(fr, k) == 0 by {
            assert forall|i: int| 0 <= i < fl.len() implies #[trigger] fl[i].key() != k by {
                if i > 0 {
                    assert(fl[i] == l[i - 1]);
                }
            }
            lemma_count_absent(fl, k);
        }
        assert forall|k: nat| k >= x.key() implies key_count(fl, k) == key_count(l, k) + (if k == x.key() { 1nat } else { 0nat }) by {
            lemma_count_cons(x, l, k);
        }
        assert forall|k: nat| k >= x.key() implies key_count(fr, k) == key_count(r, k) + (if k == x.key() { 1nat } else { 0nat }) by {
            lemma_count_cons(y, r, k);
        }
    }
}

/// A step that yields an atom consumes from both runs.
pub proof fn lemma_intersect_step_shrinks(l: Seq<Atom>, r: Seq<Atom>)
    ensures
        ({
            let (o, l2, r2) = intersect_step(l, r);
            o is Some ==> l2.len() < l.len() && r2.len() < r.len()
        }),
{
    if l.len() > 0 && r.len() > 0 {
        lemma_intersect_scan_shrinks(l.drop_first(), r.drop_first(), l[0], r[0]);
    }
}

/// The inner walk leaves no more of either run than it was given.
pub proof fn lemma_intersect_scan_shrinks(l: Seq<Atom>, r: Seq<Atom>, x: Atom, y: Atom)
    ensures
        intersect_scan(l, r, x, y).1.len() <= l.len(),
        intersect_scan(l, r, x, y).2.len() <= r.len(),
    decreases l.len() + r.len(),
{
    if x.key() < y.key() {
        if l.len() > 0 {
            lemma_intersect_scan_shrinks(l.drop_first(), r, l[0], y);
        }
    } else if x.key() > y.key() {
        if r.len() > 0 {
            lemma_intersect_scan_shrinks(l, r.drop_first(), x, r[0]);
        }
    }
}

/// Everything that a sorted intersection of `l` and `r` yields before its first `None`.
pub open spec fn intersect_all(l: Seq<Atom>, r: Seq<Atom>) -> Seq<Atom>
    decreases l.len() + r.len(),
{
    let step = intersect_step(l, r);
    match step.0 {
        None => Seq::empty(),
        Some(x) => {
            proof {
                lemma_intersect_step_shrinks(l, r);
            }
            seq![x] + intersect_all(step.1, step.2)
        },
    }
}

/// On ascending runs, a sorted intersection yields, in ascending order, atoms of the left run,
/// and each key as many times as the run that holds it fewer times holds it: the intersection
/// of the two runs counted with repetition.
pub proof fn lemma_intersect_all(l: Seq<Atom>, r: Seq<Atom>)
    requires
        ascending(l),
        ascending(r),
    ensures
        ascending(intersect_all(l, r)),
        forall|i: int| 0 <= i < intersect_all(l, r).len() ==> l.contains(#[trigger] intersect_all(l, r)[i]),
        forall|k: nat| key_count(intersect_all(l, r), k) == min_count(key_count(l, k), key_count(r, k)),
    decreases l.len() + r.len(),
{
    let res = intersect_all(l, r);
    if l.len() == 0 {
        assert forall|k: nat| key_count(res, k) == min_count(key_count(l, k), key_count(r, k)) by {}
    } else if r.len() == 0 {
        assert forall|k: nat| key_count(res, k) == min_count(key_count(l, k), key_count(r, k)) by {}
    } else {
        let l1 = l.drop_first();
        let r1 = r.drop_first();
        assert(seq![l[0]] + l1 =~= l);
        assert(seq![r[0]] + r1 =~= r);
        lemma_intersect_scan(l1, r1, l[0], r[0]);
        let (o, l2, r2) = intersect_scan(l1, r1, l[0], r[0]);
        match o {
            None => {
                assert forall|k: nat| key_count(res, k) == min_count(key_count(l, k), key_count(r, k)) by {}
            },
            Some(z) => {
                lemma_intersect_step_shrinks(l, r);
                let a = choose|a: int| 0 <= a <= l1.len() && l2 == l1.skip(a);
                lemma_intersect_all(l2, r2);
                let rest = intersect_all(l2, r2);
                assert(res == seq![z] + rest);
                assert forall|i: int| 0 <= i < res.len() implies l.contains(#[trigger] res[i]) by {
                    if i > 0 {
                        assert(res[i] == rest[i - 1]);
                        let j = choose|j: int| 0 <= j < l2.len() && l2[j] == rest[i - 1];
                        assert(l[a + 1 + j] == l2[j]);
                    }
                }
                assert forall|i: int| 0 <= i < rest.len() implies z.key() <= #[trigger] rest[i].key() by {
                    let j = choose|j: int| 0 <= j < l2.len() && l2[j] == rest[i];
                }
                assert forall|i: int, j: int| 0 <= i <= j < res.len() implies res[i].key() <= res[j].key() by {
                    if j > 0 {
                        assert(res[j] == rest[j - 1]);
                    }
                    if i > 0 {
                        assert(res[i] == rest[i - 1]);
                    }
                }
                assert forall|k: nat| key_count(res, k) == min_count(key_count(l, k), key_count(r, k)) by {
                    lemma_count_cons(z, rest, k);
                    if k < z.key() {
                        assert forall|i: int| 0 <= i < l2.len() implies #[trigger] l2[i].key() != k by {}
                        lemma_count_absent(l2, k);
                    }
                }
            },
        }
    }
}

/// A walk over two sorted runs of atoms that yields the atoms they have in common.
pub struct SortedIntersect<'a> {
    left: &'a [Atom],
    right: &'a [Atom],
    left_pos: usize,
    right_pos: usize,
}

impl<'a> SortedIntersect<'a> {
    /// The part of the left run not yet consumed.
    pub closed spec fn rest_left(self) -> Seq<Atom> {
        self.left@.skip(self.left_pos as int)
    }

    /// The part of the right run not yet consumed.
    pub closed spec fn rest_right(self) -> Seq<Atom> {
        self.right@.skip(self.right_pos as int)
    }

    /// Both positions stand within their runs.
    pub closed spec fn wf(self) -> bool {
        self.left_pos <= self.left@.len() && self.right_pos <= self.right@.len()
    }

    /// An intersection of `left` and `right` that has consumed nothing yet.
    pub fn new(left: &'a [Atom], right: &'a [Atom]) -> (r: Self)
        ensures
            r.wf(),
            r.rest_left() == left@,
            r.rest_right() == right@,
    {
        let r = SortedIntersect { left, right, left_pos: 0, right_pos: 0 };
        assert(r.left@.skip(0) =~= left@);
        assert(r.right@.skip(0) =~= right@);
        r
    }

    /// The next common atom, as `intersect_step` says, with the runs consumed up to it. So the
    /// atoms that successive calls yield, from `new(left, right)` on until the first `None`,
    /// are `intersect_all(left@, right@)`.
    pub fn next(&mut self) -> (r: Option<&'a Atom>)
        requires
            old(self).wf(),
        ensures
            final(self).wf(),
            ({
                let step = intersect_step(old(self).rest_left(), old(self).rest_right());
                &&& final(self).rest_left() == step.1
                &&& final(self).rest_right() == step.2
                &&& match r {
                    None => step.0 is None,
                    Some(x) => step.0 == Some(*x),
                }
            }),
            intersect_all(old(self).rest_left(), old(self).rest_right()) == match r {
                None => Seq::<Atom>::empty(),
                Some(x) => seq![*x] + intersect_all(final(self).rest_left(), final(self).rest_right()),
            },
    {
        let ghost l0 = self.rest_left();
        let ghost r0 = self.rest_right();
        if self.left_pos >= self.left.len() {
            return None;
        }
        let mut x = &self.left[self.left_pos];
        self.left_pos = self.left_pos + 1;
        assert(self.rest_left() =~= l0.drop_first());
        if self.right_pos >= self.right.len() {
            return None;
        }
        let mut y = &self.right[self.right_pos];
        self.right_pos = self.right_pos + 1;
        assert(self.rest_right() =~= r0.drop_first());
        let ghost goal = intersect_step(l0, r0);
        loop
            invariant
                self.wf(),
                intersect_scan(self.rest_left(), self.rest_right(), *x, *y) == goal,
                goal == intersect_step(old(self).rest_left(), old(self).rest_right()),
                self.left@ == old(self).left@,
                self.right@ == old(self).right@,
            decreases self.rest_left().len() + self.rest_right().len(),
        {
            let ghost lr = self.rest_left();
            let ghost rr = self.rest_right();
            match compare_atoms(x, y) {
                Comparison::Less => {
                    if self.left_pos >= self.left.len() {
                        return None;
                    }
                    x = &self.left[self.left_pos];
                    self.left_pos = self.left_pos + 1;
                    assert(self.rest_left() =~= lr.drop_first());
                },
                Comparison::Greater => {
                    if self.right_pos >= self.right.len() {
                        return None;
                    }
                    y = &self.right[self.right_pos];
                    self.right_pos = self.right_pos + 1;
                    assert(self.rest_right() =~= rr.drop_first());
                },
                Comparison::Equal => {
                    return Some(x);
                },
            }
        }
    }
}

} // verus!
