//! The ground-symbol search: finding the symbols that grounding agents already use for an
//! artifact or for a pair of symbols, and deciding when new ones must be made.
//!
//! The search reads and writes the store. Here stand its decisions, over what the store
//! returned: the agents' index entries for an artifact, the allegations to search for
//! analogies, and the nodes found below a pair.
use vstd::prelude::*;

use crate::allegation::{Allegation, Body};
use crate::ids::{
    bytes_value, compare_bytes, lemma_agent_id_len, lemma_bytes_value_split, lemma_allegation_id_len, AgentId,
    AllegationId, ArtifactId, Comparison,
};
use crate::mbql::ast::{Artifact, GroundPair, GroundSymbolizable, SymbolVar};
use crate::mbql::error::{MBQLError, MBQLErrorKind, Position};
use crate::sorted::intersect_symbols;
use crate::symbol::{share_atom, strictly_ascending, Analogy, Atom, Spin, Symbol};
use crate::wrappers::{
    entities_ascending, entity, entity_count, has_entity, insert_entity16, lemma_entity_bounds,
    lemma_has_entity_len,
};
use std::rc::Rc;

verus! {

broadcast use {lemma_agent_id_len, lemma_allegation_id_len};

/// One entry of the index of atoms by artifact and agent: the key is the artifact id followed
/// by the agent id (thirty-two bytes each), the value a packed, sorted list of the sixteen-byte
/// allegation ids that symbolize the artifact for that agent.
pub struct IndexEntry {
    pub key: Vec<u8>,
    pub atoms: Vec<u8>,
}

/// The agent named by an index key: its bytes 32 to 64.
pub open spec fn key_agent(key: Seq<u8>) -> Seq<u8> {
    key.subrange(32, 64)
}

/// Thirty-two zero bytes.
pub open spec fn zeros32() -> Seq<u8> {
    Seq::new(32, |i: int| 0u8)
}

/// The state of one ground-symbol search: the grounding agents, and the bounds of the
/// index range that the current artifact is looked up in.
pub struct GSContext {
    scan_min: [u8; 64],
    scan_max: [u8; 64],
    gs_agents: Vec<AgentId>,
}

impl GSContext {
    /// The grounding agents, in the order they were given.
    pub closed spec fn agents(self) -> Seq<AgentId> {
        self.gs_agents@
    }

    /// The lower bound of the index range to scan.
    pub closed spec fn scan_min_view(self) -> Seq<u8> {
        self.scan_min@
    }

    /// The upper bound of the index range to scan.
    pub closed spec fn scan_max_view(self) -> Seq<u8> {
        self.scan_max@
    }

    /// The grounding agents are sorted strictly by their bytes, as a binary search needs.
    pub open spec fn agents_sorted(self) -> bool {
        forall|i: int, j: int|
            0 <= i < j < self.agents().len() ==> bytes_value(self.agents()[i]@) < bytes_value(
                self.agents()[j]@,
            )
    }

    /// Whether `agent` is the bytes of a grounding agent.
    pub open spec fn is_ground_agent(self, agent: Seq<u8>) -> bool {
        exists|i: int| 0 <= i < self.agents().len() && #[trigger] self.agents()[i]@ == agent
    }

    /// Whether an index entry is one of a grounding agent.
    pub open spec fn selects(self, e: IndexEntry) -> bool {
        self.is_ground_agent(key_agent(e.key@))
    }

    /// Whether some index entry of a grounding agent lists `id`.
    pub open spec fn listed(self, entries: Seq<IndexEntry>, id: Seq<u8>) -> bool {
        exists|k: int|
            0 <= k < entries.len() && self.selects(entries[k]) && has_entity(
                #[trigger] entries[k].atoms@,
                id,
            )
    }

    /// A search over the given grounding agents. Both scan bounds start with thirty-two zero
    /// bytes; the lower one ends with the first agent, the upper one with the last.
    pub fn new(gs_agents: Vec<AgentId>) -> (r: Self)
        requires
            gs_agents@.len() > 0,
        ensures
            r.agents() == gs_agents@,
            r.scan_min_view() == zeros32() + gs_agents@[0]@,
            r.scan_max_view() == zeros32() + gs_agents@.last()@,
    {
        let mut scan_min: [u8; 64] = [0u8; 64];
        let mut scan_max: [u8; 64] = [0u8; 64];
        let first = gs_agents[0].as_bytes();
        let last = gs_agents[gs_agents.len() - 1].as_bytes();
        let mut i: usize = 0;
        while i < 32
            invariant
                i <= 32,
                first@.len() == 32,
                last@.len() == 32,
                forall|k: int| 0 <= k < 32 ==> scan_min@[k] == 0u8 && scan_max@[k] == 0u8,
                forall|k: int| 0 <= k < i ==> scan_min@[32 + k] == first@[k],
                forall|k: int| 0 <= k < i ==> scan_max@[32 + k] == last@[k],
                scan_min@.len() == 64,
                scan_max@.len() == 64,
            decreases 32 - i,
        {
            scan_min[32 + i] = first[i];
            scan_max[32 + i] = last[i];
            i = i + 1;
        }
        assert(scan_min@ =~= zeros32() + gs_agents@[0]@);
        assert(scan_max@ =~= zeros32() + gs_agents@.last()@);
        GSContext { scan_min, scan_max, gs_agents }
    }

    /// The bounds of the index range to scan, lower then upper.
    pub fn scan_bounds(&self) -> (r: (&[u8; 64], &[u8; 64]))
        ensures
            r.0@ == self.scan_min_view(),
            r.1@ == self.scan_max_view(),
    {
        (&self.scan_min, &self.scan_max)
    }

    /// Points the scan at an artifact: both bounds begin with its id and keep their agents.
    pub fn set_scan_artifact(&mut self, search_artifact_id: &ArtifactId)
        ensures
            final(self).agents() == old(self).agents(),
            final(self).scan_min_view() == search_artifact_id@ + old(self).scan_min_view().skip(32),
            final(self).scan_max_view() == search_artifact_id@ + old(self).scan_max_view().skip(32),
    {
        let id = search_artifact_id.as_bytes();
        let mut scan_min = self.scan_min;
        let mut scan_max = self.scan_max;
        let mut i: usize = 0;
        while i < 32
            invariant
                i <= 32,
                id@.len() == 32,
                scan_min@.len() == 64,
                scan_max@.len() == 64,
                forall|k: int| 0 <= k < i ==> scan_min@[k] == id@[k] && scan_max@[k] == id@[k],
                forall|k: int| 32 <= k < 64 ==> scan_min@[k] == old(self).scan_min@[k] && scan_max@[k] == old(self).scan_max@[k],
            decreases 32 - i,
        {
            scan_min[i] = id[i];
            scan_max[i] = id[i];
            i = i + 1;
        }
        assert(scan_min@ =~= search_artifact_id@ + old(self).scan_min@.skip(32));
        assert(scan_max@ =~= search_artifact_id@ + old(self).scan_max@.skip(32));
        self.scan_min = scan_min;
        self.scan_max = scan_max;
    }

    /// The broadest symbol for an artifact: every allegation that an index entry of a
    /// grounding agent lists for it, each as an `Up` atom, in ascending order; `None` where
    /// there is none. `entries` are what the scan of the current range returned.
    ///
    /// The symbol holds exactly the listed ids.
    pub fn unrefined_symbol_for_artifact(&self, entries: &[IndexEntry]) -> (r: Option<Symbol>)
        requires
            forall|k: int| #![trigger entries@[k]] 0 <= k < entries@.len() ==> entries@[k].key@.len() >= 64,
            forall|k: int| #![trigger entries@[k]] 0 <= k < entries@.len() ==> entities_ascending(entries@[k].atoms@),
        ensures
            match r {
                None => forall|id: Seq<u8>| !self.listed(entries@, id),
                Some(s) => {
                    &&& s.wf()
                    &&& s.atoms@.len() > 0
                    &&& forall|i: int| 0 <= i < s.atoms@.len() ==> #[trigger] s.atoms@[i].spin == Spin::Up
                    &&& forall|i: int| 0 <= i < s.atoms@.len() ==> self.listed(entries@, #[trigger] s.atoms@[i].id@)
                    &&& forall|id: Seq<u8>| #[trigger] self.listed(entries@, id) ==> exists|i: int| 0 <= i < s.atoms@.len() && s.atoms@[i].id@ == id
                },
            },
    {
        let mut unified: Vec<u8> = Vec::new();
        let mut k: usize = 0;
        while k < entries.len()
            invariant
                k <= entries@.len(),
                forall|m: int| #![trigger entries@[m]] 0 <= m < entries@.len() ==> entries@[m].key@.len() >= 64,
                forall|m: int| #![trigger entries@[m]] 0 <= m < entries@.len() ==> entities_ascending(entries@[m].atoms@),
                entities_ascending(unified@),
                forall|e: Seq<u8>| #[trigger] has_entity(unified@, e) ==> self.listed(entries@.take(k as int), e),
                forall|e: Seq<u8>| e.len() == 16 && #[trigger] self.listed(entries@.take(k as int), e) ==> has_entity(unified@, e),
            decreases entries@.len() - k,
        {
            let entry = &entries[k];
            let ghost before = unified@;
            let ghost pre = entries@.take(k as int);
            let ghost post = entries@.take(k + 1);
            assert(post =~= pre.push(entries@[k as int]));
            assert forall|e: Seq<u8>| self.listed(pre, e) implies self.listed(post, e) by {
                let m = choose|m: int| 0 <= m < pre.len() && self.selects(pre[m]) && has_entity(#[trigger] pre[m].atoms@, e);
                assert(post[m] == pre[m]);
            }
            if self.key_has_ground_agent(&entry.key) {
                let atoms = &entry.atoms;
                assert(entities_ascending(atoms@));
                if unified.len() == 0 {
                    let mut j: usize = 0;
                    while j < atoms.len()
                        invariant
                            j <= atoms@.len(),
                            unified@ == atoms@.take(j as int),
                        decreases atoms@.len() - j,
                    {
                        unified.push(atoms[j]);
                        assert(atoms@.take(j + 1) =~= atoms@.take(j as int).push(atoms@[j as int]));
                        j = j + 1;
                    }
                    assert(unified@ =~= atoms@);
                    assert forall|e: Seq<u8>| #[trigger] has_entity(unified@, e) implies self.listed(post, e) by {
                        assert(post[k as int] == entries@[k as int]);
                    }
                    proof {
                        assert forall|e: Seq<u8>| e.len() == 16 && #[trigger] self.listed(post, e) implies has_entity(unified@, e) by {
                            let m = choose|m: int| 0 <= m < post.len() && self.selects(post[m]) && has_entity(#[trigger] post[m].atoms@, e);
                            if m < k {
                                assert(pre[m] == post[m]);
                                assert(self.listed(pre, e));
                                assert(has_entity(before, e));
                                let i = choose|i: int| 0 <= i < entity_count(before) && #[trigger] entity(before, i) == e;
                                assert(false);
                            }
                        }
                    }
                } else {
                    let alen = atoms.len();
                    let n = alen / 16;
                    let mut c: usize = 0;
                    while c < n
                        invariant
                            c <= n,
                            alen == atoms@.len(),
                            n == entity_count(atoms@),
                            atoms@.len() % 16 == 0,
                            entities_ascending(unified@),
                            forall|e: Seq<u8>| e.len() == 16 ==> (#[trigger] has_entity(unified@, e) <==> (has_entity(before, e) || exists|i: int| 0 <= i < c && entity(atoms@, i) == e)),
                        decreases n - c,
                    {
                        proof {
                            lemma_entity_bounds(atoms@, c as int);
                        }
                        let chunk = vstd::slice::slice_subrange(atoms.as_slice(), 16 * c, 16 * c + 16);
                        assert(chunk@ == entity(atoms@, c as int));
                        let ghost u0 = unified@;
                        insert_entity16(&mut unified, chunk);
                        assert forall|e: Seq<u8>| e.len() == 16 implies (#[trigger] has_entity(unified@, e) <==> (has_entity(before, e) || exists|i: int| 0 <= i < c + 1 && entity(atoms@, i) == e)) by {
                            assert(has_entity(u0, e) <==> (has_entity(before, e) || exists|i: int| 0 <= i < c && entity(atoms@, i) == e));
                            if exists|i: int| 0 <= i < c + 1 && entity(atoms@, i) == e {
                                let i = choose|i: int| 0 <= i < c + 1 && entity(atoms@, i) == e;
                                if i < c {
                                } else {
                                    assert(chunk@ == e);
                                }
                            }
                            if e == chunk@ {
                                assert(entity(atoms@, c as int) == e);
                            }
                        }
                        c = c + 1;
                    }
                    assert forall|e: Seq<u8>| #[trigger] has_entity(unified@, e) implies self.listed(post, e) by {
                        assert(post[k as int] == entries@[k as int]);
                        if has_entity(before, e) {
                        } else {
                            let i = choose|i: int| 0 <= i < n && entity(atoms@, i) == e;
                            assert(has_entity(atoms@, e));
                        }
                    }
                    proof {
                        assert forall|e: Seq<u8>| e.len() == 16 && #[trigger] self.listed(post, e) implies has_entity(unified@, e) by {
                            let m = choose|m: int| 0 <= m < post.len() && self.selects(post[m]) && has_entity(#[trigger] post[m].atoms@, e);
                            if m < k {
                                assert(pre[m] == post[m]);
                                assert(self.listed(pre, e));
                            } else {
                                let i = choose|i: int| 0 <= i < entity_count(atoms@) && #[trigger] entity(atoms@, i) == e;
                            }
                        }
                    }
                }
            } else {
                proof {
                    assert forall|e: Seq<u8>| e.len() == 16 && #[trigger] self.listed(post, e) implies has_entity(unified@, e) by {
                        let m = choose|m: int| 0 <= m < post.len() && self.selects(post[m]) && has_entity(#[trigger] post[m].atoms@, e);
                        if m < k {
                            assert(pre[m] == post[m]);
                            assert(self.listed(pre, e));
                        }
                    }
                }
            }
            k = k + 1;
        }
        assert(entries@.take(entries@.len() as int) =~= entries@);
        let ulen = unified.len();
        let count = ulen / 16;
        let mut out: Vec<Atom> = Vec::new();
        let mut c: usize = 0;
        while c < count
            invariant
                c <= count,
                ulen == unified@.len(),
                count == entity_count(unified@),
                entities_ascending(unified@),
                out@.len() == c,
                forall|i: int| #![trigger out@[i]] 0 <= i < c ==> out@[i].id@ == entity(unified@, i) && out@[i].spin == Spin::Up,
            decreases count - c,
        {
            let mut bytes: [u8; 16] = [0u8; 16];
            let mut b: usize = 0;
            while b < 16
                invariant
                    b <= 16,
                    c < count,
                    ulen == unified@.len(),
                    count == entity_count(unified@),
                    bytes@.len() == 16,
                    forall|t: int| 0 <= t < b ==> bytes@[t] == unified@[16 * c + t],
                decreases 16 - b,
            {
                proof {
                    lemma_entity_bounds(unified@, c as int);
                }
                bytes[b] = unified[16 * c + b];
                b = b + 1;
            }
            proof {
                lemma_entity_bounds(unified@, c as int);
            }
            assert(bytes@ =~= entity(unified@, c as int));
            let id = AllegationId::from_bytes(bytes);
            let atom = Atom::up(id);
            assert(atom.id@ == entity(unified@, c as int));
            let ghost out0 = out@;
            out.push(atom);
            assert(out@[c as int] == atom);
            assert forall|i: int| 0 <= i < c implies out@[i] == out0[i] by {}
            c = c + 1;
        }
        assert forall|i: int, j: int| 0 <= i < j < out@.len() implies out@[i].key() < out@[j].key() by {
            assert(bytes_value(entity(unified@, i)) < bytes_value(entity(unified@, j)));
        }
        assert forall|id: Seq<u8>| #[trigger] self.listed(entries@, id) implies exists|i: int| 0 <= i < out@.len() && out@[i].id@ == id by {
            let k = choose|k: int| 0 <= k < entries@.len() && self.selects(entries@[k]) && has_entity(#[trigger] entries@[k].atoms@, id);
            let t = choose|t: int| 0 <= t < entity_count(entries@[k].atoms@) && #[trigger] entity(entries@[k].atoms@, t) == id;
            lemma_has_entity_len(entries@[k].atoms@, id);
            assert(self.listed(entries@.take(entries@.len() as int), id));
            assert(has_entity(unified@, id));
            let i = choose|i: int| 0 <= i < entity_count(unified@) && #[trigger] entity(unified@, i) == id;
            assert(out@[i].id@ == id);
        }
        assert forall|i: int| 0 <= i < out@.len() implies self.listed(entries@, #[trigger] out@[i].id@) by {
            assert(has_entity(unified@, entity(unified@, i)));
        }
        let r = Symbol::new_option(out);
        proof {
            if r is None {
                assert forall|id: Seq<u8>| !self.listed(entries@, id) by {
                    if self.listed(entries@, id) {
                        let k = choose|k: int| 0 <= k < entries@.len() && self.selects(entries@[k]) && has_entity(#[trigger] entries@[k].atoms@, id);
                        lemma_has_entity_len(entries@[k].atoms@, id);
                        assert(entries@.take(entries@.len() as int) == entries@);
                        assert(self.listed(entries@.take(entries@.len() as int), id));
                        assert(has_entity(unified@, id));
                        let i = choose|i: int| 0 <= i < entity_count(unified@) && #[trigger] entity(unified@, i) == id;
                        assert(false);
                    }
                }
            }
        }
        r
    }

    /// Whether `agent` is one of the grounding agents, by a walk over them.
    fn has_ground_agent(&self, agent: &AgentId) -> (r: bool)
        ensures
            r == self.is_ground_agent(agent@),
    {
        let agents = &self.gs_agents;
        let mut i: usize = 0;
        while i < agents.len()
            invariant
                agents@ == self.agents(),
                i <= agents@.len(),
                forall|k: int| 0 <= k < i ==> agents@[k]@ != agent@,
            decreases agents@.len() - i,
        {
            if agents[i] == *agent {
                return true;
            }
            i = i + 1;
        }
        false
    }

    /// Whether an allegation is an analogy, made by a grounding agent, that matches the
    /// symbols `l` and `r`.
    pub open spec fn is_matching_analogy(self, a: Allegation, l: Seq<Atom>, r: Seq<Atom>) -> bool {
        match a.body {
            Body::Analogy(an) => self.is_ground_agent(a.by@) && analogy_matches(an, l, r),
            _ => false,
        }
    }

    /// The matching analogies among `alls`, in order, each as an `Up` atom of its allegation.
    pub open spec fn matching_atoms(self, alls: Seq<Allegation>, l: Seq<Atom>, r: Seq<Atom>) -> Seq<Atom>
        decreases alls.len(),
    {
        if alls.len() == 0 {
            Seq::empty()
        } else {
            let prev = self.matching_atoms(alls.drop_last(), l, r);
            if self.is_matching_analogy(alls.last(), l, r) {
                prev.push(Atom { id: alls.last().id, spin: Spin::Up })
            } else {
                prev
            }
        }
    }

    /// The symbol made of every analogy, alleged by a grounding agent, that pairs the symbol
    /// of `left` with that of `right`, either way round; `None` where there is none.
    /// `allegations` are the allegations of the store, in the order it holds them: by id.
    ///
    /// The answer is a well-formed symbol. Every atom of it is such an analogy; where all the
    /// symbols involved are well formed, the answer holds all of them.
    pub fn find_matching_analogy_symbol(&self, left: &GSNode, right: &GSNode, allegations: &[Allegation]) -> (r: Option<Symbol>)
        requires
            ids_ascending(allegations@),
        ensures
            r matches Some(s) ==> s.wf(),
            r matches Some(s) ==> s.atoms@.len() > 0 && forall|i: int| 0 <= i < s.atoms@.len() ==> {
                &&& #[trigger] s.atoms@[i].spin == Spin::Up
                &&& exists|k: int| 0 <= k < allegations@.len() && allegations@[k].id == s.atoms@[i].id
                    && self.is_matching_analogy(allegations@[k], left.node_symbol().atoms@, right.node_symbol().atoms@)
            },
            symbols_wf(left.node_symbol(), right.node_symbol(), allegations@) ==> {
                let m = self.matching_atoms(allegations@, left.node_symbol().atoms@, right.node_symbol().atoms@);
                match r {
                    None => m.len() == 0,
                    Some(s) => s.atoms@ == m,
                }
            },
            symbols_wf(left.node_symbol(), right.node_symbol(), allegations@) ==> forall|k: int|
                #![trigger allegations@[k]]
                0 <= k < allegations@.len() ==> ((r matches Some(s) && s.atoms@.contains(
                    Atom { id: allegations@[k].id, spin: Spin::Up },
                )) <==> {
                    &&& allegations@[k].body matches Body::Analogy(an)
                    &&& exists|i: int| 0 <= i < self.agents().len() && #[trigger] self.agents()[i]@ == allegations@[k].by@
                    &&& (share_atom(left.node_symbol().atoms@, an.left.atoms@) && share_atom(right.node_symbol().atoms@, an.right.atoms@))
                        || (share_atom(left.node_symbol().atoms@, an.right.atoms@) && share_atom(right.node_symbol().atoms@, an.left.atoms@))
                }),
    {
        let ghost lnode = left.node_symbol().atoms@;
        let ghost rnode = right.node_symbol().atoms@;
        let left = left.symbol();
        let right = right.symbol();
        let ghost l = left.atoms@;
        let ghost rr = right.atoms@;
        let ghost wf = symbols_wf(*left, *right, allegations@);
        let mut out: Vec<Atom> = Vec::new();
        let mut k: usize = 0;
        while k < allegations.len()
            invariant
                k <= allegations@.len(),
                l == left.atoms@,
                rr == right.atoms@,
                wf == symbols_wf(*left, *right, allegations@),
                wf ==> out@ == self.matching_atoms(allegations@.take(k as int), l, rr),
                ids_ascending(allegations@),
                strictly_ascending(out@),
                forall|i: int| #![trigger out@[i]] 0 <= i < out@.len() ==> exists|m: int| 0 <= m < k && #[trigger] allegations@[m].id@ == out@[i].id@,
                forall|i: int| 0 <= i < out@.len() ==> {
                    &&& #[trigger] out@[i].spin == Spin::Up
                    &&& exists|m: int| 0 <= m < allegations@.len() && allegations@[m].id == out@[i].id
                        && self.is_matching_analogy(allegations@[m], l, rr)
                },
            decreases allegations@.len() - k,
        {
            let a = &allegations[k];
            let ghost out0 = out@;
            assert(allegations@.take(k + 1).drop_last() =~= allegations@.take(k as int));
            assert(allegations@.take(k + 1).last() == allegations@[k as int]);
            match &a.body {
                Body::Analogy(an) => {
                    if self.has_ground_agent(&a.by) {
                        let hit = (intersect_symbols(left, &an.left) && intersect_symbols(right, &an.right))
                            || (intersect_symbols(left, &an.right) && intersect_symbols(right, &an.left));
                        if hit {
                            out.push(Atom::up(a.id));
                            assert(out@[out@.len() - 1] == Atom { id: a.id, spin: Spin::Up });
                            assert forall|i: int| 0 <= i < out0.len() implies out@[i] == out0[i] by {}
                            assert forall|i: int| 0 <= i < out0.len() implies out0[i].key() < out@[out@.len() - 1].key() by {
                                let m = choose|m: int| 0 <= m < k && #[trigger] allegations@[m].id@ == out0[i].id@;
                                assert(bytes_value(allegations@[m].id@) < bytes_value(allegations@[k as int].id@));
                            }
                        }
                    }
                },
                _ => {},
            }
            k = k + 1;
        }
        assert(allegations@.take(allegations@.len() as int) =~= allegations@);
        let res = Symbol::new_option(out);
        proof {
            lemma_matching_analogies_exact(*self, allegations@, lnode, rnode);
        }
        res
    }

    /// Whether the agent of an index key is a grounding agent, by a walk over the agents.
    fn key_has_ground_agent(&self, key: &Vec<u8>) -> (r: bool)
        requires
            key@.len() >= 64,
        ensures
            r == self.is_ground_agent(key_agent(key@)),
    {
        let mut probe: [u8; 32] = [0u8; 32];
        let mut i: usize = 0;
        while i < 32
            invariant
                i <= 32,
                key@.len() >= 64,
                probe@.len() == 32,
                forall|k: int| 0 <= k < i ==> probe@[k] == key@[32 + k],
            decreases 32 - i,
        {
            probe[i] = key[32 + i];
            i = i + 1;
        }
        assert(probe@ =~= key_agent(key@));
        let agents = &self.gs_agents;
        let mut j: usize = 0;
        while j < agents.len()
            invariant
                agents@ == self.agents(),
                j <= agents@.len(),
                probe@ == key_agent(key@),
                probe@.len() == 32,
                forall|k: int| 0 <= k < j ==> agents@[k]@ != probe@,
            decreases agents@.len() - j,
        {
            let c = compare_bytes(agents[j].as_bytes(), &probe);
            match c {
                Comparison::Equal => {
                    return true;
                },
                _ => {},
            }
            j = j + 1;
        }
        false
    }
}

/// Whether an analogy pairs `l` with `r`: its left side shares an atom with `l` and its right
/// side one with `r`, or the other way round.
pub open spec fn analogy_matches(an: Analogy, l: Seq<Atom>, r: Seq<Atom>) -> bool {
    ||| share_atom(l, an.left.atoms@) && share_atom(r, an.right.atoms@)
    ||| share_atom(l, an.right.atoms@) && share_atom(r, an.left.atoms@)
}

/// The allegations are sorted strictly by their ids, as the store holds them.
pub open spec fn ids_ascending(alls: Seq<Allegation>) -> bool {
    forall|i: int, j: int| 0 <= i < j < alls.len() ==> bytes_value(alls[i].id@) < bytes_value(alls[j].id@)
}

/// The two symbols, and both sides of every analogy among `alls`, are well formed.
pub open spec fn symbols_wf(l: Symbol, r: Symbol, alls: Seq<Allegation>) -> bool {
    &&& l.wf()
    &&& r.wf()
    &&& forall|k: int| #![trigger alls[k]] 0 <= k < alls.len() ==> match alls[k].body {
        Body::Analogy(an) => an.left.wf() && an.right.wf(),
        _ => true,
    }
}

/// The scan range is wide enough: once the bounds hold an artifact followed by the first and
/// by the last of the sorted grounding agents, the index key of that artifact and any
/// grounding agent lies between them.
pub proof fn lemma_scan_covers(ctx: GSContext, artifact: Seq<u8>, agent: Seq<u8>)
    requires
        artifact.len() == 32,
        ctx.agents().len() > 0,
        ctx.agents_sorted(),
        ctx.is_ground_agent(agent),
        ctx.scan_min_view() == artifact + ctx.agents()[0]@,
        ctx.scan_max_view() == artifact + ctx.agents().last()@,
    ensures
        bytes_value(ctx.scan_min_view()) <= bytes_value(artifact + agent),
        bytes_value(artifact + agent) <= bytes_value(ctx.scan_max_view()),
{
    let n = ctx.agents().len();
    let i = choose|i: int| 0 <= i < n && #[trigger] ctx.agents()[i]@ == agent;
    let first = ctx.agents()[0]@;
    let last = ctx.agents()[n - 1]@;
    if i > 0 {
        assert(bytes_value(first) < bytes_value(ctx.agents()[i]@));
    }
    if i < n - 1 {
        assert(bytes_value(ctx.agents()[i]@) < bytes_value(last));
    }
    let lo = artifact + first;
    let mid = artifact + agent;
    let hi = artifact + last;
    lemma_bytes_value_split(lo, 32);
    lemma_bytes_value_split(mid, 32);
    lemma_bytes_value_split(hi, 32);
    assert(lo.take(32) =~= artifact);
    assert(mid.take(32) =~= artifact);
    assert(hi.take(32) =~= artifact);
    assert(lo.skip(32) =~= first);
    assert(mid.skip(32) =~= agent);
    assert(hi.skip(32) =~= last);
}

/// The search finds the same analogies for a pair whichever way round its two sides are
/// given: an analogy matches `l` and `r` exactly when it matches `r` and `l`.
pub proof fn lemma_matching_symmetric(ctx: GSContext, alls: Seq<Allegation>, l: Seq<Atom>, r: Seq<Atom>)
    ensures
        ctx.matching_atoms(alls, l, r) == ctx.matching_atoms(alls, r, l),
    decreases alls.len(),
{
    if alls.len() > 0 {
        lemma_matching_symmetric(ctx, alls.drop_last(), l, r);
        assert(ctx.is_matching_analogy(alls.last(), l, r) == ctx.is_matching_analogy(alls.last(), r, l));
    }
}

/// Which allegations the search keeps for a pair: an allegation's `Up` atom is among the
/// matching atoms for `l` and `r` exactly when it is an analogy alleged by one of the grounding
/// agents (any of them, wherever it stands in the list) and one side of it shares an atom with
/// `l` while the other side shares one with `r`. An analogy whose one side meets both symbols,
/// and none that its other side meets, is not kept.
pub proof fn lemma_matching_analogies_exact(ctx: GSContext, alls: Seq<Allegation>, l: Seq<Atom>, r: Seq<Atom>)
    ensures
        forall|k: int| #![trigger alls[k]] 0 <= k < alls.len() ==> ({
            &&& alls[k].body matches Body::Analogy(an)
            &&& exists|i: int| 0 <= i < ctx.agents().len() && #[trigger] ctx.agents()[i]@ == alls[k].by@
            &&& (share_atom(l, an.left.atoms@) && share_atom(r, an.right.atoms@))
                || (share_atom(l, an.right.atoms@) && share_atom(r, an.left.atoms@))
        } ==> ctx.matching_atoms(alls, l, r).contains(Atom { id: alls[k].id, spin: Spin::Up })),
        forall|x: Atom| #[trigger] ctx.matching_atoms(alls, l, r).contains(x) ==> exists|k: int|
            #![trigger alls[k]]
            0 <= k < alls.len() && x == (Atom { id: alls[k].id, spin: Spin::Up }) && {
                &&& alls[k].body matches Body::Analogy(an)
                &&& exists|i: int| 0 <= i < ctx.agents().len() && #[trigger] ctx.agents()[i]@ == alls[k].by@
                &&& (share_atom(l, an.left.atoms@) && share_atom(r, an.right.atoms@))
                    || (share_atom(l, an.right.atoms@) && share_atom(r, an.left.atoms@))
            },
        ids_ascending(alls) ==> forall|k: int| #![trigger alls[k]] 0 <= k < alls.len()
            && ctx.matching_atoms(alls, l, r).contains(Atom { id: alls[k].id, spin: Spin::Up }) ==> {
                &&& alls[k].body matches Body::Analogy(an)
                &&& exists|i: int| 0 <= i < ctx.agents().len() && #[trigger] ctx.agents()[i]@ == alls[k].by@
                &&& (share_atom(l, an.left.atoms@) && share_atom(r, an.right.atoms@))
                    || (share_atom(l, an.right.atoms@) && share_atom(r, an.left.atoms@))
            },
    decreases alls.len(),
{
    let m = ctx.matching_atoms(alls, l, r);
    if alls.len() > 0 {
        let init = alls.drop_last();
        let last = alls.last();
        lemma_matching_analogies_exact(ctx, init, l, r);
        let prev = ctx.matching_atoms(init, l, r);
        let up = Atom { id: last.id, spin: Spin::Up };
        assert(m == if ctx.is_matching_analogy(last, l, r) { prev.push(up) } else { prev });
        assert forall|k: int| #![trigger alls[k]] 0 <= k < alls.len() && ({
            &&& alls[k].body matches Body::Analogy(an)
            &&& exists|i: int| 0 <= i < ctx.agents().len() && #[trigger] ctx.agents()[i]@ == alls[k].by@
            &&& (share_atom(l, an.left.atoms@) && share_atom(r, an.right.atoms@))
                || (share_atom(l, an.right.atoms@) && share_atom(r, an.left.atoms@))
        }) implies m.contains(Atom { id: alls[k].id, spin: Spin::Up }) by {
            if k < alls.len() - 1 {
                assert(init[k] == alls[k]);
                let x = Atom { id: alls[k].id, spin: Spin::Up };
                assert(prev.contains(x));
                if ctx.is_matching_analogy(last, l, r) {
                    let j = choose|j: int| 0 <= j < prev.len() && prev[j] == x;
                    assert(prev.push(up)[j] == x);
                }
            } else {
                assert(alls[k] == last);
                assert(ctx.is_matching_analogy(last, l, r));
                assert(m[m.len() - 1] == up);
            }
        }
        assert forall|x: Atom| #[trigger] m.contains(x) implies exists|k: int|
            #![trigger alls[k]]
            0 <= k < alls.len() && x == (Atom { id: alls[k].id, spin: Spin::Up }) && {
                &&& alls[k].body matches Body::Analogy(an)
                &&& exists|i: int| 0 <= i < ctx.agents().len() && #[trigger] ctx.agents()[i]@ == alls[k].by@
                &&& (share_atom(l, an.left.atoms@) && share_atom(r, an.right.atoms@))
                    || (share_atom(l, an.right.atoms@) && share_atom(r, an.left.atoms@))
            } by {
            let j = choose|j: int| 0 <= j < m.len() && m[j] == x;
            if j < prev.len() {
                assert(m[j] == prev[j]);
                assert(prev.contains(x));
                let k = choose|k: int|
                    #![trigger init[k]]
                    0 <= k < init.len() && x == (Atom { id: init[k].id, spin: Spin::Up }) && {
                        &&& init[k].body matches Body::Analogy(an)
                        &&& exists|i: int| 0 <= i < ctx.agents().len() && #[trigger] ctx.agents()[i]@ == init[k].by@
                        &&& (share_atom(l, an.left.atoms@) && share_atom(r, an.right.atoms@))
                            || (share_atom(l, an.right.atoms@) && share_atom(r, an.left.atoms@))
                    };
                assert(init[k] == alls[k]);
            } else {
                assert(x == up);
                assert(alls[alls.len() - 1] == last);
            }
        }
        if ids_ascending(alls) {
            assert forall|k: int| #![trigger alls[k]] 0 <= k < alls.len()
                && m.contains(Atom { id: alls[k].id, spin: Spin::Up }) implies {
                    &&& alls[k].body matches Body::Analogy(an)
                    &&& exists|i: int| 0 <= i < ctx.agents().len() && #[trigger] ctx.agents()[i]@ == alls[k].by@
                    &&& (share_atom(l, an.left.atoms@) && share_atom(r, an.right.atoms@))
                        || (share_atom(l, an.right.atoms@) && share_atom(r, an.left.atoms@))
                } by {
                let x = Atom { id: alls[k].id, spin: Spin::Up };
                let k2 = choose|k2: int|
                    #![trigger alls[k2]]
                    0 <= k2 < alls.len() && x == (Atom { id: alls[k2].id, spin: Spin::Up }) && {
                        &&& alls[k2].body matches Body::Analogy(an)
                        &&& exists|i: int| 0 <= i < ctx.agents().len() && #[trigger] ctx.agents()[i]@ == alls[k2].by@
                        &&& (share_atom(l, an.left.atoms@) && share_atom(r, an.right.atoms@))
                            || (share_atom(l, an.right.atoms@) && share_atom(r, an.left.atoms@))
                    };
                if k2 != k {
                    assert(alls[k2].id@ == alls[k].id@);
                    if k2 < k {
                        assert(bytes_value(alls[k2].id@) < bytes_value(alls[k].id@));
                    } else {
                        assert(bytes_value(alls[k].id@) < bytes_value(alls[k2].id@));
                    }
                }
            }
        }
    }
}

/// Which decision a ground-symbol search runs for a node of the statement tree.
pub enum RecurseStep<'a> {
    /// Search the artifact (`GSNode::artifact`).
    Artifact(&'a Artifact),
    /// Search both sides, then the analogies between them (`GSNode::pair`).
    Pair(&'a GroundPair),
    /// Look up what the query binds the variable to (`GSNode::symbolvar`).
    SymbolVar(&'a SymbolVar),
}

impl GSContext {
    /// Dispatches the search on the kind of node: each kind goes to its own decision, with the
    /// node's contents unchanged. A `Ground` statement is the root of a search and never a node
    /// inside one, so it is not accepted here.
    pub fn symbolize_recurse<'a>(&self, gsym: &'a GroundSymbolizable) -> (r: RecurseStep<'a>)
        requires
            !(gsym is Ground),
        ensures
            gsym matches GroundSymbolizable::Artifact(a) ==> (r matches RecurseStep::Artifact(b) && *b == a),
            gsym matches GroundSymbolizable::GroundPair(p) ==> (r matches RecurseStep::Pair(q) && *q == p),
            gsym matches GroundSymbolizable::SymbolVar(v) ==> (r matches RecurseStep::SymbolVar(w) && *w == v),
    {
        match gsym {
            GroundSymbolizable::Artifact(a) => RecurseStep::Artifact(a),
            GroundSymbolizable::GroundPair(p) => RecurseStep::Pair(p),
            GroundSymbolizable::SymbolVar(v) => RecurseStep::SymbolVar(v),
            GroundSymbolizable::Ground(_) => vstd::pervasive::unreached(),
        }
    }
}

/// One node of the tree that a ground-symbol search builds, with the symbol found or made
/// for it.
pub enum GSNode {
    /// An artifact, with the broadest symbol that the grounding agents have for it.
    Artifact { artifact_id: ArtifactId, symbol: Symbol },
    /// A pair, with the symbol of the analogies found for its two sides.
    Pair { symbol: Symbol, left: Box<GSNode>, right: Box<GSNode> },
    /// A node bound to a symbol variable.
    Bound { gsnode: Box<GSNode>, sv: Rc<SymbolVar> },
    /// A symbol that the query supplied as it is.
    Given(Symbol),
    /// A symbol newly made, which needs no children.
    Created(Symbol),
}

impl GSNode {
    /// The symbol of a node; a bound node has the symbol of the node it binds.
    pub open spec fn node_symbol(self) -> Symbol
        decreases self,
    {
        match self {
            GSNode::Artifact { symbol, .. } => symbol,
            GSNode::Pair { symbol, .. } => symbol,
            GSNode::Given(symbol) => symbol,
            GSNode::Created(symbol) => symbol,
            GSNode::Bound { gsnode, .. } => gsnode.node_symbol(),
        }
    }

    /// The symbol of this node.
    pub fn symbol(&self) -> (r: &Symbol)
        ensures
            *r == self.node_symbol(),
        decreases self,
    {
        match self {
            GSNode::Artifact { symbol, .. } => symbol,
            GSNode::Pair { symbol, .. } => symbol,
            GSNode::Given(symbol) => symbol,
            GSNode::Created(symbol) => symbol,
            GSNode::Bound { gsnode, .. } => gsnode.symbol(),
        }
    }

    /// The symbol of this node, taken out of it.
    pub fn take_symbol(self) -> (r: Symbol)
        ensures
            r == self.node_symbol(),
        decreases self,
    {
        match self {
            GSNode::Artifact { symbol, .. } => symbol,
            GSNode::Pair { symbol, .. } => symbol,
            GSNode::Given(symbol) => symbol,
            GSNode::Created(symbol) => symbol,
            GSNode::Bound { gsnode, .. } => (*gsnode).take_symbol(),
        }
    }
}

/// What the search does with an artifact once its index entries are read.
pub enum ArtifactStep {
    /// The grounding agents have a symbol for it.
    Found(GSNode),
    /// None have; make a new symbol for this artifact.
    Vivify(ArtifactId),
    /// None have, and new symbols are not allowed.
    NotFound(MBQLError),
}

/// What the search does with a pair once both sides are searched.
pub enum PairStep {
    /// Analogies of the grounding agents match the pair.
    Found(GSNode),
    /// None do; make a new analogy of novel symbols for these two sides.
    Vivify(GSNode, GSNode),
    /// None do, and new symbols are not allowed.
    NotFound(MBQLError),
}

/// What a query binds a symbol variable to.
pub enum BindResult {
    /// A ground symbolizable, still to be searched.
    Bound(Rc<GroundSymbolizable>),
    /// A symbol, to be used as it is.
    Symbol(Symbol),
}

/// What the search does with a symbol variable.
pub enum SymbolVarStep {
    /// Search what the variable is bound to; the node found is then bound to the variable.
    Search(Rc<GroundSymbolizable>),
    /// The variable gives its symbol as it is.
    Done(GSNode),
    /// The query does not bind the variable.
    NotFound(MBQLError),
}

/// The symbols to make for a subtree whose search came up dry, leaves first.
pub enum NovelPlan {
    /// Make a new symbol for an artifact.
    Symbolize(ArtifactId),
    /// Make a new analogy of the two novel symbols.
    Analogy(Box<NovelPlan>, Box<NovelPlan>),
    /// Make the inner symbol, then store it for the variable.
    Store(Rc<SymbolVar>, Box<NovelPlan>),
    /// Use this symbol as it is.
    Existing(Symbol),
}

impl GSNode {
    /// Decides for an artifact: the node of the broadest symbol that the grounding agents
    /// have for it, drawn from `entries` (the index range scanned for it), which is the one
    /// `unrefined_symbol_for_artifact` gives: the listed ids, each once as an `Up` atom, in
    /// ascending order. Where there is none, it decides to make one if `vivify`, and else
    /// gives the error `GSymNotFound` at `position`.
    pub fn artifact(ctx: &GSContext, vivify: bool, artifact_id: ArtifactId, entries: &[IndexEntry], position: Position) -> (r: ArtifactStep)
        requires
            forall|k: int| #![trigger entries@[k]] 0 <= k < entries@.len() ==> entries@[k].key@.len() >= 64,
            forall|k: int| #![trigger entries@[k]] 0 <= k < entries@.len() ==> entities_ascending(entries@[k].atoms@),
        ensures
            match r {
                ArtifactStep::Found(node) => node matches GSNode::Artifact { artifact_id: id, symbol }
                    && id == artifact_id && symbol.wf() && symbol.atoms@.len() > 0
                    && (forall|i: int| 0 <= i < symbol.atoms@.len() ==> #[trigger] symbol.atoms@[i].spin == Spin::Up)
                    && (forall|i: int| 0 <= i < symbol.atoms@.len() ==> ctx.listed(entries@, #[trigger] symbol.atoms@[i].id@))
                    && (forall|x: Seq<u8>| #[trigger] ctx.listed(entries@, x) ==> exists|i: int| 0 <= i < symbol.atoms@.len() && symbol.atoms@[i].id@ == x),
                ArtifactStep::Vivify(id) => vivify && id == artifact_id
                    && forall|x: Seq<u8>| !ctx.listed(entries@, x),
                ArtifactStep::NotFound(e) => !vivify && e.position == position && e.kind is GSymNotFound
                    && forall|x: Seq<u8>| !ctx.listed(entries@, x),
            },
            (exists|x: Seq<u8>| ctx.listed(entries@, x)) ==> r is Found,
    {
        match ctx.unrefined_symbol_for_artifact(entries) {
            Some(symbol) => ArtifactStep::Found(GSNode::Artifact { artifact_id, symbol }),
            None => {
                if vivify {
                    ArtifactStep::Vivify(artifact_id)
                } else {
                    ArtifactStep::NotFound(MBQLError { position, kind: MBQLErrorKind::GSymNotFound })
                }
            },
        }
    }

    /// Decides for a pair whose two sides are searched: the pair node with the symbol of the
    /// matching analogies among `allegations`; where there is none, to make a new analogy if
    /// `vivify`, and else the error `GSymNotFound` at `position`.
    pub fn pair(ctx: &GSContext, vivify: bool, left: GSNode, right: GSNode, allegations: &[Allegation], position: Position) -> (r: PairStep)
        requires
            ids_ascending(allegations@),
        ensures
            match r {
                PairStep::Found(node) => node matches GSNode::Pair { symbol, left: l, right: rr }
                    && *l == left && *rr == right && symbol.atoms@.len() > 0 && symbol.wf()
                    && (symbols_wf(left.node_symbol(), right.node_symbol(), allegations@) ==>
                        symbol.atoms@ == ctx.matching_atoms(allegations@, left.node_symbol().atoms@, right.node_symbol().atoms@)),
                PairStep::Vivify(l, rr) => vivify && l == left && rr == right
                    && (symbols_wf(left.node_symbol(), right.node_symbol(), allegations@) ==>
                        ctx.matching_atoms(allegations@, left.node_symbol().atoms@, right.node_symbol().atoms@).len() == 0),
                PairStep::NotFound(e) => !vivify && e.position == position && e.kind is GSymNotFound
                    && (symbols_wf(left.node_symbol(), right.node_symbol(), allegations@) ==>
                        ctx.matching_atoms(allegations@, left.node_symbol().atoms@, right.node_symbol().atoms@).len() == 0),
            },
    {
        match ctx.find_matching_analogy_symbol(&left, &right, allegations) {
            Some(symbol) => PairStep::Found(GSNode::Pair { symbol, left: Box::new(left), right: Box::new(right) }),
            None => {
                if vivify {
                    PairStep::Vivify(left, right)
                } else {
                    PairStep::NotFound(MBQLError { position, kind: MBQLErrorKind::GSymNotFound })
                }
            },
        }
    }

    /// Decides for a symbol variable, given what the query binds it to (`None` where it binds
    /// nothing): search a bound symbolizable, take a bound symbol as given, or report
    /// `SymbolVarNotFound` with the variable's name at its position.
    pub fn symbolvar(sv: &SymbolVar, bound: Option<BindResult>) -> (r: SymbolVarStep)
        ensures
            match bound {
                None => r matches SymbolVarStep::NotFound(e) && e.position == sv.position
                    && (e.kind matches MBQLErrorKind::SymbolVarNotFound { var } && var@ == sv.var@),
                Some(BindResult::Bound(g)) => r == SymbolVarStep::Search(g),
                Some(BindResult::Symbol(s)) => r == SymbolVarStep::Done(GSNode::Given(s)),
            },
    {
        match bound {
            None => SymbolVarStep::NotFound(MBQLError {
                position: sv.position,
                kind: MBQLErrorKind::SymbolVarNotFound { var: sv.to_string() },
            }),
            Some(BindResult::Bound(g)) => SymbolVarStep::Search(g),
            Some(BindResult::Symbol(symbol)) => SymbolVarStep::Done(GSNode::Given(symbol)),
        }
    }

    /// The node found for a bound variable, bound to it; it has the symbol of the node found.
    pub fn bound(gsnode: GSNode, sv: Rc<SymbolVar>) -> (r: GSNode)
        ensures
            r == (GSNode::Bound { gsnode: Box::new(gsnode), sv }),
            r.node_symbol() == gsnode.node_symbol(),
    {
        GSNode::Bound { gsnode: Box::new(gsnode), sv }
    }

    /// What a novel symbol for this node is made of: an artifact gets a new symbol, a pair a
    /// new analogy of its sides' novel symbols, a bound node its inner node's novel symbol,
    /// stored again for its variable; a given or created symbol is kept.
    pub open spec fn novel_plan(self) -> NovelPlan
        decreases self,
    {
        match self {
            GSNode::Artifact { artifact_id, .. } => NovelPlan::Symbolize(artifact_id),
            GSNode::Bound { gsnode, sv } => NovelPlan::Store(sv, Box::new(gsnode.novel_plan())),
            GSNode::Pair { left, right, .. } => NovelPlan::Analogy(
                Box::new(left.novel_plan()),
                Box::new(right.novel_plan()),
            ),
            GSNode::Created(s) => NovelPlan::Existing(s),
            GSNode::Given(s) => NovelPlan::Existing(s),
        }
    }

    /// The plan of the novel symbol for this node, as `novel_plan` says.
    pub fn novel_symbol(self) -> (r: NovelPlan)
        ensures
            r == self.novel_plan(),
        decreases self,
    {
        match self {
            GSNode::Artifact { artifact_id, .. } => NovelPlan::Symbolize(artifact_id),
            GSNode::Bound { gsnode, sv } => NovelPlan::Store(sv, Box::new((*gsnode).novel_symbol())),
            GSNode::Pair { left, right, .. } => NovelPlan::Analogy(
                Box::new((*left).novel_symbol()),
                Box::new((*right).novel_symbol()),
            ),
            GSNode::Created(s) => NovelPlan::Existing(s),
            GSNode::Given(s) => NovelPlan::Existing(s),
        }
    }
}

/// Whether a plan reuses a symbol somewhere instead of making a new one.
pub open spec fn plan_reuses(p: NovelPlan) -> bool
    decreases p,
{
    match p {
        NovelPlan::Existing(_) => true,
        NovelPlan::Symbolize(_) => false,
        NovelPlan::Store(_, inner) => plan_reuses(*inner),
        NovelPlan::Analogy(l, r) => plan_reuses(*l) || plan_reuses(*r),
    }
}

/// Whether a search tree holds a symbol that came from the query or was made already (a
/// given or created node) anywhere below it.
pub open spec fn holds_kept_symbol(n: GSNode) -> bool
    decreases n,
{
    match n {
        GSNode::Given(_) => true,
        GSNode::Created(_) => true,
        GSNode::Artifact { .. } => false,
        GSNode::Bound { gsnode, .. } => holds_kept_symbol(*gsnode),
        GSNode::Pair { left, right, .. } => holds_kept_symbol(*left) || holds_kept_symbol(*right),
    }
}

/// When a search comes up dry, vivification makes new symbols all the way down: a symbol the
/// search found (for an artifact, a pair, or the node a variable is bound to) is never reused;
/// only symbols that were given or made already are kept. A bound node's plan is that of the
/// node it binds, stored for its variable; an artifact's plan is a new symbol for that artifact.
pub proof fn lemma_vivification_makes_new_symbols(n: GSNode)
    ensures
        plan_reuses(n.novel_plan()) == holds_kept_symbol(n),
        n matches GSNode::Bound { gsnode, sv } ==> n.novel_plan() == NovelPlan::Store(sv, Box::new((*gsnode).novel_plan())),
        n matches GSNode::Artifact { artifact_id, .. } ==> n.novel_plan() == NovelPlan::Symbolize(artifact_id),
    decreases n,
{
    match n {
        GSNode::Bound { gsnode, .. } => {
            lemma_vivification_makes_new_symbols(*gsnode);
        },
        GSNode::Pair { left, right, .. } => {
            lemma_vivification_makes_new_symbols(*left);
            lemma_vivification_makes_new_symbols(*right);
        },
        _ => {},
    }
}

} // verus!
