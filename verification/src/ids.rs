//! Fixed-width identifiers and their byte order.
use vstd::prelude::*;

verus! {

/// Big-endian value of a byte string: the number that the bytes spell in base 256.
/// For byte strings of one length, comparing values is comparing them lexicographically.
pub open spec fn bytes_value(s: Seq<u8>) -> nat
    decreases s.len(),
{
    if s.len() == 0 {
        0
    } else {
        bytes_value(s.drop_last()) * 256 + s.last() as nat
    }
}

/// 256 to the power `n`.
pub open spec fn pow256(n: nat) -> nat
    decreases n,
{
    if n == 0 {
        1
    } else {
        256 * pow256((n - 1) as nat)
    }
}

/// The value of `n` bytes lies below `256^n`.
pub proof fn lemma_bytes_value_bound(s: Seq<u8>)
    ensures
        bytes_value(s) < pow256(s.len()),
    decreases s.len(),
{
    if s.len() > 0 {
        let p = bytes_value(s.drop_last());
        let q = pow256((s.len() - 1) as nat);
        lemma_bytes_value_bound(s.drop_last());
        let b = s.last() as nat;
        assert(p * 256 + b < q * 256) by (nonlinear_arith)
            requires
                p < q,
                b < 256,
        ;
    }
}

/// Splitting a byte string at `k`: the head is worth `256^(len-k)` times its own value.
pub proof fn lemma_bytes_value_split(s: Seq<u8>, k: int)
    requires
        0 <= k <= s.len(),
    ensures
        bytes_value(s) == bytes_value(s.take(k)) * pow256((s.len() - k) as nat) + bytes_value(
            s.skip(k),
        ),
    decreases s.len(),
{
    if k == s.len() {
        assert(s.take(k) =~= s);
        assert(s.skip(k) =~= Seq::<u8>::empty());
        assert(bytes_value(s.skip(k)) == 0);
        assert(pow256(0) == 1);
        assert(bytes_value(s.take(k)) * 1 == bytes_value(s.take(k))) by (nonlinear_arith);
    } else {
        let t = s.drop_last();
        lemma_bytes_value_split(t, k);
        assert(t.take(k) =~= s.take(k));
        assert(s.skip(k).drop_last() =~= t.skip(k));
        assert(s.skip(k).last() == s.last());
        let h = bytes_value(s.take(k));
        let p = pow256((t.len() - k) as nat);
        let r = bytes_value(t.skip(k));
        let b = s.last() as nat;
        assert(pow256((s.len() - k) as nat) == 256 * p);
        assert(bytes_value(s.skip(k)) == r * 256 + b);
        assert(bytes_value(s) == bytes_value(t) * 256 + b);
        assert((h * p + r) * 256 + b == h * (256 * p) + (r * 256 + b)) by (nonlinear_arith);
    }
}

/// Of two byte strings of one length, the one that is smaller at the first byte where they
/// differ has the smaller value.
pub proof fn lemma_first_difference(a: Seq<u8>, b: Seq<u8>, i: int)
    requires
        a.len() == b.len(),
        0 <= i < a.len(),
        a.take(i) == b.take(i),
        a[i] < b[i],
    ensures
        bytes_value(a) < bytes_value(b),
{
    let n = a.len();
    lemma_bytes_value_split(a, i + 1);
    lemma_bytes_value_split(b, i + 1);
    assert(a.take(i + 1).drop_last() =~= a.take(i));
    assert(b.take(i + 1).drop_last() =~= b.take(i));
    let ha = bytes_value(a.take(i + 1));
    let hb = bytes_value(b.take(i + 1));
    assert(ha < hb);
    let p = pow256((n - (i + 1)) as nat);
    lemma_bytes_value_bound(a.skip(i + 1));
    let ra = bytes_value(a.skip(i + 1));
    let rb = bytes_value(b.skip(i + 1));
    assert(ha * p + ra < hb * p + rb) by (nonlinear_arith)
        requires
            ha + 1 <= hb,
            ra < p,
            rb >= 0,
    ;
}

/// The outcome of comparing two values.
#[derive(PartialEq, Eq, Structural, Clone, Copy, Debug)]
pub enum Comparison {
    Less,
    Equal,
    Greater,
}

/// Compares two byte strings of one length lexicographically.
pub fn compare_bytes(a: &[u8], b: &[u8]) -> (r: Comparison)
    requires
        a@.len() == b@.len(),
    ensures
        r == Comparison::Less <==> bytes_value(a@) < bytes_value(b@),
        r == Comparison::Equal <==> a@ == b@,
        r == Comparison::Greater <==> bytes_value(a@) > bytes_value(b@),
{
    let n = a.len();
    let mut i: usize = 0;
    while i < n
        invariant
            n == a@.len(),
            n == b@.len(),
            i <= n,
            a@.take(i as int) == b@.take(i as int),
        decreases n - i,
    {
        if a[i] != b[i] {
            if a[i] < b[i] {
                proof {
                    lemma_first_difference(a@, b@, i as int);
                }
                return Comparison::Less;
            } else {
                proof {
                    lemma_first_difference(b@, a@, i as int);
                }
                return Comparison::Greater;
            }
        }
        assert(a@.take(i + 1) =~= a@.take(i as int).push(a@[i as int]));
        assert(b@.take(i + 1) =~= b@.take(i as int).push(b@[i as int]));
        i = i + 1;
    }
    assert(a@ =~= a@.take(n as int));
    assert(b@ =~= b@.take(n as int));
    Comparison::Equal
}

} // verus!

verus! {

/// The identifier of an allegation: sixteen bytes, made fresh for each allegation as a ULID
/// (a millisecond timestamp followed by random bits).
#[derive(Clone, Copy, Debug)]
pub struct AllegationId(pub(crate) [u8; 16]);

/// The identifier of an agent: the thirty-two bytes of its public key.
#[derive(Clone, Copy, Debug)]
pub struct AgentId(pub(crate) [u8; 32]);

/// The identifier of an artifact: thirty-two bytes of its content address.
#[derive(Clone, Copy, Debug)]
pub struct ArtifactId(pub(crate) [u8; 32]);

impl View for AllegationId {
    type V = Seq<u8>;

    closed spec fn view(&self) -> Seq<u8> {
        self.0@
    }
}

impl View for AgentId {
    type V = Seq<u8>;

    closed spec fn view(&self) -> Seq<u8> {
        self.0@
    }
}

impl View for ArtifactId {
    type V = Seq<u8>;

    closed spec fn view(&self) -> Seq<u8> {
        self.0@
    }
}

impl AllegationId {
    /// An allegation id made of the given bytes.
    pub fn from_bytes(bytes: [u8; 16]) -> (r: Self)
        ensures
            r@ == bytes@,
    {
        AllegationId(bytes)
    }

    /// The bytes of the id.
    pub fn as_bytes(&self) -> (r: &[u8; 16])
        ensures
            r@ == self@,
    {
        &self.0
    }
}

impl AgentId {
    /// An agent id made of the given bytes.
    pub fn from_bytes(bytes: [u8; 32]) -> (r: Self)
        ensures
            r@ == bytes@,
    {
        AgentId(bytes)
    }

    /// The bytes of the id.
    pub fn as_bytes(&self) -> (r: &[u8; 32])
        ensures
            r@ == self@,
    {
        &self.0
    }
}

impl ArtifactId {
    /// An artifact id made of the given bytes.
    pub fn from_bytes(bytes: [u8; 32]) -> (r: Self)
        ensures
            r@ == bytes@,
    {
        ArtifactId(bytes)
    }

    /// The bytes of the id.
    pub fn as_bytes(&self) -> (r: &[u8; 32])
        ensures
            r@ == self@,
    {
        &self.0
    }
}

impl PartialEq for AllegationId {
    fn eq(&self, other: &Self) -> (r: bool) {
        let c = compare_bytes(&self.0, &other.0);
        match c {
            Comparison::Equal => true,
            _ => false,
        }
    }
}

impl vstd::std_specs::cmp::PartialEqSpecImpl for AllegationId {
    open spec fn obeys_eq_spec() -> bool {
        true
    }

    open spec fn eq_spec(&self, other: &Self) -> bool {
        self@ == other@
    }
}

impl PartialEq for AgentId {
    fn eq(&self, other: &Self) -> (r: bool) {
        let c = compare_bytes(&self.0, &other.0);
        match c {
            Comparison::Equal => true,
            _ => false,
        }
    }
}

impl vstd::std_specs::cmp::PartialEqSpecImpl for AgentId {
    open spec fn obeys_eq_spec() -> bool {
        true
    }

    open spec fn eq_spec(&self, other: &Self) -> bool {
        self@ == other@
    }
}

impl PartialEq for ArtifactId {
    fn eq(&self, other: &Self) -> (r: bool) {
        let c = compare_bytes(&self.0, &other.0);
        match c {
            Comparison::Equal => true,
            _ => false,
        }
    }
}

impl vstd::std_specs::cmp::PartialEqSpecImpl for ArtifactId {
    open spec fn obeys_eq_spec() -> bool {
        true
    }

    open spec fn eq_spec(&self, other: &Self) -> bool {
        self@ == other@
    }
}

} // verus!

verus! {

/// Every allegation id is sixteen bytes long.
pub broadcast proof fn lemma_allegation_id_len(id: AllegationId)
    ensures
        #[trigger] id@.len() == 16,
{
}

/// Every agent id is thirty-two bytes long.
pub broadcast proof fn lemma_agent_id_len(id: AgentId)
    ensures
        #[trigger] id@.len() == 32,
{
}

} // verus!
