//! Digests over the Goldilocks field and the two-to-one compression that
//! every Merkle node and transaction hash is built from.
use vstd::prelude::*;

verus! {

/// The order of the Goldilocks field, `2^64 - 2^32 + 1`.
pub const GOLDILOCKS_ORDER: u64 = 0xFFFF_FFFF_0000_0001;

/// The all-zero digest: the empty value of every tree.
pub open spec fn zero_digest() -> Seq<u64> {
    seq![0u64, 0u64, 0u64, 0u64]
}

/// Four field elements in canonical form.
pub open spec fn digest_wf(d: Seq<u64>) -> bool {
    &&& d.len() == 4
    &&& forall|i: int| 0 <= i < 4 ==> #[trigger] d[i] < GOLDILOCKS_ORDER
}

/// A digest: an ordered tuple of four Goldilocks field elements, each held
/// as its canonical `u64` representative.
#[derive(Clone, Copy, Debug)]
pub struct Digest {
    pub elements: [u64; 4],
}

impl View for Digest {
    type V = Seq<u64>;

    open spec fn view(&self) -> Seq<u64> {
        self.elements@
    }
}

impl Digest {
    pub open spec fn wf(&self) -> bool {
        digest_wf(self@)
    }

    /// The all-zero digest.
    pub fn zero() -> (r: Digest)
        ensures
            r@ == zero_digest(),
            r.wf(),
    {
        let r = Digest { elements: [0u64; 4] };
        assert(r@ =~= zero_digest());
        r
    }

    /// A digest whose first element is `n` and whose others are zero.
    pub fn from_u64(n: u64) -> (r: Digest)
        requires
            n < GOLDILOCKS_ORDER,
        ensures
            r@ == seq![n, 0u64, 0u64, 0u64],
            r.wf(),
    {
        let r = Digest { elements: [n, 0u64, 0u64, 0u64] };
        assert(r@ =~= seq![n, 0u64, 0u64, 0u64]);
        r
    }

    /// Structural equality of two digests.
    pub fn equals(&self, other: &Digest) -> (r: bool)
        ensures
            r == (self@ == other@),
    {
        let r = self.elements[0] == other.elements[0] && self.elements[1] == other.elements[1]
            && self.elements[2] == other.elements[2] && self.elements[3] == other.elements[3];
        if r {
            assert(self@ =~= other@);
        }
        r
    }

    /// Whether this is the all-zero digest.
    pub fn is_zero(&self) -> (r: bool)
        ensures
            r == (self@ == zero_digest()),
    {
        let z = Digest::zero();
        self.equals(&z)
    }
}

/// `hasher` is a two-to-one compression over digests (Poseidon-style):
/// it accepts every pair of canonical digests, returns a canonical digest,
/// and its result is determined by the two digests.
pub open spec fn is_compression<F: Fn(Digest, Digest) -> Digest>(hasher: &F) -> bool {
    &&& forall|l: Digest, r: Digest| l.wf() && r.wf() ==> #[trigger] call_requires(*hasher, (l, r))
    &&& forall|l: Digest, r: Digest, o: Digest| #[trigger] call_ensures(*hasher, (l, r), o) ==> o.wf()
    &&& forall|l1: Digest, r1: Digest, o1: Digest, l2: Digest, r2: Digest, o2: Digest|
        #[trigger] call_ensures(*hasher, (l1, r1), o1) && #[trigger] call_ensures(*hasher, (l2, r2), o2)
            && l1@ == l2@ && r1@ == r2@ ==> o1@ == o2@
}

/// The digest that `hasher` compresses `left` and `right` into.
pub open spec fn compress<F: Fn(Digest, Digest) -> Digest>(
    hasher: &F,
    left: Seq<u64>,
    right: Seq<u64>,
) -> Seq<u64> {
    (choose|o: Digest| #[trigger] produces(hasher, left, right, o))@
}

/// `hasher` returns `o` on some pair of digests with the given elements.
pub open spec fn produces<F: Fn(Digest, Digest) -> Digest>(
    hasher: &F,
    left: Seq<u64>,
    right: Seq<u64>,
    o: Digest,
) -> bool {
    exists|l: Digest, r: Digest| l@ == left && r@ == right && #[trigger] call_ensures(*hasher, (l, r), o)
}

proof fn lemma_compress_result<F: Fn(Digest, Digest) -> Digest>(
    hasher: &F,
    l: Digest,
    r: Digest,
    o: Digest,
)
    requires
        is_compression(hasher),
        call_ensures(*hasher, (l, r), o),
    ensures
        o@ == compress(hasher, l@, r@),
{
    assert(produces(hasher, l@, r@, o));
    let c = choose|c: Digest| #[trigger] produces(hasher, l@, r@, c);
    let (l2, r2) = choose|l2: Digest, r2: Digest| l2@ == l@ && r2@ == r@ && #[trigger] call_ensures(*hasher, (l2, r2), c);
    assert(call_ensures(*hasher, (l2, r2), c));
}

/// Compresses an ordered pair of canonical digests.
pub fn hash_with<F: Fn(Digest, Digest) -> Digest>(
    hasher: &F,
    left: &Digest,
    right: &Digest,
) -> (r: Digest)
    requires
        is_compression(hasher),
        left.wf(),
        right.wf(),
    ensures
        r@ == compress(hasher, left@, right@),
        r.wf(),
{
    let o = hasher(*left, *right);
    proof {
        lemma_compress_result(hasher, *left, *right, o);
    }
    o
}

} // verus!
