//! Dense Merkle trees: recomputing a root from a leaf, its index and its
//! siblings, building inclusion proofs from a leaf list, and folding an
//! arbitrary leaf list into one root.
use vstd::arithmetic::div_mod::lemma_div_denominator;
use vstd::arithmetic::power2::{lemma2_to64, lemma_pow2_pos, lemma_pow2_strictly_increases, lemma_pow2_unfold, pow2};
use vstd::prelude::*;

use crate::digest::{digest_wf, zero_digest, Digest, compress, hash_with, is_compression};

verus! {

/// The digests of a sequence, each as its four elements.
pub open spec fn digests_view(ds: Seq<Digest>) -> Seq<Seq<u64>> {
    ds.map_values(|d: Digest| d@)
}

/// Every digest of the sequence is in canonical form.
pub open spec fn all_wf(ds: Seq<Digest>) -> bool {
    forall|i: int| 0 <= i < ds.len() ==> (#[trigger] ds[i]).wf()
}

/// One level of a Merkle path: `current` is the right child when `is_right`.
pub open spec fn hash_pair<F: Fn(Digest, Digest) -> Digest>(
    hasher: &F,
    current: Seq<u64>,
    sibling: Seq<u64>,
    is_right: bool,
) -> Seq<u64> {
    if is_right {
        compress(hasher, sibling, current)
    } else {
        compress(hasher, current, sibling)
    }
}

/// The root reached from `value` at `index` through `siblings`, leaf level
/// first; bit `k` of `index` (least significant first) places the node of
/// level `k`.
pub open spec fn path_root<F: Fn(Digest, Digest) -> Digest>(
    hasher: &F,
    value: Seq<u64>,
    index: nat,
    siblings: Seq<Seq<u64>>,
) -> Seq<u64>
    decreases siblings.len(),
{
    if siblings.len() == 0 {
        value
    } else {
        path_root(hasher, hash_pair(hasher, value, siblings[0], index % 2 == 1), index / 2, siblings.drop_first())
    }
}

/// `index` is below `2^n_bits`.
pub open spec fn fits_bits(index: nat, n_bits: nat) -> bool {
    index < pow2(n_bits)
}

/// Each two neighbours of a layer compressed into one node of the layer above.
pub open spec fn pair_layer<F: Fn(Digest, Digest) -> Digest>(
    hasher: &F,
    layer: Seq<Seq<u64>>,
) -> Seq<Seq<u64>> {
    Seq::new(layer.len() / 2, |k: int| compress(hasher, layer[2 * k], layer[2 * k + 1]))
}

/// The layer `level` steps above the leaves of a full tree.
pub open spec fn layer_at<F: Fn(Digest, Digest) -> Digest>(
    hasher: &F,
    leaves: Seq<Seq<u64>>,
    level: nat,
) -> Seq<Seq<u64>>
    decreases level,
{
    if level == 0 {
        leaves
    } else {
        pair_layer(hasher, layer_at(hasher, leaves, (level - 1) as nat))
    }
}

/// The root of the full tree of depth `depth` over `leaves`.
pub open spec fn tree_root<F: Fn(Digest, Digest) -> Digest>(
    hasher: &F,
    leaves: Seq<Seq<u64>>,
    depth: nat,
) -> Seq<u64> {
    layer_at(hasher, leaves, depth)[0]
}

/// `index` shifted right by `k` bits: the position of its ancestor `k` levels up.
pub open spec fn ancestor_index(index: nat, k: nat) -> nat
    decreases k,
{
    if k == 0 {
        index
    } else {
        ancestor_index(index, (k - 1) as nat) / 2
    }
}

/// The position of the other child under the same parent.
pub open spec fn sibling_index(j: nat) -> nat {
    if j % 2 == 0 {
        j + 1
    } else {
        (j - 1) as nat
    }
}

/// The siblings along the path of leaf `index` in the full tree of depth
/// `depth` over `leaves`, leaf level first.
pub open spec fn proof_siblings<F: Fn(Digest, Digest) -> Digest>(
    hasher: &F,
    leaves: Seq<Seq<u64>>,
    index: nat,
    depth: nat,
) -> Seq<Seq<u64>> {
    Seq::new(depth, |k: int| layer_at(hasher, leaves, k as nat)[sibling_index(ancestor_index(index, k as nat)) as int])
}

proof fn lemma_ancestor_is_div(index: nat, k: nat)
    ensures
        ancestor_index(index, k) == index / pow2(k),
    decreases k,
{
    if k == 0 {
        lemma2_to64();
    } else {
        lemma_ancestor_is_div(index, (k - 1) as nat);
        lemma_pow2_pos((k - 1) as nat);
        lemma_pow2_unfold(k);
        lemma_div_denominator(index as int, pow2((k - 1) as nat) as int, 2);
    }
}

/// `index` fits in `n_bits` bits exactly when its ancestor `n_bits` levels
/// up is the root position.
proof fn lemma_fits_iff_ancestor_zero(index: nat, n_bits: nat)
    ensures
        fits_bits(index, n_bits) <==> ancestor_index(index, n_bits) == 0,
{
    lemma_ancestor_is_div(index, n_bits);
    lemma_pow2_pos(n_bits);
    let d = pow2(n_bits) as int;
    let x = index as int;
    assert(x / d == 0 <==> x < d) by (nonlinear_arith)
        requires
            d > 0,
            x >= 0,
    ;
}

proof fn lemma_ancestor_zero_stays(index: nat, i: nat, n: nat)
    requires
        i <= n,
        ancestor_index(index, i) == 0,
    ensures
        ancestor_index(index, n) == 0,
    decreases n - i,
{
    if i < n {
        lemma_ancestor_zero_stays(index, i, (n - 1) as nat);
    }
}

/// Whether `index` is below `2^n_bits`.
pub fn index_fits(index: usize, n_bits: usize) -> (r: bool)
    ensures
        r == fits_bits(index as nat, n_bits as nat),
{
    let mut idx: usize = index;
    let mut i: usize = 0;
    while i < n_bits && idx != 0
        invariant
            i <= n_bits,
            idx as nat == ancestor_index(index as nat, i as nat),
        decreases n_bits - i,
    {
        idx = idx / 2;
        i = i + 1;
    }
    proof {
        if idx == 0 {
            lemma_ancestor_zero_stays(index as nat, i as nat, n_bits as nat);
        }
        lemma_fits_iff_ancestor_zero(index as nat, n_bits as nat);
    }
    idx == 0
}

/// Recomputes the root reached from `value` at `index` through `siblings`,
/// leaf level first: at each level the index bit (least significant first)
/// says whether the current node is the right child, and the ordered pair
/// is compressed.
pub fn get_merkle_root<F: Fn(Digest, Digest) -> Digest>(
    hasher: &F,
    index: usize,
    value: &Digest,
    siblings: &Vec<Digest>,
) -> (r: Digest)
    requires
        is_compression(hasher),
        value.wf(),
        all_wf(siblings@),
    ensures
        r@ == path_root(hasher, value@, index as nat, digests_view(siblings@)),
        r.wf(),
{
    let ghost sibs = digests_view(siblings@);
    let mut current = *value;
    let mut idx: usize = index;
    let mut i: usize = 0;
    assert(sibs.skip(0) =~= sibs);
    while i < siblings.len()
        invariant
            is_compression(hasher),
            i <= siblings.len(),
            sibs == digests_view(siblings@),
            current.wf(),
            all_wf(siblings@),
            path_root(hasher, current@, idx as nat, sibs.skip(i as int)) == path_root(hasher, 
                value@,
                index as nat,
                sibs,
            ),
        decreases siblings.len() - i,
    {
        let sibling = &siblings[i];
        assert(sibs.skip(i as int).drop_first() =~= sibs.skip(i + 1));
        assert(sibs.skip(i as int)[0] == sibling@);
        if idx % 2 == 1 {
            current = hash_with(hasher, sibling, &current);
        } else {
            current = hash_with(hasher, &current, sibling);
        }
        idx = idx / 2;
        i = i + 1;
    }
    current
}

proof fn lemma_layer_len<F: Fn(Digest, Digest) -> Digest>(
    hasher: &F,
    leaves: Seq<Seq<u64>>,
    depth: nat,
    k: nat,
)
    requires
        leaves.len() == pow2(depth),
        k <= depth,
    ensures
        layer_at(hasher, leaves, k).len() == pow2((depth - k) as nat),
    decreases k,
{
    if k > 0 {
        lemma_layer_len(hasher, leaves, depth, (k - 1) as nat);
        lemma_pow2_unfold((depth - k + 1) as nat);
    }
}

proof fn lemma_ancestor_bound(index: nat, depth: nat, k: nat)
    requires
        index < pow2(depth),
        k <= depth,
    ensures
        ancestor_index(index, k) < pow2((depth - k) as nat),
    decreases k,
{
    if k > 0 {
        lemma_ancestor_bound(index, depth, (k - 1) as nat);
        lemma_pow2_unfold((depth - k + 1) as nat);
    }
}

proof fn lemma_path_from_level<F: Fn(Digest, Digest) -> Digest>(
    hasher: &F,
    leaves: Seq<Seq<u64>>,
    depth: nat,
    index: nat,
    k: nat,
)
    requires
        leaves.len() == pow2(depth),
        index < pow2(depth),
        k <= depth,
    ensures
        path_root(hasher, 
            layer_at(hasher, leaves, k)[ancestor_index(index, k) as int],
            ancestor_index(index, k),
            proof_siblings(hasher, leaves, index, depth).skip(k as int),
        ) == tree_root(hasher, leaves, depth),
    decreases depth - k,
{
    let sibs = proof_siblings(hasher, leaves, index, depth);
    let j = ancestor_index(index, k);
    lemma_ancestor_bound(index, depth, k);
    if k == depth {
        lemma2_to64();
        assert(sibs.skip(k as int).len() == 0);
    } else {
        lemma_path_from_level(hasher, leaves, depth, index, k + 1);
        lemma_layer_len(hasher, leaves, depth, k);
        lemma_pow2_unfold((depth - k) as nat);
        let layer = layer_at(hasher, leaves, k);
        let rest = sibs.skip(k as int);
        assert(rest[0] == layer[sibling_index(j) as int]);
        assert(rest.drop_first() =~= sibs.skip((k + 1) as int));
        assert(ancestor_index(index, k + 1) == j / 2);
        assert(layer_at(hasher, leaves, k + 1) == pair_layer(hasher, layer));
        assert(hash_pair(hasher, layer[j as int], rest[0], j % 2 == 1) == pair_layer(hasher, layer)[(j / 2) as int]);
    }
}

/// Merkle round trip: in a full tree of any depth, the path of every leaf,
/// with the siblings that the tree gives it, leads back to the tree's root.
pub proof fn lemma_merkle_round_trip<F: Fn(Digest, Digest) -> Digest>(
    hasher: &F,
    leaves: Seq<Seq<u64>>,
    depth: nat,
    index: nat,
)
    requires
        leaves.len() == pow2(depth),
        index < pow2(depth),
    ensures
        path_root(hasher, leaves[index as int], index, proof_siblings(hasher, leaves, index, depth))
            == tree_root(hasher, leaves, depth),
{
    lemma_path_from_level(hasher, leaves, depth, index, 0);
    assert(proof_siblings(hasher, leaves, index, depth).skip(0) =~= proof_siblings(hasher, leaves, index, depth));
}

/// Why a Merkle computation was refused.
#[derive(Clone, Copy, Debug, PartialEq, Eq, Structural)]
pub enum MerkleError {
    /// A root was asked of an empty leaf list.
    EmptyLeaves,
    /// More leaves were given than a tree of the requested depth holds.
    TooManyLeaves,
    /// The index does not fit in as many bits as the tree has levels.
    IndexOutOfRange,
    /// The number of siblings differs from the number of levels.
    SiblingCountMismatch,
}

/// A dense Merkle inclusion proof of `value` at `index` under `root`.
#[derive(Clone, Debug)]
pub struct MerkleProof {
    pub index: usize,
    pub value: Digest,
    pub siblings: Vec<Digest>,
    pub root: Digest,
}

impl MerkleProof {
    pub open spec fn wf(&self) -> bool {
        &&& self.value.wf()
        &&& self.root.wf()
        &&& all_wf(self.siblings@)
    }

    /// The proof's path leads from its value to its root.
    pub open spec fn spec_holds<F: Fn(Digest, Digest) -> Digest>(&self, hasher: &F) -> bool {
        &&& fits_bits(self.index as nat, self.siblings.len() as nat)
        &&& path_root(hasher, self.value@, self.index as nat, digests_view(self.siblings@)) == self.root@
    }

    /// Whether the index fits the path and the path leads from the value to
    /// the root.
    pub fn verify<F: Fn(Digest, Digest) -> Digest>(&self, hasher: &F) -> (r: bool)
        requires
            is_compression(hasher),
            self.wf(),
        ensures
            r == self.spec_holds(hasher),
    {
        if !index_fits(self.index, self.siblings.len()) {
            return false;
        }
        let root = get_merkle_root(hasher, self.index, &self.value, &self.siblings);
        root.equals(&self.root)
    }
}

/// The leaves of the full tree of depth `n_levels`: the given leaves, then
/// empty digests.
pub open spec fn padded_leaves(leaves: Seq<Seq<u64>>, n_levels: nat) -> Seq<Seq<u64>> {
    Seq::new(pow2(n_levels), |i: int| if i < leaves.len() { leaves[i] } else { zero_digest() })
}

/// Compresses each two neighbours of a layer of even length.
fn pair_up<F: Fn(Digest, Digest) -> Digest>(hasher: &F, layer: &Vec<Digest>) -> (r: Vec<Digest>)
    requires
        is_compression(hasher),
        all_wf(layer@),
    ensures
        digests_view(r@) == pair_layer(hasher, digests_view(layer@)),
        r.len() == layer.len() / 2,
        all_wf(r@),
{
    let ghost lv = digests_view(layer@);
    let half = layer.len() / 2;
    let mut r: Vec<Digest> = Vec::new();
    let mut k: usize = 0;
    while k < half
        invariant
            is_compression(hasher),
            half == layer.len() / 2,
            k <= half,
            lv == digests_view(layer@),
            all_wf(layer@),
            all_wf(r@),
            digests_view(r@) == pair_layer(hasher, lv).take(k as int),
            r.len() == k,
        decreases half - k,
    {
        let h = hash_with(hasher, &layer[2 * k], &layer[2 * k + 1]);
        r.push(h);
        assert(pair_layer(hasher, lv).take(k as int).push(h@) =~= pair_layer(hasher, lv).take(k + 1));
        assert(digests_view(r@) =~= digests_view(r@.drop_last()).push(h@));
        k = k + 1;
    }
    assert(pair_layer(hasher, lv).take(half as int) =~= pair_layer(hasher, lv));
    r
}

/// Builds the inclusion proof of leaf `index` in the full tree of depth
/// `n_levels` whose first leaves are `leaves` and whose other leaves are
/// empty digests.
pub fn get_merkle_proof<F: Fn(Digest, Digest) -> Digest>(
    hasher: &F,
    leaves: &Vec<Digest>,
    index: usize,
    n_levels: usize,
) -> (r: Result<MerkleProof, MerkleError>)
    requires
        is_compression(hasher),
        all_wf(leaves@),
        pow2(n_levels as nat) <= usize::MAX,
    ensures
        r is Err <==> (leaves.len() > pow2(n_levels as nat) || !fits_bits(index as nat, n_levels as nat)),
        r matches Err(e) ==> (e == MerkleError::TooManyLeaves <==> leaves.len() > pow2(n_levels as nat)),
        r matches Err(e) ==> (e == MerkleError::TooManyLeaves || e == MerkleError::IndexOutOfRange),
        r matches Ok(p) ==> {
            let padded = padded_leaves(digests_view(leaves@), n_levels as nat);
            &&& p.wf()
            &&& p.index == index
            &&& p.value@ == padded[index as int]
            &&& digests_view(p.siblings@) == proof_siblings(hasher, padded, index as nat, n_levels as nat)
            &&& p.root@ == tree_root(hasher, padded, n_levels as nat)
            &&& p.spec_holds(hasher)
        },
{
    let ghost lv = digests_view(leaves@);
    let ghost padded = padded_leaves(lv, n_levels as nat);
    let mut size: usize = 1;
    let mut k: usize = 0;
    proof {
        lemma2_to64();
    }
    while k < n_levels
        invariant
            is_compression(hasher),
            k <= n_levels,
            size == pow2(k as nat),
            pow2(n_levels as nat) <= usize::MAX,
        decreases n_levels - k,
    {
        proof {
            lemma_pow2_unfold((k + 1) as nat);
            if k + 1 < n_levels {
                lemma_pow2_strictly_increases((k + 1) as nat, n_levels as nat);
            }
        }
        size = size * 2;
        k = k + 1;
    }
    if leaves.len() > size {
        return Err(MerkleError::TooManyLeaves);
    }
    if index >= size {
        return Err(MerkleError::IndexOutOfRange);
    }
    let zero = Digest::zero();
    let mut layer: Vec<Digest> = Vec::new();
    let mut i: usize = 0;
    while i < size
        invariant
            is_compression(hasher),
            i <= size,
            size == pow2(n_levels as nat),
            leaves.len() <= size,
            lv == digests_view(leaves@),
            padded == padded_leaves(lv, n_levels as nat),
            all_wf(leaves@),
            zero@ == zero_digest(),
            zero.wf(),
            layer.len() == i,
            all_wf(layer@),
            digests_view(layer@) == padded.take(i as int),
        decreases size - i,
    {
        if i < leaves.len() {
            layer.push(leaves[i]);
        } else {
            layer.push(zero);
        }
        assert(digests_view(layer@) =~= padded.take(i + 1));
        i = i + 1;
    }
    assert(padded.take(size as int) =~= padded);
    let mut siblings: Vec<Digest> = Vec::new();
    let mut j: usize = index;
    let mut level: usize = 0;
    let ghost sibs = proof_siblings(hasher, padded, index as nat, n_levels as nat);
    proof {
        lemma_ancestor_bound(index as nat, n_levels as nat, 0);
    }
    while level < n_levels
        invariant
            is_compression(hasher),
            level <= n_levels,
            padded.len() == pow2(n_levels as nat),
            index < pow2(n_levels as nat),
            sibs == proof_siblings(hasher, padded, index as nat, n_levels as nat),
            digests_view(layer@) == layer_at(hasher, padded, level as nat),
            layer.len() == pow2((n_levels - level) as nat),
            j == ancestor_index(index as nat, level as nat),
            j < pow2((n_levels - level) as nat),
            all_wf(layer@),
            all_wf(siblings@),
            digests_view(siblings@) == sibs.take(level as int),
        decreases n_levels - level,
    {
        proof {
            lemma_pow2_unfold((n_levels - level) as nat);
            lemma_layer_len(hasher, padded, n_levels as nat, level as nat);
            lemma_ancestor_bound(index as nat, n_levels as nat, (level + 1) as nat);
            lemma_layer_len(hasher, padded, n_levels as nat, (level + 1) as nat);
        }
        let s = if j % 2 == 0 { j + 1 } else { j - 1 };
        assert(s == sibling_index(j as nat));
        assert(sibs[level as int] == digests_view(layer@)[s as int]);
        let ghost before = siblings@;
        siblings.push(layer[s]);
        assert(digests_view(siblings@) =~= digests_view(before).push(layer@[s as int]@));
        assert(digests_view(siblings@) =~= sibs.take(level + 1));
        layer = pair_up(hasher, &layer);
        j = j / 2;
        level = level + 1;
    }
    assert(sibs.take(n_levels as int) =~= sibs);
    proof {
        lemma_merkle_round_trip(hasher, padded, n_levels as nat, index as nat);
    }
    let root = layer[0];
    let p = MerkleProof { index, value: leaves_or_zero(leaves, index), siblings, root };
    Ok(p)
}

fn leaves_or_zero(leaves: &Vec<Digest>, index: usize) -> (r: Digest)
    requires
        all_wf(leaves@),
    ensures
        r.wf(),
        index < leaves.len() ==> r@ == leaves@[index as int]@,
        index >= leaves.len() ==> r@ == zero_digest(),
{
    if index < leaves.len() {
        leaves[index]
    } else {
        Digest::zero()
    }
}

/// A layer of odd length with its last node repeated; an even one as it is.
pub open spec fn pad_odd(layer: Seq<Seq<u64>>) -> Seq<Seq<u64>> {
    if layer.len() % 2 == 1 {
        layer.push(layer.last())
    } else {
        layer
    }
}

/// The root of an arbitrary non-empty leaf list: neighbours are compressed
/// pairwise, the last node of an odd layer is paired with itself, until one
/// node is left.
pub open spec fn leaves_root<F: Fn(Digest, Digest) -> Digest>(
    hasher: &F,
    layer: Seq<Seq<u64>>,
) -> Seq<u64>
    decreases layer.len(),
{
    if layer.len() <= 1 {
        layer[0]
    } else {
        leaves_root(hasher, pair_layer(hasher, pad_odd(layer)))
    }
}

/// Leaf-list root determinism: a list of odd length (three or more leaves)
/// has the same root as the list with its last leaf repeated once.
pub proof fn lemma_leaves_root_duplicate_last<F: Fn(Digest, Digest) -> Digest>(
    hasher: &F,
    leaves: Seq<Seq<u64>>,
)
    requires
        leaves.len() % 2 == 1,
        leaves.len() >= 3,
    ensures
        leaves_root(hasher, leaves) == leaves_root(hasher, leaves.push(leaves.last())),
{
    let dup = leaves.push(leaves.last());
    assert(pad_odd(dup) == dup);
    assert(pad_odd(leaves) == dup);
}

/// The root of a non-empty leaf list (see `leaves_root`); the leaf order is
/// kept as given.
pub fn get_merkle_root_from_leaves<F: Fn(Digest, Digest) -> Digest>(
    hasher: &F,
    leaves: &Vec<Digest>,
) -> (r: Result<Digest, MerkleError>)
    requires
        is_compression(hasher),
        all_wf(leaves@),
    ensures
        r is Err <==> leaves.len() == 0,
        r matches Err(e) ==> e == MerkleError::EmptyLeaves,
        r matches Ok(d) ==> d@ == leaves_root(hasher, digests_view(leaves@)) && d.wf(),
{
    if leaves.len() == 0 {
        return Err(MerkleError::EmptyLeaves);
    }
    let mut layer: Vec<Digest> = leaves.clone();
    assert(layer@ =~= leaves@);
    while layer.len() > 1
        invariant
            is_compression(hasher),
            layer.len() >= 1,
            all_wf(layer@),
            leaves_root(hasher, digests_view(layer@)) == leaves_root(hasher, digests_view(leaves@)),
        decreases layer.len(),
    {
        let ghost before = digests_view(layer@);
        if layer.len() % 2 == 1 {
            let last = layer[layer.len() - 1];
            let ghost prior = layer@;
            layer.push(last);
            assert(digests_view(layer@) =~= digests_view(prior).push(last@));
        }
        assert(digests_view(layer@) == pad_odd(before));
        layer = pair_up(hasher, &layer);
    }
    Ok(layer[0])
}

/// The shape of a dense Merkle inclusion check: the number of levels that
/// its index and siblings are given for.
#[derive(Clone, Copy, Debug)]
pub struct MerkleProofTarget {
    pub n_levels: usize,
}

impl MerkleProofTarget {
    /// A check over `n_levels` levels.
    pub fn add_virtual_to(n_levels: usize) -> (r: MerkleProofTarget)
        ensures
            r.n_levels == n_levels,
    {
        MerkleProofTarget { n_levels }
    }

    /// Assigns a leaf, its index and its siblings, and returns the root they
    /// lead to. The index must fit in `n_levels` bits and one sibling must
    /// be given for each level.
    pub fn set_witness<F: Fn(Digest, Digest) -> Digest>(
        &self,
        hasher: &F,
        index: usize,
        value: &Digest,
        siblings: &Vec<Digest>,
    ) -> (r: Result<Digest, MerkleError>)
        requires
            is_compression(hasher),
            value.wf(),
            all_wf(siblings@),
        ensures
            r is Ok <==> (siblings.len() == self.n_levels && fits_bits(index as nat, self.n_levels as nat)),
            r matches Err(e) ==> (e == MerkleError::SiblingCountMismatch <==> siblings.len() != self.n_levels),
            r matches Err(e) ==> (e == MerkleError::SiblingCountMismatch || e == MerkleError::IndexOutOfRange),
            r matches Ok(d) ==> d@ == path_root(hasher, value@, index as nat, digests_view(siblings@)) && d.wf(),
    {
        if siblings.len() != self.n_levels {
            return Err(MerkleError::SiblingCountMismatch);
        }
        if !index_fits(index, self.n_levels) {
            return Err(MerkleError::IndexOutOfRange);
        }
        Ok(get_merkle_root(hasher, index, value, siblings))
    }
}

} // verus!
