//! The merge-and-purge transition of one account: its public-input record,
//! the fixed wire order of that record, and the witness preparation that
//! checks the merge and purge sequences and yields the record.
use vstd::prelude::*;

use crate::digest::{digest_wf, zero_digest, Digest, compress, hash_with, is_compression};
use crate::merkle::MerkleProof;
use crate::process::SmtProcessProof;

verus! {

/// The number of field elements of an encoded public-input record.
pub const N_PUBLIC_INPUTS: usize = 24;

/// What a merge-and-purge proof exposes: the account, its asset root before
/// the merges, between merges and purges, and after the purges, the root of
/// its transaction-diff tree and the transaction hash.
#[derive(Clone, Copy, Debug)]
pub struct MergeAndPurgeTransitionPublicInputs {
    pub sender_address: Digest,
    pub old_user_asset_root: Digest,
    pub middle_user_asset_root: Digest,
    pub new_user_asset_root: Digest,
    pub diff_root: Digest,
    pub tx_hash: Digest,
}

/// The wire order: old, middle and new asset roots, diff root, sender
/// address, transaction hash, four elements each.
pub open spec fn encoding(p: MergeAndPurgeTransitionPublicInputs) -> Seq<u64> {
    p.old_user_asset_root@ + p.middle_user_asset_root@ + p.new_user_asset_root@ + p.diff_root@
        + p.sender_address@ + p.tx_hash@
}

impl MergeAndPurgeTransitionPublicInputs {
    pub open spec fn wf(&self) -> bool {
        &&& self.sender_address.wf()
        &&& self.old_user_asset_root.wf()
        &&& self.middle_user_asset_root.wf()
        &&& self.new_user_asset_root.wf()
        &&& self.diff_root.wf()
        &&& self.tx_hash.wf()
    }

    /// The record in wire order.
    pub fn encode(&self) -> (r: Vec<u64>)
        ensures
            r@ == encoding(*self),
    {
        let mut r: Vec<u64> = Vec::new();
        push_digest(&mut r, &self.old_user_asset_root);
        push_digest(&mut r, &self.middle_user_asset_root);
        push_digest(&mut r, &self.new_user_asset_root);
        push_digest(&mut r, &self.diff_root);
        push_digest(&mut r, &self.sender_address);
        push_digest(&mut r, &self.tx_hash);
        assert(r@ =~= encoding(*self));
        r
    }
}

fn push_digest(out: &mut Vec<u64>, d: &Digest)
    ensures
        final(out)@ == old(out)@ + d@,
{
    let mut i: usize = 0;
    while i < 4
        invariant
            i <= 4,
            out@ == old(out)@ + d@.take(i as int),
        decreases 4 - i,
    {
        out.push(d.elements[i]);
        assert(d@.take(i + 1) =~= d@.take(i as int).push(d@[i as int]));
        i = i + 1;
    }
    assert(d@.take(4) =~= d@);
}

fn digest_at(public_inputs: &[u64], start: usize) -> (r: Digest)
    requires
        start + 4 <= public_inputs@.len(),
    ensures
        r@ == public_inputs@.subrange(start as int, start + 4),
{
    let r = Digest {
        elements: [
            public_inputs[start],
            public_inputs[start + 1],
            public_inputs[start + 2],
            public_inputs[start + 3],
        ],
    };
    assert(r@ =~= public_inputs@.subrange(start as int, start + 4));
    r
}

/// Reads a record from the first 24 elements of a public-input list, by
/// the slot ranges of the wire order.
pub fn parse_merge_and_purge_public_inputs(
    public_inputs: &[u64],
) -> (r: MergeAndPurgeTransitionPublicInputs)
    requires
        public_inputs@.len() >= N_PUBLIC_INPUTS,
    ensures
        r.old_user_asset_root@ == public_inputs@.subrange(0, 4),
        r.middle_user_asset_root@ == public_inputs@.subrange(4, 8),
        r.new_user_asset_root@ == public_inputs@.subrange(8, 12),
        r.diff_root@ == public_inputs@.subrange(12, 16),
        r.sender_address@ == public_inputs@.subrange(16, 20),
        r.tx_hash@ == public_inputs@.subrange(20, 24),
        encoding(r) == public_inputs@.take(24),
{
    let r = MergeAndPurgeTransitionPublicInputs {
        old_user_asset_root: digest_at(public_inputs, 0),
        middle_user_asset_root: digest_at(public_inputs, 4),
        new_user_asset_root: digest_at(public_inputs, 8),
        diff_root: digest_at(public_inputs, 12),
        sender_address: digest_at(public_inputs, 16),
        tx_hash: digest_at(public_inputs, 20),
    };
    assert(encoding(r) =~= public_inputs@.take(24));
    r
}

/// Reading an encoded record gives back the record.
pub proof fn lemma_parse_encode(p: MergeAndPurgeTransitionPublicInputs)
    requires
        p.wf(),
    ensures
        encoding(p).len() == N_PUBLIC_INPUTS,
        encoding(p).subrange(0, 4) == p.old_user_asset_root@,
        encoding(p).subrange(4, 8) == p.middle_user_asset_root@,
        encoding(p).subrange(8, 12) == p.new_user_asset_root@,
        encoding(p).subrange(12, 16) == p.diff_root@,
        encoding(p).subrange(16, 20) == p.sender_address@,
        encoding(p).subrange(20, 24) == p.tx_hash@,
{
    let e = encoding(p);
    assert(e.subrange(0, 4) =~= p.old_user_asset_root@);
    assert(e.subrange(4, 8) =~= p.middle_user_asset_root@);
    assert(e.subrange(8, 12) =~= p.new_user_asset_root@);
    assert(e.subrange(12, 16) =~= p.diff_root@);
    assert(e.subrange(16, 20) =~= p.sender_address@);
    assert(e.subrange(20, 24) =~= p.tx_hash@);
}

/// Each proof starts from the root that the one before it reached, the
/// first from `start`.
pub open spec fn chained(start: Seq<u64>, proofs: Seq<SmtProcessProof>) -> bool {
    forall|i: int| 0 <= i < proofs.len() ==> #[trigger] links(start, proofs, i)
}

/// Proof `i` starts from the root before it.
pub open spec fn links(start: Seq<u64>, proofs: Seq<SmtProcessProof>, i: int) -> bool {
    proofs[i].old_root@ == root_before(start, proofs, i)
}

/// The root before proof `i`: `start` for the first.
pub open spec fn root_before(start: Seq<u64>, proofs: Seq<SmtProcessProof>, i: int) -> Seq<u64> {
    if i == 0 {
        start
    } else {
        proofs[i - 1].new_root@
    }
}

/// The root after the last proof; `start` when there is none.
pub open spec fn chain_end(start: Seq<u64>, proofs: Seq<SmtProcessProof>) -> Seq<u64> {
    if proofs.len() == 0 {
        start
    } else {
        proofs.last().new_root@
    }
}

pub open spec fn all_proofs_wf(proofs: Seq<SmtProcessProof>) -> bool {
    forall|i: int| 0 <= i < proofs.len() ==> (#[trigger] proofs[i]).wf()
}

/// Follows a sequence of process proofs from `start`: the root reached, or
/// `None` where one does not start from the root before it.
pub fn follow_chain(start: &Digest, proofs: &Vec<SmtProcessProof>) -> (r: Option<Digest>)
    requires
        start.wf(),
        all_proofs_wf(proofs@),
    ensures
        r is Some <==> chained(start@, proofs@),
        r matches Some(d) ==> d@ == chain_end(start@, proofs@) && d.wf(),
{
    let mut current = *start;
    let mut i: usize = 0;
    while i < proofs.len()
        invariant
            i <= proofs.len(),
            start.wf(),
            all_proofs_wf(proofs@),
            current.wf(),
            current@ == root_before(start@, proofs@, i as int),
            forall|k: int| 0 <= k < i ==> #[trigger] links(start@, proofs@, k),
        decreases proofs.len() - i,
    {
        if !proofs[i].old_root.equals(&current) {
            assert(!links(start@, proofs@, i as int));
            return None;
        }
        current = proofs[i].new_root;
        i = i + 1;
    }
    Some(current)
}

/// A merge of one pending deposit or transfer into an account's asset tree:
/// the inclusion of the merged transaction in its block's merge-transaction
/// tree, and the update of the asset tree that applies it.
#[derive(Clone, Debug)]
pub struct MergeProof {
    pub is_deposit: bool,
    pub diff_tree_inclusion_proof: MerkleProof,
    pub merge_process_proof: SmtProcessProof,
    pub nonce: Digest,
}

impl MergeProof {
    pub open spec fn wf(&self) -> bool {
        &&& self.diff_tree_inclusion_proof.wf()
        &&& self.merge_process_proof.wf()
        &&& self.nonce.wf()
    }
}

/// The per-level process proofs of one update of a three-level asset or
/// diff tree, the top level first.
pub type LayeredProcessProof = (SmtProcessProof, SmtProcessProof, SmtProcessProof);

pub open spec fn merge_steps(merges: Seq<MergeProof>) -> Seq<SmtProcessProof> {
    merges.map_values(|m: MergeProof| m.merge_process_proof)
}

pub open spec fn top_steps(ws: Seq<LayeredProcessProof>) -> Seq<SmtProcessProof> {
    ws.map_values(|w: LayeredProcessProof| w.0)
}

pub open spec fn merges_wf(merges: Seq<MergeProof>) -> bool {
    forall|i: int| 0 <= i < merges.len() ==> (#[trigger] merges[i]).wf()
}

pub open spec fn layered_wf(ws: Seq<LayeredProcessProof>) -> bool {
    forall|i: int| 0 <= i < ws.len() ==> (#[trigger] ws[i]).0.wf() && ws[i].1.wf() && ws[i].2.wf()
}

fn merge_process_proofs(merges: &Vec<MergeProof>) -> (r: Vec<SmtProcessProof>)
    requires
        merges_wf(merges@),
    ensures
        r@ == merge_steps(merges@),
        all_proofs_wf(r@),
{
    let mut r: Vec<SmtProcessProof> = Vec::new();
    let mut i: usize = 0;
    while i < merges.len()
        invariant
            i <= merges.len(),
            merges_wf(merges@),
            r@ == merge_steps(merges@).take(i as int),
        decreases merges.len() - i,
    {
        r.push(merges[i].merge_process_proof);
        assert(r@ =~= merge_steps(merges@).take(i + 1));
        i = i + 1;
    }
    assert(r@ =~= merge_steps(merges@));
    r
}

fn top_process_proofs(ws: &Vec<LayeredProcessProof>) -> (r: Vec<SmtProcessProof>)
    requires
        layered_wf(ws@),
    ensures
        r@ == top_steps(ws@),
        all_proofs_wf(r@),
{
    let mut r: Vec<SmtProcessProof> = Vec::new();
    let mut i: usize = 0;
    while i < ws.len()
        invariant
            i <= ws.len(),
            layered_wf(ws@),
            r@ == top_steps(ws@).take(i as int),
        decreases ws.len() - i,
    {
        r.push(ws[i].0);
        assert(r@ =~= top_steps(ws@).take(i + 1));
        i = i + 1;
    }
    assert(r@ =~= top_steps(ws@));
    r
}

/// Why the witness of a merge-and-purge transition was refused.
#[derive(Clone, Copy, Debug, PartialEq, Eq, Structural)]
pub enum TransitionError {
    TooManyMerges,
    TooManyPurgeInputs,
    TooManyPurgeOutputs,
    /// A merged transaction is not shown to be in its block's merge tree.
    InvalidMergeInclusion,
    /// A merge does not start from the asset root that the one before reached.
    MergeChainBroken,
    /// A purge input does not start from the asset root before it.
    PurgeInputChainBroken,
    /// A purge output does not start from the diff root before it.
    PurgeOutputChainBroken,
}

/// The shape of the merge-and-purge circuit: how many merges and how many
/// purge entries it takes, and the depth of the merge-transaction trees.
#[derive(Clone, Copy, Debug)]
pub struct MergeAndPurgeTransitionTarget {
    pub n_merges: usize,
    pub n_diffs: usize,
    pub n_log_txs: usize,
}

impl MergeAndPurgeTransitionTarget {
    /// Every merge's inclusion proof has one sibling per level of the merge
    /// tree and holds.
    pub open spec fn merges_included<F: Fn(Digest, Digest) -> Digest>(
        &self,
        hasher: &F,
        merges: Seq<MergeProof>,
    ) -> bool {
        forall|i: int| 0 <= i < merges.len() ==> #[trigger] self.merge_included(hasher, merges[i])
    }

    pub open spec fn merge_included<F: Fn(Digest, Digest) -> Digest>(
        &self,
        hasher: &F,
        m: MergeProof,
    ) -> bool {
        &&& m.diff_tree_inclusion_proof.siblings.len() == self.n_log_txs
        &&& m.diff_tree_inclusion_proof.spec_holds(hasher)
    }

    /// Whether every merge's inclusion proof has the tree's depth and holds.
    pub fn check_merge_inclusions<F: Fn(Digest, Digest) -> Digest>(
        &self,
        hasher: &F,
        merges: &Vec<MergeProof>,
    ) -> (r: bool)
        requires
            is_compression(hasher),
            merges_wf(merges@),
        ensures
            r == self.merges_included(hasher, merges@),
    {
        let mut i: usize = 0;
        while i < merges.len()
            invariant
                is_compression(hasher),
                i <= merges.len(),
                merges_wf(merges@),
                forall|k: int| 0 <= k < i ==> #[trigger] self.merge_included(hasher, merges@[k]),
            decreases merges.len() - i,
        {
            let inclusion = &merges[i].diff_tree_inclusion_proof;
            if inclusion.siblings.len() != self.n_log_txs || !inclusion.verify(hasher) {
                assert(!self.merge_included(hasher, merges@[i as int]));
                return false;
            }
            i = i + 1;
        }
        true
    }

    /// The first reason, in the order checked, to refuse the witness.
    pub open spec fn transition_error<F: Fn(Digest, Digest) -> Digest>(
        &self,
        hasher: &F,
        merges: Seq<MergeProof>,
        inputs: Seq<LayeredProcessProof>,
        outputs: Seq<LayeredProcessProof>,
        old_user_asset_root: Seq<u64>,
    ) -> Option<TransitionError> {
        let middle = chain_end(old_user_asset_root, merge_steps(merges));
        if merges.len() > self.n_merges {
            Some(TransitionError::TooManyMerges)
        } else if inputs.len() > self.n_diffs {
            Some(TransitionError::TooManyPurgeInputs)
        } else if outputs.len() > self.n_diffs {
            Some(TransitionError::TooManyPurgeOutputs)
        } else if !self.merges_included(hasher, merges) {
            Some(TransitionError::InvalidMergeInclusion)
        } else if !chained(old_user_asset_root, merge_steps(merges)) {
            Some(TransitionError::MergeChainBroken)
        } else if !chained(middle, top_steps(inputs)) {
            Some(TransitionError::PurgeInputChainBroken)
        } else if !chained(zero_digest(), top_steps(outputs)) {
            Some(TransitionError::PurgeOutputChainBroken)
        } else {
            None
        }
    }

    /// Checks the witness of one account's transition and returns the
    /// public-input record it yields: the merges, applied from
    /// `old_user_asset_root`, reach the middle root; the purge inputs,
    /// applied from there, reach the new root; the purge outputs, applied
    /// to an empty diff tree, reach the diff root; the transaction hash
    /// compresses the diff root with the nonce.
    pub fn set_witness<F: Fn(Digest, Digest) -> Digest>(
        &self,
        hasher: &F,
        sender_address: Digest,
        merge_witnesses: &Vec<MergeProof>,
        purge_input_witnesses: &Vec<LayeredProcessProof>,
        purge_output_witnesses: &Vec<LayeredProcessProof>,
        nonce: Digest,
        old_user_asset_root: Digest,
    ) -> (r: Result<MergeAndPurgeTransitionPublicInputs, TransitionError>)
        requires
            is_compression(hasher),
            sender_address.wf(),
            nonce.wf(),
            old_user_asset_root.wf(),
            merges_wf(merge_witnesses@),
            layered_wf(purge_input_witnesses@),
            layered_wf(purge_output_witnesses@),
        ensures
            ({
                let err = self.transition_error(hasher, 
                    merge_witnesses@,
                    purge_input_witnesses@,
                    purge_output_witnesses@,
                    old_user_asset_root@,
                );
                &&& r is Err <==> err is Some
                &&& r matches Err(e) ==> err == Some(e)
            }),
            r matches Ok(p) ==> {
                let middle = chain_end(old_user_asset_root@, merge_steps(merge_witnesses@));
                let diff_root = chain_end(zero_digest(), top_steps(purge_output_witnesses@));
                &&& p.wf()
                &&& p.sender_address == sender_address
                &&& p.old_user_asset_root == old_user_asset_root
                &&& p.middle_user_asset_root@ == middle
                &&& p.new_user_asset_root@ == chain_end(middle, top_steps(purge_input_witnesses@))
                &&& p.diff_root@ == diff_root
                &&& p.tx_hash@ == compress(hasher, diff_root, nonce@)
            },
    {
        if merge_witnesses.len() > self.n_merges {
            return Err(TransitionError::TooManyMerges);
        }
        if purge_input_witnesses.len() > self.n_diffs {
            return Err(TransitionError::TooManyPurgeInputs);
        }
        if purge_output_witnesses.len() > self.n_diffs {
            return Err(TransitionError::TooManyPurgeOutputs);
        }
        if !self.check_merge_inclusions(hasher, merge_witnesses) {
            return Err(TransitionError::InvalidMergeInclusion);
        }
        let merge_steps_v = merge_process_proofs(merge_witnesses);
        let middle = match follow_chain(&old_user_asset_root, &merge_steps_v) {
            Some(d) => d,
            None => {
                return Err(TransitionError::MergeChainBroken);
            },
        };
        let input_steps = top_process_proofs(purge_input_witnesses);
        let new_root = match follow_chain(&middle, &input_steps) {
            Some(d) => d,
            None => {
                return Err(TransitionError::PurgeInputChainBroken);
            },
        };
        let output_steps = top_process_proofs(purge_output_witnesses);
        let empty = Digest::zero();
        let diff_root = match follow_chain(&empty, &output_steps) {
            Some(d) => d,
            None => {
                return Err(TransitionError::PurgeOutputChainBroken);
            },
        };
        let tx_hash = hash_with(hasher, &diff_root, &nonce);
        Ok(MergeAndPurgeTransitionPublicInputs {
            sender_address,
            old_user_asset_root,
            middle_user_asset_root: middle,
            new_user_asset_root: new_root,
            diff_root,
            tx_hash,
        })
    }
}

} // verus!
