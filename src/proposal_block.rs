//! The proposal-block constraints over one batch of slots: the world-state
//! process proofs chain from the old root, each slot's state change agrees
//! with its account's merge-and-purge record or is a no-op, and the block's
//! transaction root folds the slots' diff roots; and the padding of a batch
//! to its fixed capacity.
use vstd::prelude::*;

use crate::digest::{zero_digest, Digest, compress, hash_with, is_compression};
use crate::merkle::{all_wf, digests_view, get_merkle_root_from_leaves, leaves_root};
use crate::process::{ProcessMerkleProofRole, SmtProcessProof};
use crate::transaction::{all_proofs_wf, root_before, MergeAndPurgeTransitionPublicInputs};

verus! {

/// One slot's recursively verified user transaction: its public-input record
/// and whether the slot is enabled (a disabled slot carries a reused proof
/// whose effects the constraints neutralise).
#[derive(Clone, Copy, Debug)]
pub struct UserTransactionSlot {
    pub public_inputs: MergeAndPurgeTransitionPublicInputs,
    pub enabled: bool,
}

/// Which constraint of a slot failed.
#[derive(Clone, Copy, Debug, PartialEq, Eq, Structural)]
pub enum SlotViolation {
    /// The world state changes in a slot whose transaction is disabled.
    UnauthorizedStateChange,
    /// The old world-state value is not the transaction's middle asset root.
    OldAssetRootMismatch,
    /// The world-state proof inserts, which a purge never does.
    InsertNotAllowed,
    /// An update does not write the transaction's new asset root.
    NewAssetRootMismatch,
    /// A removal comes from a transaction whose new asset root is not empty.
    RemovedRootNotEmpty,
    /// A no-op comes from a transaction that changes its asset root.
    NoOpRootChanged,
}

/// Why a proposal block, or its witness, was refused.
#[derive(Clone, Copy, Debug, PartialEq, Eq, Structural)]
pub enum ProposalBlockError {
    /// Process proofs and transaction slots differ in number.
    LengthMismatch,
    /// The block has no slot.
    EmptyBlock,
    /// The process proof of this slot changes the world state but does not
    /// start from the running root.
    RootChainBroken(usize),
    /// This slot breaks the given constraint.
    SlotRejected(usize, SlotViolation),
    /// No process proof, or no transaction, was supplied.
    NothingSupplied,
    /// More process proofs, or more transactions, than the batch has slots.
    TooManySupplied,
}

impl UserTransactionSlot {
    pub open spec fn wf(&self) -> bool {
        self.public_inputs.wf()
    }
}

pub open spec fn slots_wf(slots: Seq<UserTransactionSlot>) -> bool {
    forall|i: int| 0 <= i < slots.len() ==> (#[trigger] slots[i]).wf()
}

/// The first constraint, in the order checked, that a slot breaks.
pub open spec fn slot_violation(
    w: SmtProcessProof,
    u: UserTransactionSlot,
) -> Option<SlotViolation> {
    let old_asset_root = u.public_inputs.middle_user_asset_root@;
    let new_asset_root = u.public_inputs.new_user_asset_root@;
    if !(w.fnc == ProcessMerkleProofRole::NoOp || u.enabled) {
        Some(SlotViolation::UnauthorizedStateChange)
    } else if u.enabled && old_asset_root != w.old_value@ {
        Some(SlotViolation::OldAssetRootMismatch)
    } else if w.fnc == ProcessMerkleProofRole::Insert {
        Some(SlotViolation::InsertNotAllowed)
    } else if w.fnc == ProcessMerkleProofRole::Update && u.enabled && new_asset_root != w.new_value@ {
        Some(SlotViolation::NewAssetRootMismatch)
    } else if w.fnc == ProcessMerkleProofRole::Remove && u.enabled && new_asset_root != zero_digest() {
        Some(SlotViolation::RemovedRootNotEmpty)
    } else if w.fnc == ProcessMerkleProofRole::NoOp && u.enabled && new_asset_root != old_asset_root {
        Some(SlotViolation::NoOpRootChanged)
    } else {
        None
    }
}

/// Slot `i` keeps the world-state chain: a no-op, or a change that starts
/// from the running root (the old root for the first slot, else the root
/// that the slot before reached).
pub open spec fn chain_ok(old_root: Seq<u64>, proofs: Seq<SmtProcessProof>, i: int) -> bool {
    proofs[i].fnc == ProcessMerkleProofRole::NoOp || proofs[i].old_root@ == root_before(old_root, proofs, i)
}

pub open spec fn slot_ok(
    proofs: Seq<SmtProcessProof>,
    slots: Seq<UserTransactionSlot>,
    i: int,
) -> bool {
    slot_violation(proofs[i], slots[i]) is None
}

/// Every constraint of the block holds.
pub open spec fn block_valid(
    proofs: Seq<SmtProcessProof>,
    slots: Seq<UserTransactionSlot>,
    old_root: Seq<u64>,
) -> bool {
    &&& proofs.len() == slots.len()
    &&& proofs.len() > 0
    &&& forall|i: int| 0 <= i < proofs.len() ==> #[trigger] chain_ok(old_root, proofs, i)
    &&& forall|i: int| 0 <= i < proofs.len() ==> #[trigger] slot_ok(proofs, slots, i)
}

/// The world-state root after the block: where the last slot leaves it.
pub open spec fn block_new_root(proofs: Seq<SmtProcessProof>) -> Seq<u64> {
    proofs.last().new_root@
}

/// The diff roots of the slots, in slot order.
pub open spec fn slot_diff_roots(slots: Seq<UserTransactionSlot>) -> Seq<Seq<u64>> {
    slots.map_values(|u: UserTransactionSlot| u.public_inputs.diff_root@)
}

/// The block's transaction root: the leaf-list root of its diff roots.
pub open spec fn block_tx_root<F: Fn(Digest, Digest) -> Digest>(
    hasher: &F,
    slots: Seq<UserTransactionSlot>,
) -> Seq<u64> {
    leaves_root(hasher, slot_diff_roots(slots))
}

fn check_slot(w: &SmtProcessProof, u: &UserTransactionSlot) -> (r: Option<SlotViolation>)
    ensures
        r == slot_violation(*w, *u),
{
    let old_asset_root = &u.public_inputs.middle_user_asset_root;
    let new_asset_root = &u.public_inputs.new_user_asset_root;
    let is_no_op = w.fnc == ProcessMerkleProofRole::NoOp;
    if !(is_no_op || u.enabled) {
        Some(SlotViolation::UnauthorizedStateChange)
    } else if u.enabled && !old_asset_root.equals(&w.old_value) {
        Some(SlotViolation::OldAssetRootMismatch)
    } else if w.fnc == ProcessMerkleProofRole::Insert {
        Some(SlotViolation::InsertNotAllowed)
    } else if w.fnc == ProcessMerkleProofRole::Update && u.enabled && !new_asset_root.equals(&w.new_value) {
        Some(SlotViolation::NewAssetRootMismatch)
    } else if w.fnc == ProcessMerkleProofRole::Remove && u.enabled && !new_asset_root.is_zero() {
        Some(SlotViolation::RemovedRootNotEmpty)
    } else if is_no_op && u.enabled && !new_asset_root.equals(old_asset_root) {
        Some(SlotViolation::NoOpRootChanged)
    } else {
        None
    }
}

/// Checks the proposal-block constraints on one batch and returns the
/// block's transaction root and its new world-state root. The root chain is
/// checked over all slots first, then each slot's constraints in slot
/// order; the first failure is reported.
pub fn verify_valid_proposal_block<F: Fn(Digest, Digest) -> Digest>(
    hasher: &F,
    world_state_process_proofs: &Vec<SmtProcessProof>,
    user_tx_proofs: &Vec<UserTransactionSlot>,
    old_world_state_root: &Digest,
) -> (r: Result<(Digest, Digest), ProposalBlockError>)
    requires
        is_compression(hasher),
        old_world_state_root.wf(),
        all_proofs_wf(world_state_process_proofs@),
        slots_wf(user_tx_proofs@),
    ensures
        ({
            let proofs = world_state_process_proofs@;
            let slots = user_tx_proofs@;
            let old_root = old_world_state_root@;
            &&& r is Ok <==> block_valid(proofs, slots, old_root)
            &&& r == Err::<(Digest, Digest), _>(ProposalBlockError::LengthMismatch) <==> proofs.len() != slots.len()
            &&& r == Err::<(Digest, Digest), _>(ProposalBlockError::EmptyBlock) <==> (proofs.len() == slots.len()
                && proofs.len() == 0)
            &&& r matches Err(ProposalBlockError::RootChainBroken(i)) ==> {
                &&& proofs.len() == slots.len()
                &&& i < proofs.len()
                &&& !chain_ok(old_root, proofs, i as int)
                &&& forall|j: int| 0 <= j < i ==> #[trigger] chain_ok(old_root, proofs, j)
            }
            &&& r matches Err(ProposalBlockError::SlotRejected(i, v)) ==> {
                &&& proofs.len() == slots.len()
                &&& i < proofs.len()
                &&& forall|j: int| 0 <= j < proofs.len() ==> #[trigger] chain_ok(old_root, proofs, j)
                &&& slot_violation(proofs[i as int], slots[i as int]) == Some(v)
                &&& forall|j: int| 0 <= j < i ==> #[trigger] slot_ok(proofs, slots, j)
            }
            &&& !(r matches Err(ProposalBlockError::NothingSupplied))
            &&& !(r matches Err(ProposalBlockError::TooManySupplied))
            &&& r matches Ok((tx_root, new_root)) ==> {
                &&& tx_root@ == block_tx_root(hasher, slots)
                &&& new_root@ == block_new_root(proofs)
                &&& tx_root.wf()
                &&& new_root.wf()
            }
        }),
{
    let ghost proofs = world_state_process_proofs@;
    let ghost slots = user_tx_proofs@;
    if world_state_process_proofs.len() != user_tx_proofs.len() {
        return Err(ProposalBlockError::LengthMismatch);
    }
    let n = world_state_process_proofs.len();
    if n == 0 {
        return Err(ProposalBlockError::EmptyBlock);
    }
    let mut new_world_state_root = *old_world_state_root;
    let mut i: usize = 0;
    while i < n
        invariant
            is_compression(hasher),
            n == proofs.len(),
            n == user_tx_proofs.len(),
            proofs == world_state_process_proofs@,
            i <= n,
            all_proofs_wf(proofs),
            new_world_state_root.wf(),
            new_world_state_root@ == root_before(old_world_state_root@, proofs, i as int),
            forall|j: int| 0 <= j < i ==> #[trigger] chain_ok(old_world_state_root@, proofs, j),
        decreases n - i,
    {
        let proof = &world_state_process_proofs[i];
        if proof.fnc != ProcessMerkleProofRole::NoOp && !proof.old_root.equals(&new_world_state_root) {
            assert(!chain_ok(old_world_state_root@, proofs, i as int));
            return Err(ProposalBlockError::RootChainBroken(i));
        }
        new_world_state_root = proof.new_root;
        i = i + 1;
    }
    let mut i: usize = 0;
    while i < n
        invariant
            is_compression(hasher),
            n == proofs.len(),
            n == slots.len(),
            proofs == world_state_process_proofs@,
            slots == user_tx_proofs@,
            i <= n,
            forall|j: int| 0 <= j < n ==> #[trigger] chain_ok(old_world_state_root@, proofs, j),
            forall|j: int| 0 <= j < i ==> #[trigger] slot_ok(proofs, slots, j),
        decreases n - i,
    {
        match check_slot(&world_state_process_proofs[i], &user_tx_proofs[i]) {
            Some(v) => {
                assert(!slot_ok(proofs, slots, i as int));
                return Err(ProposalBlockError::SlotRejected(i, v));
            },
            None => {},
        }
        i = i + 1;
    }
    let mut leaves: Vec<Digest> = Vec::new();
    let mut i: usize = 0;
    while i < n
        invariant
            is_compression(hasher),
            n == slots.len(),
            slots == user_tx_proofs@,
            slots_wf(slots),
            i <= n,
            all_wf(leaves@),
            digests_view(leaves@) == slot_diff_roots(slots).take(i as int),
        decreases n - i,
    {
        let ghost before = leaves@;
        leaves.push(user_tx_proofs[i].public_inputs.diff_root);
        assert(digests_view(leaves@) =~= digests_view(before).push(slots[i as int].public_inputs.diff_root@));
        assert(digests_view(leaves@) =~= slot_diff_roots(slots).take(i + 1));
        i = i + 1;
    }
    assert(slot_diff_roots(slots).take(n as int) =~= slot_diff_roots(slots));
    match get_merkle_root_from_leaves(hasher, &leaves) {
        Ok(block_tx_root) => Ok((block_tx_root, new_world_state_root)),
        Err(_) => Err(ProposalBlockError::EmptyBlock),
    }
}

/// No-op idempotence: a slot whose transaction is disabled and whose
/// world-state proof is a no-op breaks no constraint, whatever the running
/// root.
pub proof fn lemma_disabled_no_op_slot_accepted(
    proofs: Seq<SmtProcessProof>,
    slots: Seq<UserTransactionSlot>,
    old_root: Seq<u64>,
    i: int,
)
    requires
        0 <= i < proofs.len(),
        i < slots.len(),
        proofs[i].fnc == ProcessMerkleProofRole::NoOp,
        !slots[i].enabled,
    ensures
        chain_ok(old_root, proofs, i),
        slot_ok(proofs, slots, i),
{
}

/// Root chaining: a block in which a state-changing proof does not start
/// from the root that the proof before it reached is refused.
pub proof fn lemma_out_of_order_rejected(
    proofs: Seq<SmtProcessProof>,
    slots: Seq<UserTransactionSlot>,
    old_root: Seq<u64>,
    i: int,
)
    requires
        0 <= i,
        i + 1 < proofs.len(),
        proofs[i + 1].fnc != ProcessMerkleProofRole::NoOp,
        proofs[i + 1].old_root@ != proofs[i].new_root@,
    ensures
        !block_valid(proofs, slots, old_root),
{
    assert(!chain_ok(old_root, proofs, i + 1));
}

/// Insert rejection: a block with an inserting world-state proof in any
/// slot is refused, whether that slot is enabled or not.
pub proof fn lemma_insert_rejected(
    proofs: Seq<SmtProcessProof>,
    slots: Seq<UserTransactionSlot>,
    old_root: Seq<u64>,
    i: int,
)
    requires
        0 <= i < proofs.len(),
        proofs[i].fnc == ProcessMerkleProofRole::Insert,
    ensures
        !block_valid(proofs, slots, old_root),
{
    if proofs.len() == slots.len() {
        assert(!slot_ok(proofs, slots, i));
    }
}

/// `padded` is `real` followed by no-op proofs, up to `n`, that keep the
/// root where the last real proof left it.
pub open spec fn is_padded_process_proofs(
    supplied: Seq<SmtProcessProof>,
    padded: Seq<SmtProcessProof>,
    n: nat,
) -> bool {
    &&& padded.len() == n
    &&& forall|i: int| 0 <= i < supplied.len() ==> #[trigger] padded[i] == supplied[i]
    &&& forall|i: int|
        supplied.len() <= i < n ==> {
            &&& (#[trigger] padded[i]).fnc == ProcessMerkleProofRole::NoOp
            &&& padded[i].old_root@ == supplied.last().new_root@
            &&& padded[i].new_root@ == supplied.last().new_root@
            &&& padded[i].old_value@ == zero_digest()
            &&& padded[i].new_value@ == zero_digest()
        }
}

/// `padded` holds the supplied transactions, enabled, then the last of them
/// again, disabled, up to `n` slots.
pub open spec fn is_padded_slots(
    supplied: Seq<MergeAndPurgeTransitionPublicInputs>,
    padded: Seq<UserTransactionSlot>,
    n: nat,
) -> bool {
    &&& padded.len() == n
    &&& forall|i: int|
        0 <= i < supplied.len() ==> (#[trigger] padded[i]).public_inputs == supplied[i] && padded[i].enabled
    &&& forall|i: int|
        supplied.len() <= i < n ==> (#[trigger] padded[i]).public_inputs == supplied.last() && !padded[i].enabled
}

proof fn lemma_padding_matches_real(
    real_proofs: Seq<SmtProcessProof>,
    real_txs: Seq<MergeAndPurgeTransitionPublicInputs>,
    padded_proofs: Seq<SmtProcessProof>,
    padded_slots: Seq<UserTransactionSlot>,
    exact_proofs: Seq<SmtProcessProof>,
    exact_slots: Seq<UserTransactionSlot>,
    n: nat,
    old_root: Seq<u64>,
)
    requires
        real_proofs.len() == real_txs.len(),
        real_proofs.len() > 0,
        n >= real_proofs.len(),
        is_padded_process_proofs(real_proofs, padded_proofs, n),
        is_padded_slots(real_txs, padded_slots, n),
        is_padded_process_proofs(real_proofs, exact_proofs, real_proofs.len()),
        is_padded_slots(real_txs, exact_slots, real_txs.len()),
    ensures
        block_valid(padded_proofs, padded_slots, old_root) <==> block_valid(exact_proofs, exact_slots, old_root),
        block_new_root(padded_proofs) == block_new_root(exact_proofs),
{
    let k = real_proofs.len() as int;
    assert forall|i: int| 0 <= i < k implies #[trigger] padded_proofs[i] == exact_proofs[i] && padded_slots[i]
        == exact_slots[i] by {
        assert(padded_proofs[i] == real_proofs[i]);
        assert(exact_proofs[i] == real_proofs[i]);
        assert(padded_slots[i].public_inputs == exact_slots[i].public_inputs);
    }
    assert forall|i: int| 0 <= i < k implies #[trigger] chain_ok(old_root, padded_proofs, i) == chain_ok(
        old_root,
        exact_proofs,
        i,
    ) by {
        if i > 0 {
            assert(padded_proofs[i - 1] == exact_proofs[i - 1]);
        }
    }
    assert forall|i: int| 0 <= i < k implies #[trigger] slot_ok(padded_proofs, padded_slots, i) == slot_ok(
        exact_proofs,
        exact_slots,
        i,
    ) by {
        assert(padded_proofs[i] == exact_proofs[i]);
    }
    assert forall|i: int| k <= i < n implies #[trigger] chain_ok(old_root, padded_proofs, i) && #[trigger] slot_ok(
        padded_proofs,
        padded_slots,
        i,
    ) by {
        lemma_disabled_no_op_slot_accepted(padded_proofs, padded_slots, old_root, i);
    }
    if block_valid(exact_proofs, exact_slots, old_root) {
        assert forall|i: int| 0 <= i < n implies #[trigger] chain_ok(old_root, padded_proofs, i) by {
            if i < k {
                assert(chain_ok(old_root, exact_proofs, i));
            }
        }
        assert forall|i: int| 0 <= i < n implies #[trigger] slot_ok(padded_proofs, padded_slots, i) by {
            if i < k {
                assert(slot_ok(exact_proofs, exact_slots, i));
            }
        }
    }
    if block_valid(padded_proofs, padded_slots, old_root) {
        assert forall|i: int| 0 <= i < k implies #[trigger] chain_ok(old_root, exact_proofs, i) by {
            assert(chain_ok(old_root, padded_proofs, i));
        }
        assert forall|i: int| 0 <= i < k implies #[trigger] slot_ok(exact_proofs, exact_slots, i) by {
            assert(slot_ok(padded_proofs, padded_slots, i));
        }
    }
    if n > k {
        assert(padded_proofs[n - 1].new_root@ == real_proofs.last().new_root@);
    }
    assert(exact_proofs[k - 1] == real_proofs[k - 1]);
    assert(padded_proofs[k - 1] == real_proofs[k - 1]);
}

/// Padding neutrality: the same real proofs and transactions, padded to two
/// capacities, give blocks that are accepted together and that reach the
/// same world-state root.
pub proof fn lemma_padding_neutral(
    real_proofs: Seq<SmtProcessProof>,
    real_txs: Seq<MergeAndPurgeTransitionPublicInputs>,
    proofs_a: Seq<SmtProcessProof>,
    slots_a: Seq<UserTransactionSlot>,
    n_a: nat,
    proofs_b: Seq<SmtProcessProof>,
    slots_b: Seq<UserTransactionSlot>,
    n_b: nat,
    old_root: Seq<u64>,
)
    requires
        real_proofs.len() == real_txs.len(),
        real_proofs.len() > 0,
        n_a >= real_proofs.len(),
        n_b >= real_proofs.len(),
        is_padded_process_proofs(real_proofs, proofs_a, n_a),
        is_padded_slots(real_txs, slots_a, n_a),
        is_padded_process_proofs(real_proofs, proofs_b, n_b),
        is_padded_slots(real_txs, slots_b, n_b),
    ensures
        block_valid(proofs_a, slots_a, old_root) <==> block_valid(proofs_b, slots_b, old_root),
        block_new_root(proofs_a) == block_new_root(proofs_b),
{
    let k = real_proofs.len();
    let exact_proofs = real_proofs;
    let exact_slots = Seq::new(k, |i: int| UserTransactionSlot { public_inputs: real_txs[i], enabled: true });
    lemma_padding_matches_real(real_proofs, real_txs, proofs_a, slots_a, exact_proofs, exact_slots, n_a, old_root);
    lemma_padding_matches_real(real_proofs, real_txs, proofs_b, slots_b, exact_proofs, exact_slots, n_b, old_root);
}

/// The shape of the proposal-block circuit: its number of slots.
#[derive(Clone, Copy, Debug)]
pub struct ProposalBlockProofTarget {
    pub n_txs: usize,
}

/// What the proposal-block circuit is given: one world-state process proof
/// and one transaction slot per slot, and the world-state root before.
#[derive(Clone, Debug)]
pub struct ProposalBlockWitness {
    pub world_state_process_proofs: Vec<SmtProcessProof>,
    pub user_tx_proofs: Vec<UserTransactionSlot>,
    pub old_world_state_root: Digest,
}

pub open spec fn txs_wf(txs: Seq<MergeAndPurgeTransitionPublicInputs>) -> bool {
    forall|i: int| 0 <= i < txs.len() ==> (#[trigger] txs[i]).wf()
}

impl ProposalBlockProofTarget {
    /// A block circuit with `n_txs` slots.
    pub fn add_virtual_to(n_txs: usize) -> (r: ProposalBlockProofTarget)
        ensures
            r.n_txs == n_txs,
    {
        ProposalBlockProofTarget { n_txs }
    }

    /// Fills every slot: the supplied process proofs, then no-op proofs at
    /// the root that the last one reached; the supplied transactions,
    /// enabled, then the last of them again, disabled. At least one of each
    /// and at most one per slot must be supplied.
    pub fn set_witness(
        &self,
        world_state_process_proofs: &Vec<SmtProcessProof>,
        user_tx_proofs: &Vec<MergeAndPurgeTransitionPublicInputs>,
        old_world_state_root: Digest,
    ) -> (r: Result<ProposalBlockWitness, ProposalBlockError>)
        requires
            all_proofs_wf(world_state_process_proofs@),
            txs_wf(user_tx_proofs@),
        ensures
            r is Err <==> (world_state_process_proofs.len() == 0 || user_tx_proofs.len() == 0
                || world_state_process_proofs.len() > self.n_txs || user_tx_proofs.len() > self.n_txs),
            r matches Err(e) ==> (e == ProposalBlockError::NothingSupplied <==> (
            world_state_process_proofs.len() == 0 || user_tx_proofs.len() == 0)),
            r matches Err(e) ==> (e == ProposalBlockError::NothingSupplied || e
                == ProposalBlockError::TooManySupplied),
            r matches Ok(w) ==> {
                &&& is_padded_process_proofs(
                    world_state_process_proofs@,
                    w.world_state_process_proofs@,
                    self.n_txs as nat,
                )
                &&& is_padded_slots(user_tx_proofs@, w.user_tx_proofs@, self.n_txs as nat)
                &&& w.old_world_state_root == old_world_state_root
                &&& all_proofs_wf(w.world_state_process_proofs@)
                &&& slots_wf(w.user_tx_proofs@)
            },
    {
        if world_state_process_proofs.len() == 0 || user_tx_proofs.len() == 0 {
            return Err(ProposalBlockError::NothingSupplied);
        }
        if world_state_process_proofs.len() > self.n_txs || user_tx_proofs.len() > self.n_txs {
            return Err(ProposalBlockError::TooManySupplied);
        }
        let n = self.n_txs;
        let supplied = world_state_process_proofs;
        let ghost sp = supplied@;
        let latest_root = supplied[supplied.len() - 1].new_root;
        let default_proof = SmtProcessProof::with_root(latest_root);
        let mut proofs: Vec<SmtProcessProof> = Vec::new();
        let mut i: usize = 0;
        while i < n
            invariant
                sp == supplied@,
                0 < sp.len() <= n,
                all_proofs_wf(sp),
                latest_root == sp.last().new_root,
                default_proof.wf(),
                default_proof.fnc == ProcessMerkleProofRole::NoOp,
                default_proof.old_root == latest_root,
                default_proof.new_root == latest_root,
                default_proof.old_value@ == zero_digest(),
                default_proof.new_value@ == zero_digest(),
                i <= n,
                proofs.len() == i,
                all_proofs_wf(proofs@),
                forall|k: int| 0 <= k < sp.len() && k < i ==> #[trigger] proofs@[k] == sp[k],
                forall|k: int|
                    sp.len() <= k < i ==> {
                        &&& (#[trigger] proofs@[k]).fnc == ProcessMerkleProofRole::NoOp
                        &&& proofs@[k].old_root@ == sp.last().new_root@
                        &&& proofs@[k].new_root@ == sp.last().new_root@
                        &&& proofs@[k].old_value@ == zero_digest()
                        &&& proofs@[k].new_value@ == zero_digest()
                    },
            decreases n - i,
        {
            if i < supplied.len() {
                proofs.push(supplied[i]);
            } else {
                proofs.push(default_proof);
            }
            i = i + 1;
        }
        let txs = user_tx_proofs;
        let ghost tp = txs@;
        let last_tx = txs[txs.len() - 1];
        let mut slots: Vec<UserTransactionSlot> = Vec::new();
        let mut i: usize = 0;
        while i < n
            invariant
                tp == txs@,
                0 < tp.len() <= n,
                txs_wf(tp),
                last_tx == tp.last(),
                i <= n,
                slots.len() == i,
                slots_wf(slots@),
                forall|k: int|
                    0 <= k < tp.len() && k < i ==> (#[trigger] slots@[k]).public_inputs == tp[k]
                        && slots@[k].enabled,
                forall|k: int|
                    tp.len() <= k < i ==> (#[trigger] slots@[k]).public_inputs == tp.last()
                        && !slots@[k].enabled,
            decreases n - i,
        {
            if i < txs.len() {
                slots.push(UserTransactionSlot { public_inputs: txs[i], enabled: true });
            } else {
                slots.push(UserTransactionSlot { public_inputs: last_tx, enabled: false });
            }
            i = i + 1;
        }
        Ok(ProposalBlockWitness {
            world_state_process_proofs: proofs,
            user_tx_proofs: slots,
            old_world_state_root,
        })
    }
}

} // verus!
