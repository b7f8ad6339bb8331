//! Sparse-Merkle process proofs as the circuits consume them: one key's
//! old and new value and the tree roots around the change, tagged with the
//! role of the change.
use vstd::prelude::*;

use crate::digest::{zero_digest, Digest};

verus! {

/// What a single sparse-Merkle update did to its key.
#[derive(Clone, Copy, Debug, PartialEq, Eq, Structural)]
pub enum ProcessMerkleProofRole {
    /// The value did not change.
    NoOp,
    /// An empty key received a value.
    Insert,
    /// A value was replaced by another non-empty value.
    Update,
    /// A value was replaced by the empty digest.
    Remove,
}

/// The role that an old and a new value determine.
pub open spec fn role_of(old_value: Seq<u64>, new_value: Seq<u64>) -> ProcessMerkleProofRole {
    if old_value == new_value {
        ProcessMerkleProofRole::NoOp
    } else if old_value == zero_digest() {
        ProcessMerkleProofRole::Insert
    } else if new_value == zero_digest() {
        ProcessMerkleProofRole::Remove
    } else {
        ProcessMerkleProofRole::Update
    }
}

/// Classifies a change of value.
pub fn classify_role(old_value: &Digest, new_value: &Digest) -> (r: ProcessMerkleProofRole)
    ensures
        r == role_of(old_value@, new_value@),
{
    if old_value.equals(new_value) {
        ProcessMerkleProofRole::NoOp
    } else if old_value.is_zero() {
        ProcessMerkleProofRole::Insert
    } else if new_value.is_zero() {
        ProcessMerkleProofRole::Remove
    } else {
        ProcessMerkleProofRole::Update
    }
}

/// A role spread over one flag per kind, as the circuits read it.
#[derive(Clone, Copy, Debug, PartialEq, Eq, Structural)]
pub struct ProcessMerkleProofRoleFlags {
    pub is_no_op: bool,
    pub is_insert_op: bool,
    pub is_update_op: bool,
    pub is_remove_op: bool,
    pub is_not_no_op: bool,
}

/// The role as one flag per kind, exactly one of the first four set, and
/// `is_not_no_op` its negation of `is_no_op`.
pub fn get_process_merkle_proof_role(
    fnc: ProcessMerkleProofRole,
) -> (r: ProcessMerkleProofRoleFlags)
    ensures
        r.is_no_op == (fnc == ProcessMerkleProofRole::NoOp),
        r.is_insert_op == (fnc == ProcessMerkleProofRole::Insert),
        r.is_update_op == (fnc == ProcessMerkleProofRole::Update),
        r.is_remove_op == (fnc == ProcessMerkleProofRole::Remove),
        r.is_not_no_op == !r.is_no_op,
{
    let is_no_op = fnc == ProcessMerkleProofRole::NoOp;
    ProcessMerkleProofRoleFlags {
        is_no_op,
        is_insert_op: fnc == ProcessMerkleProofRole::Insert,
        is_update_op: fnc == ProcessMerkleProofRole::Update,
        is_remove_op: fnc == ProcessMerkleProofRole::Remove,
        is_not_no_op: !is_no_op,
    }
}

/// Why a process proof was refused.
#[derive(Clone, Copy, Debug, PartialEq, Eq, Structural)]
pub enum ProcessProofError {
    /// The value is unchanged but the root moved.
    RootChangedWithoutValueChange,
}

/// The transition of one key of a sparse Merkle tree from `old_value` under
/// `old_root` to `new_value` under `new_root`.
#[derive(Clone, Copy, Debug)]
pub struct SmtProcessProof {
    pub old_root: Digest,
    pub new_root: Digest,
    pub old_value: Digest,
    pub new_value: Digest,
    pub fnc: ProcessMerkleProofRole,
}

impl SmtProcessProof {
    /// Canonical digests, a role that the values determine, and no change
    /// of root where the role is `NoOp`.
    pub open spec fn wf(&self) -> bool {
        &&& self.old_root.wf()
        &&& self.new_root.wf()
        &&& self.old_value.wf()
        &&& self.new_value.wf()
        &&& self.fnc == role_of(self.old_value@, self.new_value@)
        &&& (self.fnc == ProcessMerkleProofRole::NoOp ==> self.old_root@ == self.new_root@)
    }

    /// A process proof for the given roots and values, its role derived from
    /// the values; refused where the value stays but the root moves.
    pub fn new(
        old_root: Digest,
        new_root: Digest,
        old_value: Digest,
        new_value: Digest,
    ) -> (r: Result<SmtProcessProof, ProcessProofError>)
        requires
            old_root.wf(),
            new_root.wf(),
            old_value.wf(),
            new_value.wf(),
        ensures
            r is Err <==> (old_value@ == new_value@ && old_root@ != new_root@),
            r matches Ok(p) ==> {
                &&& p.wf()
                &&& p.old_root == old_root
                &&& p.new_root == new_root
                &&& p.old_value == old_value
                &&& p.new_value == new_value
            },
    {
        let fnc = classify_role(&old_value, &new_value);
        if fnc == ProcessMerkleProofRole::NoOp && !old_root.equals(&new_root) {
            return Err(ProcessProofError::RootChangedWithoutValueChange);
        }
        Ok(SmtProcessProof { old_root, new_root, old_value, new_value, fnc })
    }

    /// The no-op proof that leaves a tree with root `root` as it is.
    pub fn with_root(root: Digest) -> (r: SmtProcessProof)
        requires
            root.wf(),
        ensures
            r.wf(),
            r.old_root == root,
            r.new_root == root,
            r.old_value@ == zero_digest(),
            r.new_value@ == zero_digest(),
            r.fnc == ProcessMerkleProofRole::NoOp,
    {
        let zero = Digest::zero();
        SmtProcessProof { old_root: root, new_root: root, old_value: zero, new_value: zero, fnc: ProcessMerkleProofRole::NoOp }
    }
}

/// A well-formed no-op proof changes neither the root nor the value.
pub proof fn lemma_no_op_changes_nothing(p: SmtProcessProof)
    requires
        p.wf(),
        p.fnc == ProcessMerkleProofRole::NoOp,
    ensures
        p.old_root@ == p.new_root@,
        p.old_value@ == p.new_value@,
{
}

} // verus!
