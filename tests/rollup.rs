use rollup_gadgets::address_list::{make_address_list, AddressListError};
use rollup_gadgets::digest::{Digest, GOLDILOCKS_ORDER};
use rollup_gadgets::merkle::{get_merkle_proof, get_merkle_root_from_leaves};
use rollup_gadgets::process::{
    classify_role, get_process_merkle_proof_role, ProcessMerkleProofRole, ProcessProofError,
    SmtProcessProof,
};
use rollup_gadgets::proposal_block::{
    verify_valid_proposal_block, ProposalBlockError, ProposalBlockProofTarget, SlotViolation,
    UserTransactionSlot,
};
use rollup_gadgets::transaction::{
    parse_merge_and_purge_public_inputs, LayeredProcessProof, MergeAndPurgeTransitionPublicInputs,
    MergeAndPurgeTransitionTarget, MergeProof, TransitionError,
};

/// A deterministic, order-sensitive mixing of two digests into a canonical one.
fn mix(left: Digest, right: Digest) -> Digest {
    let p = GOLDILOCKS_ORDER as u128;
    let mut out = [0u64; 4];
    for k in 0..4 {
        let mut acc: u128 = (k as u128) + 1;
        for j in 0..4 {
            acc = (acc * 1_000_003 + left.elements[(j + k) % 4] as u128) % p;
            acc = (acc * 998_244_353 + right.elements[(j + 2 * k) % 4] as u128) % p;
        }
        out[k] = acc as u64;
    }
    Digest { elements: out }
}

fn d(n: u64) -> Digest {
    Digest::from_u64(n)
}

fn smt(old_root: u64, new_root: u64, old_value: u64, new_value: u64) -> SmtProcessProof {
    SmtProcessProof::new(d(old_root), d(new_root), d(old_value), d(new_value)).unwrap()
}

/// A three-level update whose top-level proof moves the root as given.
fn layered(old_root: u64, new_root: u64, old_value: u64, new_value: u64) -> LayeredProcessProof {
    let top = smt(old_root, new_root, old_value, new_value);
    (top, smt(old_value, new_value, 1, 2), smt(1, 2, 3, 4))
}

fn record(old: u64, middle: u64, new: u64, diff: u64, sender: u64, tx: u64) -> MergeAndPurgeTransitionPublicInputs {
    MergeAndPurgeTransitionPublicInputs {
        sender_address: d(sender),
        old_user_asset_root: d(old),
        middle_user_asset_root: d(middle),
        new_user_asset_root: d(new),
        diff_root: d(diff),
        tx_hash: d(tx),
    }
}

#[test]
fn roles_follow_the_values() {
    assert_eq!(classify_role(&d(0), &d(5)), ProcessMerkleProofRole::Insert);
    assert_eq!(classify_role(&d(5), &d(7)), ProcessMerkleProofRole::Update);
    assert_eq!(classify_role(&d(5), &d(0)), ProcessMerkleProofRole::Remove);
    assert_eq!(classify_role(&d(5), &d(5)), ProcessMerkleProofRole::NoOp);
    assert_eq!(classify_role(&d(0), &d(0)), ProcessMerkleProofRole::NoOp);
    let flags = get_process_merkle_proof_role(ProcessMerkleProofRole::Update);
    assert!(flags.is_update_op && flags.is_not_no_op);
    assert!(!flags.is_no_op && !flags.is_insert_op && !flags.is_remove_op);
    let flags = get_process_merkle_proof_role(ProcessMerkleProofRole::NoOp);
    assert!(flags.is_no_op && !flags.is_not_no_op);
}

#[test]
fn no_op_proof_keeps_root_and_value() {
    let p = SmtProcessProof::with_root(d(42));
    assert_eq!(p.fnc, ProcessMerkleProofRole::NoOp);
    assert_eq!(p.old_root.elements, p.new_root.elements);
    assert_eq!(p.old_value.elements, p.new_value.elements);
    let err = SmtProcessProof::new(d(1), d(2), d(3), d(3)).unwrap_err();
    assert_eq!(err, ProcessProofError::RootChangedWithoutValueChange);
    let ok = SmtProcessProof::new(d(1), d(1), d(3), d(3)).unwrap();
    assert_eq!(ok.fnc, ProcessMerkleProofRole::NoOp);
}

#[test]
fn public_inputs_wire_order() {
    let r = record(1, 2, 3, 4, 5, 6);
    let encoded = r.encode();
    assert_eq!(encoded.len(), 24);
    for (slot, expected) in [1u64, 2, 3, 4, 5, 6].iter().enumerate() {
        assert_eq!(encoded[slot * 4..slot * 4 + 4], [*expected, 0, 0, 0]);
    }
    let parsed = parse_merge_and_purge_public_inputs(&encoded);
    assert_eq!(parsed.old_user_asset_root.elements, d(1).elements);
    assert_eq!(parsed.middle_user_asset_root.elements, d(2).elements);
    assert_eq!(parsed.new_user_asset_root.elements, d(3).elements);
    assert_eq!(parsed.diff_root.elements, d(4).elements);
    assert_eq!(parsed.sender_address.elements, d(5).elements);
    assert_eq!(parsed.tx_hash.elements, d(6).elements);
}

#[test]
fn parse_reads_only_the_first_record() {
    let mut inputs: Vec<u64> = (0..30).collect();
    inputs[0] = 99;
    let parsed = parse_merge_and_purge_public_inputs(&inputs);
    assert_eq!(parsed.old_user_asset_root.elements, [99, 1, 2, 3]);
    assert_eq!(parsed.tx_hash.elements, [20, 21, 22, 23]);
}

fn target() -> MergeAndPurgeTransitionTarget {
    MergeAndPurgeTransitionTarget { n_merges: 2, n_diffs: 2, n_log_txs: 1 }
}

fn deposit_merge(old_root: u64, new_root: u64, value: u64) -> MergeProof {
    let deposit_tx_hash = mix(d(value), Digest::zero());
    let inclusion = get_merkle_proof(&mix, &vec![deposit_tx_hash], 0, 1).unwrap();
    MergeProof {
        is_deposit: true,
        diff_tree_inclusion_proof: inclusion,
        merge_process_proof: smt(old_root, new_root, 0, value),
        nonce: Digest::zero(),
    }
}

#[test]
fn merge_and_purge_without_merges() {
    let inputs = vec![layered(100, 101, 2053, 0), layered(101, 102, 1111, 0)];
    let outputs = vec![layered(0, 201, 0, 2053), layered(201, 202, 0, 1111)];
    let nonce = d(77);
    let r = target().set_witness(&mix, d(5), &vec![], &inputs, &outputs, nonce, d(100)).unwrap();
    assert_eq!(r.sender_address.elements, d(5).elements);
    assert_eq!(r.old_user_asset_root.elements, d(100).elements);
    assert_eq!(r.middle_user_asset_root.elements, d(100).elements);
    assert_eq!(r.new_user_asset_root.elements, d(102).elements);
    assert_eq!(r.diff_root.elements, d(202).elements);
    assert_eq!(r.tx_hash.elements, mix(d(202), nonce).elements);
}

#[test]
fn merge_and_purge_with_a_deposit() {
    let merges = vec![deposit_merge(0, 300, 9)];
    let inputs = vec![layered(300, 301, 1111, 0), layered(301, 302, 2053, 0)];
    let outputs = vec![layered(0, 401, 0, 2053), layered(401, 402, 0, 1111)];
    let r = target().set_witness(&mix, d(6), &merges, &inputs, &outputs, d(8), Digest::zero()).unwrap();
    assert_eq!(r.old_user_asset_root.elements, [0, 0, 0, 0]);
    assert_eq!(r.middle_user_asset_root.elements, d(300).elements);
    assert_eq!(r.new_user_asset_root.elements, d(302).elements);
    assert_eq!(r.diff_root.elements, d(402).elements);
    assert_eq!(r.tx_hash.elements, mix(d(402), d(8)).elements);
}

#[test]
fn merge_and_purge_errors() {
    let t = target();
    let z = Digest::zero();
    let three = vec![deposit_merge(0, 1, 9), deposit_merge(1, 2, 9), deposit_merge(2, 3, 9)];
    assert_eq!(t.set_witness(&mix, d(1), &three, &vec![], &vec![], z, z).unwrap_err(), TransitionError::TooManyMerges);
    let many = vec![layered(0, 1, 1, 2), layered(1, 2, 1, 2), layered(2, 3, 1, 2)];
    assert_eq!(t.set_witness(&mix, d(1), &vec![], &many, &vec![], z, z).unwrap_err(), TransitionError::TooManyPurgeInputs);
    assert_eq!(t.set_witness(&mix, d(1), &vec![], &vec![], &many, z, z).unwrap_err(), TransitionError::TooManyPurgeOutputs);
    let mut bad = deposit_merge(0, 1, 9);
    bad.diff_tree_inclusion_proof.root = d(12345);
    assert_eq!(t.set_witness(&mix, d(1), &vec![bad], &vec![], &vec![], z, z).unwrap_err(), TransitionError::InvalidMergeInclusion);
    let unchained = vec![deposit_merge(0, 1, 9), deposit_merge(5, 6, 9)];
    assert_eq!(t.set_witness(&mix, d(1), &unchained, &vec![], &vec![], z, z).unwrap_err(), TransitionError::MergeChainBroken);
    let inputs = vec![layered(10, 11, 1, 2)];
    assert_eq!(t.set_witness(&mix, d(1), &vec![], &inputs, &vec![], z, d(9)).unwrap_err(), TransitionError::PurgeInputChainBroken);
    let outputs = vec![layered(3, 4, 0, 2)];
    assert_eq!(t.set_witness(&mix, d(1), &vec![], &vec![], &outputs, z, z).unwrap_err(), TransitionError::PurgeOutputChainBroken);
}

#[test]
fn address_list_pads_to_capacity() {
    let txs = vec![record(1, 2, 3, 4, 50, 6), record(1, 2, 3, 4, 60, 6)];
    let sigs: Vec<Option<u8>> = vec![Some(1), None];
    let list = make_address_list(&txs, &sigs, 4).unwrap();
    assert_eq!(list.len(), 4);
    assert_eq!(list[0].sender_address.elements, d(50).elements);
    assert!(list[0].is_valid);
    assert_eq!(list[1].sender_address.elements, d(60).elements);
    assert!(!list[1].is_valid);
    for entry in &list[2..] {
        assert_eq!(entry.sender_address.elements, [0, 0, 0, 0]);
        assert!(!entry.is_valid);
    }
}

#[test]
fn address_list_errors() {
    let txs = vec![record(1, 2, 3, 4, 50, 6), record(1, 2, 3, 4, 60, 6)];
    let one: Vec<Option<u8>> = vec![Some(1)];
    assert_eq!(make_address_list(&txs, &one, 4).unwrap_err(), AddressListError::LengthMismatch);
    let two: Vec<Option<u8>> = vec![Some(1), Some(2)];
    assert_eq!(make_address_list(&txs, &two, 1).unwrap_err(), AddressListError::TooManyTransactions);
}

/// Two accounts' records and the world-state proofs that apply them:
/// 1000 -> 1001 for the first account, 1001 -> 1002 for the second.
fn two_account_block() -> (Vec<SmtProcessProof>, Vec<MergeAndPurgeTransitionPublicInputs>) {
    let t = target();
    let inputs1 = vec![layered(100, 101, 2053, 0), layered(101, 102, 1111, 0)];
    let outputs1 = vec![layered(0, 201, 0, 2053), layered(201, 202, 0, 1111)];
    let tx1 = t.set_witness(&mix, d(5), &vec![], &inputs1, &outputs1, d(77), d(100)).unwrap();
    let merges2 = vec![deposit_merge(0, 300, 9)];
    let inputs2 = vec![layered(300, 301, 1111, 0), layered(301, 302, 2053, 0)];
    let outputs2 = vec![layered(0, 401, 0, 2053), layered(401, 402, 0, 1111)];
    let tx2 = t.set_witness(&mix, d(6), &merges2, &inputs2, &outputs2, d(78), Digest::zero()).unwrap();
    let w1 = smt(1000, 1001, 100, 102);
    let w2 = smt(1001, 1002, 300, 302);
    (vec![w1, w2], vec![tx1, tx2])
}

#[test]
fn test_proposal_block() {
    let (world, txs) = two_account_block();
    let target = ProposalBlockProofTarget::add_virtual_to(2);
    let witness = target.set_witness(&world, &txs, d(1000)).unwrap();
    let (tx_root, new_root) = verify_valid_proposal_block(
        &mix,
        &witness.world_state_process_proofs,
        &witness.user_tx_proofs,
        &witness.old_world_state_root,
    )
    .unwrap();
    assert_eq!(new_root.elements, d(1002).elements);
    assert_eq!(tx_root.elements, mix(d(202), d(402)).elements);
}

#[test]
fn padding_keeps_the_world_state_root() {
    let (world, txs) = two_account_block();
    let small = ProposalBlockProofTarget::add_virtual_to(2).set_witness(&world, &txs, d(1000)).unwrap();
    let large = ProposalBlockProofTarget::add_virtual_to(4).set_witness(&world, &txs, d(1000)).unwrap();
    assert_eq!(large.world_state_process_proofs.len(), 4);
    assert_eq!(large.world_state_process_proofs[3].fnc, ProcessMerkleProofRole::NoOp);
    assert_eq!(large.world_state_process_proofs[3].new_root.elements, d(1002).elements);
    assert!(!large.user_tx_proofs[2].enabled && !large.user_tx_proofs[3].enabled);
    let (small_tx_root, small_root) = verify_valid_proposal_block(
        &mix,
        &small.world_state_process_proofs,
        &small.user_tx_proofs,
        &small.old_world_state_root,
    )
    .unwrap();
    let (large_tx_root, large_root) = verify_valid_proposal_block(
        &mix,
        &large.world_state_process_proofs,
        &large.user_tx_proofs,
        &large.old_world_state_root,
    )
    .unwrap();
    assert_eq!(small_root.elements, large_root.elements);
    assert_eq!(small_tx_root.elements, mix(d(202), d(402)).elements);
    // The disabled slots still contribute the reused diff root to the tree.
    let padded_leaves = vec![d(202), d(402), d(402), d(402)];
    assert_eq!(large_tx_root.elements, get_merkle_root_from_leaves(&mix, &padded_leaves).unwrap().elements);
}

#[test]
fn disabled_no_op_slot_is_accepted() {
    let slots = vec![UserTransactionSlot { public_inputs: record(1, 2, 3, 4, 5, 6), enabled: false }];
    let world = vec![SmtProcessProof::with_root(d(500))];
    let (tx_root, new_root) = verify_valid_proposal_block(&mix, &world, &slots, &d(1)).unwrap();
    assert_eq!(new_root.elements, d(500).elements);
    assert_eq!(tx_root.elements, d(4).elements);
}

#[test]
fn out_of_order_proofs_are_rejected() {
    let (world, txs) = two_account_block();
    let swapped = vec![world[1], world[0]];
    let swapped_txs = vec![txs[1], txs[0]];
    let w = ProposalBlockProofTarget::add_virtual_to(2).set_witness(&swapped, &swapped_txs, d(1000)).unwrap();
    let r = verify_valid_proposal_block(&mix, &w.world_state_process_proofs, &w.user_tx_proofs, &w.old_world_state_root);
    assert_eq!(r.unwrap_err(), ProposalBlockError::RootChainBroken(0));
    let w = ProposalBlockProofTarget::add_virtual_to(2).set_witness(&world, &txs, d(999)).unwrap();
    let r = verify_valid_proposal_block(&mix, &w.world_state_process_proofs, &w.user_tx_proofs, &w.old_world_state_root);
    assert_eq!(r.unwrap_err(), ProposalBlockError::RootChainBroken(0));
    let broken = vec![world[0], smt(1005, 1006, 300, 302)];
    let w = ProposalBlockProofTarget::add_virtual_to(2).set_witness(&broken, &txs, d(1000)).unwrap();
    let r = verify_valid_proposal_block(&mix, &w.world_state_process_proofs, &w.user_tx_proofs, &w.old_world_state_root);
    assert_eq!(r.unwrap_err(), ProposalBlockError::RootChainBroken(1));
}

#[test]
fn insert_is_rejected_enabled_or_not() {
    let tx = record(0, 0, 7, 4, 5, 6);
    let insert = smt(1, 2, 0, 7);
    for enabled in [true, false] {
        let slots = vec![UserTransactionSlot { public_inputs: tx, enabled }];
        let r = verify_valid_proposal_block(&mix, &vec![insert], &slots, &d(1));
        let expected = if enabled { SlotViolation::InsertNotAllowed } else { SlotViolation::UnauthorizedStateChange };
        assert_eq!(r.unwrap_err(), ProposalBlockError::SlotRejected(0, expected));
    }
}

#[test]
fn each_slot_violation() {
    let cases = vec![
        (smt(1, 2, 3, 4), record(0, 3, 4, 0, 0, 0), false, SlotViolation::UnauthorizedStateChange),
        (smt(1, 2, 3, 4), record(0, 9, 4, 0, 0, 0), true, SlotViolation::OldAssetRootMismatch),
        (smt(1, 2, 3, 4), record(0, 3, 8, 0, 0, 0), true, SlotViolation::NewAssetRootMismatch),
        (smt(1, 2, 3, 0), record(0, 3, 8, 0, 0, 0), true, SlotViolation::RemovedRootNotEmpty),
        (smt(1, 1, 3, 3), record(0, 3, 8, 0, 0, 0), true, SlotViolation::NoOpRootChanged),
    ];
    for (w, tx, enabled, expected) in cases {
        let slots = vec![UserTransactionSlot { public_inputs: tx, enabled }];
        let r = verify_valid_proposal_block(&mix, &vec![w], &slots, &d(1));
        assert_eq!(r.unwrap_err(), ProposalBlockError::SlotRejected(0, expected));
    }
    let slots = vec![UserTransactionSlot { public_inputs: record(0, 3, 0, 4, 0, 0), enabled: true }];
    let (tx_root, new_root) = verify_valid_proposal_block(&mix, &vec![smt(1, 2, 3, 0)], &slots, &d(1)).unwrap();
    assert_eq!(new_root.elements, d(2).elements);
    assert_eq!(tx_root.elements, d(4).elements);
}

#[test]
fn block_shape_errors() {
    let slots = vec![UserTransactionSlot { public_inputs: record(0, 3, 4, 0, 0, 0), enabled: true }];
    assert_eq!(verify_valid_proposal_block(&mix, &vec![], &slots, &d(1)).unwrap_err(), ProposalBlockError::LengthMismatch);
    assert_eq!(verify_valid_proposal_block(&mix, &vec![], &vec![], &d(1)).unwrap_err(), ProposalBlockError::EmptyBlock);
    let (world, txs) = two_account_block();
    let t = ProposalBlockProofTarget::add_virtual_to(1);
    assert_eq!(t.set_witness(&world, &txs, d(1000)).unwrap_err(), ProposalBlockError::TooManySupplied);
    assert_eq!(t.set_witness(&vec![], &txs, d(1000)).unwrap_err(), ProposalBlockError::NothingSupplied);
    assert_eq!(t.set_witness(&world, &vec![], d(1000)).unwrap_err(), ProposalBlockError::NothingSupplied);
}
