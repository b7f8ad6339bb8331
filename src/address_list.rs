//! The per-slot list of senders and whether each one's signature arrived,
//! padded to the batch capacity.
use vstd::prelude::*;

use crate::digest::{zero_digest, Digest};
use crate::transaction::MergeAndPurgeTransitionPublicInputs;

verus! {

/// The sender of one slot, and whether its signature proof was received.
#[derive(Clone, Copy, Debug)]
pub struct TransactionSenderWithValidity {
    pub sender_address: Digest,
    pub is_valid: bool,
}

/// Why an address list was refused.
#[derive(Clone, Copy, Debug, PartialEq, Eq, Structural)]
pub enum AddressListError {
    /// Transactions and signatures differ in number.
    LengthMismatch,
    /// There are more transactions than the batch has slots.
    TooManyTransactions,
}

/// Pairs each transaction's sender with whether a signature proof came for
/// it, then pads with the zero address, not valid, up to `num_transactions`.
pub fn make_address_list<S>(
    user_tx_public_inputs: &Vec<MergeAndPurgeTransitionPublicInputs>,
    received_signatures: &Vec<Option<S>>,
    num_transactions: usize,
) -> (r: Result<Vec<TransactionSenderWithValidity>, AddressListError>)
    ensures
        r is Err <==> (user_tx_public_inputs.len() != received_signatures.len()
            || user_tx_public_inputs.len() > num_transactions),
        r matches Err(e) ==> (e == AddressListError::LengthMismatch <==> user_tx_public_inputs.len()
            != received_signatures.len()),
        r matches Ok(list) ==> {
            &&& list.len() == num_transactions
            &&& forall|i: int|
                0 <= i < user_tx_public_inputs.len() ==> (#[trigger] list@[i]).sender_address
                    == user_tx_public_inputs@[i].sender_address && list@[i].is_valid
                    == received_signatures@[i] is Some
            &&& forall|i: int|
                user_tx_public_inputs.len() <= i < num_transactions ==> (#[trigger] list@[i]).sender_address@
                    == zero_digest() && !list@[i].is_valid
        },
{
    if user_tx_public_inputs.len() != received_signatures.len() {
        return Err(AddressListError::LengthMismatch);
    }
    if user_tx_public_inputs.len() > num_transactions {
        return Err(AddressListError::TooManyTransactions);
    }
    let mut list: Vec<TransactionSenderWithValidity> = Vec::new();
    let mut i: usize = 0;
    while i < user_tx_public_inputs.len()
        invariant
            i <= user_tx_public_inputs.len(),
            user_tx_public_inputs.len() == received_signatures.len(),
            list.len() == i,
            forall|k: int|
                0 <= k < i ==> (#[trigger] list@[k]).sender_address == user_tx_public_inputs@[k].sender_address
                    && list@[k].is_valid == received_signatures@[k] is Some,
        decreases user_tx_public_inputs.len() - i,
    {
        let entry = TransactionSenderWithValidity {
            sender_address: user_tx_public_inputs[i].sender_address,
            is_valid: received_signatures[i].is_some(),
        };
        list.push(entry);
        i = i + 1;
    }
    let zero = Digest::zero();
    while i < num_transactions
        invariant
            user_tx_public_inputs.len() <= i <= num_transactions,
            list.len() == i,
            zero@ == zero_digest(),
            forall|k: int|
                0 <= k < user_tx_public_inputs.len() ==> (#[trigger] list@[k]).sender_address
                    == user_tx_public_inputs@[k].sender_address && list@[k].is_valid
                    == received_signatures@[k] is Some,
            forall|k: int|
                user_tx_public_inputs.len() <= k < i ==> (#[trigger] list@[k]).sender_address@
                    == zero_digest() && !list@[k].is_valid,
        decreases num_transactions - i,
    {
        list.push(TransactionSenderWithValidity { sender_address: zero, is_valid: false });
        i = i + 1;
    }
    Ok(list)
}

} // verus!
