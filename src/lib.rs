//! Value-level semantics of a validity-rollup's circuit gadgets: Merkle path
//! recomputation, leaf-list roots, sparse-Merkle process-proof roles, the
//! merge-and-purge public-input record, the proposal-block constraints and
//! the off-circuit witness preparation that feeds them.
pub mod address_list;
pub mod digest;
pub mod merkle;
pub mod process;
pub mod proposal_block;
pub mod transaction;
