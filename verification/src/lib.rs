//! Consensus core of a proof-of-stake blockchain node.
//!
//! The crate decides who may propose the next block, admits transactions,
//! computes validator rewards and advances the chain head.  Every function is
//! verified against a contract stated over mathematical models of the data.
//!
//! From the leaves to the root:
//!
//! - [`stake_manager`] and [`delegations`]: the ledger of stake and rewards,
//!   and what each address has delegated to which;
//! - [`validator_set`]: the roster, and the selection of the active set;
//! - [`state`] and [`transaction_verifier`]: the accounts, and the admission
//!   of transactions against them;
//! - [`consensus_state`]: the chain head, the round and its leader;
//! - [`block_proposal`]: the construction of a candidate block;
//! - [`pos_algorithm`]: the round, from selection to finalization;
//! - [`governance`]: proposals, votes and the parameters in force.
//!
//! They rest on [`block`] and [`codec`] (blocks and their encoding),
//! [`hashing`] and [`crypto`] (digests and signatures), [`selection`] and
//! [`sorting`] (stake-weighted draws in a canonical order), [`keyed`] and
//! [`bytes`].

pub mod block;
pub mod block_proposal;
pub mod bytes;
pub mod codec;
pub mod consensus_state;
pub mod crypto;
pub mod delegations;
pub mod error;
pub mod governance;
pub mod hashing;
pub mod keyed;
pub mod network_communication;
pub mod pos_algorithm;
pub mod selection;
pub mod sorting;
pub mod stake_manager;
pub mod state;
pub mod transaction_verifier;
pub mod validator_set;
