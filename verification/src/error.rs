//! Errors of block- and stake-level operations.

use vstd::prelude::*;

verus! {

/// Why a block or a change of stake is refused.
#[derive(Debug, Clone, Copy, PartialEq, Eq, Structural)]
pub enum ConsensusError {
    /// The block's height is not one more than the current height.
    StaleBlock,
    /// The block does not extend the last finalized block.
    ForkMismatch,
    /// No stake is registered where some is needed.
    NoStakeRegistered,
    /// The stake at hand is less than the operation asks for.
    InsufficientStake,
    /// The amount is negative or too large to be recorded.
    InvalidAmount,
}

} // verus!
