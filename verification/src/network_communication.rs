//! Peers of the node.  Transport is not part of this crate: what arrives
//! from the network is handed to the round as plain values.

use vstd::prelude::*;

verus! {

/// Represents a node in the network.
#[derive(Debug, Clone, PartialEq, Eq)]
pub struct Node {
    pub address: String,
    pub port: u16,
}

} // verus!
