//! Transactions, block headers and blocks, with their mathematical views.

use vstd::prelude::*;
use crate::bytes::copy_bytes;

verus! {

/// A signed request by `sender` to spend `value`.
#[derive(Debug, Clone, PartialEq, Eq)]
pub struct Transaction {
    /// Ed25519 public key of the sender; it is also the sender's account address.
    pub sender: Vec<u8>,
    /// Position of this transaction in the sender's sequence.
    pub nonce: u64,
    /// Amount taken from the sender's balance.
    pub value: u64,
    /// Opaque content that the signature covers.
    pub payload: Vec<u8>,
    /// Ed25519 signature of `payload` under `sender`.
    pub signature: Vec<u8>,
}

/// What a [`Transaction`] holds, as plain mathematical values.
pub ghost struct TransactionView {
    pub sender: Seq<u8>,
    pub nonce: u64,
    pub value: u64,
    pub payload: Seq<u8>,
    pub signature: Seq<u8>,
}

impl View for Transaction {
    type V = TransactionView;

    open spec fn view(&self) -> TransactionView {
        TransactionView {
            sender: self.sender@,
            nonce: self.nonce,
            value: self.value,
            payload: self.payload@,
            signature: self.signature@,
        }
    }
}

/// The views of a sequence of transactions, in the same order.
pub open spec fn transactions_view(txs: Seq<Transaction>) -> Seq<TransactionView> {
    Seq::new(txs.len(), |i: int| txs[i]@)
}

impl Transaction {
    /// A transaction with the given content.
    pub fn new(
        sender: Vec<u8>,
        nonce: u64,
        value: u64,
        payload: Vec<u8>,
        signature: Vec<u8>,
    ) -> (tx: Self)
        ensures
            tx.sender == sender,
            tx.nonce == nonce,
            tx.value == value,
            tx.payload == payload,
            tx.signature == signature,
    {
        Transaction { sender, nonce, value, payload, signature }
    }

    /// A fresh transaction with the same content.
    pub fn duplicate(&self) -> (copy: Self)
        ensures
            copy@ == self@,
    {
        Transaction {
            sender: copy_bytes(&self.sender),
            nonce: self.nonce,
            value: self.value,
            payload: copy_bytes(&self.payload),
            signature: copy_bytes(&self.signature),
        }
    }
}

/// The metadata of a block.
#[derive(Debug, Clone, PartialEq, Eq)]
pub struct BlockHeader {
    /// Position of the block in the chain.
    pub height: u64,
    /// Seconds since the Unix epoch at which the block was prepared.
    pub timestamp: u64,
    /// Hash of the block that this one extends.
    pub previous_hash: Vec<u8>,
    /// Identifier of the proposing validator, as bytes.
    pub validator_public_key: Vec<u8>,
    /// Digest of the account state after the block's transactions.
    pub state_root: Vec<u8>,
    /// Digest of the sealed header and the transaction list.
    pub hash: Vec<u8>,
    /// Reward owed to the proposer.
    pub validator_reward: u64,
}

/// What a [`BlockHeader`] holds, as plain mathematical values.
pub ghost struct BlockHeaderView {
    pub height: u64,
    pub timestamp: u64,
    pub previous_hash: Seq<u8>,
    pub validator_public_key: Seq<u8>,
    pub state_root: Seq<u8>,
    pub hash: Seq<u8>,
    pub validator_reward: u64,
}

impl View for BlockHeader {
    type V = BlockHeaderView;

    open spec fn view(&self) -> BlockHeaderView {
        BlockHeaderView {
            height: self.height,
            timestamp: self.timestamp,
            previous_hash: self.previous_hash@,
            validator_public_key: self.validator_public_key@,
            state_root: self.state_root@,
            hash: self.hash@,
            validator_reward: self.validator_reward,
        }
    }
}

impl BlockHeader {
    /// An unsealed header: state root and hash are empty, the reward is zero.
    pub fn new(
        height: u64,
        timestamp: u64,
        previous_hash: Vec<u8>,
        validator_public_key: Vec<u8>,
    ) -> (header: Self)
        ensures
            header@ == (BlockHeaderView {
                height,
                timestamp,
                previous_hash: previous_hash@,
                validator_public_key: validator_public_key@,
                state_root: Seq::empty(),
                hash: Seq::empty(),
                validator_reward: 0,
            }),
    {
        BlockHeader {
            height,
            timestamp,
            previous_hash,
            validator_public_key,
            state_root: Vec::new(),
            hash: Vec::new(),
            validator_reward: 0,
        }
    }

    /// A fresh header with the same content.
    pub fn duplicate(&self) -> (copy: Self)
        ensures
            copy@ == self@,
    {
        BlockHeader {
            height: self.height,
            timestamp: self.timestamp,
            previous_hash: copy_bytes(&self.previous_hash),
            validator_public_key: copy_bytes(&self.validator_public_key),
            state_root: copy_bytes(&self.state_root),
            hash: copy_bytes(&self.hash),
            validator_reward: self.validator_reward,
        }
    }
}

/// A header and the ordered transactions admitted under it.
#[derive(Debug, Clone, PartialEq, Eq)]
pub struct Block {
    pub header: BlockHeader,
    pub transactions: Vec<Transaction>,
}

/// What a [`Block`] holds, as plain mathematical values.
pub ghost struct BlockView {
    pub header: BlockHeaderView,
    pub transactions: Seq<TransactionView>,
}

impl View for Block {
    type V = BlockView;

    open spec fn view(&self) -> BlockView {
        BlockView { header: self.header@, transactions: transactions_view(self.transactions@) }
    }
}

/// A fresh list of transactions with the same content.
pub fn duplicate_transactions(txs: &Vec<Transaction>) -> (copy: Vec<Transaction>)
    ensures
        transactions_view(copy@) == transactions_view(txs@),
{
    let mut copy: Vec<Transaction> = Vec::new();
    let mut i: usize = 0;
    while i < txs.len()
        invariant
            i <= txs.len(),
            copy.len() == i,
            forall|k: int| 0 <= k < i ==> copy@[k]@ == txs@[k]@,
        decreases txs.len() - i,
    {
        copy.push(txs[i].duplicate());
        i += 1;
    }
    assert(transactions_view(copy@) =~= transactions_view(txs@));
    copy
}

impl Block {
    /// A block made of `header` and `transactions`.
    pub fn new(header: BlockHeader, transactions: Vec<Transaction>) -> (block: Self)
        ensures
            block.header == header,
            block.transactions == transactions,
    {
        Block { header, transactions }
    }

    /// Appends `transaction` to the block.
    pub fn add_transaction(&mut self, transaction: Transaction)
        ensures
            final(self).header == old(self).header,
            final(self).transactions@ == old(self).transactions@.push(transaction),
            final(self)@.transactions == old(self)@.transactions.push(transaction@),
    {
        self.transactions.push(transaction);
        assert(transactions_view(self.transactions@) =~= transactions_view(
            old(self).transactions@,
        ).push(transaction@));
    }

    /// Records the digest of the account state.
    pub fn set_state_root(&mut self, state_root: Vec<u8>)
        ensures
            final(self)@ == (BlockView {
                header: BlockHeaderView { state_root: state_root@, ..old(self)@.header },
                ..old(self)@
            }),
    {
        self.header.state_root = state_root;
    }

    /// Records the block hash.
    pub fn set_hash(&mut self, hash: Vec<u8>)
        ensures
            final(self)@ == (BlockView {
                header: BlockHeaderView { hash: hash@, ..old(self)@.header },
                ..old(self)@
            }),
    {
        self.header.hash = hash;
    }

    /// Records the proposer's reward.
    pub fn set_validator_reward(&mut self, reward: u64)
        ensures
            final(self)@ == (BlockView {
                header: BlockHeaderView { validator_reward: reward, ..old(self)@.header },
                ..old(self)@
            }),
    {
        self.header.validator_reward = reward;
    }

    /// A fresh block with the same content.
    pub fn duplicate(&self) -> (copy: Self)
        ensures
            copy@ == self@,
    {
        Block {
            header: self.header.duplicate(),
            transactions: duplicate_transactions(&self.transactions),
        }
    }
}

} // verus!
