//! Admission of transactions: signature, nonce and balance checks against
//! the account state, one transaction at a time or a list in order.
//!
//! Every check goes by the accounts that the verifier holds.  Checking and
//! admitting change nothing; effects are applied when a block is finalized.
//! A block therefore holds at most one transaction of a sender: two that
//! pass carry the same nonce.

use vstd::prelude::*;
use crate::block::{transactions_view, Transaction, TransactionView};
use crate::bytes::bytes_equal;
use crate::crypto::{ed25519_verifies, ed25519_verify};
use crate::state::{lemma_apply_effect, spec_applicable, spec_apply, spec_apply_all, spec_balance,
    spec_ledger_wf, spec_nonce, AccountView, BlockchainState};

verus! {

/// Why a transaction is refused.
#[derive(Debug, Clone, Copy, PartialEq, Eq, Structural)]
pub enum VerificationError {
    /// The signature does not verify against the sender's key.
    InvalidSignature,
    /// The nonce is not the sender's next expected nonce.
    InvalidNonce,
    /// The value exceeds the sender's balance.
    InsufficientBalance,
}

/// Whether the signature of `tx` is a valid signature of its payload under
/// the sender's key.
pub open spec fn spec_signature_valid(tx: TransactionView) -> bool {
    ed25519_verifies(tx.sender, tx.payload, tx.signature)
}

/// The verdict on `tx` against `accounts`, given whether its signature
/// verifies.  The signature is judged first, then the nonce, then the balance.
pub open spec fn spec_verify_with(
    accounts: Seq<AccountView>,
    tx: TransactionView,
    signature_valid: bool,
) -> Result<(), VerificationError> {
    if !signature_valid {
        Err(VerificationError::InvalidSignature)
    } else if tx.nonce != spec_nonce(accounts, tx.sender) {
        Err(VerificationError::InvalidNonce)
    } else if tx.value > spec_balance(accounts, tx.sender) {
        Err(VerificationError::InsufficientBalance)
    } else {
        Ok(())
    }
}

/// The verdict on `tx` against `accounts`.
pub open spec fn spec_verify(
    accounts: Seq<AccountView>,
    tx: TransactionView,
) -> Result<(), VerificationError> {
    spec_verify_with(accounts, tx, spec_signature_valid(tx))
}

/// The senders of a list of transactions, in list order.
pub open spec fn spec_senders(txs: Seq<TransactionView>) -> Seq<Seq<u8>> {
    Seq::new(txs.len(), |i: int| txs[i].sender)
}

/// The transactions of `txs` that are admitted, in their order: those that
/// pass verification against `accounts`, and of each sender only the first
/// that passes.  The accounts are those held at the call; admitting a
/// transaction does not change what the next is verified against.
pub open spec fn spec_admit(
    accounts: Seq<AccountView>,
    txs: Seq<TransactionView>,
) -> Seq<TransactionView>
    decreases txs.len(),
{
    if txs.len() == 0 {
        Seq::empty()
    } else {
        let front = spec_admit(accounts, txs.drop_last());
        if spec_verify(accounts, txs.last()) is Ok && !spec_senders(front).contains(
            txs.last().sender,
        ) {
            front.push(txs.last())
        } else {
            front
        }
    }
}

/// Whether a list of transactions may stand in a block: every transaction
/// passes verification against `accounts`, and no sender occurs twice.
pub open spec fn spec_all_valid(accounts: Seq<AccountView>, txs: Seq<TransactionView>) -> bool {
    &&& forall|i: int| 0 <= i < txs.len() ==> spec_verify(accounts, #[trigger] txs[i]) is Ok
    &&& spec_senders(txs).no_duplicates()
}

/// The number of transactions of `txs` that `sender` has sent.
pub open spec fn spec_count_from(txs: Seq<TransactionView>, sender: Seq<u8>) -> nat
    decreases txs.len(),
{
    if txs.len() == 0 {
        0
    } else {
        spec_count_from(txs.drop_first(), sender) + if txs.first().sender == sender {
            1nat
        } else {
            0nat
        }
    }
}

/// The sum of the values of the transactions of `txs` that `sender` has
/// sent.
pub open spec fn spec_spent_by(txs: Seq<TransactionView>, sender: Seq<u8>) -> nat
    decreases txs.len(),
{
    if txs.len() == 0 {
        0
    } else {
        spec_spent_by(txs.drop_first(), sender) + if txs.first().sender == sender {
            txs.first().value as nat
        } else {
            0nat
        }
    }
}

/// Applying a list and then one more transaction is applying the list
/// extended by it.
pub proof fn lemma_apply_all_push(
    accounts: Seq<AccountView>,
    txs: Seq<TransactionView>,
    tx: TransactionView,
)
    ensures
        spec_apply_all(accounts, txs.push(tx)) == spec_apply(spec_apply_all(accounts, txs), tx),
    decreases txs.len(),
{
    let extended = txs.push(tx);
    if txs.len() == 0 {
        assert(extended.first() == tx);
        assert(extended.drop_first() =~= Seq::<TransactionView>::empty());
        assert(spec_apply_all(spec_apply(accounts, tx), extended.drop_first()) == spec_apply(
            accounts,
            tx,
        ));
    } else {
        assert(extended.first() == txs.first());
        assert(extended.drop_first() =~= txs.drop_first().push(tx));
        lemma_apply_all_push(spec_apply(accounts, txs.first()), txs.drop_first(), tx);
    }
}

/// No admitted transaction fails verification against the accounts held at
/// the call, and no sender has two transactions admitted.
pub proof fn lemma_admitted_all_valid(accounts: Seq<AccountView>, txs: Seq<TransactionView>)
    ensures
        spec_all_valid(accounts, spec_admit(accounts, txs)),
        forall|i: int|
            0 <= i < spec_admit(accounts, txs).len() ==> spec_verify(
                accounts,
                #[trigger] spec_admit(accounts, txs)[i],
            ) is Ok,
    decreases txs.len(),
{
    if txs.len() > 0 {
        let front = spec_admit(accounts, txs.drop_last());
        let out = spec_admit(accounts, txs);
        lemma_admitted_all_valid(accounts, txs.drop_last());
        if spec_verify(accounts, txs.last()) is Ok && !spec_senders(front).contains(
            txs.last().sender,
        ) {
            assert forall|i: int| 0 <= i < out.len() implies spec_verify(
                accounts,
                #[trigger] out[i],
            ) is Ok by {
                if i < front.len() {
                    assert(out[i] == front[i]);
                }
            }
            let keys = spec_senders(out);
            assert forall|i: int, j: int|
                0 <= i < keys.len() && 0 <= j < keys.len() && i != j implies keys[i] != keys[j] by {
                if i < front.len() && j < front.len() {
                    assert(spec_senders(front)[i] != spec_senders(front)[j]);
                } else {
                    let other = if i < front.len() { i } else { j };
                    assert(spec_senders(front)[other] == keys[other]);
                }
            }
        }
    }
}

/// Admission keeps the input order: what is admitted of a prefix of the
/// input is a prefix of what is admitted of the whole input.
pub proof fn lemma_admit_prefix(accounts: Seq<AccountView>, txs: Seq<TransactionView>, n: int)
    requires
        0 <= n <= txs.len(),
    ensures
        spec_admit(accounts, txs.take(n)).len() <= spec_admit(accounts, txs).len(),
        spec_admit(accounts, txs.take(n)) == spec_admit(accounts, txs).take(
            spec_admit(accounts, txs.take(n)).len() as int,
        ),
    decreases txs.len(),
{
    let part = spec_admit(accounts, txs.take(n));
    if n == txs.len() {
        assert(txs.take(n) =~= txs);
        assert(part.take(part.len() as int) =~= part);
    } else {
        assert(txs.drop_last().take(n) =~= txs.take(n));
        lemma_admit_prefix(accounts, txs.drop_last(), n);
        let front = spec_admit(accounts, txs.drop_last());
        assert(front.push(txs.last()).take(part.len() as int) =~= front.take(part.len() as int));
    }
}

/// Admission invents nothing and leaves no sender out: every admitted
/// transaction is one of the input, and every sender of which a
/// transaction of the input passes verification has a transaction admitted.
pub proof fn lemma_admit_members(accounts: Seq<AccountView>, txs: Seq<TransactionView>)
    ensures
        forall|k: int|
            0 <= k < spec_admit(accounts, txs).len() ==> txs.contains(
                #[trigger] spec_admit(accounts, txs)[k],
            ),
        forall|i: int|
            0 <= i < txs.len() && spec_verify(accounts, #[trigger] txs[i]) is Ok ==> spec_senders(
                spec_admit(accounts, txs),
            ).contains(txs[i].sender),
    decreases txs.len(),
{
    if txs.len() > 0 {
        let shorter = txs.drop_last();
        let front = spec_admit(accounts, shorter);
        let out = spec_admit(accounts, txs);
        lemma_admit_members(accounts, shorter);
        assert forall|k: int| 0 <= k < out.len() implies txs.contains(#[trigger] out[k]) by {
            if k < front.len() {
                assert(out[k] == front[k]);
                assert(shorter.contains(front[k]));
                let j = choose|j: int| 0 <= j < shorter.len() && shorter[j] == front[k];
                assert(txs[j] == out[k]);
            } else {
                assert(txs[txs.len() - 1] == out[k]);
            }
        }
        assert forall|i: int|
            0 <= i < txs.len() && spec_verify(accounts, #[trigger] txs[i]) is Ok implies spec_senders(
            out,
        ).contains(txs[i].sender) by {
            if i < shorter.len() {
                assert(shorter[i] == txs[i]);
                assert(spec_senders(front).contains(txs[i].sender));
                let j = choose|j: int|
                    0 <= j < front.len() && spec_senders(front)[j] == txs[i].sender;
                assert(spec_senders(out)[j] == txs[i].sender);
            } else if spec_senders(front).contains(txs[i].sender) {
                let j = choose|j: int|
                    0 <= j < front.len() && spec_senders(front)[j] == txs[i].sender;
                assert(spec_senders(out)[j] == txs[i].sender);
            } else {
                assert(spec_senders(out)[out.len() - 1] == txs[i].sender);
            }
        }
    }
}

/// Every prefix of a list that may stand in a block may stand in a block.
pub proof fn lemma_all_valid_prefix(accounts: Seq<AccountView>, txs: Seq<TransactionView>, n: int)
    requires
        spec_all_valid(accounts, txs),
        0 <= n <= txs.len(),
    ensures
        spec_all_valid(accounts, txs.take(n)),
{
    let prefix = txs.take(n);
    assert forall|i: int| 0 <= i < prefix.len() implies spec_verify(
        accounts,
        #[trigger] prefix[i],
    ) is Ok by {
        assert(prefix[i] == txs[i]);
    }
    assert forall|i: int, j: int|
        0 <= i < prefix.len() && 0 <= j < prefix.len() && i != j implies spec_senders(prefix)[i]
        != spec_senders(prefix)[j] by {
        assert(spec_senders(txs)[i] != spec_senders(txs)[j]);
    }
}

/// A list that may stand in a block is admitted whole.
pub proof fn lemma_valid_list_admitted(accounts: Seq<AccountView>, txs: Seq<TransactionView>)
    requires
        spec_all_valid(accounts, txs),
    ensures
        spec_admit(accounts, txs) == txs,
    decreases txs.len(),
{
    if txs.len() == 0 {
        assert(txs =~= Seq::empty());
    } else {
        let shorter = txs.drop_last();
        assert(shorter =~= txs.take(txs.len() - 1));
        lemma_all_valid_prefix(accounts, txs, txs.len() - 1);
        lemma_valid_list_admitted(accounts, shorter);
        assert(spec_verify(accounts, txs[txs.len() - 1]) is Ok);
        if spec_senders(shorter).contains(txs.last().sender) {
            let j = choose|j: int|
                0 <= j < shorter.len() && spec_senders(shorter)[j] == txs.last().sender;
            assert(spec_senders(txs)[j] == spec_senders(txs)[txs.len() - 1]);
        }
        assert(shorter.push(txs.last()) =~= txs);
    }
}

/// The first transaction of a list that may stand in a block can be
/// applied, and the rest of the list may stand in a block on the accounts
/// that it leaves: transactions of other senders are judged as before.
pub proof fn lemma_all_valid_step(accounts: Seq<AccountView>, txs: Seq<TransactionView>)
    requires
        spec_ledger_wf(accounts),
        spec_all_valid(accounts, txs),
        txs.len() > 0,
    ensures
        spec_applicable(accounts, txs.first()),
        spec_ledger_wf(spec_apply(accounts, txs.first())),
        spec_all_valid(spec_apply(accounts, txs.first()), txs.drop_first()),
{
    let first = txs.first();
    let rest = txs.drop_first();
    let next = spec_apply(accounts, first);
    assert(spec_verify(accounts, txs[0]) is Ok);
    lemma_apply_effect(accounts, first, first.sender);
    assert forall|i: int| 0 <= i < rest.len() implies spec_verify(next, #[trigger] rest[i]) is Ok by {
        assert(rest[i] == txs[i + 1]);
        assert(spec_verify(accounts, txs[i + 1]) is Ok);
        assert(spec_senders(txs)[0] != spec_senders(txs)[i + 1]);
        lemma_apply_effect(accounts, first, rest[i].sender);
    }
    assert forall|i: int, j: int|
        0 <= i < rest.len() && 0 <= j < rest.len() && i != j implies spec_senders(rest)[i]
        != spec_senders(rest)[j] by {
        assert(spec_senders(txs)[i + 1] != spec_senders(txs)[j + 1]);
    }
}

/// Applying a list that may stand in a block keeps the ledger well formed
/// and raises each sender's nonce by exactly the number of transactions it
/// has in the list.
pub proof fn lemma_nonce_after(
    accounts: Seq<AccountView>,
    txs: Seq<TransactionView>,
    address: Seq<u8>,
)
    requires
        spec_ledger_wf(accounts),
        spec_all_valid(accounts, txs),
    ensures
        spec_ledger_wf(spec_apply_all(accounts, txs)),
        spec_nonce(spec_apply_all(accounts, txs), address) == spec_nonce(accounts, address)
            + spec_count_from(txs, address),
    decreases txs.len(),
{
    if txs.len() > 0 {
        let next = spec_apply(accounts, txs.first());
        lemma_all_valid_step(accounts, txs);
        lemma_apply_effect(accounts, txs.first(), address);
        lemma_nonce_after(next, txs.drop_first(), address);
    }
}

/// Applying a list that may stand in a block lowers each sender's balance
/// by exactly what its transactions spend, and never below zero.
pub proof fn lemma_balance_after(
    accounts: Seq<AccountView>,
    txs: Seq<TransactionView>,
    address: Seq<u8>,
)
    requires
        spec_ledger_wf(accounts),
        spec_all_valid(accounts, txs),
    ensures
        spec_spent_by(txs, address) <= spec_balance(accounts, address),
        spec_balance(spec_apply_all(accounts, txs), address) == spec_balance(accounts, address)
            - spec_spent_by(txs, address),
    decreases txs.len(),
{
    if txs.len() > 0 {
        let next = spec_apply(accounts, txs.first());
        lemma_all_valid_step(accounts, txs);
        lemma_apply_effect(accounts, txs.first(), address);
        lemma_balance_after(next, txs.drop_first(), address);
    }
}

/// A sender without a transaction in the list has sent none and spent
/// nothing.
pub proof fn lemma_count_absent(txs: Seq<TransactionView>, sender: Seq<u8>)
    requires
        !spec_senders(txs).contains(sender),
    ensures
        spec_count_from(txs, sender) == 0,
        spec_spent_by(txs, sender) == 0,
    decreases txs.len(),
{
    if txs.len() > 0 {
        assert(spec_senders(txs)[0] == txs.first().sender);
        let rest = txs.drop_first();
        if spec_senders(rest).contains(sender) {
            let j = choose|j: int| 0 <= j < rest.len() && spec_senders(rest)[j] == sender;
            assert(spec_senders(txs)[j + 1] == sender);
        }
        lemma_count_absent(rest, sender);
    }
}

/// Applying a list that may stand in a block leaves the nonce and the
/// balance of every address that has no transaction in it as they were.
pub proof fn lemma_untouched_after(
    accounts: Seq<AccountView>,
    txs: Seq<TransactionView>,
    address: Seq<u8>,
)
    requires
        spec_ledger_wf(accounts),
        spec_all_valid(accounts, txs),
        !spec_senders(txs).contains(address),
    ensures
        spec_nonce(spec_apply_all(accounts, txs), address) == spec_nonce(accounts, address),
        spec_balance(spec_apply_all(accounts, txs), address) == spec_balance(accounts, address),
{
    lemma_nonce_after(accounts, txs, address);
    lemma_balance_after(accounts, txs, address);
    lemma_count_absent(txs, address);
}

/// In a list that may stand in a block, each transaction carries the nonce
/// that its sender had before the list, raised by one for each earlier
/// transaction of the same sender, of which there is none: per sender the
/// nonce rises by exactly one with each of its transactions, in list order.
pub proof fn lemma_nonce_sequence(accounts: Seq<AccountView>, txs: Seq<TransactionView>, i: int)
    requires
        spec_ledger_wf(accounts),
        spec_all_valid(accounts, txs),
        0 <= i < txs.len(),
    ensures
        txs[i].nonce == spec_nonce(accounts, txs[i].sender) + spec_count_from(
            txs.take(i),
            txs[i].sender,
        ),
        spec_count_from(txs.take(i), txs[i].sender) == 0,
{
    assert(spec_verify(accounts, txs[i]) is Ok);
    let prefix = txs.take(i);
    if spec_senders(prefix).contains(txs[i].sender) {
        let j = choose|j: int| 0 <= j < prefix.len() && spec_senders(prefix)[j] == txs[i].sender;
        assert(spec_senders(txs)[j] == spec_senders(txs)[i]);
    }
    lemma_count_absent(prefix, txs[i].sender);
}

/// Checks transactions against an account state that it holds.  Checking
/// never changes the state; effects are applied by `apply_transactions`.
pub struct TransactionVerifier {
    blockchain_state: BlockchainState,
}

impl View for TransactionVerifier {
    type V = Seq<AccountView>;

    closed spec fn view(&self) -> Seq<AccountView> {
        self.blockchain_state@
    }
}

impl TransactionVerifier {
    /// The account state is well formed.
    pub open spec fn wf(&self) -> bool {
        spec_ledger_wf(self@)
    }

    /// Constructs a verifier over `blockchain_state`.
    pub fn new(blockchain_state: BlockchainState) -> (verifier: Self)
        requires
            blockchain_state.wf(),
        ensures
            verifier@ == blockchain_state@,
            verifier.wf(),
    {
        TransactionVerifier { blockchain_state }
    }

    /// The account state that transactions are checked against.
    pub fn state(&self) -> (state: &BlockchainState)
        ensures
            state@ == self@,
    {
        &self.blockchain_state
    }

    /// Verifies a transaction for inclusion in a block: the signature, the
    /// nonce and the balance, in this order.
    pub fn verify_transaction(
        &self,
        transaction: &Transaction,
    ) -> (verdict: Result<(), VerificationError>)
        requires
            self.wf(),
        ensures
            verdict == spec_verify(self@, transaction@),
    {
        let signature_valid = ed25519_verify(
            &transaction.sender,
            &transaction.payload,
            &transaction.signature,
        );
        self.verify_with_signature(transaction, signature_valid)
    }

    /// The verdict on a transaction whose signature has been judged
    /// `signature_valid`.
    pub fn verify_with_signature(
        &self,
        transaction: &Transaction,
        signature_valid: bool,
    ) -> (verdict: Result<(), VerificationError>)
        requires
            self.wf(),
        ensures
            verdict == spec_verify_with(self@, transaction@, signature_valid),
    {
        if !signature_valid {
            return Err(VerificationError::InvalidSignature);
        }
        match self.check_nonce(transaction) {
            Err(e) => { return Err(e); },
            Ok(()) => {},
        }
        self.check_sufficient_balance(transaction)
    }

    /// Checks the signature of the transaction over its payload.
    pub fn check_signature(
        &self,
        transaction: &Transaction,
    ) -> (verdict: Result<(), VerificationError>)
        ensures
            verdict == if spec_signature_valid(transaction@) {
                Ok::<(), VerificationError>(())
            } else {
                Err(VerificationError::InvalidSignature)
            },
    {
        if ed25519_verify(&transaction.sender, &transaction.payload, &transaction.signature) {
            Ok(())
        } else {
            Err(VerificationError::InvalidSignature)
        }
    }

    /// Checks that the nonce is exactly the sender's next expected nonce.
    pub fn check_nonce(&self, transaction: &Transaction) -> (verdict: Result<(), VerificationError>)
        requires
            self.wf(),
        ensures
            verdict == if transaction.nonce == spec_nonce(self@, transaction@.sender) {
                Ok::<(), VerificationError>(())
            } else {
                Err(VerificationError::InvalidNonce)
            },
    {
        let expected_nonce = self.blockchain_state.get_nonce(&transaction.sender);
        if transaction.nonce as u128 != expected_nonce {
            return Err(VerificationError::InvalidNonce);
        }
        Ok(())
    }

    /// Checks that the sender's balance covers the value.
    pub fn check_sufficient_balance(
        &self,
        transaction: &Transaction,
    ) -> (verdict: Result<(), VerificationError>)
        requires
            self.wf(),
        ensures
            verdict == if transaction.value <= spec_balance(self@, transaction@.sender) {
                Ok::<(), VerificationError>(())
            } else {
                Err(VerificationError::InsufficientBalance)
            },
    {
        let balance = self.blockchain_state.get_balance(&transaction.sender);
        if transaction.value > balance {
            return Err(VerificationError::InsufficientBalance);
        }
        Ok(())
    }

    /// Admits transactions in order and yields the admitted ones together
    /// with the account state that they leave.  A transaction is admitted
    /// where it passes verification against the accounts held and no
    /// earlier transaction of its sender has been admitted.  The verifier's
    /// own state is not changed.
    pub fn admit_in_order(
        &self,
        transactions: &Vec<Transaction>,
    ) -> (out: (Vec<Transaction>, BlockchainState))
        requires
            self.wf(),
        ensures
            transactions_view(out.0@) == spec_admit(self@, transactions_view(transactions@)),
            spec_all_valid(self@, transactions_view(out.0@)),
            out.1@ == spec_apply_all(self@, transactions_view(out.0@)),
            out.1.wf(),
    {
        let ghost all = transactions_view(transactions@);
        let mut scratch = self.blockchain_state.duplicate();
        let mut admitted: Vec<Transaction> = Vec::new();
        let mut i: usize = 0;
        assert(all.take(0) =~= Seq::<TransactionView>::empty());
        assert(transactions_view(admitted@) =~= Seq::<TransactionView>::empty());
        while i < transactions.len()
            invariant
                i <= transactions.len(),
                all == transactions_view(transactions@),
                scratch.wf(),
                self.wf(),
                transactions_view(admitted@) == spec_admit(self@, all.take(i as int)),
                scratch@ == spec_apply_all(self@, transactions_view(admitted@)),
            decreases transactions.len() - i,
        {
            let ghost done = transactions_view(admitted@);
            let tx = &transactions[i];
            proof {
                let next = all.take(i + 1);
                assert(next.drop_last() =~= all.take(i as int));
                assert(next.last() == tx@);
                lemma_admitted_all_valid(self@, all.take(i as int));
            }
            if self.verify_transaction(tx).is_ok() && !has_sender(&admitted, &tx.sender) {
                proof {
                    lemma_untouched_after(self@, done, tx@.sender);
                    lemma_apply_all_push(self@, done, tx@);
                }
                scratch.apply_transaction(tx);
                admitted.push(tx.duplicate());
                assert(transactions_view(admitted@) =~= done.push(tx@));
            }
            i += 1;
        }
        proof {
            assert(all.take(i as int) =~= all);
            lemma_admitted_all_valid(self@, all);
        }
        (admitted, scratch)
    }

    /// The transactions of `transactions` that are admitted, in their
    /// order: those that pass verification against the accounts held, of
    /// each sender the first.
    pub fn verify_transactions(
        &self,
        transactions: &Vec<Transaction>,
    ) -> (admitted: Vec<Transaction>)
        requires
            self.wf(),
        ensures
            transactions_view(admitted@) == spec_admit(self@, transactions_view(transactions@)),
            forall|i: int|
                0 <= i < admitted@.len() ==> spec_verify(self@, (#[trigger] admitted@[i])@) is Ok,
    {
        let out = self.admit_in_order(transactions);
        proof {
            assert forall|i: int| 0 <= i < out.0@.len() implies spec_verify(
                self@,
                (#[trigger] out.0@[i])@,
            ) is Ok by {
                assert(transactions_view(out.0@)[i] == out.0@[i]@);
            }
        }
        out.0
    }

    /// Whether a list of transactions may stand in a block: every
    /// transaction passes verification against the accounts held, and no
    /// sender occurs twice.
    pub fn verify_sequence(&self, transactions: &Vec<Transaction>) -> (valid: bool)
        requires
            self.wf(),
        ensures
            valid == spec_all_valid(self@, transactions_view(transactions@)),
    {
        let ghost all = transactions_view(transactions@);
        let mut i: usize = 0;
        assert(all.take(0) =~= Seq::<TransactionView>::empty());
        while i < transactions.len()
            invariant
                i <= transactions.len(),
                all == transactions_view(transactions@),
                self.wf(),
                spec_all_valid(self@, all.take(i as int)),
            decreases transactions.len() - i,
        {
            let tx = &transactions[i];
            let ghost before = all.take(i as int);
            let ghost next = all.take(i + 1);
            assert(all[i as int] == tx@);
            if self.verify_transaction(tx).is_err() {
                return false;
            }
            if sender_among(transactions, i, &tx.sender) {
                proof {
                    let j = choose|j: int|
                        0 <= j < before.len() && spec_senders(before)[j] == tx@.sender;
                    assert(spec_senders(all)[j] == spec_senders(all)[i as int]);
                }
                return false;
            }
            proof {
                assert forall|k: int| 0 <= k < next.len() implies spec_verify(
                    self@,
                    #[trigger] next[k],
                ) is Ok by {
                    if k < i {
                        assert(next[k] == before[k]);
                    }
                }
                assert forall|a: int, b: int|
                    0 <= a < next.len() && 0 <= b < next.len() && a != b implies spec_senders(
                    next,
                )[a] != spec_senders(next)[b] by {
                    if a < i && b < i {
                        assert(spec_senders(before)[a] != spec_senders(before)[b]);
                    } else {
                        let other = if a < i { a } else { b };
                        assert(spec_senders(before)[other] == spec_senders(next)[other]);
                    }
                }
            }
            i += 1;
        }
        assert(all.take(i as int) =~= all);
        true
    }

    /// Applies the effects of a list of transactions that may stand in a
    /// block.
    pub fn apply_transactions(&mut self, transactions: &Vec<Transaction>)
        requires
            old(self).wf(),
            spec_all_valid(old(self)@, transactions_view(transactions@)),
        ensures
            final(self)@ == spec_apply_all(old(self)@, transactions_view(transactions@)),
            final(self).wf(),
    {
        let ghost all = transactions_view(transactions@);
        let mut i: usize = 0;
        assert(all.skip(0) =~= all);
        while i < transactions.len()
            invariant
                i <= transactions.len(),
                all == transactions_view(transactions@),
                self.wf(),
                spec_all_valid(self@, all.skip(i as int)),
                spec_apply_all(old(self)@, all) == spec_apply_all(self@, all.skip(i as int)),
            decreases transactions.len() - i,
        {
            let ghost rest = all.skip(i as int);
            let tx = &transactions[i];
            proof {
                assert(rest.first() == tx@);
                assert(rest.drop_first() =~= all.skip(i + 1));
                lemma_all_valid_step(self@, rest);
            }
            self.blockchain_state.apply_transaction(tx);
            i += 1;
        }
        assert(all.skip(i as int) =~= Seq::<TransactionView>::empty());
    }
}

/// Whether one of the first `upto` transactions of `list` is of `sender`.
pub fn sender_among(list: &Vec<Transaction>, upto: usize, sender: &Vec<u8>) -> (found: bool)
    requires
        upto <= list.len(),
    ensures
        found == spec_senders(transactions_view(list@).take(upto as int)).contains(sender@),
{
    let ghost keys = spec_senders(transactions_view(list@).take(upto as int));
    let mut i: usize = 0;
    while i < upto
        invariant
            i <= upto,
            upto <= list.len(),
            keys == spec_senders(transactions_view(list@).take(upto as int)),
            forall|k: int| 0 <= k < i ==> keys[k] != sender@,
        decreases upto - i,
    {
        if bytes_equal(&list[i].sender, sender) {
            assert(keys[i as int] == sender@);
            return true;
        }
        i += 1;
    }
    false
}

/// Whether one of the transactions of `list` is of `sender`.
pub fn has_sender(list: &Vec<Transaction>, sender: &Vec<u8>) -> (found: bool)
    ensures
        found == spec_senders(transactions_view(list@)).contains(sender@),
{
    assert(transactions_view(list@).take(list@.len() as int) =~= transactions_view(list@));
    sender_among(list, list.len(), sender)
}

} // verus!
