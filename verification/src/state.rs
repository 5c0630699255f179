//! The account state of the chain: for every address the next expected
//! nonce and the balance.

use vstd::prelude::*;
use crate::block::{Transaction, TransactionView};
use crate::bytes::{append_encoded_bytes, append_u128, append_u64, bytes_equal, copy_bytes,
    spec_encode_bytes, spec_encode_u128, spec_encode_u64};
use crate::crypto::{sha256, sha256_digest, DIGEST_LEN};
use crate::keyed::{key_index, lemma_key_index_absent, lemma_key_index_found,
    lemma_key_index_insert, lemma_key_index_valid};
use crate::sorting::{bytes_less, lemma_lex_irreflexive, lemma_lex_total, lemma_lex_transitive,
    spec_lex_less};

verus! {

/// One account of the ledger.
#[derive(Debug, Clone, PartialEq, Eq)]
pub struct Account {
    /// The account's address: the owner's public key.
    pub address: Vec<u8>,
    /// The nonce that the next transaction of this account must carry.  It
    /// exceeds every `u64` once the account has used the last nonce.
    pub nonce: u128,
    /// What the account may still spend.
    pub balance: u64,
}

/// What an [`Account`] holds, as plain mathematical values.
pub ghost struct AccountView {
    pub address: Seq<u8>,
    pub nonce: u128,
    pub balance: u64,
}

impl View for Account {
    type V = AccountView;

    open spec fn view(&self) -> AccountView {
        AccountView { address: self.address@, nonce: self.nonce, balance: self.balance }
    }
}

/// The addresses of a ledger, in ledger order.
pub open spec fn spec_addresses(accounts: Seq<AccountView>) -> Seq<Seq<u8>> {
    Seq::new(accounts.len(), |i: int| accounts[i].address)
}

/// A ledger is well formed when its accounts stand in strictly rising order
/// of their addresses.  No address then occurs twice, and the order of the
/// ledger depends on the accounts that it holds alone.
pub open spec fn spec_ledger_wf(accounts: Seq<AccountView>) -> bool {
    forall|i: int, j: int|
        0 <= i < j < accounts.len() ==> spec_lex_less(
            #[trigger] accounts[i].address,
            #[trigger] accounts[j].address,
        )
}

/// The position at which an account of `address` is put into the ledger:
/// before the first account whose address does not come before `address`.
pub open spec fn spec_position(accounts: Seq<AccountView>, address: Seq<u8>) -> int
    decreases accounts.len(),
{
    if accounts.len() == 0 {
        0
    } else if spec_lex_less(accounts.first().address, address) {
        1 + spec_position(accounts.drop_first(), address)
    } else {
        0
    }
}

/// The next expected nonce of `address`: zero for an address without an account.
pub open spec fn spec_nonce(accounts: Seq<AccountView>, address: Seq<u8>) -> u128 {
    match key_index(spec_addresses(accounts), address) {
        Some(i) => accounts[i].nonce,
        None => 0,
    }
}

/// The balance of `address`: zero for an address without an account.
pub open spec fn spec_balance(accounts: Seq<AccountView>, address: Seq<u8>) -> u64 {
    match key_index(spec_addresses(accounts), address) {
        Some(i) => accounts[i].balance,
        None => 0,
    }
}

/// The ledger in which `account` stands for its address: in the place of the
/// earlier account of that address, or at the position that the order of
/// addresses gives it.
pub open spec fn spec_set_account(
    accounts: Seq<AccountView>,
    account: AccountView,
) -> Seq<AccountView> {
    match key_index(spec_addresses(accounts), account.address) {
        Some(i) => accounts.update(i, account),
        None => accounts.insert(spec_position(accounts, account.address), account),
    }
}

/// Whether `tx` may be applied: it carries the sender's next nonce and
/// spends no more than the sender's balance.
pub open spec fn spec_applicable(accounts: Seq<AccountView>, tx: TransactionView) -> bool {
    tx.nonce == spec_nonce(accounts, tx.sender) && tx.value <= spec_balance(accounts, tx.sender)
}

/// The ledger after `tx`: the sender's nonce is one higher and the sender's
/// balance is lower by the value of `tx`.
pub open spec fn spec_apply(accounts: Seq<AccountView>, tx: TransactionView) -> Seq<AccountView> {
    spec_set_account(
        accounts,
        AccountView {
            address: tx.sender,
            nonce: (spec_nonce(accounts, tx.sender) + 1) as u128,
            balance: (spec_balance(accounts, tx.sender) - tx.value) as u64,
        },
    )
}

/// The ledger after the transactions of `txs`, applied in order.
pub open spec fn spec_apply_all(
    accounts: Seq<AccountView>,
    txs: Seq<TransactionView>,
) -> Seq<AccountView>
    decreases txs.len(),
{
    if txs.len() == 0 {
        accounts
    } else {
        spec_apply_all(spec_apply(accounts, txs.first()), txs.drop_first())
    }
}

/// The encoding of one account.
pub open spec fn spec_encode_account(account: AccountView) -> Seq<u8> {
    spec_encode_bytes(account.address) + spec_encode_u128(account.nonce) + spec_encode_u64(
        account.balance,
    )
}

/// The encodings of the accounts of a ledger, one after the other.
pub open spec fn spec_encode_accounts(accounts: Seq<AccountView>) -> Seq<u8>
    decreases accounts.len(),
{
    if accounts.len() == 0 {
        Seq::empty()
    } else {
        spec_encode_accounts(accounts.drop_last()) + spec_encode_account(accounts.last())
    }
}

/// The state root: the SHA-256 digest of the number of accounts followed by
/// the accounts in ledger order, which is the order of their addresses.
pub open spec fn spec_state_root(accounts: Seq<AccountView>) -> Seq<u8> {
    sha256(spec_encode_u64(accounts.len() as u64) + spec_encode_accounts(accounts))
}

/// In a well-formed ledger no address occurs twice.
pub proof fn lemma_ledger_distinct(accounts: Seq<AccountView>)
    requires
        spec_ledger_wf(accounts),
    ensures
        spec_addresses(accounts).no_duplicates(),
{
    let keys = spec_addresses(accounts);
    assert forall|i: int, j: int| 0 <= i < keys.len() && 0 <= j < keys.len() && i != j implies keys[i]
        != keys[j] by {
        lemma_lex_irreflexive(accounts[i].address);
        if i < j {
            assert(spec_lex_less(accounts[i].address, accounts[j].address));
        } else {
            assert(spec_lex_less(accounts[j].address, accounts[i].address));
        }
    }
}

/// The position of an address lies within the ledger; the accounts before
/// it come before the address, and the account at it, if there is one, does
/// not.
pub proof fn lemma_position_bounds(accounts: Seq<AccountView>, address: Seq<u8>)
    ensures
        0 <= spec_position(accounts, address) <= accounts.len(),
        forall|k: int|
            0 <= k < spec_position(accounts, address) ==> spec_lex_less(
                (#[trigger] accounts[k]).address,
                address,
            ),
        spec_position(accounts, address) == accounts.len() || !spec_lex_less(
            accounts[spec_position(accounts, address)].address,
            address,
        ),
    decreases accounts.len(),
{
    if accounts.len() > 0 && spec_lex_less(accounts.first().address, address) {
        let rest = accounts.drop_first();
        lemma_position_bounds(rest, address);
        assert forall|k: int| 0 <= k < spec_position(accounts, address) implies spec_lex_less(
            (#[trigger] accounts[k]).address,
            address,
        ) by {
            if k > 0 {
                assert(accounts[k] == rest[k - 1]);
            }
        }
        if spec_position(rest, address) < rest.len() {
            assert(
                accounts[spec_position(accounts, address)] == rest[spec_position(rest, address)]
            );
        }
    }
}

/// The position of an address is the first at which the account does not
/// come before the address.
pub proof fn lemma_position_at(accounts: Seq<AccountView>, address: Seq<u8>, at: int)
    requires
        0 <= at <= accounts.len(),
        forall|k: int| 0 <= k < at ==> spec_lex_less((#[trigger] accounts[k]).address, address),
        at == accounts.len() || !spec_lex_less(accounts[at].address, address),
    ensures
        spec_position(accounts, address) == at,
    decreases at,
{
    if at > 0 {
        let rest = accounts.drop_first();
        assert(spec_lex_less(accounts[0].address, address));
        assert forall|k: int| 0 <= k < at - 1 implies spec_lex_less(
            (#[trigger] rest[k]).address,
            address,
        ) by {
            assert(spec_lex_less(accounts[k + 1].address, address));
        }
        if at < accounts.len() {
            assert(rest[at - 1] == accounts[at]);
        }
        lemma_position_at(rest, address, at - 1);
    }
}

/// Setting an account keeps the ledger well formed, gives the address the
/// new nonce and balance, and leaves every other address as it was.
pub proof fn lemma_set_account(accounts: Seq<AccountView>, account: AccountView, address: Seq<u8>)
    requires
        spec_ledger_wf(accounts),
    ensures
        spec_ledger_wf(spec_set_account(accounts, account)),
        spec_nonce(spec_set_account(accounts, account), address) == if address == account.address {
            account.nonce
        } else {
            spec_nonce(accounts, address)
        },
        spec_balance(spec_set_account(accounts, account), address) == if address
            == account.address {
            account.balance
        } else {
            spec_balance(accounts, address)
        },
{
    let keys = spec_addresses(accounts);
    let after = spec_set_account(accounts, account);
    lemma_ledger_distinct(accounts);
    lemma_key_index_valid(keys, account.address);
    match key_index(keys, account.address) {
        Some(i) => {
            assert(spec_addresses(after) =~= keys);
            assert forall|a: int, b: int| 0 <= a < b < after.len() implies spec_lex_less(
                #[trigger] after[a].address,
                #[trigger] after[b].address,
            ) by {
                assert(spec_lex_less(accounts[a].address, accounts[b].address));
            }
        },
        None => {
            let at = spec_position(accounts, account.address);
            lemma_position_bounds(accounts, account.address);
            assert(spec_addresses(after) =~= keys.insert(at, account.address));
            lemma_key_index_insert(keys, at, account.address, address);
            lemma_key_index_valid(keys, address);
            assert forall|a: int, b: int| 0 <= a < b < after.len() implies spec_lex_less(
                #[trigger] after[a].address,
                #[trigger] after[b].address,
            ) by {
                let sa = if a < at { a } else { a - 1 };
                let sb = if b < at { b } else { b - 1 };
                if b == at {
                    assert(spec_lex_less(accounts[sa].address, account.address));
                } else if a == at {
                    assert(keys[at] != account.address);
                    lemma_lex_total(accounts[at].address, account.address);
                    if sb > at {
                        assert(spec_lex_less(accounts[at].address, accounts[sb].address));
                        lemma_lex_transitive(
                            account.address,
                            accounts[at].address,
                            accounts[sb].address,
                        );
                    }
                } else {
                    assert(spec_lex_less(accounts[sa].address, accounts[sb].address));
                }
            }
        },
    }
}

/// The order of a well-formed ledger is canonical: two well-formed ledgers
/// that hold the same accounts are the same ledger, and have the same state
/// root.
pub proof fn lemma_ledger_canonical(first: Seq<AccountView>, second: Seq<AccountView>)
    requires
        spec_ledger_wf(first),
        spec_ledger_wf(second),
        forall|account: AccountView| first.contains(account) <==> second.contains(account),
    ensures
        first == second,
        spec_state_root(first) == spec_state_root(second),
    decreases first.len(),
{
    if first.len() == 0 {
        if second.len() > 0 {
            assert(second.contains(second[0]));
            assert(first.contains(second[0]));
        }
        assert(first =~= second);
    } else {
        assert(first.contains(first[0]));
        assert(second.contains(first[0]));
        let k = choose|k: int| 0 <= k < second.len() && second[k] == first[0];
        assert(second.contains(second[0]));
        assert(first.contains(second[0]));
        let m = choose|m: int| 0 <= m < first.len() && first[m] == second[0];
        lemma_lex_irreflexive(first[0].address);
        lemma_lex_irreflexive(second[0].address);
        if k > 0 {
            assert(spec_lex_less(second[0].address, second[k].address));
            if m > 0 {
                assert(spec_lex_less(first[0].address, first[m].address));
                lemma_lex_transitive(first[0].address, first[m].address, first[0].address);
            }
        }
        assert(first[0] == second[0]);
        let ra = first.drop_first();
        let rb = second.drop_first();
        assert(spec_ledger_wf(ra)) by {
            assert forall|i: int, j: int| 0 <= i < j < ra.len() implies spec_lex_less(
                #[trigger] ra[i].address,
                #[trigger] ra[j].address,
            ) by {
                assert(spec_lex_less(first[i + 1].address, first[j + 1].address));
            }
        }
        assert(spec_ledger_wf(rb)) by {
            assert forall|i: int, j: int| 0 <= i < j < rb.len() implies spec_lex_less(
                #[trigger] rb[i].address,
                #[trigger] rb[j].address,
            ) by {
                assert(spec_lex_less(second[i + 1].address, second[j + 1].address));
            }
        }
        assert forall|account: AccountView| ra.contains(account) <==> rb.contains(account) by {
            if ra.contains(account) {
                let i = choose|i: int| 0 <= i < ra.len() && ra[i] == account;
                assert(first[i + 1] == account);
                assert(spec_lex_less(first[0].address, first[i + 1].address));
                assert(first.contains(account));
                assert(second.contains(account));
                let j = choose|j: int| 0 <= j < second.len() && second[j] == account;
                assert(j > 0);
                assert(rb[j - 1] == account);
            }
            if rb.contains(account) {
                let i = choose|i: int| 0 <= i < rb.len() && rb[i] == account;
                assert(second[i + 1] == account);
                assert(spec_lex_less(second[0].address, second[i + 1].address));
                assert(second.contains(account));
                assert(first.contains(account));
                let j = choose|j: int| 0 <= j < first.len() && first[j] == account;
                assert(j > 0);
                assert(ra[j - 1] == account);
            }
        }
        lemma_ledger_canonical(ra, rb);
        assert(first =~= seq![first[0]] + ra);
        assert(second =~= seq![second[0]] + rb);
    }
}

/// Applying a transaction keeps the ledger well formed, raises the sender's
/// nonce by exactly one, lowers the sender's balance by the value, and
/// leaves every other account as it was.
pub proof fn lemma_apply_effect(accounts: Seq<AccountView>, tx: TransactionView, address: Seq<u8>)
    requires
        spec_ledger_wf(accounts),
        spec_applicable(accounts, tx),
    ensures
        spec_ledger_wf(spec_apply(accounts, tx)),
        spec_nonce(spec_apply(accounts, tx), address) == if address == tx.sender {
            spec_nonce(accounts, address) + 1
        } else {
            spec_nonce(accounts, address) as int
        },
        spec_balance(spec_apply(accounts, tx), address) == if address == tx.sender {
            spec_balance(accounts, address) - tx.value
        } else {
            spec_balance(accounts, address) as int
        },
{
    let account = AccountView {
        address: tx.sender,
        nonce: (spec_nonce(accounts, tx.sender) + 1) as u128,
        balance: (spec_balance(accounts, tx.sender) - tx.value) as u64,
    };
    lemma_set_account(accounts, account, address);
}

/// The account state of the chain.
pub struct BlockchainState {
    accounts: Vec<Account>,
}

impl View for BlockchainState {
    type V = Seq<AccountView>;

    closed spec fn view(&self) -> Seq<AccountView> {
        Seq::new(self.accounts@.len(), |i: int| self.accounts@[i]@)
    }
}

impl BlockchainState {
    /// The accounts stand in the order of their addresses; no address
    /// occurs twice.
    pub open spec fn wf(&self) -> bool {
        spec_ledger_wf(self@)
    }

    /// The state without any account.
    pub fn new() -> (state: Self)
        ensures
            state@ == Seq::<AccountView>::empty(),
            state.wf(),
    {
        let state = BlockchainState { accounts: Vec::new() };
        assert(state@ =~= Seq::<AccountView>::empty());
        state
    }

    fn find(&self, address: &Vec<u8>) -> (found: Option<usize>)
        requires
            self.wf(),
        ensures
            found matches Some(i) ==> i < self.accounts.len() && key_index(
                spec_addresses(self@),
                address@,
            ) == Some(i as int),
            found is None ==> key_index(spec_addresses(self@), address@) is None,
    {
        proof {
            lemma_ledger_distinct(self@);
        }
        let mut i: usize = 0;
        while i < self.accounts.len()
            invariant
                i <= self.accounts.len(),
                spec_addresses(self@).no_duplicates(),
                forall|k: int| 0 <= k < i ==> spec_addresses(self@)[k] != address@,
            decreases self.accounts.len() - i,
        {
            if bytes_equal(&self.accounts[i].address, address) {
                proof {
                    lemma_key_index_found(spec_addresses(self@), address@, i as int);
                }
                return Some(i);
            }
            i += 1;
        }
        proof {
            lemma_key_index_absent(spec_addresses(self@), address@);
        }
        None
    }

    /// The nonce that the next transaction of `address` must carry.
    pub fn get_nonce(&self, address: &Vec<u8>) -> (nonce: u128)
        requires
            self.wf(),
        ensures
            nonce == spec_nonce(self@, address@),
    {
        match self.find(address) {
            Some(i) => self.accounts[i].nonce,
            None => 0,
        }
    }

    /// The balance of `address`.
    pub fn get_balance(&self, address: &Vec<u8>) -> (balance: u64)
        requires
            self.wf(),
        ensures
            balance == spec_balance(self@, address@),
    {
        match self.find(address) {
            Some(i) => self.accounts[i].balance,
            None => 0,
        }
    }

    /// The number of accounts.
    pub fn len(&self) -> (n: usize)
        ensures
            n == self@.len(),
    {
        self.accounts.len()
    }

    fn put(&mut self, account: Account)
        requires
            old(self).wf(),
        ensures
            final(self)@ == spec_set_account(old(self)@, account@),
            final(self).wf(),
    {
        proof {
            lemma_set_account(self@, account@, account@.address);
        }
        match self.find(&account.address) {
            Some(i) => {
                self.accounts[i] = account;
                assert(self@ =~= old(self)@.update(i as int, account@));
            },
            None => {
                let mut at: usize = 0;
                while at < self.accounts.len() && bytes_less(
                    self.accounts[at].address.as_slice(),
                    account.address.as_slice(),
                )
                    invariant
                        at <= self.accounts.len(),
                        *self == *old(self),
                        forall|k: int|
                            0 <= k < at ==> spec_lex_less(
                                (#[trigger] self@[k]).address,
                                account@.address,
                            ),
                    decreases self.accounts.len() - at,
                {
                    at += 1;
                }
                proof {
                    lemma_position_at(self@, account@.address, at as int);
                }
                self.accounts.insert(at, account);
                assert(self@ =~= old(self)@.insert(at as int, account@));
            },
        }
    }

    /// Gives `address` the nonce and balance stated, whether or not it had
    /// an account before.
    pub fn set_account(&mut self, address: Vec<u8>, nonce: u64, balance: u64)
        requires
            old(self).wf(),
        ensures
            final(self)@ == spec_set_account(
                old(self)@,
                AccountView { address: address@, nonce: nonce as u128, balance },
            ),
            final(self).wf(),
    {
        self.put(Account { address, nonce: nonce as u128, balance });
    }

    /// Applies the effects of `tx`: the sender's nonce rises by one and the
    /// sender's balance falls by the value.
    pub fn apply_transaction(&mut self, tx: &Transaction)
        requires
            old(self).wf(),
            spec_applicable(old(self)@, tx@),
        ensures
            final(self)@ == spec_apply(old(self)@, tx@),
            final(self).wf(),
    {
        let nonce = self.get_nonce(&tx.sender);
        let balance = self.get_balance(&tx.sender);
        self.put(
            Account {
                address: copy_bytes(&tx.sender),
                nonce: nonce + 1,
                balance: balance - tx.value,
            },
        );
    }

    /// The digest of the ledger.
    pub fn state_root(&self) -> (root: Vec<u8>)
        ensures
            root@ == spec_state_root(self@),
            root@.len() == DIGEST_LEN,
    {
        let mut out: Vec<u8> = Vec::new();
        append_u64(&mut out, self.accounts.len() as u64);
        let ghost prefix = out@;
        let mut i: usize = 0;
        assert(self@.take(0) =~= Seq::<AccountView>::empty());
        while i < self.accounts.len()
            invariant
                i <= self.accounts.len(),
                self@.len() == self.accounts.len(),
                out@ == prefix + spec_encode_accounts(self@.take(i as int)),
            decreases self.accounts.len() - i,
        {
            let account = &self.accounts[i];
            append_encoded_bytes(&mut out, &account.address);
            append_u128(&mut out, account.nonce);
            append_u64(&mut out, account.balance);
            proof {
                let next = self@.take(i + 1);
                assert(next.drop_last() =~= self@.take(i as int));
                assert(next.last() == account@);
                assert(out@ =~= prefix + spec_encode_accounts(next));
            }
            i += 1;
        }
        assert(self@.take(i as int) =~= self@);
        sha256_digest(&out)
    }

    /// A fresh state with the same accounts.
    pub fn duplicate(&self) -> (copy: Self)
        ensures
            copy@ == self@,
    {
        let mut accounts: Vec<Account> = Vec::new();
        let mut i: usize = 0;
        while i < self.accounts.len()
            invariant
                i <= self.accounts.len(),
                accounts.len() == i,
                forall|k: int| 0 <= k < i ==> accounts@[k]@ == self.accounts@[k]@,
            decreases self.accounts.len() - i,
        {
            let account = &self.accounts[i];
            accounts.push(
                Account {
                    address: copy_bytes(&account.address),
                    nonce: account.nonce,
                    balance: account.balance,
                },
            );
            i += 1;
        }
        let copy = BlockchainState { accounts };
        assert(copy@ =~= self@);
        copy
    }
}

} // verus!
