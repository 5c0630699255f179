use ed25519_dalek::{Signer, SigningKey};
use sha2::{Digest, Sha256};
use venia_consensus::block::Transaction;
use venia_consensus::state::BlockchainState;
use venia_consensus::transaction_verifier::{TransactionVerifier, VerificationError};

fn verifier_key(seed: u8) -> SigningKey {
    SigningKey::from_bytes(&[seed; 32])
}

fn verifier_signed(key: &SigningKey, nonce: u64, value: u64, payload: &[u8]) -> Transaction {
    Transaction::new(
        key.verifying_key().to_bytes().to_vec(),
        nonce,
        value,
        payload.to_vec(),
        key.sign(payload).to_bytes().to_vec(),
    )
}

fn funded(key: &SigningKey, nonce: u64, balance: u64) -> TransactionVerifier {
    let mut state = BlockchainState::new();
    state.set_account(key.verifying_key().to_bytes().to_vec(), nonce, balance);
    TransactionVerifier::new(state)
}

#[test]
fn valid_transaction_passes() {
    let key = verifier_key(1);
    let verifier = funded(&key, 4, 100);
    let tx = verifier_signed(&key, 4, 100, b"pay");
    assert_eq!(verifier.verify_transaction(&tx), Ok(()));
    assert_eq!(verifier.check_signature(&tx), Ok(()));
    assert_eq!(verifier.check_nonce(&tx), Ok(()));
    assert_eq!(verifier.check_sufficient_balance(&tx), Ok(()));
}

#[test]
fn tampered_payload_is_an_invalid_signature() {
    let key = verifier_key(1);
    let verifier = funded(&key, 0, 100);
    let mut tx = verifier_signed(&key, 0, 1, b"pay");
    tx.payload = b"pay more".to_vec();
    assert_eq!(verifier.verify_transaction(&tx), Err(VerificationError::InvalidSignature));
    assert_eq!(verifier.check_signature(&tx), Err(VerificationError::InvalidSignature));
}

#[test]
fn signature_of_another_key_is_invalid() {
    let key = verifier_key(1);
    let other = verifier_key(2);
    let verifier = funded(&key, 0, 100);
    let mut tx = verifier_signed(&other, 0, 1, b"pay");
    tx.sender = key.verifying_key().to_bytes().to_vec();
    assert_eq!(verifier.verify_transaction(&tx), Err(VerificationError::InvalidSignature));
}

#[test]
fn malformed_key_or_signature_is_invalid() {
    let key = verifier_key(1);
    let verifier = funded(&key, 0, 100);
    let mut short_signature = verifier_signed(&key, 0, 1, b"pay");
    short_signature.signature.pop();
    assert_eq!(
        verifier.verify_transaction(&short_signature),
        Err(VerificationError::InvalidSignature),
    );
    let mut short_key = verifier_signed(&key, 0, 1, b"pay");
    short_key.sender.pop();
    assert_eq!(verifier.verify_transaction(&short_key), Err(VerificationError::InvalidSignature));
    let empty = Transaction::new(Vec::new(), 0, 0, Vec::new(), Vec::new());
    assert_eq!(verifier.verify_transaction(&empty), Err(VerificationError::InvalidSignature));
}

#[test]
fn nonce_must_match_exactly() {
    let key = verifier_key(1);
    let verifier = funded(&key, 4, 100);
    assert_eq!(
        verifier.verify_transaction(&verifier_signed(&key, 3, 1, b"replay")),
        Err(VerificationError::InvalidNonce)
    );
    assert_eq!(
        verifier.verify_transaction(&verifier_signed(&key, 5, 1, b"gap")),
        Err(VerificationError::InvalidNonce)
    );
    assert_eq!(
        verifier.check_nonce(&verifier_signed(&key, 5, 1, b"gap")),
        Err(VerificationError::InvalidNonce),
    );
}

#[test]
fn value_must_not_exceed_the_balance() {
    let key = verifier_key(1);
    let verifier = funded(&key, 0, 100);
    let tx = verifier_signed(&key, 0, 101, b"too much");
    assert_eq!(verifier.verify_transaction(&tx), Err(VerificationError::InsufficientBalance));
    assert_eq!(verifier.check_sufficient_balance(&tx), Err(VerificationError::InsufficientBalance));
}

#[test]
fn checks_are_judged_in_order() {
    let key = verifier_key(1);
    let verifier = funded(&key, 0, 100);
    let mut all_wrong = verifier_signed(&key, 9, 1000, b"x");
    all_wrong.signature[0] ^= 1;
    assert_eq!(verifier.verify_transaction(&all_wrong), Err(VerificationError::InvalidSignature));
    let two_wrong = verifier_signed(&key, 9, 1000, b"x");
    assert_eq!(verifier.verify_transaction(&two_wrong), Err(VerificationError::InvalidNonce));
}

#[test]
fn verdict_for_a_given_signature_result() {
    let key = verifier_key(1);
    let verifier = funded(&key, 2, 50);
    let unsigned = Transaction::new(
        key.verifying_key().to_bytes().to_vec(),
        2,
        50,
        Vec::new(),
        Vec::new(),
    );
    assert_eq!(verifier.verify_with_signature(&unsigned, true), Ok(()));
    assert_eq!(
        verifier.verify_with_signature(&unsigned, false),
        Err(VerificationError::InvalidSignature),
    );
    let wrong_nonce = Transaction::new(
        key.verifying_key().to_bytes().to_vec(),
        3,
        50,
        Vec::new(),
        Vec::new(),
    );
    assert_eq!(
        verifier.verify_with_signature(&wrong_nonce, true),
        Err(VerificationError::InvalidNonce),
    );
    let too_much = Transaction::new(
        key.verifying_key().to_bytes().to_vec(),
        2,
        51,
        Vec::new(),
        Vec::new(),
    );
    assert_eq!(
        verifier.verify_with_signature(&too_much, true),
        Err(VerificationError::InsufficientBalance),
    );
}

#[test]
fn unknown_sender_has_nonce_and_balance_zero() {
    let key = verifier_key(3);
    let verifier = TransactionVerifier::new(BlockchainState::new());
    assert_eq!(verifier.state().get_nonce(&key.verifying_key().to_bytes().to_vec()), 0);
    assert_eq!(verifier.state().get_balance(&key.verifying_key().to_bytes().to_vec()), 0);
    assert_eq!(verifier.verify_transaction(&verifier_signed(&key, 0, 0, b"free")), Ok(()));
    assert_eq!(
        verifier.verify_transaction(&verifier_signed(&key, 0, 1, b"paid")),
        Err(VerificationError::InsufficientBalance)
    );
}

#[test]
fn verification_does_not_change_the_state() {
    let key = verifier_key(1);
    let verifier = funded(&key, 0, 100);
    let tx = verifier_signed(&key, 0, 60, b"pay");
    let root = verifier.state().state_root();
    assert_eq!(verifier.verify_transaction(&tx), Ok(()));
    assert_eq!(verifier.verify_transaction(&tx), Ok(()));
    assert_eq!(verifier.state().state_root(), root);
    assert_eq!(verifier.state().get_balance(&tx.sender), 100);
}

#[test]
fn admitted_nonces_rise_by_one_per_sender() {
    let a = verifier_key(1);
    let b = verifier_key(2);
    let mut state = BlockchainState::new();
    state.set_account(a.verifying_key().to_bytes().to_vec(), 5, 100);
    state.set_account(b.verifying_key().to_bytes().to_vec(), 0, 100);
    let mut verifier = TransactionVerifier::new(state);
    let pending = vec![
        verifier_signed(&a, 5, 1, b"a5"),
        verifier_signed(&b, 0, 1, b"b0"),
        verifier_signed(&a, 5, 1, b"a5 again"),
        verifier_signed(&a, 6, 1, b"a6"),
        verifier_signed(&b, 2, 1, b"b2"),
        verifier_signed(&b, 1, 1, b"b1"),
        verifier_signed(&a, 7, 1, b"a7"),
    ];
    let ka = a.verifying_key().to_bytes().to_vec();
    let kb = b.verifying_key().to_bytes().to_vec();
    // one block after the other: a sender's nonce rises by one with each
    let mut seen: Vec<(Vec<u8>, u64)> = Vec::new();
    for _ in 0..3 {
        let admitted = verifier.verify_transactions(&pending);
        for tx in &admitted {
            assert_eq!(verifier.verify_transaction(tx), Ok(()));
            assert_eq!(tx.nonce as u128, verifier.state().get_nonce(&tx.sender));
            seen.push((tx.sender.clone(), tx.nonce));
        }
        assert!(verifier.verify_sequence(&admitted));
        verifier.apply_transactions(&admitted);
    }
    assert_eq!(
        seen,
        vec![
            (ka.clone(), 5),
            (kb.clone(), 0),
            (ka.clone(), 6),
            (kb.clone(), 1),
            (kb.clone(), 2),
            (ka.clone(), 7)
        ]
    );
    assert!(!verifier.verify_sequence(&pending));
    assert_eq!(verifier.state().get_nonce(&ka), 8);
    assert_eq!(verifier.state().get_nonce(&kb), 3);
    assert_eq!(verifier.state().get_balance(&ka), 97);
    assert_eq!(verifier.state().get_balance(&kb), 97);
}

#[test]
fn admission_goes_by_the_accounts_held() {
    let a = verifier_key(1);
    let verifier = funded(&a, 0, 10);
    let pending = vec![
        verifier_signed(&a, 1, 4, b"next nonce"),
        verifier_signed(&a, 0, 6, b"six"),
        verifier_signed(&a, 1, 4, b"four"),
        verifier_signed(&a, 0, 6, b"six again"),
    ];
    let (admitted, after) = verifier.admit_in_order(&pending);
    assert_eq!(admitted, vec![pending[1].clone()]);
    assert_eq!(after.get_balance(&pending[0].sender), 4);
    assert_eq!(after.get_nonce(&pending[0].sender), 1);
    assert_eq!(verifier.state().get_balance(&pending[0].sender), 10);
    assert_eq!(verifier.state().get_nonce(&pending[0].sender), 0);
    assert_eq!(verifier.verify_transactions(&pending), admitted);
    assert!(verifier.verify_transactions(&Vec::new()).is_empty());
}

#[test]
fn sequence_with_a_sender_twice_is_not_valid() {
    let a = verifier_key(1);
    let b = verifier_key(2);
    let mut state = BlockchainState::new();
    state.set_account(a.verifying_key().to_bytes().to_vec(), 0, 100);
    state.set_account(b.verifying_key().to_bytes().to_vec(), 0, 100);
    let verifier = TransactionVerifier::new(state);
    let a0 = verifier_signed(&a, 0, 60, b"a0");
    let a0_again = verifier_signed(&a, 0, 60, b"a0 again");
    let a1 = verifier_signed(&a, 1, 1, b"a1");
    let b0 = verifier_signed(&b, 0, 1, b"b0");
    assert!(verifier.verify_sequence(&Vec::new()));
    assert!(verifier.verify_sequence(&vec![a0.clone()]));
    assert!(verifier.verify_sequence(&vec![a0.clone(), b0.clone()]));
    assert!(verifier.verify_sequence(&vec![b0.clone(), a0.clone()]));
    assert!(!verifier.verify_sequence(&vec![a0.clone(), a0_again.clone()]));
    assert!(!verifier.verify_sequence(&vec![a0.clone(), b0.clone(), a0.clone()]));
    assert!(!verifier.verify_sequence(&vec![a0.clone(), a1.clone()]));
    assert!(!verifier.verify_sequence(&vec![b0.clone(), a1.clone()]));
}

#[test]
fn last_nonce_can_be_used_once() {
    let a = verifier_key(1);
    let mut verifier = funded(&a, u64::MAX, 10);
    let last = verifier_signed(&a, u64::MAX, 1, b"last");
    assert_eq!(verifier.verify_transaction(&last), Ok(()));
    verifier.apply_transactions(&vec![last.clone()]);
    assert_eq!(verifier.state().get_nonce(&last.sender), u64::MAX as u128 + 1);
    assert_eq!(verifier.verify_transaction(&last), Err(VerificationError::InvalidNonce));
    assert_eq!(
        verifier.verify_transaction(&verifier_signed(&a, 0, 1, b"wrapped")),
        Err(VerificationError::InvalidNonce)
    );
}

#[test]
fn state_accounts_are_set_and_read() {
    let mut state = BlockchainState::new();
    assert_eq!(state.len(), 0);
    state.set_account(vec![1], 3, 30);
    state.set_account(vec![2], 4, 40);
    state.set_account(vec![1], 5, 50);
    assert_eq!(state.len(), 2);
    assert_eq!(state.get_nonce(&vec![1]), 5);
    assert_eq!(state.get_balance(&vec![1]), 50);
    assert_eq!(state.get_nonce(&vec![2]), 4);
    assert_eq!(state.get_balance(&vec![3]), 0);
    let copy = state.duplicate();
    assert_eq!(copy.state_root(), state.state_root());
    state.set_account(vec![2], 4, 41);
    assert_ne!(copy.state_root(), state.state_root());
}

#[test]
fn state_root_does_not_depend_on_the_order_of_insertion() {
    let mut first = BlockchainState::new();
    first.set_account(vec![3, 1], 1, 10);
    first.set_account(vec![1], 2, 20);
    first.set_account(vec![2, 9, 9], 3, 30);
    first.set_account(Vec::new(), 4, 40);
    let mut second = BlockchainState::new();
    second.set_account(Vec::new(), 0, 0);
    second.set_account(vec![2, 9, 9], 3, 30);
    second.set_account(vec![3, 1], 1, 10);
    second.set_account(Vec::new(), 4, 40);
    second.set_account(vec![1], 2, 20);
    assert_eq!(first.len(), 4);
    assert_eq!(second.len(), 4);
    assert_eq!(first.state_root(), second.state_root());
    assert_eq!(second.get_nonce(&vec![2, 9, 9]), 3);
    assert_eq!(second.get_balance(&Vec::new()), 40);
    second.set_account(vec![1], 2, 21);
    assert_ne!(first.state_root(), second.state_root());
}

#[test]
fn state_root_is_the_digest_of_the_sorted_ledger() {
    let mut state = BlockchainState::new();
    state.set_account(vec![7], 2, 5);
    state.set_account(vec![6, 6], 1, 9);
    let mut bytes = Vec::new();
    bytes.extend_from_slice(&2u64.to_le_bytes());
    for (address, nonce, balance) in [(vec![6u8, 6], 1u128, 9u64), (vec![7u8], 2, 5)] {
        bytes.extend_from_slice(&(address.len() as u64).to_le_bytes());
        bytes.extend_from_slice(&address);
        bytes.extend_from_slice(&nonce.to_le_bytes());
        bytes.extend_from_slice(&balance.to_le_bytes());
    }
    assert_eq!(state.state_root(), Sha256::digest(&bytes).to_vec());
    assert_eq!(BlockchainState::new().state_root(), Sha256::digest(0u64.to_le_bytes()).to_vec());
}
