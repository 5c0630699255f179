//! The binary encoding of blocks, its decoder, and the proof that the two
//! are inverse to each other.
//!
//! Integers are eight little-endian bytes; a byte string is its length
//! followed by its content; a transaction list is its length followed by
//! the transactions in order.

use vstd::prelude::*;
use crate::block::{Block, BlockHeader, BlockHeaderView, BlockView, Transaction, TransactionView,
    transactions_view};
use crate::bytes::{append_encoded_bytes, append_u64, lemma_encode_parse_bytes,
    lemma_encode_parse_u64, lemma_parse_encode_bytes, lemma_parse_encode_u64, read_bytes, read_u64,
    spec_encode_bytes, spec_encode_u64, spec_parse_bytes, spec_parse_u64};

verus! {

/// The encoding of one transaction.
pub open spec fn spec_encode_transaction(tx: TransactionView) -> Seq<u8> {
    spec_encode_bytes(tx.sender) + spec_encode_u64(tx.nonce) + spec_encode_u64(tx.value)
        + spec_encode_bytes(tx.payload) + spec_encode_bytes(tx.signature)
}

/// The encodings of the transactions of `txs`, one after the other.
pub open spec fn spec_encode_transactions(txs: Seq<TransactionView>) -> Seq<u8>
    decreases txs.len(),
{
    if txs.len() == 0 {
        Seq::empty()
    } else {
        spec_encode_transaction(txs.first()) + spec_encode_transactions(txs.drop_first())
    }
}

/// The encoding of a header.
pub open spec fn spec_encode_header(h: BlockHeaderView) -> Seq<u8> {
    spec_encode_u64(h.height) + spec_encode_u64(h.timestamp) + spec_encode_bytes(h.previous_hash)
        + spec_encode_bytes(h.validator_public_key) + spec_encode_bytes(h.state_root)
        + spec_encode_bytes(h.hash) + spec_encode_u64(h.validator_reward)
}

/// The encoding of a block: header, transaction count, transactions.
pub open spec fn spec_encode_block(b: BlockView) -> Seq<u8> {
    spec_encode_header(b.header) + spec_encode_u64(b.transactions.len() as u64)
        + spec_encode_transactions(b.transactions)
}

/// Reads one transaction from the front of `s`.
pub open spec fn spec_parse_transaction(s: Seq<u8>) -> Option<(TransactionView, Seq<u8>)> {
    match spec_parse_bytes(s) {
        None => None,
        Some((sender, s1)) => match spec_parse_u64(s1) {
            None => None,
            Some((nonce, s2)) => match spec_parse_u64(s2) {
                None => None,
                Some((value, s3)) => match spec_parse_bytes(s3) {
                    None => None,
                    Some((payload, s4)) => match spec_parse_bytes(s4) {
                        None => None,
                        Some((signature, s5)) => Some(
                            (TransactionView { sender, nonce, value, payload, signature }, s5),
                        ),
                    },
                },
            },
        },
    }
}

/// Reads `count` transactions from the front of `s`.
pub open spec fn spec_parse_transactions(
    s: Seq<u8>,
    count: nat,
) -> Option<(Seq<TransactionView>, Seq<u8>)>
    decreases count,
{
    if count == 0 {
        Some((Seq::empty(), s))
    } else {
        match spec_parse_transaction(s) {
            None => None,
            Some((tx, rest)) => match spec_parse_transactions(rest, (count - 1) as nat) {
                None => None,
                Some((txs, end)) => Some((seq![tx] + txs, end)),
            },
        }
    }
}

/// Reads a header from the front of `s`.
pub open spec fn spec_parse_header(s: Seq<u8>) -> Option<(BlockHeaderView, Seq<u8>)> {
    match spec_parse_u64(s) {
        None => None,
        Some((height, s1)) => match spec_parse_u64(s1) {
            None => None,
            Some((timestamp, s2)) => match spec_parse_bytes(s2) {
                None => None,
                Some((previous_hash, s3)) => match spec_parse_bytes(s3) {
                    None => None,
                    Some((validator_public_key, s4)) => match spec_parse_bytes(s4) {
                        None => None,
                        Some((state_root, s5)) => match spec_parse_bytes(s5) {
                            None => None,
                            Some((hash, s6)) => match spec_parse_u64(s6) {
                                None => None,
                                Some((validator_reward, s7)) => Some(
                                    (
                                        BlockHeaderView {
                                            height,
                                            timestamp,
                                            previous_hash,
                                            validator_public_key,
                                            state_root,
                                            hash,
                                            validator_reward,
                                        },
                                        s7,
                                    ),
                                ),
                            },
                        },
                    },
                },
            },
        },
    }
}

/// The block that `s` encodes, if it encodes one and nothing follows it.
pub open spec fn spec_decode_block(s: Seq<u8>) -> Option<BlockView> {
    match spec_parse_header(s) {
        None => None,
        Some((header, s1)) => match spec_parse_u64(s1) {
            None => None,
            Some((count, s2)) => match spec_parse_transactions(s2, count as nat) {
                None => None,
                Some((transactions, end)) => if end.len() == 0 {
                    Some(BlockView { header, transactions })
                } else {
                    None
                },
            },
        },
    }
}

/// Every length in the transaction fits the length prefix.
pub open spec fn transaction_encodable(tx: TransactionView) -> bool {
    tx.sender.len() <= u64::MAX && tx.payload.len() <= u64::MAX && tx.signature.len() <= u64::MAX
}

/// Every length in the header fits the length prefix.
pub open spec fn header_encodable(h: BlockHeaderView) -> bool {
    h.previous_hash.len() <= u64::MAX && h.validator_public_key.len() <= u64::MAX
        && h.state_root.len() <= u64::MAX && h.hash.len() <= u64::MAX
}

/// Every length in the block fits the length prefix.  Every block held in
/// memory is encodable.
pub open spec fn block_encodable(b: BlockView) -> bool {
    &&& header_encodable(b.header)
    &&& b.transactions.len() <= u64::MAX
    &&& forall|i: int| 0 <= i < b.transactions.len() ==> transaction_encodable(
        #[trigger] b.transactions[i],
    )
}

/// The view of a block in memory is encodable.
pub proof fn lemma_block_in_memory_encodable(block: Block)
    ensures
        block_encodable(block@),
{
    assert forall|i: int| 0 <= i < block@.transactions.len() implies transaction_encodable(
        #[trigger] block@.transactions[i],
    ) by {
        let tx = block.transactions@[i];
        assert(block@.transactions[i] == tx@);
        assert(tx.sender.len() == tx.sender@.len());
        assert(tx.payload.len() == tx.payload@.len());
        assert(tx.signature.len() == tx.signature@.len());
    }
    assert(block.header.previous_hash.len() == block@.header.previous_hash.len());
    assert(block.header.validator_public_key.len() == block@.header.validator_public_key.len());
    assert(block.header.state_root.len() == block@.header.state_root.len());
    assert(block.header.hash.len() == block@.header.hash.len());
    assert(block.transactions.len() == block@.transactions.len());
}

/// Concatenation of byte strings is associative.
pub proof fn lemma_concat_assoc(a: Seq<u8>, b: Seq<u8>, c: Seq<u8>)
    ensures
        (a + b) + c == a + (b + c),
{
    assert((a + b) + c =~= a + (b + c));
}

/// An encoded transaction parses back to itself.
pub proof fn lemma_parse_encode_transaction(tx: TransactionView, rest: Seq<u8>)
    requires
        transaction_encodable(tx),
    ensures
        spec_parse_transaction(spec_encode_transaction(tx) + rest) == Some((tx, rest)),
{
    let r4 = spec_encode_bytes(tx.signature) + rest;
    let r3 = spec_encode_bytes(tx.payload) + r4;
    let r2 = spec_encode_u64(tx.value) + r3;
    let r1 = spec_encode_u64(tx.nonce) + r2;
    assert(spec_encode_transaction(tx) + rest =~= spec_encode_bytes(tx.sender) + r1);
    lemma_parse_encode_bytes(tx.sender, r1);
    lemma_parse_encode_u64(tx.nonce, r2);
    lemma_parse_encode_u64(tx.value, r3);
    lemma_parse_encode_bytes(tx.payload, r4);
    lemma_parse_encode_bytes(tx.signature, rest);
}

/// The encoding of a list followed by one more transaction.
pub proof fn lemma_encode_transactions_push(txs: Seq<TransactionView>, tx: TransactionView)
    ensures
        spec_encode_transactions(txs.push(tx)) == spec_encode_transactions(txs)
            + spec_encode_transaction(tx),
    decreases txs.len(),
{
    if txs.len() == 0 {
        let one = txs.push(tx);
        assert(one.first() == tx);
        assert(one.drop_first() =~= Seq::<TransactionView>::empty());
        assert(spec_encode_transactions(one.drop_first()) =~= Seq::<u8>::empty());
        assert(spec_encode_transactions(txs) =~= Seq::<u8>::empty());
        assert(spec_encode_transactions(one) =~= spec_encode_transactions(txs)
            + spec_encode_transaction(tx));
    } else {
        assert(txs.push(tx).drop_first() =~= txs.drop_first().push(tx));
        lemma_encode_transactions_push(txs.drop_first(), tx);
        assert(spec_encode_transactions(txs.push(tx)) =~= spec_encode_transactions(txs)
            + spec_encode_transaction(tx));
    }
}

/// An encoded transaction list parses back to itself.
pub proof fn lemma_parse_encode_transactions(txs: Seq<TransactionView>, rest: Seq<u8>)
    requires
        forall|i: int| 0 <= i < txs.len() ==> transaction_encodable(#[trigger] txs[i]),
    ensures
        spec_parse_transactions(spec_encode_transactions(txs) + rest, txs.len()) == Some(
            (txs, rest),
        ),
    decreases txs.len(),
{
    if txs.len() == 0 {
        assert(spec_encode_transactions(txs) + rest =~= rest);
        assert(txs =~= Seq::empty());
    } else {
        let tail = txs.drop_first();
        let after = spec_encode_transactions(tail) + rest;
        assert(
            spec_encode_transactions(txs) + rest =~= spec_encode_transaction(txs.first()) + after
        );
        lemma_parse_encode_transaction(txs.first(), after);
        assert forall|i: int| 0 <= i < tail.len() implies transaction_encodable(
            #[trigger] tail[i],
        ) by {
            assert(tail[i] == txs[i + 1]);
        }
        lemma_parse_encode_transactions(tail, rest);
        assert(seq![txs.first()] + tail =~= txs);
    }
}

/// An encoded header parses back to itself.
pub proof fn lemma_parse_encode_header(h: BlockHeaderView, rest: Seq<u8>)
    requires
        header_encodable(h),
    ensures
        spec_parse_header(spec_encode_header(h) + rest) == Some((h, rest)),
{
    let r6 = spec_encode_u64(h.validator_reward) + rest;
    let r5 = spec_encode_bytes(h.hash) + r6;
    let r4 = spec_encode_bytes(h.state_root) + r5;
    let r3 = spec_encode_bytes(h.validator_public_key) + r4;
    let r2 = spec_encode_bytes(h.previous_hash) + r3;
    let r1 = spec_encode_u64(h.timestamp) + r2;
    assert(spec_encode_header(h) + rest =~= spec_encode_u64(h.height) + r1);
    lemma_parse_encode_u64(h.height, r1);
    lemma_parse_encode_u64(h.timestamp, r2);
    lemma_parse_encode_bytes(h.previous_hash, r3);
    lemma_parse_encode_bytes(h.validator_public_key, r4);
    lemma_parse_encode_bytes(h.state_root, r5);
    lemma_parse_encode_bytes(h.hash, r6);
    lemma_parse_encode_u64(h.validator_reward, rest);
}

/// Decoding the encoding of an encodable block yields the block.
pub proof fn lemma_decode_encode_block(b: BlockView)
    requires
        block_encodable(b),
    ensures
        spec_decode_block(spec_encode_block(b)) == Some(b),
{
    let count = b.transactions.len() as u64;
    let r2 = spec_encode_transactions(b.transactions);
    let r1 = spec_encode_u64(count) + r2;
    assert(spec_encode_block(b) =~= spec_encode_header(b.header) + r1);
    lemma_parse_encode_header(b.header, r1);
    lemma_parse_encode_u64(count, r2);
    assert(r2 =~= r2 + Seq::<u8>::empty());
    lemma_parse_encode_transactions(b.transactions, Seq::empty());
}

/// Whatever parses as a transaction is the encoding of the transaction read,
/// followed by the remainder.
pub proof fn lemma_encode_parse_transaction(s: Seq<u8>)
    requires
        spec_parse_transaction(s) is Some,
    ensures
        s == spec_encode_transaction(spec_parse_transaction(s).unwrap().0) + spec_parse_transaction(
            s,
        ).unwrap().1,
{
    let tx = spec_parse_transaction(s).unwrap().0;
    lemma_encode_parse_bytes(s);
    let s1 = spec_parse_bytes(s).unwrap().1;
    lemma_encode_parse_u64(s1);
    let s2 = spec_parse_u64(s1).unwrap().1;
    lemma_encode_parse_u64(s2);
    let s3 = spec_parse_u64(s2).unwrap().1;
    lemma_encode_parse_bytes(s3);
    let s4 = spec_parse_bytes(s3).unwrap().1;
    lemma_encode_parse_bytes(s4);
    let s5 = spec_parse_bytes(s4).unwrap().1;
    let e0 = spec_encode_bytes(tx.sender);
    let e1 = spec_encode_u64(tx.nonce);
    let e2 = spec_encode_u64(tx.value);
    let e3 = spec_encode_bytes(tx.payload);
    let e4 = spec_encode_bytes(tx.signature);
    assert(s == e0 + s1 && s1 == e1 + s2 && s2 == e2 + s3 && s3 == e3 + s4 && s4 == e4 + s5);
    lemma_concat_assoc(e0, e1, s2);
    lemma_concat_assoc(e0 + e1, e2, s3);
    lemma_concat_assoc(e0 + e1 + e2, e3, s4);
    lemma_concat_assoc(e0 + e1 + e2 + e3, e4, s5);
}

/// Whatever parses as `count` transactions is the encoding of the list read,
/// followed by the remainder, and the list has `count` entries.
pub proof fn lemma_encode_parse_transactions(s: Seq<u8>, count: nat)
    requires
        spec_parse_transactions(s, count) is Some,
    ensures
        spec_parse_transactions(s, count).unwrap().0.len() == count,
        s == spec_encode_transactions(spec_parse_transactions(s, count).unwrap().0)
            + spec_parse_transactions(s, count).unwrap().1,
    decreases count,
{
    if count == 0 {
        assert(s =~= Seq::<u8>::empty() + s);
    } else {
        lemma_encode_parse_transaction(s);
        let (tx, rest) = spec_parse_transaction(s).unwrap();
        lemma_encode_parse_transactions(rest, (count - 1) as nat);
        let (txs, end) = spec_parse_transactions(rest, (count - 1) as nat).unwrap();
        let all = seq![tx] + txs;
        assert(all.first() == tx);
        assert(all.drop_first() =~= txs);
        assert(s =~= spec_encode_transactions(all) + end);
    }
}

/// Whatever parses as a header is the encoding of the header read, followed
/// by the remainder.
pub proof fn lemma_encode_parse_header(s: Seq<u8>)
    requires
        spec_parse_header(s) is Some,
    ensures
        s == spec_encode_header(spec_parse_header(s).unwrap().0) + spec_parse_header(s).unwrap().1,
{
    let h = spec_parse_header(s).unwrap().0;
    lemma_encode_parse_u64(s);
    let s1 = spec_parse_u64(s).unwrap().1;
    lemma_encode_parse_u64(s1);
    let s2 = spec_parse_u64(s1).unwrap().1;
    lemma_encode_parse_bytes(s2);
    let s3 = spec_parse_bytes(s2).unwrap().1;
    lemma_encode_parse_bytes(s3);
    let s4 = spec_parse_bytes(s3).unwrap().1;
    lemma_encode_parse_bytes(s4);
    let s5 = spec_parse_bytes(s4).unwrap().1;
    lemma_encode_parse_bytes(s5);
    let s6 = spec_parse_bytes(s5).unwrap().1;
    lemma_encode_parse_u64(s6);
    let s7 = spec_parse_u64(s6).unwrap().1;
    let e0 = spec_encode_u64(h.height);
    let e1 = spec_encode_u64(h.timestamp);
    let e2 = spec_encode_bytes(h.previous_hash);
    let e3 = spec_encode_bytes(h.validator_public_key);
    let e4 = spec_encode_bytes(h.state_root);
    let e5 = spec_encode_bytes(h.hash);
    let e6 = spec_encode_u64(h.validator_reward);
    assert(s == e0 + s1 && s1 == e1 + s2 && s2 == e2 + s3 && s3 == e3 + s4);
    assert(s4 == e4 + s5 && s5 == e5 + s6 && s6 == e6 + s7);
    lemma_concat_assoc(e0, e1, s2);
    lemma_concat_assoc(e0 + e1, e2, s3);
    lemma_concat_assoc(e0 + e1 + e2, e3, s4);
    lemma_concat_assoc(e0 + e1 + e2 + e3, e4, s5);
    lemma_concat_assoc(e0 + e1 + e2 + e3 + e4, e5, s6);
    lemma_concat_assoc(e0 + e1 + e2 + e3 + e4 + e5, e6, s7);
}

/// Only the encoding of a block decodes to it: the encoding is unique.
pub proof fn lemma_encode_decode_block(s: Seq<u8>)
    requires
        spec_decode_block(s) is Some,
    ensures
        spec_encode_block(spec_decode_block(s).unwrap()) == s,
{
    lemma_encode_parse_header(s);
    let (header, s1) = spec_parse_header(s).unwrap();
    lemma_encode_parse_u64(s1);
    let (count, s2) = spec_parse_u64(s1).unwrap();
    lemma_encode_parse_transactions(s2, count as nat);
    let (transactions, end) = spec_parse_transactions(s2, count as nat).unwrap();
    assert(end =~= Seq::<u8>::empty());
    assert(s =~= spec_encode_block(BlockView { header, transactions }));
}

/// Appends the encoding of `tx` to `out`.
pub fn encode_transaction(out: &mut Vec<u8>, tx: &Transaction)
    ensures
        final(out)@ == old(out)@ + spec_encode_transaction(tx@),
{
    append_encoded_bytes(out, &tx.sender);
    append_u64(out, tx.nonce);
    append_u64(out, tx.value);
    append_encoded_bytes(out, &tx.payload);
    append_encoded_bytes(out, &tx.signature);
    assert(out@ =~= old(out)@ + spec_encode_transaction(tx@));
}

/// Appends the encoding of `header` to `out`.
pub fn encode_header(out: &mut Vec<u8>, header: &BlockHeader)
    ensures
        final(out)@ == old(out)@ + spec_encode_header(header@),
{
    append_u64(out, header.height);
    append_u64(out, header.timestamp);
    append_encoded_bytes(out, &header.previous_hash);
    append_encoded_bytes(out, &header.validator_public_key);
    append_encoded_bytes(out, &header.state_root);
    append_encoded_bytes(out, &header.hash);
    append_u64(out, header.validator_reward);
    assert(out@ =~= old(out)@ + spec_encode_header(header@));
}

/// The encoding of `header` followed by the length-prefixed encoding of
/// `transactions`.
pub fn encode_parts(header: &BlockHeader, transactions: &Vec<Transaction>) -> (out: Vec<u8>)
    ensures
        out@ == spec_encode_block(
            BlockView { header: header@, transactions: transactions_view(transactions@) },
        ),
{
    let ghost txs = transactions_view(transactions@);
    let mut out: Vec<u8> = Vec::new();
    encode_header(&mut out, header);
    append_u64(&mut out, transactions.len() as u64);
    let ghost prefix = out@;
    let mut i: usize = 0;
    assert(txs.take(0) =~= Seq::<TransactionView>::empty());
    while i < transactions.len()
        invariant
            i <= transactions.len(),
            txs == transactions_view(transactions@),
            out@ == prefix + spec_encode_transactions(txs.take(i as int)),
        decreases transactions.len() - i,
    {
        encode_transaction(&mut out, &transactions[i]);
        proof {
            lemma_encode_transactions_push(txs.take(i as int), txs[i as int]);
            assert(txs.take(i as int).push(txs[i as int]) =~= txs.take(i + 1));
            lemma_concat_assoc(
                prefix,
                spec_encode_transactions(txs.take(i as int)),
                spec_encode_transaction(txs[i as int]),
            );
        }
        i += 1;
    }
    assert(txs.take(i as int) =~= txs);
    assert(prefix =~= spec_encode_header(header@) + spec_encode_u64(txs.len() as u64));
    out
}

/// The encoding of `block`.
pub fn encode_block(block: &Block) -> (out: Vec<u8>)
    ensures
        out@ == spec_encode_block(block@),
{
    encode_parts(&block.header, &block.transactions)
}

/// Reads a transaction at offset `pos` of `data`; yields it and the offset
/// that follows it.
pub fn decode_transaction(data: &Vec<u8>, pos: usize) -> (out: Option<(Transaction, usize)>)
    requires
        pos <= data.len(),
    ensures
        match spec_parse_transaction(data@.skip(pos as int)) {
            None => out is None,
            Some((tx, rest)) => {
                &&& out matches Some((value, next))
                &&& value@ == tx
                &&& pos < next <= data.len()
                &&& rest == data@.skip(next as int)
            },
        },
{
    let (sender, sender_end) = match read_bytes(data, pos) {
        Some(r) => r,
        None => { return None; },
    };
    let (nonce, nonce_end) = match read_u64(data, sender_end) {
        Some(r) => r,
        None => { return None; },
    };
    let (value, value_end) = match read_u64(data, nonce_end) {
        Some(r) => r,
        None => { return None; },
    };
    let (payload, payload_end) = match read_bytes(data, value_end) {
        Some(r) => r,
        None => { return None; },
    };
    let (signature, end) = match read_bytes(data, payload_end) {
        Some(r) => r,
        None => { return None; },
    };
    Some((Transaction { sender, nonce, value, payload, signature }, end))
}

/// Reads a header at offset `pos` of `data`; yields it and the offset that
/// follows it.
pub fn decode_header(data: &Vec<u8>, pos: usize) -> (out: Option<(BlockHeader, usize)>)
    requires
        pos <= data.len(),
    ensures
        match spec_parse_header(data@.skip(pos as int)) {
            None => out is None,
            Some((header, rest)) => {
                &&& out matches Some((value, next))
                &&& value@ == header
                &&& pos < next <= data.len()
                &&& rest == data@.skip(next as int)
            },
        },
{
    let (height, height_end) = match read_u64(data, pos) {
        Some(r) => r,
        None => { return None; },
    };
    let (timestamp, timestamp_end) = match read_u64(data, height_end) {
        Some(r) => r,
        None => { return None; },
    };
    let (previous_hash, previous_end) = match read_bytes(data, timestamp_end) {
        Some(r) => r,
        None => { return None; },
    };
    let (validator_public_key, key_end) = match read_bytes(data, previous_end) {
        Some(r) => r,
        None => { return None; },
    };
    let (state_root, root_end) = match read_bytes(data, key_end) {
        Some(r) => r,
        None => { return None; },
    };
    let (hash, hash_end) = match read_bytes(data, root_end) {
        Some(r) => r,
        None => { return None; },
    };
    let (validator_reward, end) = match read_u64(data, hash_end) {
        Some(r) => r,
        None => { return None; },
    };
    Some(
        (
            BlockHeader {
                height,
                timestamp,
                previous_hash,
                validator_public_key,
                state_root,
                hash,
                validator_reward,
            },
            end,
        ),
    )
}

/// What remains to be read when `done` transactions have been read and
/// `left` more are expected at the front of `s`, put together with `done`.
pub open spec fn spec_resume_transactions(
    done: Seq<TransactionView>,
    s: Seq<u8>,
    left: nat,
) -> Option<(Seq<TransactionView>, Seq<u8>)> {
    match spec_parse_transactions(s, left) {
        None => None,
        Some((txs, end)) => Some((done + txs, end)),
    }
}

/// Decodes a block; `None` where `data` is not the encoding of a block.
pub fn decode_block(data: &Vec<u8>) -> (out: Option<Block>)
    ensures
        match spec_decode_block(data@) {
            None => out is None,
            Some(b) => out matches Some(block) && block@ == b,
        },
{
    assert(data@.skip(0) =~= data@);
    let (header, header_end) = match decode_header(data, 0) {
        Some(r) => r,
        None => { return None; },
    };
    let (count, count_end) = match read_u64(data, header_end) {
        Some(r) => r,
        None => { return None; },
    };
    let ghost whole = spec_parse_transactions(data@.skip(count_end as int), count as nat);
    let mut transactions: Vec<Transaction> = Vec::new();
    let mut pos: usize = count_end;
    let mut i: u64 = 0;
    assert(transactions_view(transactions@) =~= Seq::<TransactionView>::empty());
    assert(
        whole == spec_resume_transactions(Seq::empty(), data@.skip(count_end as int), count as nat)
    ) by {
        if whole is Some {
            assert(Seq::<TransactionView>::empty() + whole.unwrap().0 =~= whole.unwrap().0);
        }
    }
    while i < count
        invariant
            i <= count,
            pos <= data.len(),
            spec_parse_header(data@) == Some((header@, data@.skip(header_end as int))),
            spec_parse_u64(data@.skip(header_end as int)) == Some(
                (count, data@.skip(count_end as int)),
            ),
            whole == spec_parse_transactions(data@.skip(count_end as int), count as nat),
            whole == spec_resume_transactions(
                transactions_view(transactions@),
                data@.skip(pos as int),
                (count - i) as nat,
            ),
        decreases count - i,
    {
        let ghost done = transactions_view(transactions@);
        match decode_transaction(data, pos) {
            None => {
                assert(spec_parse_transactions(data@.skip(pos as int), (count - i) as nat) is None);
                return None;
            },
            Some((tx, next)) => {
                proof {
                    let rest = data@.skip(next as int);
                    let tail = spec_parse_transactions(rest, (count - i - 1) as nat);
                    if tail is Some {
                        assert(done + (seq![tx@] + tail.unwrap().0) =~= done.push(tx@)
                            + tail.unwrap().0);
                    }
                }
                transactions.push(tx);
                assert(transactions_view(transactions@) =~= done.push(tx@));
                pos = next;
                i += 1;
            },
        }
    }
    if pos != data.len() {
        assert(data@.skip(pos as int).len() != 0);
        return None;
    }
    assert(transactions_view(transactions@) + Seq::<TransactionView>::empty() =~= transactions_view(
        transactions@,
    ));
    Some(Block { header, transactions })
}

} // verus!
