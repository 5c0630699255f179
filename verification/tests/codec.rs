use sha2::{Digest, Sha256};
use venia_consensus::block::{Block, BlockHeader, Transaction};
use venia_consensus::bytes::{
    append_bytes, append_encoded_bytes, append_u128, append_u64, bytes_equal, copy_bytes, leading_u128,
    read_bytes, read_u64,
};
use venia_consensus::codec::{
    decode_block, decode_header, decode_transaction, encode_block, encode_header, encode_transaction,
};
use venia_consensus::hashing::hash_block;

fn sample_block() -> Block {
    let mut header = BlockHeader::new(7, 1_700_000_000, vec![1; 32], b"validator-A".to_vec());
    header.state_root = vec![2; 32];
    header.hash = vec![3; 32];
    header.validator_reward = 266;
    Block::new(
        header,
        vec![
            Transaction::new(vec![9; 32], 0, 10, b"hello".to_vec(), vec![8; 64]),
            Transaction::new(Vec::new(), u64::MAX, u64::MAX, Vec::new(), Vec::new()),
            Transaction::new(vec![0], 1, 0, vec![0; 300], vec![255]),
        ],
    )
}

#[test]
fn integers_are_little_endian() {
    let mut out = vec![0xAA];
    append_u64(&mut out, 0x0102_0304_0506_0708);
    assert_eq!(out, vec![0xAA, 8, 7, 6, 5, 4, 3, 2, 1]);
    let mut wide = Vec::new();
    append_u128(&mut wide, 1);
    assert_eq!(wide, [vec![1u8], vec![0u8; 15]].concat());
    assert_eq!(read_u64(&out, 1), Some((0x0102_0304_0506_0708, 9)));
    assert_eq!(read_u64(&out, 2), None);
    assert_eq!(read_u64(&out, 9), None);
    assert_eq!(leading_u128(&[vec![2u8], vec![0u8; 15], vec![7u8; 16]].concat()), 2);
}

#[test]
fn byte_strings_carry_their_length() {
    let mut out = Vec::new();
    append_encoded_bytes(&mut out, &b"abc".to_vec());
    assert_eq!(out, vec![3, 0, 0, 0, 0, 0, 0, 0, b'a', b'b', b'c']);
    assert_eq!(read_bytes(&out, 0), Some((b"abc".to_vec(), 11)));
    out.pop();
    assert_eq!(read_bytes(&out, 0), None);
    assert_eq!(read_bytes(&vec![0; 8], 0), Some((Vec::new(), 8)));
    assert_eq!(read_bytes(&vec![255; 8], 0), None);
    let mut joined = b"ab".to_vec();
    append_bytes(&mut joined, &b"cd".to_vec());
    assert_eq!(joined, b"abcd".to_vec());
    assert_eq!(copy_bytes(&joined), joined);
    assert!(bytes_equal(&joined, &b"abcd".to_vec()));
    assert!(!bytes_equal(&joined, &b"abce".to_vec()));
    assert!(!bytes_equal(&joined, &b"abc".to_vec()));
}

#[test]
fn transaction_layout_is_fixed() {
    let tx = Transaction::new(vec![1, 2], 3, 4, vec![5], vec![6, 7, 8]);
    let mut out = Vec::new();
    encode_transaction(&mut out, &tx);
    let expected: Vec<u8> = [
        vec![2, 0, 0, 0, 0, 0, 0, 0, 1, 2],
        vec![3, 0, 0, 0, 0, 0, 0, 0],
        vec![4, 0, 0, 0, 0, 0, 0, 0],
        vec![1, 0, 0, 0, 0, 0, 0, 0, 5],
        vec![3, 0, 0, 0, 0, 0, 0, 0, 6, 7, 8],
    ]
    .concat();
    assert_eq!(out, expected);
    assert_eq!(decode_transaction(&out, 0), Some((tx, expected.len())));
}

#[test]
fn block_round_trip() {
    let block = sample_block();
    let bytes = encode_block(&block);
    let decoded = decode_block(&bytes).unwrap();
    assert_eq!(decoded, block);
    assert_eq!(encode_block(&decoded), bytes);
    assert_eq!(hash_block(&decoded), hash_block(&block));
}

#[test]
fn empty_block_round_trip() {
    let block = Block::new(BlockHeader::new(0, 0, Vec::new(), Vec::new()), Vec::new());
    let bytes = encode_block(&block);
    assert_eq!(bytes.len(), 8 + 8 + 8 + 8 + 8 + 8 + 8 + 8);
    assert_eq!(decode_block(&bytes), Some(block));
}

#[test]
fn header_round_trip() {
    let block = sample_block();
    let mut out = vec![0xEE];
    encode_header(&mut out, &block.header);
    assert_eq!(decode_header(&out, 1), Some((block.header, out.len())));
    assert_eq!(decode_header(&out, 0), None);
}

#[test]
fn malformed_bytes_do_not_decode() {
    let bytes = encode_block(&sample_block());
    assert_eq!(decode_block(&Vec::new()), None);
    for cut in [1, 8, 40, bytes.len() - 1] {
        assert_eq!(decode_block(&bytes[..cut].to_vec()), None);
    }
    let mut trailing = bytes.clone();
    trailing.push(0);
    assert_eq!(decode_block(&trailing), None);
    // a count that promises more transactions than follow
    let empty = Block::new(BlockHeader::new(0, 0, Vec::new(), Vec::new()), Vec::new());
    let mut counted = encode_block(&empty);
    let at = counted.len() - 8;
    counted[at] = 1;
    assert_eq!(decode_block(&counted), None);
    counted[at..].copy_from_slice(&[255; 8]);
    assert_eq!(decode_block(&counted), None);
}

#[test]
fn hash_covers_everything_but_itself() {
    let block = sample_block();
    let mut unsealed = block.clone();
    unsealed.header.hash = Vec::new();
    let expected = Sha256::digest(encode_block(&unsealed)).to_vec();
    assert_eq!(hash_block(&block), expected);
    assert_eq!(hash_block(&block).len(), 32);
    assert_eq!(hash_block(&unsealed), expected);

    let mut other = block.clone();
    other.header.validator_reward += 1;
    assert_ne!(hash_block(&other), expected);
    let mut other = block.clone();
    other.header.state_root[0] ^= 1;
    assert_ne!(hash_block(&other), expected);
    let mut other = block.clone();
    other.transactions[0].nonce = 1;
    assert_ne!(hash_block(&other), expected);
    let mut other = block.clone();
    other.transactions.pop();
    assert_ne!(hash_block(&other), expected);
}

#[test]
fn block_setters_fill_the_header() {
    let mut block = Block::new(BlockHeader::new(1, 2, vec![3], vec![4]), Vec::new());
    block.add_transaction(Transaction::new(vec![1], 0, 0, Vec::new(), Vec::new()));
    block.set_state_root(vec![5]);
    block.set_hash(vec![6]);
    block.set_validator_reward(7);
    assert_eq!(block.transactions.len(), 1);
    assert_eq!(block.header.state_root, vec![5]);
    assert_eq!(block.header.hash, vec![6]);
    assert_eq!(block.header.validator_reward, 7);
    assert_eq!(block.header.height, 1);
    assert_eq!(block.header.timestamp, 2);
    assert_eq!(block.duplicate(), block);
}
