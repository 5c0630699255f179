//! The block hash: the SHA-256 digest of a block's encoding, taken with the
//! header's hash field left empty.

use vstd::prelude::*;
use crate::block::{Block, BlockHeaderView, BlockView};
use crate::codec::{encode_parts, lemma_block_in_memory_encodable,
    lemma_decode_encode_block, spec_decode_block, spec_encode_block};
use crate::crypto::{sha256, sha256_digest, DIGEST_LEN};

verus! {

/// The bytes that the block hash is taken of: the encoding of the block with
/// an empty hash field.  Every other field of the header and every
/// transaction is covered.
pub open spec fn spec_hash_preimage(b: BlockView) -> Seq<u8> {
    spec_encode_block(
        BlockView {
            header: BlockHeaderView { hash: Seq::empty(), ..b.header },
            transactions: b.transactions,
        },
    )
}

/// The hash of a block.
pub open spec fn spec_block_hash(b: BlockView) -> Seq<u8> {
    sha256(spec_hash_preimage(b))
}

/// Computes the hash of `block`.  The hash field of the header is not read.
pub fn hash_block(block: &Block) -> (hash: Vec<u8>)
    ensures
        hash@ == spec_block_hash(block@),
        hash@.len() == DIGEST_LEN,
{
    let mut header = block.header.duplicate();
    header.hash = Vec::new();
    let preimage = encode_parts(&header, &block.transactions);
    sha256_digest(&preimage)
}

/// Encoding a block and decoding the bytes yields the same block, and the
/// hash recomputed from the decoded block is the hash of the block encoded.
pub proof fn lemma_block_round_trip(block: Block)
    ensures
        spec_decode_block(spec_encode_block(block@)) == Some(block@),
        spec_block_hash(spec_decode_block(spec_encode_block(block@)).unwrap()) == spec_block_hash(
            block@,
        ),
{
    lemma_block_in_memory_encodable(block);
    lemma_decode_encode_block(block@);
}

} // verus!
