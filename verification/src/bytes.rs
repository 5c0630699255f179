//! Byte strings and the fixed-width integer encoding used on the wire and in
//! every hash preimage.

use vstd::prelude::*;
use vstd::bytes::{lemma_auto_spec_u64_to_from_le_bytes, spec_u128_from_le_bytes,
    spec_u128_to_le_bytes, spec_u64_from_le_bytes, spec_u64_to_le_bytes, u128_from_le_bytes,
    u128_to_le_bytes, u64_from_le_bytes, u64_to_le_bytes};
use vstd::slice::{slice_subrange, slice_to_vec};

verus! {

/// Width in bytes of an encoded `u64`.
pub const U64_LEN: usize = 8;

/// Width in bytes of an encoded `u128`.
pub const U128_LEN: usize = 16;

/// A `u64` as eight little-endian bytes.
pub open spec fn spec_encode_u64(x: u64) -> Seq<u8> {
    spec_u64_to_le_bytes(x)
}

/// A `u128` as sixteen little-endian bytes.
pub open spec fn spec_encode_u128(x: u128) -> Seq<u8> {
    spec_u128_to_le_bytes(x)
}

/// A byte string as its length, encoded as a `u64`, followed by its content.
pub open spec fn spec_encode_bytes(b: Seq<u8>) -> Seq<u8> {
    spec_encode_u64(b.len() as u64) + b
}

/// Reads a `u64` from the front of `s`; yields the value and what follows it.
pub open spec fn spec_parse_u64(s: Seq<u8>) -> Option<(u64, Seq<u8>)> {
    if s.len() < 8 {
        None
    } else {
        Some((spec_u64_from_le_bytes(s.subrange(0, 8)), s.skip(8)))
    }
}

/// Reads a length-prefixed byte string from the front of `s`.
pub open spec fn spec_parse_bytes(s: Seq<u8>) -> Option<(Seq<u8>, Seq<u8>)> {
    match spec_parse_u64(s) {
        None => None,
        Some((len, rest)) => if rest.len() < len {
            None
        } else {
            Some((rest.subrange(0, len as int), rest.skip(len as int)))
        },
    }
}

/// The first sixteen bytes of `s` read as a little-endian `u128`.
pub open spec fn spec_leading_u128(s: Seq<u8>) -> u128
    recommends
        s.len() >= 16,
{
    spec_u128_from_le_bytes(s.subrange(0, 16))
}

/// An encoded `u64` is eight bytes long and parses back to its value.
pub proof fn lemma_parse_encode_u64(x: u64, rest: Seq<u8>)
    ensures
        spec_encode_u64(x).len() == 8,
        spec_parse_u64(spec_encode_u64(x) + rest) == Some((x, rest)),
{
    lemma_auto_spec_u64_to_from_le_bytes();
    let s = spec_encode_u64(x) + rest;
    assert(s.subrange(0, 8) =~= spec_encode_u64(x));
    assert(s.skip(8) =~= rest);
}

/// An encoded byte string parses back to its content.
pub proof fn lemma_parse_encode_bytes(b: Seq<u8>, rest: Seq<u8>)
    requires
        b.len() <= u64::MAX,
    ensures
        spec_parse_bytes(spec_encode_bytes(b) + rest) == Some((b, rest)),
{
    let len = b.len() as u64;
    lemma_parse_encode_u64(len, b + rest);
    assert(spec_encode_bytes(b) + rest =~= spec_encode_u64(len) + (b + rest));
    assert((b + rest).subrange(0, len as int) =~= b);
    assert((b + rest).skip(len as int) =~= rest);
}

/// Whatever parses as a `u64` is the encoding of the value read, followed by
/// the remainder.
pub proof fn lemma_encode_parse_u64(s: Seq<u8>)
    requires
        spec_parse_u64(s) is Some,
    ensures
        s == spec_encode_u64(spec_parse_u64(s).unwrap().0) + spec_parse_u64(s).unwrap().1,
{
    lemma_auto_spec_u64_to_from_le_bytes();
    let head = s.subrange(0, 8);
    assert(spec_u64_to_le_bytes(spec_u64_from_le_bytes(head)) == head);
    assert(s =~= head + s.skip(8));
}

/// Whatever parses as a byte string is the encoding of the string read,
/// followed by the remainder.
pub proof fn lemma_encode_parse_bytes(s: Seq<u8>)
    requires
        spec_parse_bytes(s) is Some,
    ensures
        s == spec_encode_bytes(spec_parse_bytes(s).unwrap().0) + spec_parse_bytes(s).unwrap().1,
{
    lemma_encode_parse_u64(s);
    let (len, rest) = spec_parse_u64(s).unwrap();
    let b = rest.subrange(0, len as int);
    assert(rest =~= b + rest.skip(len as int));
    assert(b.len() as u64 == len);
    assert(s =~= spec_encode_bytes(b) + rest.skip(len as int));
}

/// A fresh copy of `src`.
pub fn copy_bytes(src: &Vec<u8>) -> (out: Vec<u8>)
    ensures
        out@ == src@,
{
    slice_to_vec(src.as_slice())
}

/// Whether two byte strings hold the same bytes.
pub fn bytes_equal(a: &Vec<u8>, b: &Vec<u8>) -> (same: bool)
    ensures
        same == (a@ == b@),
{
    if a.len() != b.len() {
        return false;
    }
    let mut i: usize = 0;
    while i < a.len()
        invariant
            i <= a.len(),
            a.len() == b.len(),
            forall|k: int| 0 <= k < i ==> a@[k] == b@[k],
        decreases a.len() - i,
    {
        if a[i] != b[i] {
            return false;
        }
        i += 1;
    }
    assert(a@ =~= b@);
    true
}

/// Appends `src` to `out`.
pub fn append_bytes(out: &mut Vec<u8>, src: &Vec<u8>)
    ensures
        final(out)@ == old(out)@ + src@,
{
    let mut i: usize = 0;
    while i < src.len()
        invariant
            i <= src.len(),
            out@ == old(out)@ + src@.subrange(0, i as int),
        decreases src.len() - i,
    {
        out.push(src[i]);
        assert(out@ =~= old(out)@ + src@.subrange(0, i + 1));
        i += 1;
    }
    assert(src@.subrange(0, src.len() as int) =~= src@);
}

/// Appends the encoding of `x` to `out`.
pub fn append_u64(out: &mut Vec<u8>, x: u64)
    ensures
        final(out)@ == old(out)@ + spec_encode_u64(x),
{
    let encoded = u64_to_le_bytes(x);
    append_bytes(out, &encoded);
}

/// Appends the encoding of `x` to `out`.
pub fn append_u128(out: &mut Vec<u8>, x: u128)
    ensures
        final(out)@ == old(out)@ + spec_encode_u128(x),
{
    let encoded = u128_to_le_bytes(x);
    append_bytes(out, &encoded);
}

/// Appends the length-prefixed encoding of `b` to `out`.
pub fn append_encoded_bytes(out: &mut Vec<u8>, b: &Vec<u8>)
    ensures
        final(out)@ == old(out)@ + spec_encode_bytes(b@),
{
    append_u64(out, b.len() as u64);
    append_bytes(out, b);
    assert(out@ =~= old(out)@ + spec_encode_bytes(b@));
}

/// Reads a `u64` at offset `pos` of `data`; yields the value and the offset
/// that follows it, or `None` where fewer than eight bytes are left.
pub fn read_u64(data: &Vec<u8>, pos: usize) -> (out: Option<(u64, usize)>)
    requires
        pos <= data.len(),
    ensures
        match spec_parse_u64(data@.skip(pos as int)) {
            None => out is None,
            Some((x, rest)) => {
                &&& out matches Some((value, next))
                &&& value == x
                &&& pos < next <= data.len()
                &&& rest == data@.skip(next as int)
            },
        },
{
    if data.len() - pos < U64_LEN {
        return None;
    }
    let head = slice_subrange(data.as_slice(), pos, pos + U64_LEN);
    let x = u64_from_le_bytes(head);
    proof {
        let s = data@.skip(pos as int);
        assert(s.subrange(0, 8) =~= data@.subrange(pos as int, pos + 8));
        assert(s.skip(8) =~= data@.skip(pos + 8));
    }
    Some((x, pos + U64_LEN))
}

/// Reads a length-prefixed byte string at offset `pos` of `data`.
pub fn read_bytes(data: &Vec<u8>, pos: usize) -> (out: Option<(Vec<u8>, usize)>)
    requires
        pos <= data.len(),
    ensures
        match spec_parse_bytes(data@.skip(pos as int)) {
            None => out is None,
            Some((b, rest)) => {
                &&& out matches Some((value, next))
                &&& value@ == b
                &&& pos < next <= data.len()
                &&& rest == data@.skip(next as int)
            },
        },
{
    match read_u64(data, pos) {
        None => None,
        Some((len, start)) => {
            let available: u64 = (data.len() - start) as u64;
            if available < len {
                return None;
            }
            let end = start + len as usize;
            let content = slice_to_vec(slice_subrange(data.as_slice(), start, end));
            proof {
                let rest = data@.skip(start as int);
                assert(rest.subrange(0, len as int) =~= data@.subrange(start as int, end as int));
                assert(rest.skip(len as int) =~= data@.skip(end as int));
            }
            Some((content, end))
        },
    }
}

/// The first sixteen bytes of `digest` as a little-endian `u128`.
pub fn leading_u128(digest: &Vec<u8>) -> (x: u128)
    requires
        digest.len() >= 16,
    ensures
        x == spec_leading_u128(digest@),
{
    u128_from_le_bytes(slice_subrange(digest.as_slice(), 0, U128_LEN))
}

} // verus!
