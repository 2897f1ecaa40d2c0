use vstd::prelude::*;

verus! {

/// The `n` bytes of `x` in little-endian order, lowest byte first.
pub open spec fn le_bytes(x: nat, n: nat) -> Seq<u8>
    decreases n,
{
    if n == 0 {
        Seq::empty()
    } else {
        seq![(x % 256) as u8] + le_bytes(x / 256, (n - 1) as nat)
    }
}

/// The SCALE encoding of an optional `u32`: a zero byte for none, else a one
/// byte followed by the value in little-endian order.
pub open spec fn option_u32_bytes(o: Option<u32>) -> Seq<u8> {
    match o {
        None => seq![0u8],
        Some(v) => seq![1u8] + le_bytes(v as nat, 4),
    }
}

/// The bytes that a DNA is hashed from: the SCALE encoding of the tuple
/// (parent hash, block number, extrinsic index, kitty count).
pub open spec fn dna_payload(
    parent_hash: [u8; 32],
    block_number: u64,
    extrinsic_index: Option<u32>,
    count: u32,
) -> Seq<u8> {
    parent_hash@ + le_bytes(block_number as nat, 8) + option_u32_bytes(extrinsic_index) + le_bytes(
        count as nat,
        4,
    )
}

/// The 256-bit BLAKE2b digest of `data`.
pub uninterp spec fn blake2_256(data: Seq<u8>) -> Seq<u8>;

/// `parity_scale_codec::Encode::encode` on the tuple
/// `(parent_hash, block_number, extrinsic_index, count)`. Its source encodes a
/// tuple as the encodings of its fields one after the other, a byte array as
/// its bytes, an integer as its little-endian bytes and an `Option` as a tag
/// byte followed by the value; this contract states that layout.
#[verifier::external_body]
pub(crate) fn scale_encode_payload(
    parent_hash: [u8; 32],
    block_number: u64,
    extrinsic_index: Option<u32>,
    count: u32,
) -> (r: Vec<u8>)
    ensures
        r@ == dna_payload(parent_hash, block_number, extrinsic_index, count),
{
    parity_scale_codec::Encode::encode(&(parent_hash, block_number, extrinsic_index, count))
}

/// `sp_crypto_hashing::blake2_256`: the 32-byte BLAKE2b digest of `data`,
/// a function of `data` alone, named `blake2_256`.
#[verifier::external_body]
pub(crate) fn blake2_256_digest(data: &[u8]) -> (r: [u8; 32])
    ensures
        r@ == blake2_256(data@),
{
    sp_crypto_hashing::blake2_256(data)
}

} // verus!
