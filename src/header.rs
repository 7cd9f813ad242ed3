use vstd::prelude::*;

verus! {

/// Version byte that opens every header.
pub const VERSION: u8 = 0;

/// Width of a digest, and so of the previous-hash field.
pub const HASH_LEN: usize = 32;

/// Zero bytes reserved between the timestamp and the nonce.
pub const PADDING_LEN: usize = 24;

/// Length of a serialized header.
pub const HEADER_LEN: usize = 69;

/// The four bytes of `t`, most significant first.
pub open spec fn be32_bytes(t: u32) -> Seq<u8> {
    seq![(t >> 24u32) as u8, (t >> 16u32) as u8, (t >> 8u32) as u8, t as u8]
}

/// The eight bytes of `n`, most significant first.
pub open spec fn be64_bytes(n: u64) -> Seq<u8> {
    seq![
        (n >> 56u64) as u8,
        (n >> 48u64) as u8,
        (n >> 40u64) as u8,
        (n >> 32u64) as u8,
        (n >> 24u64) as u8,
        (n >> 16u64) as u8,
        (n >> 8u64) as u8,
        n as u8,
    ]
}

/// The serialized header: version, previous hash, timestamp, zero padding, nonce.
pub open spec fn header_bytes(previous_hash: Seq<u8>, timestamp: u32, nonce: u64) -> Seq<u8> {
    seq![VERSION] + previous_hash + be32_bytes(timestamp) + Seq::new(
        PADDING_LEN as nat,
        |i: int| 0u8,
    ) + be64_bytes(nonce)
}

/// A header built over a 32-byte previous hash is 69 bytes long, and holds
/// that hash at offset 1, the timestamp at offset 33 and the nonce at offset 61.
pub proof fn lemma_header_length(previous_hash: Seq<u8>, timestamp: u32, nonce: u64)
    requires
        previous_hash.len() == HASH_LEN,
    ensures
        header_bytes(previous_hash, timestamp, nonce).len() == HEADER_LEN,
        header_bytes(previous_hash, timestamp, nonce).subrange(1, 33) == previous_hash,
        header_bytes(previous_hash, timestamp, nonce).subrange(33, 37) == be32_bytes(timestamp),
        header_bytes(previous_hash, timestamp, nonce).subrange(37, 61) == Seq::new(
            PADDING_LEN as nat,
            |i: int| 0u8,
        ),
        header_bytes(previous_hash, timestamp, nonce).subrange(61, 69) == be64_bytes(nonce),
{
    let h = header_bytes(previous_hash, timestamp, nonce);
    assert(h.subrange(1, 33) =~= previous_hash);
    assert(h.subrange(33, 37) =~= be32_bytes(timestamp));
    assert(h.subrange(37, 61) =~= Seq::new(PADDING_LEN as nat, |i: int| 0u8));
    assert(h.subrange(61, 69) =~= be64_bytes(nonce));
}

/// Serializes a header from the previous block's hash, a timestamp and a nonce.
pub fn init_header(previous_hash: &[u8], timestamp: u32, nonce: u64) -> (r: Vec<u8>)
    requires
        previous_hash@.len() == HASH_LEN,
    ensures
        r@ == header_bytes(previous_hash@, timestamp, nonce),
        r@.len() == HEADER_LEN,
{
    let mut r: Vec<u8> = Vec::with_capacity(HEADER_LEN);
    r.push(VERSION);
    let mut i: usize = 0;
    while i < previous_hash.len()
        invariant
            i <= previous_hash@.len(),
            r@ == seq![VERSION] + previous_hash@.subrange(0, i as int),
        decreases previous_hash@.len() - i,
    {
        r.push(previous_hash[i]);
        i = i + 1;
        assert(r@ =~= seq![VERSION] + previous_hash@.subrange(0, i as int));
    }
    assert(previous_hash@.subrange(0, i as int) =~= previous_hash@);
    r.push((timestamp >> 24u32) as u8);
    r.push((timestamp >> 16u32) as u8);
    r.push((timestamp >> 8u32) as u8);
    r.push(timestamp as u8);
    let ghost prefix = r@;
    let mut k: usize = 0;
    while k < PADDING_LEN
        invariant
            k <= PADDING_LEN,
            r@ == prefix + Seq::new(k as nat, |j: int| 0u8),
        decreases PADDING_LEN - k,
    {
        r.push(0u8);
        k = k + 1;
        assert(r@ =~= prefix + Seq::new(k as nat, |j: int| 0u8));
    }
    r.push((nonce >> 56u64) as u8);
    r.push((nonce >> 48u64) as u8);
    r.push((nonce >> 40u64) as u8);
    r.push((nonce >> 32u64) as u8);
    r.push((nonce >> 24u64) as u8);
    r.push((nonce >> 16u64) as u8);
    r.push((nonce >> 8u64) as u8);
    r.push(nonce as u8);
    assert(r@ =~= header_bytes(previous_hash@, timestamp, nonce));
    r
}

} // verus!
