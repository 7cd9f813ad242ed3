use vstd::prelude::*;
use crate::hashing::{double_hash, has_leading_zeroes, has_zero_prefix};
use crate::header::{be32_bytes, header_bytes, lemma_header_length, init_header, HASH_LEN, HEADER_LEN};
use crate::shape::vec_to_array;

verus! {

/// Leading zero bytes that a block's digest must have.
pub const DIFFICULTY: usize = 2;

/// Time units between the timestamps of two consecutive blocks.
pub const TIME_STEP: u32 = 600;

/// Timestamp of the first block of a chain that starts from genesis.
pub const GENESIS_TIMESTAMP: u32 = 1634700000;

/// The previous hash of the first block of a chain: 32 zero bytes.
pub open spec fn genesis_hash() -> Seq<u8> {
    Seq::new(HASH_LEN as nat, |i: int| 0u8)
}

/// The header built from `nonce` has a digest that meets the difficulty.
pub open spec fn meets_target(previous_hash: Seq<u8>, timestamp: u32, nonce: u64) -> bool {
    has_zero_prefix(double_hash(header_bytes(previous_hash, timestamp, nonce)), DIFFICULTY as nat)
}

/// Some 64-bit nonce meets the difficulty.
pub open spec fn minable(previous_hash: Seq<u8>, timestamp: u32) -> bool {
    exists|n: u64| #[trigger] meets_target(previous_hash, timestamp, n)
}

/// `(nonce, hash, header)` is what mining `(previous_hash, timestamp)` yields:
/// `nonce` is the smallest one that meets the difficulty, `header` its header
/// and `hash` that header's digest.
pub open spec fn is_mined(
    previous_hash: Seq<u8>,
    timestamp: u32,
    nonce: u64,
    hash: Seq<u8>,
    header: Seq<u8>,
) -> bool {
    &&& header == header_bytes(previous_hash, timestamp, nonce)
    &&& hash == double_hash(header)
    &&& hash.len() == HASH_LEN
    &&& meets_target(previous_hash, timestamp, nonce)
    &&& forall|m: u64| m < nonce ==> !#[trigger] meets_target(previous_hash, timestamp, m)
}

/// Searches the nonces upward from zero for the first whose header's digest
/// meets the difficulty, and returns it with that digest and header; `None`
/// when no 64-bit nonce does.
pub fn run_proof_of_work(previous_hash: &[u8], timestamp: u32) -> (r: Option<(u64, Vec<u8>, Vec<u8>)>)
    requires
        previous_hash@.len() == HASH_LEN,
    ensures
        match r {
            Some((nonce, hash, header)) => is_mined(
                previous_hash@,
                timestamp,
                nonce,
                hash@,
                header@,
            ),
            None => !minable(previous_hash@, timestamp),
        },
        r matches Some((_, hash, header)) ==> hash@.len() == HASH_LEN && header@.len() == HEADER_LEN,
{
    let mut nonce: u64 = 0;
    loop
        invariant
            previous_hash@.len() == HASH_LEN,
            forall|m: u64| m < nonce ==> !#[trigger] meets_target(previous_hash@, timestamp, m),
        decreases u64::MAX - nonce,
    {
        let header = init_header(previous_hash, timestamp, nonce);
        let (found, hash) = has_leading_zeroes(&header, DIFFICULTY);
        if found {
            return Some((nonce, hash, header));
        }
        if nonce == u64::MAX {
            assert forall|m: u64| !meets_target(previous_hash@, timestamp, m) by {
                if m == nonce {
                } else {
                    assert(m < nonce);
                }
            }
            return None;
        }
        nonce = nonce + 1;
    }
}

/// A mined block as the chain driver records it: nonce, digest and header.
pub type MinedBlock = (u64, Vec<u8>, Vec<u8>);

/// The previous hash of block `i`: the starting hash for the first block,
/// else the digest of block `i - 1`.
pub open spec fn chain_prev(start_hash: Seq<u8>, blocks: Seq<MinedBlock>, i: int) -> Seq<u8> {
    if i == 0 {
        start_hash
    } else {
        blocks[i - 1].1@
    }
}

/// The timestamp of block `i`.
pub open spec fn chain_time(start_time: u32, i: int) -> int {
    start_time + TIME_STEP * i
}

/// Every block of `blocks` is what mining its predecessor's digest, at its
/// own timestamp, yields.
pub open spec fn is_chain(start_hash: Seq<u8>, start_time: u32, blocks: Seq<MinedBlock>) -> bool {
    forall|i: int|
        0 <= i < blocks.len() ==> is_mined(
            chain_prev(start_hash, blocks, i),
            chain_time(start_time, i) as u32,
            #[trigger] blocks[i].0,
            blocks[i].1@,
            blocks[i].2@,
        )
}

/// Mines up to `count` linked blocks from `(previous_hash, timestamp)`: each
/// block's previous hash is the digest of the block before it, and each
/// timestamp is `TIME_STEP` after the one before. Stops early only at a block
/// for which no 64-bit nonce meets the difficulty.
pub fn mine_chain(previous_hash: [u8; HASH_LEN], timestamp: u32, count: usize) -> (r: Vec<MinedBlock>)
    requires
        count == 0 || chain_time(timestamp, count - 1) <= u32::MAX,
    ensures
        r@.len() <= count,
        is_chain(previous_hash@, timestamp, r@),
        r@.len() < count ==> !minable(
            chain_prev(previous_hash@, r@, r@.len() as int),
            chain_time(timestamp, r@.len() as int) as u32,
        ),
{
    let mut prev: [u8; HASH_LEN] = previous_hash;
    let mut ts: u32 = timestamp;
    let mut blocks: Vec<MinedBlock> = Vec::new();
    while blocks.len() < count
        invariant
            count == 0 || chain_time(timestamp, count - 1) <= u32::MAX,
            blocks@.len() <= count,
            prev@ == chain_prev(previous_hash@, blocks@, blocks@.len() as int),
            blocks@.len() < count ==> ts == chain_time(timestamp, blocks@.len() as int),
            is_chain(previous_hash@, timestamp, blocks@),
        decreases count - blocks@.len(),
    {
        let ghost before = blocks@;
        match run_proof_of_work(prev.as_slice(), ts) {
            None => {
                return blocks;
            },
            Some((nonce, hash, header)) => {
                let link = hash.clone();
                assert(link@ =~= hash@);
                if let Ok(next) = vec_to_array::<u8, HASH_LEN>(link) {
                    prev = next;
                }
                blocks.push((nonce, hash, header));
                assert forall|i: int| 0 <= i < blocks@.len() implies chain_prev(
                    previous_hash@,
                    blocks@,
                    i,
                ) == chain_prev(previous_hash@, before, i) by {}
                if blocks.len() < count {
                    ts = ts + TIME_STEP;
                }
            },
        }
    }
    blocks
}

/// Mines the chain of `x + 1` blocks that starts from genesis (32 zero bytes
/// at `GENESIS_TIMESTAMP`) and returns the nonce of its last block, cut to
/// 32 bits; `None` when some block of it has no nonce that meets the difficulty.
pub fn block_number_to_nonce(x: i32) -> (r: Option<i32>)
    requires
        0 <= x,
        chain_time(GENESIS_TIMESTAMP, x as int) <= u32::MAX,
    ensures
        exists|blocks: Seq<MinedBlock>|
            {
                &&& #[trigger] is_chain(genesis_hash(), GENESIS_TIMESTAMP, blocks)
                &&& blocks.len() <= x + 1
                &&& blocks.len() == x + 1 ==> r == Some(blocks.last().0 as i32)
                &&& blocks.len() < x + 1 ==> r is None && !minable(
                    chain_prev(genesis_hash(), blocks, blocks.len() as int),
                    chain_time(GENESIS_TIMESTAMP, blocks.len() as int) as u32,
                )
            },
{
    let genesis: [u8; HASH_LEN] = [0u8; HASH_LEN];
    assert(genesis@ =~= genesis_hash());
    let count: usize = x as usize + 1;
    let blocks = mine_chain(genesis, GENESIS_TIMESTAMP, count);
    let r = if blocks.len() == count {
        Some(blocks[count - 1].0 as i32)
    } else {
        None
    };
    assert(is_chain(genesis_hash(), GENESIS_TIMESTAMP, blocks@));
    r
}

/// Mining is deterministic: the inputs `(previous_hash, timestamp)` fix the
/// nonce, the digest and the header that mining yields.
pub proof fn lemma_mining_deterministic(
    previous_hash: Seq<u8>,
    timestamp: u32,
    nonce1: u64,
    hash1: Seq<u8>,
    header1: Seq<u8>,
    nonce2: u64,
    hash2: Seq<u8>,
    header2: Seq<u8>,
)
    requires
        is_mined(previous_hash, timestamp, nonce1, hash1, header1),
        is_mined(previous_hash, timestamp, nonce2, hash2, header2),
    ensures
        nonce1 == nonce2,
        hash1 == hash2,
        header1 == header2,
{
    if nonce1 < nonce2 {
        assert(!meets_target(previous_hash, timestamp, nonce1));
    } else if nonce2 < nonce1 {
        assert(!meets_target(previous_hash, timestamp, nonce2));
    }
}

/// Two chains mined from the same start hash and start time agree block by
/// block on their common length.
pub proof fn lemma_chain_deterministic(
    start_hash: Seq<u8>,
    start_time: u32,
    a: Seq<MinedBlock>,
    b: Seq<MinedBlock>,
)
    requires
        is_chain(start_hash, start_time, a),
        is_chain(start_hash, start_time, b),
    ensures
        forall|i: int|
            0 <= i < a.len() && i < b.len() ==> #[trigger] a[i].0 == b[i].0 && a[i].1@ == b[i].1@
                && a[i].2@ == b[i].2@,
    decreases a.len(),
{
    if a.len() > 0 && b.len() > 0 {
        let n = if a.len() < b.len() {
            a.len() - 1
        } else {
            b.len() - 1
        };
        let a0 = a.subrange(0, n as int);
        let b0 = b.subrange(0, n as int);
        assert forall|i: int| 0 <= i < a0.len() implies is_mined(
            chain_prev(start_hash, a0, i),
            chain_time(start_time, i) as u32,
            #[trigger] a0[i].0,
            a0[i].1@,
            a0[i].2@,
        ) by {
            assert(a0[i] == a[i]);
            assert(i > 0 ==> a0[i - 1] == a[i - 1]);
            assert(is_mined(
                chain_prev(start_hash, a, i),
                chain_time(start_time, i) as u32,
                a[i].0,
                a[i].1@,
                a[i].2@,
            ));
        }
        assert forall|i: int| 0 <= i < b0.len() implies is_mined(
            chain_prev(start_hash, b0, i),
            chain_time(start_time, i) as u32,
            #[trigger] b0[i].0,
            b0[i].1@,
            b0[i].2@,
        ) by {
            assert(b0[i] == b[i]);
            assert(i > 0 ==> b0[i - 1] == b[i - 1]);
            assert(is_mined(
                chain_prev(start_hash, b, i),
                chain_time(start_time, i) as u32,
                b[i].0,
                b[i].1@,
                b[i].2@,
            ));
        }
        lemma_chain_deterministic(start_hash, start_time, a0, b0);
        assert forall|i: int| 0 <= i < a.len() && i < b.len() implies #[trigger] a[i].0 == b[i].0
            && a[i].1@ == b[i].1@ && a[i].2@ == b[i].2@ by {
            if i < n {
                assert(a0[i] == a[i] && b0[i] == b[i]);
            } else {
                assert(i == n);
                if i > 0 {
                    assert(a0[i - 1] == a[i - 1] && b0[i - 1] == b[i - 1]);
                    assert(a0[i - 1].0 == b0[i - 1].0);
                }
                assert(is_mined(
                    chain_prev(start_hash, a, i),
                    chain_time(start_time, i) as u32,
                    a[i].0,
                    a[i].1@,
                    a[i].2@,
                ));
                assert(is_mined(
                    chain_prev(start_hash, b, i),
                    chain_time(start_time, i) as u32,
                    b[i].0,
                    b[i].1@,
                    b[i].2@,
                ));
                lemma_mining_deterministic(
                    chain_prev(start_hash, a, i),
                    chain_time(start_time, i) as u32,
                    a[i].0,
                    a[i].1@,
                    a[i].2@,
                    b[i].0,
                    b[i].1@,
                    b[i].2@,
                );
            }
        }
    }
}

/// In a mined chain whose timestamps fit in 32 bits, every block's header
/// holds the previous block's digest at offset 1 (the start hash for the
/// first block), the timestamp `start_time + TIME_STEP * i` at offset 33, and
/// every digest opens with two zero bytes.
pub proof fn lemma_chain_links(start_hash: Seq<u8>, start_time: u32, blocks: Seq<MinedBlock>)
    requires
        start_hash.len() == HASH_LEN,
        is_chain(start_hash, start_time, blocks),
        blocks.len() == 0 || chain_time(start_time, blocks.len() - 1) <= u32::MAX,
    ensures
        forall|i: int|
            #![trigger blocks[i]]
            0 <= i < blocks.len() ==> blocks[i].2@.subrange(1, 33) == chain_prev(
                start_hash,
                blocks,
                i,
            ),
        forall|i: int|
            #![trigger blocks[i]]
            1 <= i < blocks.len() ==> blocks[i].2@.subrange(1, 33) == blocks[i
                - 1].1@,
        forall|i: int|
            #![trigger blocks[i]]
            0 <= i < blocks.len() ==> blocks[i].2@.subrange(33, 37) == be32_bytes(
                (start_time + TIME_STEP * i) as u32,
            ) && start_time + TIME_STEP * i <= u32::MAX,
        forall|i: int|
            #![trigger blocks[i]]
            0 <= i < blocks.len() ==> blocks[i].1@[0] == 0 && blocks[i].1@[1] == 0,
{
    assert forall|i: int|
        #![trigger blocks[i]]
        0 <= i < blocks.len() implies blocks[i].2@.subrange(1, 33)
        == chain_prev(start_hash, blocks, i) && blocks[i].2@.subrange(33, 37) == be32_bytes(
        (start_time + TIME_STEP * i) as u32,
    ) && start_time + TIME_STEP * i <= u32::MAX && blocks[i].1@[0] == 0 && blocks[i].1@[1] == 0 by {
        let prev = chain_prev(start_hash, blocks, i);
        let t = chain_time(start_time, i) as u32;
        assert(is_mined(prev, t, blocks[i].0, blocks[i].1@, blocks[i].2@));
        if i > 0 {
            assert(is_mined(
                chain_prev(start_hash, blocks, i - 1),
                chain_time(start_time, i - 1) as u32,
                blocks[i - 1].0,
                blocks[i - 1].1@,
                blocks[i - 1].2@,
            ));
        }
        assert(chain_time(start_time, i) <= chain_time(start_time, blocks.len() - 1));
        lemma_header_length(prev, t, blocks[i].0);
    }
}

} // verus!
