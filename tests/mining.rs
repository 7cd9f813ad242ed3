use pow_chain::{
    block_number_to_nonce, has_leading_zeroes, init_header, mine_chain, run_proof_of_work,
    sha256_2x, vec_to_array, zero_prefix, ShapeMismatch, DIFFICULTY, GENESIS_TIMESTAMP,
    HASH_LEN, HEADER_LEN, TIME_STEP,
};

fn hex(bytes: &[u8]) -> String {
    bytes.iter().map(|b| format!("{:02x}", b)).collect()
}

const GENESIS_DIGEST: &str = "00001ff58495c3dc2a1aaa69ebca4e9b3e05e63e5a319fb73bcdccbcdbba1e72";
const SECOND_DIGEST: &str = "000071e6ff5b358e57339b42d45b20acc0f112c218fa435b3ffa8f239b777347";
const THIRD_DIGEST: &str = "0000e7d62e199111cc9da5227d7029c8e1224a40a2927e312596732835947e7d";

#[test]
fn header_layout() {
    let prev: Vec<u8> = (1..=32).collect();
    let h = init_header(&prev, 0x01020304, 0x0a0b0c0d0e0f1011);
    assert_eq!(h.len(), HEADER_LEN);
    assert_eq!(h[0], 0);
    assert_eq!(&h[1..33], &prev[..]);
    assert_eq!(&h[33..37], &[1, 2, 3, 4]);
    assert!(h[37..61].iter().all(|b| *b == 0));
    assert_eq!(&h[61..69], &[0x0a, 0x0b, 0x0c, 0x0d, 0x0e, 0x0f, 0x10, 0x11]);
}

#[test]
fn header_length_at_extremes() {
    let prev = vec![0xffu8; 32];
    let h = init_header(&prev, u32::MAX, u64::MAX);
    assert_eq!(h.len(), 69);
    assert!(h[61..69].iter().all(|b| *b == 0xff));
    let z = init_header(&[0u8; 32], 0, 0);
    assert_eq!(z, vec![0u8; 69]);
}

#[test]
fn double_hash_of_empty_input() {
    let d = sha256_2x(&Vec::new());
    assert_eq!(d.len(), HASH_LEN);
    assert_eq!(hex(&d), "5df6e0e2761359d30a8275058e299fcc0381534545f55cf43e41983f5d4c9456");
}

#[test]
fn zero_prefix_counts_bytes() {
    let d = vec![0u8, 0, 1, 0];
    assert!(zero_prefix(&d, 0));
    assert!(zero_prefix(&d, 2));
    assert!(!zero_prefix(&d, 3));
    assert!(!zero_prefix(&d, 5));
    assert!(!zero_prefix(&vec![0u8, 7], 2));
}

#[test]
fn leading_zeroes_of_genesis_header() {
    let good = init_header(&[0u8; 32], GENESIS_TIMESTAMP, 70822);
    let (ok, hash) = has_leading_zeroes(&good, DIFFICULTY);
    assert!(ok);
    assert_eq!(hex(&hash), GENESIS_DIGEST);
    let bad = init_header(&[0u8; 32], GENESIS_TIMESTAMP, 70821);
    let (ok, hash) = has_leading_zeroes(&bad, DIFFICULTY);
    assert!(!ok);
    assert_eq!(hash, sha256_2x(&bad));
}

#[test]
fn vec_to_array_exact_length() {
    let a: [u8; 4] = vec_to_array(vec![1u8, 2, 3, 4]).unwrap();
    assert_eq!(a, [1, 2, 3, 4]);
}

#[test]
fn vec_to_array_length_mismatch() {
    let r: Result<[u8; 32], ShapeMismatch> = vec_to_array(vec![0u8; 31]);
    assert_eq!(r, Err(ShapeMismatch { expected: 32, actual: 31 }));
}

#[test]
fn genesis_block_snapshot() {
    let (nonce, hash, header) = run_proof_of_work(&[0u8; 32], GENESIS_TIMESTAMP).unwrap();
    assert_eq!(nonce, 70822);
    assert_eq!(hex(&hash), GENESIS_DIGEST);
    assert_eq!(header, init_header(&[0u8; 32], GENESIS_TIMESTAMP, 70822));
}

#[test]
fn mining_is_deterministic() {
    let a = run_proof_of_work(&[0u8; 32], GENESIS_TIMESTAMP).unwrap();
    let b = run_proof_of_work(&[0u8; 32], GENESIS_TIMESTAMP).unwrap();
    assert_eq!(a, b);
}

#[test]
fn mined_nonce_is_the_smallest() {
    let (nonce, _, _) = run_proof_of_work(&[0u8; 32], GENESIS_TIMESTAMP).unwrap();
    for n in 0..nonce {
        let (ok, _) = has_leading_zeroes(&init_header(&[0u8; 32], GENESIS_TIMESTAMP, n), 2);
        assert!(!ok, "nonce {} already meets the difficulty", n);
    }
}

#[test]
fn chain_of_three_blocks() {
    let blocks = mine_chain([0u8; 32], GENESIS_TIMESTAMP, 3);
    assert_eq!(blocks.len(), 3);
    let nonces: Vec<u64> = blocks.iter().map(|b| b.0).collect();
    assert_eq!(nonces, vec![70822, 58768, 3863]);
    assert_eq!(hex(&blocks[0].1), GENESIS_DIGEST);
    assert_eq!(hex(&blocks[1].1), SECOND_DIGEST);
    assert_eq!(hex(&blocks[2].1), THIRD_DIGEST);
    assert_eq!(&blocks[0].2[1..33], &[0u8; 32]);
    for i in 0..3 {
        let (_, hash, header) = &blocks[i];
        assert_eq!(header.len(), 69);
        assert_eq!(hash.len(), 32);
        assert_eq!(&hash[0..2], &[0, 0]);
        if i > 0 {
            assert_eq!(&header[1..33], &blocks[i - 1].1[..]);
        }
        let ts = u32::from_be_bytes([header[33], header[34], header[35], header[36]]);
        assert_eq!(ts, GENESIS_TIMESTAMP + TIME_STEP * i as u32);
        assert_eq!(*hash, sha256_2x(header));
    }
}

#[test]
fn empty_chain() {
    assert!(mine_chain([0u8; 32], GENESIS_TIMESTAMP, 0).is_empty());
}

#[test]
fn entry_point_single_block() {
    let (nonce, _, _) = run_proof_of_work(&[0u8; 32], GENESIS_TIMESTAMP).unwrap();
    assert_eq!(block_number_to_nonce(0), Some(nonce as i32));
    assert_eq!(block_number_to_nonce(0), Some(70822));
}

#[test]
fn entry_point_third_block() {
    let blocks = mine_chain([0u8; 32], GENESIS_TIMESTAMP, 3);
    assert_eq!(block_number_to_nonce(2), Some(blocks[2].0 as i32));
    assert_eq!(block_number_to_nonce(2), Some(3863));
}
