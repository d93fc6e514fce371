use prism::crypto::hash::H256;
use prism::crypto::sign;
use prism::transaction::{CoinId, Input, Output, Signature, Transaction};

fn ascending_hash() -> H256 {
    let mut bytes = [0u8; 32];
    for i in 0..32 {
        bytes[i] = i as u8;
    }
    H256::from_bytes(&bytes)
}

fn filled_hash(byte: u8) -> H256 {
    H256::from_bytes(&[byte; 32])
}

fn sample() -> Transaction {
    Transaction {
        input: vec![Input {
            coin: CoinId { hash: ascending_hash(), index: 7 },
            value: 0x0102030405060708,
            owner: filled_hash(0xaa),
        }],
        output: vec![
            Output { value: 5, recipient: filled_hash(0x11) },
            Output { value: 300, recipient: ascending_hash() },
        ],
        signatures: vec![Signature {
            pubkey: sign::PubKey { octets: vec![9, 8, 7] },
            signature: sign::Signature { octets: vec![6, 5] },
        }],
    }
}

fn empty() -> Transaction {
    Transaction { input: vec![], output: vec![], signatures: vec![] }
}

fn hex(hash: &H256) -> String {
    hash.to_bytes().iter().map(|b| format!("{:02x}", b)).collect()
}

#[test]
fn hash_halves_are_big_endian() {
    let hash = ascending_hash();
    assert_eq!(hash.hi, 0x000102030405060708090a0b0c0d0e0f);
    assert_eq!(hash.lo, 0x101112131415161718191a1b1c1d1e1f);
}

#[test]
fn hash_bytes_round_trip() {
    for hash in [H256::zero(), ascending_hash(), filled_hash(0xff), filled_hash(0x80)] {
        let bytes = hash.to_bytes();
        assert_eq!(H256::from_bytes(&bytes), hash);
        assert_eq!(H256::from_slice(&bytes), hash);
    }
    assert_eq!(filled_hash(0xff).to_bytes(), [0xff; 32]);
    assert_eq!(H256::zero().to_bytes(), [0; 32]);
}

#[test]
fn hashes_compare_as_numbers() {
    let small = H256 { hi: 0, lo: u128::MAX };
    let large = H256 { hi: 1, lo: 0 };
    assert!(small.is_below(&large));
    assert!(!large.is_below(&small));
    assert!(!large.is_below(&large));
    assert!(H256 { hi: 1, lo: 4 }.is_below(&H256 { hi: 1, lo: 5 }));
    assert!(!H256 { hi: 1, lo: 5 }.is_below(&H256 { hi: 1, lo: 4 }));
}

#[test]
fn empty_transaction_is_three_zero_lengths() {
    assert_eq!(empty().encode(), vec![0u8; 24]);
}

#[test]
fn encoding_lists_the_fields_in_order() {
    let mut expected: Vec<u8> = Vec::new();
    expected.extend_from_slice(&1u64.to_le_bytes());
    expected.extend(0u8..32);
    expected.extend_from_slice(&7u32.to_le_bytes());
    expected.extend_from_slice(&[8, 7, 6, 5, 4, 3, 2, 1]);
    expected.extend_from_slice(&[0xaa; 32]);
    expected.extend_from_slice(&2u64.to_le_bytes());
    expected.extend_from_slice(&5u64.to_le_bytes());
    expected.extend_from_slice(&[0x11; 32]);
    expected.extend_from_slice(&300u64.to_le_bytes());
    expected.extend(0u8..32);
    expected.extend_from_slice(&1u64.to_le_bytes());
    expected.extend_from_slice(&3u64.to_le_bytes());
    expected.extend_from_slice(&[9, 8, 7]);
    expected.extend_from_slice(&2u64.to_le_bytes());
    expected.extend_from_slice(&[6, 5]);
    assert_eq!(sample().encode(), expected);
}

#[test]
fn encoding_has_the_stated_length() {
    let tx = sample();
    assert_eq!(tx.encode().len(), 24 + 76 + 2 * 40 + 16 + 3 + 2);
    assert!(tx.is_hashable());
    assert!(empty().is_hashable());
}

#[test]
fn hash_is_sha256_of_the_encoding() {
    assert_eq!(
        hex(&empty().hash()),
        "9d908ecfb6b256def8b49a7c504e6c889c4b0e41fe6ce3e01863dd7b61a20aa0"
    );
    assert_eq!(
        hex(&sample().hash()),
        "dacc6ddabfbb022d4d0928a849e702b3c167bda14a0790c5587b7ce80dc1429f"
    );
    let digest = ring::digest::digest(&ring::digest::SHA256, &sample().encode());
    assert_eq!(H256::from_slice(digest.as_ref()), sample().hash());
}

#[test]
fn different_transactions_are_encoded_differently() {
    let mut other = sample();
    other.output[1].value = 301;
    assert_ne!(other.encode(), sample().encode());
    assert_ne!(other.hash(), sample().hash());
    let mut moved = sample();
    moved.signatures[0].pubkey.octets = vec![9, 8];
    moved.signatures[0].signature.octets = vec![7, 6, 5];
    assert_ne!(moved.encode(), sample().encode());
    let mut swapped = sample();
    swapped.input[0].coin.index = 8;
    assert_ne!(swapped.hash(), sample().hash());
}

#[test]
fn a_clone_is_the_same_transaction() {
    let copy = sample().clone();
    assert_eq!(copy.encode(), sample().encode());
    assert_eq!(copy.input, sample().input);
    assert_eq!(copy.output, sample().output);
    assert_eq!(copy.signatures[0].pubkey.octets, vec![9, 8, 7]);
    assert_eq!(copy.signatures[0].signature.octets, vec![6, 5]);
}
