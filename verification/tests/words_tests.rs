use plank_bytecode_tests::bytes::{bytes_eq, bytes_le, word_from_u64};
use plank_bytecode_tests::{calldata_words, word, Word256};
use revm::primitives::U256;

fn from_u256(value: U256) -> Word256 {
    Word256 { limbs: *value.as_limbs() }
}

#[test]
fn word_from_u64_is_big_endian_in_the_low_bytes() {
    let w = word_from_u64(0x0102_0304_0506_0708);
    let mut expected = [0u8; 32];
    expected[24..].copy_from_slice(&[1, 2, 3, 4, 5, 6, 7, 8]);
    assert_eq!(w, expected);
    assert_eq!(word_from_u64(0), [0u8; 32]);
}

#[test]
fn word_encodes_u256_big_endian() {
    let w = word(from_u256(U256::from(0x1234u64)));
    let mut expected = [0u8; 32];
    expected[30] = 0x12;
    expected[31] = 0x34;
    assert_eq!(w, expected);
    assert_eq!(word(from_u256(U256::MAX)), [0xffu8; 32]);
    assert_eq!(word(from_u256(U256::MAX)), U256::MAX.to_be_bytes::<32>());
    let big = U256::from(0x0102u64) << 192 | U256::from(0x0304u64) << 64 | U256::from(5u64);
    assert_eq!(word(from_u256(big)), big.to_be_bytes::<32>());
    let mut expected = [0u8; 32];
    expected[6] = 0x01;
    expected[7] = 0x02;
    expected[22] = 0x03;
    expected[23] = 0x04;
    expected[31] = 0x05;
    assert_eq!(word(Word256 { limbs: [5, 0x0304, 0, 0x0102] }), expected);
}

#[test]
fn calldata_words_concatenates_words_in_order() {
    let one = from_u256(U256::from(1u64));
    let two = from_u256(U256::from(2u64));
    let a = word(one);
    let b = word(two);
    let data = calldata_words(&[one, two]);
    assert_eq!(data.len(), 64);
    assert_eq!(&data[..32], &a);
    assert_eq!(&data[32..], &b);
    assert!(calldata_words(&[]).is_empty());
}

#[test]
fn byte_order_is_lexicographic() {
    assert!(bytes_le(&[1, 2], &[1, 3]));
    assert!(!bytes_le(&[1, 3], &[1, 2]));
    assert!(bytes_le(&[1], &[1, 0]));
    assert!(!bytes_le(&[1, 0], &[1]));
    assert!(bytes_le(&[], &[]));
    assert!(bytes_eq(&[4, 5], &[4, 5]));
    assert!(!bytes_eq(&[4, 5], &[4]));
    assert!(!bytes_eq(&[4, 5], &[4, 6]));
}
