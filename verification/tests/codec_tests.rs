use blockchain::codec::{dec_bytes, encode_block};
use blockchain::model::{Block, Transaction};

#[test]
fn decimal_rendering_matches_display() {
    assert_eq!(dec_bytes(0), b"0".to_vec());
    assert_eq!(dec_bytes(7), b"7".to_vec());
    assert_eq!(dec_bytes(10), b"10".to_vec());
    assert_eq!(dec_bytes(90210), b"90210".to_vec());
    assert_eq!(dec_bytes(u64::MAX), u64::MAX.to_string().into_bytes());
}

#[test]
fn block_encoding_is_canonical() {
    let block = Block {
        index: 1,
        timestamp_secs: 5,
        timestamp_nanos: 6,
        transactions: vec![Transaction {
            sender: "ab".to_string(),
            recipient: "c".to_string(),
            amount_bits: 0x0102030405060708,
        }],
        proof: 7,
        previous_hash: "AB".to_string(),
    };
    let mut expected: Vec<u8> = Vec::new();
    expected.extend_from_slice(&1u32.to_le_bytes());
    expected.extend_from_slice(&5u64.to_le_bytes());
    expected.extend_from_slice(&6u32.to_le_bytes());
    expected.extend_from_slice(&1u64.to_le_bytes());
    expected.extend_from_slice(&2u64.to_le_bytes());
    expected.extend_from_slice(b"ab");
    expected.extend_from_slice(&1u64.to_le_bytes());
    expected.extend_from_slice(b"c");
    expected.extend_from_slice(&0x0102030405060708u64.to_le_bytes());
    expected.extend_from_slice(&7u64.to_le_bytes());
    expected.extend_from_slice(&2u64.to_le_bytes());
    expected.extend_from_slice(b"AB");
    assert_eq!(encode_block(&block), expected);
}

#[test]
fn block_encoding_handles_non_ascii_strings() {
    let block = Block {
        index: 2,
        timestamp_secs: 0,
        timestamp_nanos: 0,
        transactions: vec![],
        proof: 0,
        previous_hash: "é".to_string(),
    };
    let encoded = encode_block(&block);
    let tail = &encoded[encoded.len() - 10..];
    assert_eq!(&tail[..8], &2u64.to_le_bytes());
    assert_eq!(&tail[8..], "é".as_bytes());
}
