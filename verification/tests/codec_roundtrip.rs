use universal_nft::codec::{decode, encode, CrossChainAction, CrossChainMessage};
use universal_nft::error::ErrorCode;

fn sample_message() -> CrossChainMessage {
    CrossChainMessage {
        action: CrossChainAction::Transfer,
        token_id: 7,
        mint: vec![0xAB; 32],
        original_chain: 1,
        destination_chain: 2,
        recipient: vec![0xCD; 20],
        name: b"Alpha".to_vec(),
        description: b"first asset".to_vec(),
        image: b"ipfs://alpha".to_vec(),
    }
}

#[test]
fn round_trip_identity() {
    let m = sample_message();
    let bytes = encode(&m);
    let back = decode(&bytes).expect("encoding of a valid message must decode");
    assert_eq!(back, m);
}

#[test]
fn round_trip_empty_metadata() {
    let m = CrossChainMessage {
        action: CrossChainAction::Transfer,
        token_id: 0,
        mint: vec![0; 32],
        original_chain: 0,
        destination_chain: u64::MAX,
        recipient: vec![0xFF; 20],
        name: Vec::new(),
        description: Vec::new(),
        image: Vec::new(),
    };
    let bytes = encode(&m);
    assert_eq!(bytes.len(), 89);
    let back = decode(&bytes).expect("minimal message must decode");
    assert_eq!(back, m);
}

#[test]
fn encode_layout_exact() {
    let m = CrossChainMessage {
        action: CrossChainAction::Transfer,
        token_id: 0x0102030405060708,
        mint: (0..32).collect(),
        original_chain: 9,
        destination_chain: 10,
        recipient: (100..120).collect(),
        name: b"ab".to_vec(),
        description: b"c".to_vec(),
        image: Vec::new(),
    };
    let mut expected: Vec<u8> = Vec::new();
    expected.push(0); // Transfer tag
    expected.extend_from_slice(&[0x08, 0x07, 0x06, 0x05, 0x04, 0x03, 0x02, 0x01]);
    expected.extend((0..32u8).collect::<Vec<u8>>());
    expected.extend_from_slice(&[9, 0, 0, 0, 0, 0, 0, 0]);
    expected.extend_from_slice(&[10, 0, 0, 0, 0, 0, 0, 0]);
    expected.extend((100..120u8).collect::<Vec<u8>>());
    expected.extend_from_slice(&[2, 0, 0, 0]);
    expected.extend_from_slice(b"ab");
    expected.extend_from_slice(&[1, 0, 0, 0]);
    expected.extend_from_slice(b"c");
    expected.extend_from_slice(&[0, 0, 0, 0]);
    assert_eq!(encode(&m), expected);
}

#[test]
fn decode_rejects_truncated() {
    let bytes = encode(&sample_message());
    for cut in [0, 1, 50, 88, bytes.len() - 1] {
        assert_eq!(decode(&bytes[..cut]), Err(ErrorCode::InvalidMessage));
    }
}

#[test]
fn decode_rejects_bad_tag() {
    let mut bytes = encode(&sample_message());
    bytes[0] = 1;
    assert_eq!(decode(&bytes), Err(ErrorCode::InvalidMessage));
}

#[test]
fn decode_rejects_trailing_byte() {
    let mut bytes = encode(&sample_message());
    bytes.push(0);
    assert_eq!(decode(&bytes), Err(ErrorCode::InvalidMessage));
}

#[test]
fn decode_rejects_oversized_length_prefix() {
    let mut bytes = encode(&sample_message());
    // Claim a name far longer than the payload carries.
    bytes[77] = 0xFF;
    bytes[78] = 0xFF;
    bytes[79] = 0xFF;
    bytes[80] = 0xFF;
    assert_eq!(decode(&bytes), Err(ErrorCode::InvalidMessage));
}

#[test]
fn decode_rejects_garbage() {
    let garbage = vec![0u8; 10];
    assert_eq!(decode(&garbage), Err(ErrorCode::InvalidMessage));
    let empty: Vec<u8> = Vec::new();
    assert_eq!(decode(&empty), Err(ErrorCode::InvalidMessage));
}
