use liquidity_pool::codec::{decode_metadata, encode_metadata, DebtMetadata};
use liquidity_pool::hashing::{position_id_for, repay_id_for};

fn sample() -> DebtMetadata {
    DebtMetadata {
        position_id: vec![0xab; 32],
        timestamp: 0x0102_0304_0506_0708,
        collateral_amount: 1_000_000_000_000_000_000_000,
        collateral_identifier: b"WEGLD-bd4d79".to_vec(),
        collateral_timestamp: 99,
    }
}

#[test]
fn metadata_round_trip() {
    let m = sample();
    let bytes = encode_metadata(&m);
    assert_eq!(bytes.len(), 1 + 4 + 32 + 8 + 16 + 4 + 12 + 8);
    assert_eq!(bytes[0], 1);
    assert_eq!(&bytes[1..5], &[0, 0, 0, 32]);
    assert_eq!(&bytes[37..45], &[1, 2, 3, 4, 5, 6, 7, 8]);
    let d = decode_metadata(&bytes).unwrap();
    assert_eq!(d.position_id, m.position_id);
    assert_eq!(d.timestamp, m.timestamp);
    assert_eq!(d.collateral_amount, m.collateral_amount);
    assert_eq!(d.collateral_identifier, m.collateral_identifier);
    assert_eq!(d.collateral_timestamp, m.collateral_timestamp);
}

#[test]
fn metadata_empty_fields_round_trip() {
    let m = DebtMetadata {
        position_id: vec![],
        timestamp: 0,
        collateral_amount: 0,
        collateral_identifier: vec![],
        collateral_timestamp: u64::MAX,
    };
    let bytes = encode_metadata(&m);
    assert_eq!(bytes.len(), 41);
    let d = decode_metadata(&bytes).unwrap();
    assert!(d.position_id.is_empty());
    assert_eq!(d.collateral_timestamp, u64::MAX);
}

#[test]
fn malformed_metadata_is_rejected() {
    let bytes = encode_metadata(&sample());
    assert!(decode_metadata(&[]).is_none());
    assert!(decode_metadata(&bytes[..bytes.len() - 1]).is_none());
    let mut longer = bytes.clone();
    longer.push(0);
    assert!(decode_metadata(&longer).is_none());
    let mut wrong_version = bytes.clone();
    wrong_version[0] = 2;
    assert!(decode_metadata(&wrong_version).is_none());
    let mut wrong_length = bytes;
    wrong_length[4] = 33;
    assert!(decode_metadata(&wrong_length).is_none());
}

#[test]
fn identifiers_are_digests() {
    let a = position_id_for(1);
    assert_eq!(a.len(), 32);
    assert_eq!(a, position_id_for(1));
    assert_ne!(a, position_id_for(2));
    assert_ne!(&a[..8], &[0, 0, 0, 0, 0, 0, 0, 1]);
    let r = repay_id_for(b"DEBT-abcdef", 100, 1);
    assert_eq!(r.len(), 32);
    assert_ne!(r, repay_id_for(b"DEBT-abcdef", 101, 1));
    assert_ne!(r, repay_id_for(b"DEBT-abcdef", 100, 2));
}
