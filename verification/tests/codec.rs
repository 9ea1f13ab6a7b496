use parity_scale_codec::Encode;
use statement_store::codec::{
    decode_expiry, decode_version, encode_expiry, encode_stored, encode_version, id_from_slice,
    id_to_vec, key_version, StatementMeta, StatementWithMeta, CURRENT_VERSION,
};
use statement_store::col;
use statement_store::statement::Statement;

fn sample() -> sp_statement_store::Statement {
    let mut s = sp_statement_store::Statement::new();
    s.set_plain_data(vec![1, 2, 3]);
    s.set_priority(7);
    s
}

#[test]
fn columns_are_numbered() {
    assert_eq!(col::META, 0);
    assert_eq!(col::STATEMENTS, 1);
    assert_eq!(col::EXPIRED, 2);
    assert_eq!(col::COUNT, 3);
}

#[test]
fn version_record_is_little_endian() {
    assert_eq!(CURRENT_VERSION, 1);
    assert_eq!(key_version(), b"version".to_vec());
    assert_eq!(encode_version(1), vec![1, 0, 0, 0]);
    assert_eq!(encode_version(0x0403_0201), vec![1, 2, 3, 4]);
    assert_eq!(decode_version(&[1, 2, 3, 4]), Some(0x0403_0201));
    assert_eq!(decode_version(&[1, 2, 3]), None);
    assert_eq!(decode_version(&[1, 2, 3, 4, 5]), None);
    assert_eq!(decode_version(&[]), None);
}

#[test]
fn expiry_marker_is_hash_and_time() {
    let mut hash = [0u8; 32];
    hash[0] = 9;
    hash[31] = 8;
    let marker = encode_expiry(&hash, 0x0807_0605_0403_0201);
    let mut expected = hash.to_vec();
    expected.extend_from_slice(&[1, 2, 3, 4, 5, 6, 7, 8]);
    assert_eq!(marker, expected);
    assert_eq!(marker, (hash, 0x0807_0605_0403_0201u64).encode());
    assert_eq!(decode_expiry(&marker), Some((hash, 0x0807_0605_0403_0201)));
    assert_eq!(decode_expiry(&marker[..39]), None);
    assert_eq!(decode_expiry(&[]), None);
    let mut longer = marker.clone();
    longer.push(0xff);
    assert_eq!(decode_expiry(&longer), Some((hash, 0x0807_0605_0403_0201)));
}

#[test]
fn stored_statement_is_priority_and_encoding() {
    let outside = sample();
    let statement = Statement::decode(&outside.encode()).unwrap();
    let stored = StatementWithMeta { meta: StatementMeta { global_priority: 258 }, statement };
    let bytes = stored.encode();
    let mut expected = vec![2, 1, 0, 0];
    expected.extend_from_slice(&outside.encode());
    assert_eq!(bytes, expected);
    assert_eq!(encode_stored(258, &outside.encode()), expected);
    assert_eq!(StatementWithMeta::decode(&bytes), Some(stored));
    assert_eq!(StatementWithMeta::decode(&bytes[..3]), None);
    assert_eq!(StatementWithMeta::decode(&[2, 1, 0, 0, 0xff, 0xff]), None);
    assert_eq!(StatementWithMeta::decode(&[]), None);
}

#[test]
fn identifiers_are_their_bytes() {
    let mut id = [0u8; 32];
    for i in 0..32 {
        id[i] = i as u8;
    }
    assert_eq!(id_to_vec(&id), id.to_vec());
    let mut longer = id.to_vec();
    longer.push(99);
    assert_eq!(id_from_slice(&longer), id);
}

#[test]
fn numbers_are_written_in_decimal() {
    for (n, text) in [(0u32, "0"), (7, "7"), (10, "10"), (109, "109"), (u32::MAX, "4294967295")] {
        let mut out = String::from("v");
        statement_store::decimal::push_decimal(&mut out, n);
        assert_eq!(out, format!("v{}", text));
    }
}
