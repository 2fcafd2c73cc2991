use locutus_core::bundle::parse_bundle;
use locutus_core::payload::UpdateResult;
use locutus_core::payload::decode_update_result;
use locutus_core::store::Contract;
use locutus_core::store::ContractStore;

#[test]
fn keys_are_content_addressed() {
    // The key of empty bytecode is the BLAKE2s-256 digest of the empty string.
    let c = Contract::new(vec![]);
    let expected = [
        0x69, 0x21, 0x7a, 0x30, 0x79, 0x90, 0x80, 0x94, 0xe1, 0x11, 0x21, 0xd0, 0x42, 0x35,
        0x4a, 0x7c, 0x1f, 0x55, 0xb6, 0x48, 0x2c, 0xa1, 0xa5, 0x1e, 0x1b, 0x25, 0x0d, 0xfd,
        0x1e, 0xd0, 0xee, 0xf9,
    ];
    assert_eq!(c.key(), expected.to_vec());
    // Storing the same bytes yields the same key.
    let again = Contract::new(vec![]);
    assert_eq!(c.key(), again.key());
    // Different bytes yield a different key.
    let other = Contract::new(vec![1, 2, 3]);
    assert_ne!(c.key(), other.key());
}

#[test]
fn store_round_trip() {
    let mut store = ContractStore::new(10_000);
    let contract = Contract::new(vec![9, 8, 7]);
    let key = contract.key();
    store.store_contract(contract);
    assert_eq!(store.fetch_contract(&key), Some(vec![9, 8, 7]));
    assert_eq!(store.fetch_contract(&vec![0u8; 32]), None);
}

#[test]
fn update_result_decoding() {
    assert_eq!(decode_update_result(0), Some(UpdateResult::ValidNoChange));
    assert_eq!(decode_update_result(1), Some(UpdateResult::ValidUpdate));
    assert_eq!(decode_update_result(2), Some(UpdateResult::Invalid));
    assert_eq!(decode_update_result(3), None);
    assert_eq!(decode_update_result(-1), None);
}

#[test]
fn bundle_framing() {
    // [u64 BE metadata len][metadata][u64 BE web len][web bytes]
    let mut blob: Vec<u8> = vec![];
    blob.extend_from_slice(&3u64.to_be_bytes());
    blob.extend_from_slice(&[10, 11, 12]);
    blob.extend_from_slice(&2u64.to_be_bytes());
    blob.extend_from_slice(&[20, 21]);
    let bundle = parse_bundle(&blob).unwrap();
    assert_eq!(bundle.metadata, vec![10, 11, 12]);
    assert_eq!(bundle.web, vec![20, 21]);

    // A declared region that runs past the blob is rejected.
    let mut bad: Vec<u8> = vec![];
    bad.extend_from_slice(&100u64.to_be_bytes());
    bad.extend_from_slice(&[1, 2, 3]);
    assert!(parse_bundle(&bad).is_none());
    assert!(parse_bundle(&vec![1, 2, 3]).is_none());
}

#[test]
fn bundle_with_empty_parts() {
    let mut blob: Vec<u8> = vec![];
    blob.extend_from_slice(&0u64.to_be_bytes());
    blob.extend_from_slice(&0u64.to_be_bytes());
    blob.push(99);
    let bundle = parse_bundle(&blob).unwrap();
    assert!(bundle.metadata.is_empty());
    assert!(bundle.web.is_empty());
}

#[test]
fn builder_records_decode_exactly() {
    // {start, capacity, size, owner} as four little-endian 32-bit words.
    let mut raw: Vec<u8> = vec![];
    raw.extend_from_slice(&1024u32.to_le_bytes());
    raw.extend_from_slice(&64u32.to_le_bytes());
    raw.extend_from_slice(&4u32.to_le_bytes());
    raw.extend_from_slice(&1u32.to_le_bytes());
    let b = locutus_core::runtime::parse_builder(&raw).unwrap();
    assert_eq!(b.start, 1024);
    assert_eq!(b.capacity, 64);
    assert_eq!(b.size, 4);
    assert_eq!(b.owner, 1);
    assert!(locutus_core::runtime::parse_builder(&vec![0u8; 15]).is_none());
}

#[test]
fn page_arithmetic() {
    assert_eq!(locutus_core::runtime::pages_for(0), 0);
    assert_eq!(locutus_core::runtime::pages_for(1), 1);
    assert_eq!(locutus_core::runtime::pages_for(65536), 1);
    assert_eq!(locutus_core::runtime::pages_for(65537), 2);
}
