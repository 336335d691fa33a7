use dumpling::keys::{
    full_key, key_to_account, storage_prefix, string_to_key, twox128, StorageHasher,
};
use dumpling::DecodeError;

#[test]
fn twox128_known_module_hashes() {
    assert_eq!(hex::encode(twox128(&b"Staking".to_vec())), "5f3e4907f716ac89b6347d15ececedca");
    assert_eq!(hex::encode(twox128(&b"Balances".to_vec())), "c2261276cc9d1f8598ea4b6a74b15c2f");
}

#[test]
fn storage_prefix_concatenates_module_and_item() {
    let prefix = storage_prefix(&b"Balances".to_vec(), &b"Account".to_vec());
    assert_eq!(
        hex::encode(&prefix),
        "c2261276cc9d1f8598ea4b6a74b15c2fb99d880ec681799c0cf30e8886371da9"
    );
    let by_hand = [twox128(&b"Balances".to_vec()), twox128(&b"Account".to_vec())].concat();
    assert_eq!(prefix, by_hand);
}

#[test]
fn full_key_is_deterministic() {
    let module = b"Staking".to_vec();
    let item = b"Nominators".to_vec();
    let map_key = vec![0xabu8; 32];
    let a = full_key(&module, &item, &map_key, StorageHasher::Twox64Concat);
    let b = full_key(&module, &item, &map_key, StorageHasher::Twox64Concat);
    assert_eq!(a, b);
}

#[test]
fn full_key_preserves_identity_suffix() {
    let module = b"Staking".to_vec();
    let item = b"Validators".to_vec();
    let map_key: Vec<u8> = (0u8..32).collect();

    let twox = full_key(&module, &item, &map_key, StorageHasher::Twox64Concat);
    assert_eq!(twox.len(), 72);
    assert_eq!(&twox[40..], &map_key[..]);
    assert_eq!(&twox[0..32], &storage_prefix(&module, &item)[..]);

    let blake = full_key(&module, &item, &map_key, StorageHasher::Blake2_128Concat);
    assert_eq!(blake.len(), 32 + 16 + 32);
    assert_eq!(&blake[48..], &map_key[..]);
}

#[test]
fn hash_flavors_differ() {
    let module = b"Staking".to_vec();
    let item = b"Validators".to_vec();
    let map_key = vec![1u8; 32];
    let a = full_key(&module, &item, &map_key, StorageHasher::Twox64Concat);
    let b = full_key(&module, &item, &map_key, StorageHasher::Blake2_128Concat);
    assert_ne!(a, b);
}

#[test]
fn account_recovered_from_full_key() {
    let map_key = vec![0x42u8; 32];
    let key = full_key(
        &b"Staking".to_vec(),
        &b"Nominators".to_vec(),
        &map_key,
        StorageHasher::Twox64Concat,
    );
    let account = key_to_account(&key).expect("72-byte key");
    assert_eq!(account.bytes, map_key);
}

#[test]
fn short_key_rejected() {
    assert_eq!(key_to_account(&vec![0u8; 40]), Err(DecodeError::BadKeyLength));
    assert_eq!(key_to_account(&vec![0u8; 73]), Err(DecodeError::BadKeyLength));
}

#[test]
fn textual_key_parsing() {
    assert_eq!(string_to_key("0x1234ab"), Some(vec![0x12, 0x34, 0xab]));
    assert_eq!(string_to_key("0x"), Some(vec![]));
    assert_eq!(string_to_key("0X1234"), None);
    assert_eq!(string_to_key("1234"), None);
    assert_eq!(string_to_key("0x123"), None);
    assert_eq!(string_to_key("0x12g4"), None);
    assert_eq!(string_to_key(""), None);
}

#[test]
fn textual_key_round_trip() {
    let key = full_key(
        &b"Staking".to_vec(),
        &b"Nominators".to_vec(),
        &vec![9u8; 32],
        StorageHasher::Twox64Concat,
    );
    let mut text = String::from("0x");
    text.push_str(&hex::encode(&key));
    assert_eq!(string_to_key(&text), Some(key));
}
