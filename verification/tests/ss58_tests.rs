use dumpling::ss58::{decode_address, encode_address, AddressError, NetworkFormat};
use dumpling::types::AccountId;

fn id(bytes: [u8; 32]) -> AccountId {
    AccountId { bytes: bytes.to_vec() }
}

#[test]
fn address_round_trip_all_formats() {
    let ids = vec![[0u8; 32], [0xffu8; 32], {
        let mut v = [0u8; 32];
        for (i, b) in v.iter_mut().enumerate() {
            *b = i as u8;
        }
        v
    }];
    let formats = vec![NetworkFormat::Polkadot, NetworkFormat::Kusama, NetworkFormat::Substrate];
    for bytes in ids {
        for fmt in &formats {
            let text = encode_address(&id(bytes), *fmt);
            let back = decode_address(&text, *fmt).expect("round trip");
            assert_eq!(back.bytes, bytes.to_vec());
        }
    }
}

#[test]
fn known_address_vector() {
    // the well-known sr25519 development key
    let bytes = hex::decode("d43593c715fdd31c61141abd04a99fd6822c8558854ccde39a5684e7a56da27d")
        .expect("hex");
    let account = AccountId { bytes };
    let text = encode_address(&account, NetworkFormat::Substrate);
    assert_eq!(text, "5GrwvaEF5zXb26Fz9rcQpDWS57CtERHpNehXCPcNoHGKutQY");
}

#[test]
fn wrong_network_version_rejected() {
    let text = encode_address(&id([7u8; 32]), NetworkFormat::Polkadot);
    assert_eq!(
        decode_address(&text, NetworkFormat::Kusama).expect_err("wrong network"),
        AddressError::UnknownVersion
    );
}

#[test]
fn invalid_base58_rejected() {
    assert_eq!(
        decode_address("0OIl", NetworkFormat::Polkadot).expect_err("bad alphabet"),
        AddressError::InvalidBase58
    );
}

#[test]
fn short_payload_rejected() {
    let text = bs58::encode(&[1u8, 2, 3]).into_string();
    assert_eq!(
        decode_address(&text, NetworkFormat::Polkadot).expect_err("short"),
        AddressError::BadLength
    );
}

#[test]
fn flipping_any_payload_byte_is_rejected() {
    let account = id([5u8; 32]);
    let fmt = NetworkFormat::Substrate;
    let text = encode_address(&account, fmt);
    let payload = bs58::decode(&text).into_vec().expect("payload");
    assert_eq!(payload.len(), 35);
    for i in 0..payload.len() {
        let mut corrupted = payload.clone();
        corrupted[i] ^= 0x01;
        let corrupted_text = bs58::encode(&corrupted).into_string();
        let err = decode_address(&corrupted_text, fmt).expect_err("corruption must fail");
        if i == 0 {
            assert_eq!(err, AddressError::UnknownVersion, "version byte flip at {}", i);
        } else {
            assert_eq!(err, AddressError::ChecksumMismatch, "payload flip at {}", i);
        }
    }
}

#[test]
fn checksum_depends_on_version() {
    // the same identity encodes to different texts on different networks
    let account = id([9u8; 32]);
    let a = encode_address(&account, NetworkFormat::Polkadot);
    let b = encode_address(&account, NetworkFormat::Kusama);
    assert_ne!(a, b);
}
