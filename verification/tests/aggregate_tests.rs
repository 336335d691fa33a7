use dumpling::aggregate::{
    get_nominators, nominators, staked_from_locks, validators_to_nominators, waiting_validators,
    NominatorEntry, ValidatorEntry,
};
use dumpling::scale::encode_compact;
use dumpling::ss58::{encode_address, NetworkFormat};
use dumpling::types::{AccountId, BalanceLock, Reasons, STAKING_LOCK_ID};
use dumpling::DecodeError;

fn account(fill: u8) -> Vec<u8> {
    vec![fill; 32]
}

fn addr(fill: u8) -> String {
    encode_address(&AccountId { bytes: account(fill) }, NetworkFormat::Substrate)
}

/// A 72-byte full storage key whose trailing 32 bytes are the account.
fn map_key(fill: u8) -> Vec<u8> {
    let mut key = vec![0u8; 40];
    key.extend_from_slice(&account(fill));
    key
}

fn nominations_bytes(targets: &[u8], submitted_in: u32) -> Vec<u8> {
    let mut bytes = encode_compact(targets.len() as u128);
    for t in targets {
        bytes.extend_from_slice(&account(*t));
    }
    bytes.extend_from_slice(&submitted_in.to_le_bytes());
    bytes.push(0);
    bytes
}

fn locks_bytes(locks: &[(&[u8; 8], u128)]) -> Vec<u8> {
    let mut bytes = encode_compact(locks.len() as u128);
    for (id, amount) in locks {
        bytes.extend_from_slice(*id);
        bytes.extend_from_slice(&amount.to_le_bytes());
        bytes.push(0);
    }
    bytes
}

#[test]
fn staking_lock_filter() {
    let locks = vec![
        BalanceLock { id: STAKING_LOCK_ID, amount: 100, reasons: Reasons::All },
        BalanceLock { id: u64::from_le_bytes(*b"other   "), amount: 50, reasons: Reasons::Misc },
    ];
    assert_eq!(staked_from_locks(&locks), 100);
}

#[test]
fn staking_lock_sum_of_repeated_tags() {
    let locks = vec![
        BalanceLock { id: STAKING_LOCK_ID, amount: 100, reasons: Reasons::All },
        BalanceLock { id: STAKING_LOCK_ID, amount: 20, reasons: Reasons::All },
    ];
    assert_eq!(staked_from_locks(&locks), 120);
}

#[test]
fn staking_lock_sum_saturates() {
    let locks = vec![
        BalanceLock { id: STAKING_LOCK_ID, amount: u128::MAX, reasons: Reasons::All },
        BalanceLock { id: STAKING_LOCK_ID, amount: 5, reasons: Reasons::All },
    ];
    assert_eq!(staked_from_locks(&locks), u128::MAX);
}

#[test]
fn inverse_index_scan_order() {
    // nominator A targets V1 and V2; nominator B targets V1
    let entries = vec![
        NominatorEntry {
            key: map_key(0xa1),
            value: Some(nominations_bytes(&[0x11, 0x22], 5)),
            locks: None,
        },
        NominatorEntry {
            key: map_key(0xb2),
            value: Some(nominations_bytes(&[0x11], 5)),
            locks: None,
        },
    ];
    let index = validators_to_nominators(&entries, NetworkFormat::Substrate).expect("decode");
    assert_eq!(index.len(), 2);
    let v1 = index.iter().find(|p| p.0.bytes == account(0x11)).expect("V1 present");
    assert_eq!(v1.1, vec![addr(0xa1), addr(0xb2)]);
    let v2 = index.iter().find(|p| p.0.bytes == account(0x22)).expect("V2 present");
    assert_eq!(v2.1, vec![addr(0xa1)]);
}

#[test]
fn inverse_index_counts_repeated_targets() {
    // one nominator listing the same validator twice contributes twice
    let entries = vec![NominatorEntry {
        key: map_key(0xa1),
        value: Some(nominations_bytes(&[0x11, 0x11], 4)),
        locks: None,
    }];
    let index = validators_to_nominators(&entries, NetworkFormat::Substrate).expect("decode");
    assert_eq!(index.len(), 1);
    assert_eq!(index[0].1, vec![addr(0xa1), addr(0xa1)]);
}

#[test]
fn inverse_index_skips_absent_nominations() {
    let entries = vec![
        NominatorEntry { key: map_key(0xa1), value: None, locks: None },
        NominatorEntry {
            key: map_key(0xb2),
            value: Some(nominations_bytes(&[0x11], 1)),
            locks: None,
        },
    ];
    let index = validators_to_nominators(&entries, NetworkFormat::Substrate).expect("decode");
    assert_eq!(index.len(), 1);
    assert_eq!(index[0].0.bytes, account(0x11));
    assert_eq!(index[0].1, vec![addr(0xb2)]);
}

#[test]
fn inverse_index_rejects_malformed_entry() {
    let entries = vec![NominatorEntry {
        key: map_key(0xa1),
        value: Some(vec![4, 1, 2]),
        locks: None,
    }];
    assert_eq!(
        validators_to_nominators(&entries, NetworkFormat::Substrate).expect_err("truncated"),
        DecodeError::TruncatedInput
    );
}

#[test]
fn get_nominators_rejects_short_key() {
    let entries = vec![NominatorEntry { key: vec![0u8; 40], value: None, locks: None }];
    assert_eq!(get_nominators(&entries).expect_err("short key"), DecodeError::BadKeyLength);
}

#[test]
fn absent_fetch_is_absent_record_not_a_crash() {
    // the enumerator listed a key, but the fetch found nothing under it
    let entries = vec![
        NominatorEntry { key: map_key(0xa1), value: None, locks: None },
        NominatorEntry {
            key: map_key(0xb2),
            value: Some(nominations_bytes(&[0x11], 9)),
            locks: Some(locks_bytes(&[(b"staking ", 77)])),
        },
    ];
    let records = nominators(&entries, NetworkFormat::Substrate).expect("decode");
    assert_eq!(records.len(), 2);
    assert_eq!(records[0].0, addr(0xa1));
    assert!(records[0].1.is_none());
    assert_eq!(records[1].0, addr(0xb2));
    let rec = records[1].1.as_ref().expect("present");
    assert_eq!(rec.staked, 77);
    assert_eq!(rec.nominations.targets.len(), 1);
    assert_eq!(rec.nominations.submitted_in, 9);
}

#[test]
fn nominator_record_filters_staking_lock() {
    let entries = vec![NominatorEntry {
        key: map_key(0xc3),
        value: Some(nominations_bytes(&[0x11], 2)),
        locks: Some(locks_bytes(&[(b"staking ", 100), (b"other   ", 50)])),
    }];
    let records = nominators(&entries, NetworkFormat::Substrate).expect("decode");
    assert_eq!(records[0].1.as_ref().expect("present").staked, 100);
}

#[test]
fn malformed_present_nominations_abort() {
    let entries = vec![NominatorEntry {
        key: map_key(0xc3),
        value: Some(vec![8, 1]),
        locks: None,
    }];
    assert_eq!(
        nominators(&entries, NetworkFormat::Substrate).expect_err("truncated"),
        DecodeError::TruncatedInput
    );
}

#[test]
fn waiting_validator_records() {
    let fmt = NetworkFormat::Substrate;
    // V1 is nominated by A; V2 by nobody
    let nentries = vec![NominatorEntry {
        key: map_key(0xa1),
        value: Some(nominations_bytes(&[0x11], 3)),
        locks: None,
    }];
    let mut prefs = encode_compact(10_000_000);
    prefs.push(0);
    let ventries = vec![
        ValidatorEntry {
            key: map_key(0x11),
            prefs: Some(prefs.clone()),
            locks: Some(locks_bytes(&[(b"staking ", 900), (b"vesting ", 1)])),
            ledger: None,
        },
        ValidatorEntry {
            key: map_key(0x22),
            prefs: None,
            locks: None,
            ledger: None,
        },
    ];
    let records = waiting_validators(&ventries, &nentries, fmt).expect("decode");
    assert_eq!(records.len(), 2);

    assert_eq!(records[0].0, addr(0x11));
    assert_eq!(records[0].1.staked, 900);
    let p = records[0].1.prefs.as_ref().expect("prefs present");
    assert_eq!(p.commission, 10_000_000);
    assert!(!p.blocked);
    assert_eq!(records[0].1.nominators, vec![addr(0xa1)]);
    assert!(records[0].1.ledger.is_none());

    assert_eq!(records[1].0, addr(0x22));
    assert_eq!(records[1].1.staked, 0);
    assert!(records[1].1.prefs.is_none());
    assert_eq!(records[1].1.nominators, vec![String::from("None")]);
}

#[test]
fn waiting_validator_with_ledger() {
    let fmt = NetworkFormat::Substrate;
    let mut ledger = account(0x11);
    ledger.extend_from_slice(&encode_compact(1000));
    ledger.extend_from_slice(&encode_compact(800));
    ledger.extend_from_slice(&encode_compact(0));
    ledger.extend_from_slice(&encode_compact(1));
    ledger.extend_from_slice(&7u32.to_le_bytes());
    let ventries = vec![ValidatorEntry {
        key: map_key(0x11),
        prefs: None,
        locks: None,
        ledger: Some(ledger),
    }];
    let records = waiting_validators(&ventries, &vec![], fmt).expect("decode");
    let l = records[0].1.ledger.as_ref().expect("ledger present");
    assert_eq!(l.total, 1000);
    assert_eq!(l.active, 800);
    assert_eq!(l.claimed_rewards, vec![7]);
}

#[test]
fn waiting_validator_malformed_prefs_abort() {
    let ventries = vec![ValidatorEntry {
        key: map_key(0x11),
        prefs: Some(vec![1]),
        locks: None,
        ledger: None,
    }];
    assert_eq!(
        waiting_validators(&ventries, &vec![], NetworkFormat::Substrate).expect_err("truncated"),
        DecodeError::TruncatedInput
    );
}
