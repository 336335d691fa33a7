use dumpling::decode::{
    decode_balance_lock, decode_balance_locks, decode_ledger, decode_nominations, decode_prefs,
};
use dumpling::query::{active_era, planned_era, queued_validators, session_index, session_validators};
use dumpling::types::{ElectionCompute, Reasons, STAKING_LOCK_ID};
use dumpling::DecodeError;

fn account(fill: u8) -> Vec<u8> {
    vec![fill; 32]
}

fn compact(v: u128) -> Vec<u8> {
    dumpling::scale::encode_compact(v)
}

#[test]
fn era_with_absent_start() {
    // index 5, option tag 0: the era has not begun timekeeping
    let bytes = vec![5u8, 0, 0, 0, 0];
    let info = active_era(&Some(bytes)).expect("decode").expect("present");
    assert_eq!(info.index, 5);
    assert_eq!(info.start, None);
}

#[test]
fn era_with_present_start() {
    let mut bytes = vec![7u8, 0, 0, 0, 1];
    bytes.extend_from_slice(&1_600_000_000_000u64.to_le_bytes());
    let info = active_era(&Some(bytes)).expect("decode").expect("present");
    assert_eq!(info.index, 7);
    assert_eq!(info.start, Some(1_600_000_000_000));
}

#[test]
fn era_option_tag_out_of_range() {
    let bytes = vec![7u8, 0, 0, 0, 2];
    assert_eq!(active_era(&Some(bytes)), Err(DecodeError::InvalidDiscriminant));
}

#[test]
fn era_truncated() {
    let bytes = vec![7u8, 0, 0];
    assert_eq!(active_era(&Some(bytes)), Err(DecodeError::TruncatedInput));
}

#[test]
fn absent_storage_values_are_none() {
    assert_eq!(active_era(&None), Ok(None));
    assert_eq!(planned_era(&None), Ok(None));
    assert_eq!(session_index(&None), Ok(None));
    assert!(session_validators(&None).expect("ok").is_none());
    assert!(queued_validators(&None).expect("ok").is_none());
}

#[test]
fn single_value_counters() {
    assert_eq!(planned_era(&Some(vec![42, 0, 0, 0])), Ok(Some(42)));
    assert_eq!(session_index(&Some(vec![9, 1, 0, 0])), Ok(Some(265)));
}

#[test]
fn session_validator_list() {
    let mut bytes = compact(2);
    bytes.extend_from_slice(&account(0xaa));
    bytes.extend_from_slice(&account(0xbb));
    let ids = session_validators(&Some(bytes)).expect("decode").expect("present");
    assert_eq!(ids.len(), 2);
    assert_eq!(ids[0].bytes, account(0xaa));
    assert_eq!(ids[1].bytes, account(0xbb));
}

#[test]
fn nominations_record() {
    let mut bytes = compact(2);
    bytes.extend_from_slice(&account(1));
    bytes.extend_from_slice(&account(2));
    bytes.extend_from_slice(&33u32.to_le_bytes());
    bytes.push(0);
    let (noms, consumed) = decode_nominations(&bytes, 0).expect("decode");
    assert_eq!(noms.targets.len(), 2);
    assert_eq!(noms.targets[0].bytes, account(1));
    assert_eq!(noms.targets[1].bytes, account(2));
    assert_eq!(noms.submitted_in, 33);
    assert!(!noms.suppressed);
    assert_eq!(consumed, bytes.len());
}

#[test]
fn balance_lock_record() {
    let mut bytes = Vec::new();
    bytes.extend_from_slice(b"staking ");
    bytes.extend_from_slice(&100u128.to_le_bytes());
    bytes.push(2);
    let (lock, consumed) = decode_balance_lock(&bytes, 0).expect("decode");
    assert_eq!(lock.id, STAKING_LOCK_ID);
    assert_eq!(lock.id, u64::from_le_bytes(*b"staking "));
    assert_eq!(lock.amount, 100);
    assert_eq!(lock.reasons, Reasons::All);
    assert_eq!(consumed, bytes.len());
}

#[test]
fn balance_lock_bad_reason() {
    let mut bytes = Vec::new();
    bytes.extend_from_slice(b"staking ");
    bytes.extend_from_slice(&100u128.to_le_bytes());
    bytes.push(3);
    assert_eq!(decode_balance_lock(&bytes, 0), Err(DecodeError::InvalidDiscriminant));
}

#[test]
fn balance_lock_list() {
    let mut bytes = compact(2);
    bytes.extend_from_slice(b"staking ");
    bytes.extend_from_slice(&100u128.to_le_bytes());
    bytes.push(0);
    bytes.extend_from_slice(b"other   ");
    bytes.extend_from_slice(&50u128.to_le_bytes());
    bytes.push(1);
    let (locks, _) = decode_balance_locks(&bytes, 0).expect("decode");
    assert_eq!(locks.len(), 2);
    assert_eq!(locks[0].amount, 100);
    assert_eq!(locks[1].amount, 50);
    assert_eq!(locks[1].reasons, Reasons::Misc);
}

#[test]
fn validator_prefs_record() {
    let mut bytes = compact(50_000_000);
    bytes.push(1);
    let (prefs, consumed) = decode_prefs(&bytes, 0).expect("decode");
    assert_eq!(prefs.commission, 50_000_000);
    assert!(prefs.blocked);
    assert_eq!(consumed, bytes.len());
}

#[test]
fn validator_prefs_commission_over_range() {
    let mut bytes = compact(1u128 << 40);
    bytes.push(0);
    assert_eq!(decode_prefs(&bytes, 0), Err(DecodeError::InvalidDiscriminant));
}

#[test]
fn staking_ledger_record() {
    let mut bytes = Vec::new();
    bytes.extend_from_slice(&account(9));
    bytes.extend_from_slice(&compact(1000));
    bytes.extend_from_slice(&compact(900));
    // one unlocking chunk: value 100 at era 12
    bytes.extend_from_slice(&compact(1));
    bytes.extend_from_slice(&compact(100));
    bytes.extend_from_slice(&compact(12));
    // claimed rewards: eras 3 and 4
    bytes.extend_from_slice(&compact(2));
    bytes.extend_from_slice(&3u32.to_le_bytes());
    bytes.extend_from_slice(&4u32.to_le_bytes());
    let (ledger, consumed) = decode_ledger(&bytes, 0).expect("decode");
    assert_eq!(ledger.stash.bytes, account(9));
    assert_eq!(ledger.total, 1000);
    assert_eq!(ledger.active, 900);
    assert_eq!(ledger.unlocking.len(), 1);
    assert_eq!(ledger.unlocking[0].value, 100);
    assert_eq!(ledger.unlocking[0].era, 12);
    assert_eq!(ledger.claimed_rewards, vec![3, 4]);
    assert_eq!(consumed, bytes.len());
}

#[test]
fn queued_election_result() {
    let mut bytes = compact(1);
    bytes.extend_from_slice(&account(7));
    // one exposure pair: validator 7, total 500 own 200, one backer
    bytes.extend_from_slice(&compact(1));
    bytes.extend_from_slice(&account(7));
    bytes.extend_from_slice(&compact(500));
    bytes.extend_from_slice(&compact(200));
    bytes.extend_from_slice(&compact(1));
    bytes.extend_from_slice(&account(8));
    bytes.extend_from_slice(&compact(300));
    bytes.push(1);
    let result = queued_validators(&Some(bytes)).expect("decode").expect("present");
    assert_eq!(result.elected_stashes.len(), 1);
    assert_eq!(result.elected_stashes[0].bytes, account(7));
    assert_eq!(result.exposures.len(), 1);
    assert_eq!(result.exposures[0].0.bytes, account(7));
    assert_eq!(result.exposures[0].1.total, 500);
    assert_eq!(result.exposures[0].1.own, 200);
    assert_eq!(result.exposures[0].1.others.len(), 1);
    assert_eq!(result.exposures[0].1.others[0].who.bytes, account(8));
    assert_eq!(result.exposures[0].1.others[0].value, 300);
    assert_eq!(result.compute, ElectionCompute::Signed);
}

#[test]
fn queued_election_bad_compute_tag() {
    let mut bytes = compact(0);
    bytes.extend_from_slice(&compact(0));
    bytes.push(3);
    assert_eq!(
        queued_validators(&Some(bytes)).expect_err("must fail"),
        DecodeError::InvalidDiscriminant
    );
}
