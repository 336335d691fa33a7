//! The data model: account identities and the decoded staking records.
//!
//! Every record is a plain value type constructed fresh per query. Types
//! whose fields hold vectors carry a ghost view struct so that contracts can
//! speak of their mathematical content.

use vstd::prelude::*;

verus! {

/// A fixed 32-byte public-key account identity.
///
/// Two identities are equal exactly when their 32 bytes are equal.
#[derive(Debug)]
pub struct AccountId {
    pub bytes: Vec<u8>,
}

impl View for AccountId {
    type V = Seq<u8>;

    open spec fn view(&self) -> Seq<u8> {
        self.bytes@
    }
}

/// A well-formed identity holds exactly 32 bytes.
pub open spec fn account_wf(a: Seq<u8>) -> bool {
    a.len() == 32
}

impl AccountId {
    /// A fresh identity holding the same 32 bytes.
    pub fn duplicate(&self) -> (r: AccountId)
        ensures
            r@ == self@,
    {
        let mut out: Vec<u8> = Vec::new();
        let mut i: usize = 0;
        while i < self.bytes.len()
            invariant
                i <= self.bytes.len(),
                out@ == self.bytes@.subrange(0, i as int),
            decreases self.bytes.len() - i,
        {
            out.push(self.bytes[i]);
            assert(out@ =~= self.bytes@.subrange(0, i + 1));
            i = i + 1;
        }
        assert(out@ =~= self.bytes@);
        AccountId { bytes: out }
    }

    /// Byte-for-byte equality of two identities.
    pub fn same(&self, other: &AccountId) -> (r: bool)
        ensures
            r == (self@ == other@),
    {
        if self.bytes.len() != other.bytes.len() {
            return false;
        }
        let mut i: usize = 0;
        while i < self.bytes.len()
            invariant
                i <= self.bytes.len(),
                self.bytes.len() == other.bytes.len(),
                forall|j: int| 0 <= j < i ==> self.bytes@[j] == other.bytes@[j],
            decreases self.bytes.len() - i,
        {
            if self.bytes[i] != other.bytes[i] {
                return false;
            }
            i = i + 1;
        }
        proof {
            assert(self@ =~= other@);
        }
        true
    }
}

impl PartialEq for AccountId {
    fn eq(&self, other: &AccountId) -> (r: bool) {
        self.same(other)
    }
}

impl vstd::std_specs::cmp::PartialEqSpecImpl for AccountId {
    open spec fn obeys_eq_spec() -> bool {
        true
    }

    open spec fn eq_spec(&self, other: &AccountId) -> bool {
        self@ == other@
    }
}

/// Era counter and, once the era has begun timekeeping, its start moment
/// in milliseconds.
#[derive(Clone, Copy, Debug, PartialEq, Eq, Structural)]
pub struct ActiveEraInfo {
    pub index: u32,
    pub start: Option<u64>,
}

/// Why a balance is locked.
#[derive(Clone, Copy, Debug, PartialEq, Eq, Structural)]
pub enum Reasons {
    Fee,
    Misc,
    All,
}

/// One lock on an account's balance. The identifier is the lock's 8-byte
/// tag read as a little-endian integer.
#[derive(Clone, Copy, Debug, PartialEq, Eq, Structural)]
pub struct BalanceLock {
    pub id: u64,
    pub amount: u128,
    pub reasons: Reasons,
}

/// The 8-byte ASCII tag `"staking "` read as a little-endian integer.
pub const STAKING_LOCK_ID: u64 = 0x20676e696b617473;

/// A portion of stake waiting to unlock at a given era.
#[derive(Clone, Copy, Debug, PartialEq, Eq, Structural)]
pub struct UnlockChunk {
    pub value: u128,
    pub era: u32,
}

/// A validator candidate's declared preferences.
#[derive(Clone, Copy, Debug, PartialEq, Eq, Structural)]
pub struct ValidatorPrefs {
    pub commission: u32,
    pub blocked: bool,
}

/// How the queued election was computed.
#[derive(Clone, Copy, Debug, PartialEq, Eq, Structural)]
pub enum ElectionCompute {
    OnChain,
    Signed,
    Unsigned,
}

/// An account's declared set of validators to back.
#[derive(Debug)]
pub struct Nominations {
    pub targets: Vec<AccountId>,
    pub submitted_in: u32,
    pub suppressed: bool,
}

pub ghost struct NominationsV {
    pub targets: Seq<Seq<u8>>,
    pub submitted_in: u32,
    pub suppressed: bool,
}

impl View for Nominations {
    type V = NominationsV;

    open spec fn view(&self) -> NominationsV {
        NominationsV {
            targets: self.targets@.map_values(|a: AccountId| a@),
            submitted_in: self.submitted_in,
            suppressed: self.suppressed,
        }
    }
}

/// One contributor's share of the stake backing a validator.
#[derive(Debug)]
pub struct IndividualExposure {
    pub who: AccountId,
    pub value: u128,
}

impl View for IndividualExposure {
    type V = (Seq<u8>, u128);

    open spec fn view(&self) -> (Seq<u8>, u128) {
        (self.who@, self.value)
    }
}

/// The total and per-contributor stake backing a validator.
#[derive(Debug)]
pub struct Exposure {
    pub total: u128,
    pub own: u128,
    pub others: Vec<IndividualExposure>,
}

pub ghost struct ExposureV {
    pub total: u128,
    pub own: u128,
    pub others: Seq<(Seq<u8>, u128)>,
}

impl View for Exposure {
    type V = ExposureV;

    open spec fn view(&self) -> ExposureV {
        ExposureV {
            total: self.total,
            own: self.own,
            others: self.others@.map_values(|e: IndividualExposure| e@),
        }
    }
}

/// The pre-computed result of the next session's validator election.
#[derive(Debug)]
pub struct ElectionResult {
    pub elected_stashes: Vec<AccountId>,
    pub exposures: Vec<(AccountId, Exposure)>,
    pub compute: ElectionCompute,
}

pub ghost struct ElectionResultV {
    pub elected_stashes: Seq<Seq<u8>>,
    pub exposures: Seq<(Seq<u8>, ExposureV)>,
    pub compute: ElectionCompute,
}

impl View for ElectionResult {
    type V = ElectionResultV;

    open spec fn view(&self) -> ElectionResultV {
        ElectionResultV {
            elected_stashes: self.elected_stashes@.map_values(|a: AccountId| a@),
            exposures: self.exposures@.map_values(|e: (AccountId, Exposure)| (e.0@, e.1@)),
            compute: self.compute,
        }
    }
}

/// An account's staking book-keeping record.
#[derive(Debug)]
pub struct StakingLedger {
    pub stash: AccountId,
    pub total: u128,
    pub active: u128,
    pub unlocking: Vec<UnlockChunk>,
    pub claimed_rewards: Vec<u32>,
}

pub ghost struct StakingLedgerV {
    pub stash: Seq<u8>,
    pub total: u128,
    pub active: u128,
    pub unlocking: Seq<UnlockChunk>,
    pub claimed_rewards: Seq<u32>,
}

impl View for StakingLedger {
    type V = StakingLedgerV;

    open spec fn view(&self) -> StakingLedgerV {
        StakingLedgerV {
            stash: self.stash@,
            total: self.total,
            active: self.active,
            unlocking: self.unlocking@,
            claimed_rewards: self.claimed_rewards@,
        }
    }
}

/// A nominator's decoded nominations joined with its staking-tagged
/// balance-lock sum.
#[derive(Debug)]
pub struct Nominator {
    pub nominations: Nominations,
    pub staked: u128,
}

pub ghost struct NominatorV {
    pub nominations: NominationsV,
    pub staked: u128,
}

impl View for Nominator {
    type V = NominatorV;

    open spec fn view(&self) -> NominatorV {
        NominatorV { nominations: self.nominations@, staked: self.staked }
    }
}

/// A validator candidate's joined record: staked amount, preferences,
/// the textual addresses of the accounts nominating it, and its ledger.
/// Preferences and ledger are absent when their storage entries were.
#[derive(Debug)]
pub struct WaitingValidator {
    pub staked: u128,
    pub prefs: Option<ValidatorPrefs>,
    pub nominators: Vec<String>,
    pub ledger: Option<StakingLedger>,
}

pub ghost struct WaitingValidatorV {
    pub staked: u128,
    pub prefs: Option<ValidatorPrefs>,
    pub nominators: Seq<Seq<char>>,
    pub ledger: Option<StakingLedgerV>,
}

impl View for WaitingValidator {
    type V = WaitingValidatorV;

    open spec fn view(&self) -> WaitingValidatorV {
        WaitingValidatorV {
            staked: self.staked,
            prefs: self.prefs,
            nominators: self.nominators@.map_values(|s: String| s@),
            ledger: match self.ledger {
                Some(l) => Some(l@),
                None => None,
            },
        }
    }
}

} // verus!
