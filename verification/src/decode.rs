//! Typed decoders for the staking records stored on the node.
//!
//! Each record's wire shape is written down as a spec function from a byte
//! sequence and a position to either the decoded value and the position just
//! past it, or the exact error: `TruncatedInput` when the bytes end early,
//! `InvalidDiscriminant` when a tag, boolean, mode or range check fails.
//! Every executable decoder is proved to agree with its spec function.

use crate::scale::{
    decode_bool, decode_compact, decode_u32, decode_u64, decode_u128, spec_compact_too_wide,
    spec_decode_bool, spec_decode_compact, spec_decode_uint,
};
use crate::types::{
    AccountId, ActiveEraInfo, BalanceLock, ElectionCompute, ElectionResult, ElectionResultV,
    Exposure, ExposureV, IndividualExposure, Nominations, NominationsV, Reasons, StakingLedger,
    StakingLedgerV, UnlockChunk, ValidatorPrefs,
};
use crate::DecodeError;
use vstd::prelude::*;

verus! {

/// Reading `n` little-endian bytes, as a `Result`.
pub open spec fn sres_uint(s: Seq<u8>, pos: int, n: int) -> Result<(nat, int), DecodeError> {
    match spec_decode_uint(s, pos, n) {
        Some(vp) => Ok(vp),
        None => Err(DecodeError::TruncatedInput),
    }
}

/// Reading a compact integer, as a `Result`.
pub open spec fn sres_compact(s: Seq<u8>, pos: int) -> Result<(nat, int), DecodeError> {
    if spec_compact_too_wide(s, pos) {
        Err(DecodeError::InvalidDiscriminant)
    } else {
        match spec_decode_compact(s, pos) {
            Some(vp) => Ok(vp),
            None => Err(DecodeError::TruncatedInput),
        }
    }
}

/// Reading a compact integer that must fit 32 bits.
pub open spec fn sres_compact_u32(s: Seq<u8>, pos: int) -> Result<(u32, int), DecodeError> {
    match sres_compact(s, pos) {
        Ok((v, p)) => if v <= 0xffff_ffff {
            Ok((v as u32, p))
        } else {
            Err(DecodeError::InvalidDiscriminant)
        },
        Err(e) => Err(e),
    }
}

/// Reading a boolean byte, as a `Result`.
pub open spec fn sres_bool(s: Seq<u8>, pos: int) -> Result<(bool, int), DecodeError> {
    match spec_decode_bool(s, pos) {
        Some(vp) => Ok(vp),
        None => if 0 <= pos < s.len() {
            Err(DecodeError::InvalidDiscriminant)
        } else {
            Err(DecodeError::TruncatedInput)
        },
    }
}

/// Reading a 32-byte account identity.
pub open spec fn sres_account(s: Seq<u8>, pos: int) -> Result<(Seq<u8>, int), DecodeError> {
    if 0 <= pos && pos + 32 <= s.len() {
        Ok((s.subrange(pos, pos + 32), pos + 32))
    } else {
        Err(DecodeError::TruncatedInput)
    }
}

/// Decode a compact integer that must fit 32 bits.
pub fn decode_compact_u32(bytes: &Vec<u8>, pos: usize) -> (r: Result<(u32, usize), DecodeError>)
    ensures
        match r {
            Ok(vp) => sres_compact_u32(bytes@, pos as int) matches Ok(sv)
                && sv.0 == vp.0 && sv.1 == vp.1 as int,
            Err(e) => sres_compact_u32(bytes@, pos as int) matches Err(se) && se == e,
        },
{
    match decode_compact(bytes, pos) {
        Ok((v, p)) => {
            if v <= 0xffff_ffff {
                Ok((v as u32, p))
            } else {
                Err(DecodeError::InvalidDiscriminant)
            }
        },
        Err(e) => Err(e),
    }
}

/// Decode a 32-byte account identity.
pub fn decode_account(bytes: &Vec<u8>, pos: usize) -> (r: Result<(AccountId, usize), DecodeError>)
    ensures
        match r {
            Ok(vp) => sres_account(bytes@, pos as int) matches Ok(sv)
                && sv.0 == vp.0@ && sv.1 == vp.1 as int,
            Err(e) => sres_account(bytes@, pos as int) matches Err(se) && se == e,
        },
{
    if bytes.len() < 32 || pos > bytes.len() - 32 {
        return Err(DecodeError::TruncatedInput);
    }
    let mut out: Vec<u8> = Vec::new();
    let mut i: usize = 0;
    while i < 32
        invariant
            i <= 32,
            pos + 32 <= bytes.len(),
            out@ == bytes@.subrange(pos as int, pos + i),
        decreases 32 - i,
    {
        out.push(bytes[pos + i]);
        assert(out@ =~= bytes@.subrange(pos as int, pos + i + 1));
        i = i + 1;
    }
    Ok((AccountId { bytes: out }, pos + 32))
}

/// Reading an optional 8-byte moment: tag 0 is absent, tag 1 is followed by
/// the value, any other tag is invalid.
pub open spec fn sres_option_u64(s: Seq<u8>, pos: int) -> Result<(Option<u64>, int), DecodeError> {
    if 0 <= pos < s.len() {
        if s[pos] == 0 {
            Ok((None, pos + 1))
        } else if s[pos] == 1 {
            match sres_uint(s, pos + 1, 8) {
                Ok((v, p)) => Ok((Some(v as u64), p)),
                Err(e) => Err(e),
            }
        } else {
            Err(DecodeError::InvalidDiscriminant)
        }
    } else {
        Err(DecodeError::TruncatedInput)
    }
}

/// Decode an optional 8-byte moment.
pub fn decode_option_u64(bytes: &Vec<u8>, pos: usize) -> (r: Result<(Option<u64>, usize), DecodeError>)
    ensures
        match r {
            Ok(vp) => sres_option_u64(bytes@, pos as int) matches Ok(sv)
                && sv.0 == vp.0 && sv.1 == vp.1 as int,
            Err(e) => sres_option_u64(bytes@, pos as int) matches Err(se) && se == e,
        },
{
    if pos >= bytes.len() {
        return Err(DecodeError::TruncatedInput);
    }
    let tag = bytes[pos];
    if tag == 0 {
        Ok((None, pos + 1))
    } else if tag == 1 {
        match decode_u64(bytes, pos + 1) {
            Ok((v, p)) => Ok((Some(v), p)),
            Err(e) => Err(e),
        }
    } else {
        Err(DecodeError::InvalidDiscriminant)
    }
}

/// Reading an era record: a 4-byte index, then the optional start moment.
pub open spec fn sres_active_era(s: Seq<u8>, pos: int) -> Result<(ActiveEraInfo, int), DecodeError> {
    match sres_uint(s, pos, 4) {
        Ok((idx, p)) => match sres_option_u64(s, p) {
            Ok((start, p2)) => Ok((ActiveEraInfo { index: idx as u32, start }, p2)),
            Err(e) => Err(e),
        },
        Err(e) => Err(e),
    }
}

/// Decode an era record.
pub fn decode_active_era(bytes: &Vec<u8>, pos: usize) -> (r: Result<(ActiveEraInfo, usize), DecodeError>)
    ensures
        match r {
            Ok(vp) => sres_active_era(bytes@, pos as int) matches Ok(sv)
                && sv.0 == vp.0 && sv.1 == vp.1 as int,
            Err(e) => sres_active_era(bytes@, pos as int) matches Err(se) && se == e,
        },
{
    let (index, p) = match decode_u32(bytes, pos) {
        Ok(x) => x,
        Err(e) => {
            return Err(e);
        },
    };
    let (start, p2) = match decode_option_u64(bytes, p) {
        Ok(x) => x,
        Err(e) => {
            return Err(e);
        },
    };
    Ok((ActiveEraInfo { index, start }, p2))
}

/// Reading a validator's preferences: a compact commission fraction that
/// must fit 32 bits, then the blocked flag.
pub open spec fn sres_prefs(s: Seq<u8>, pos: int) -> Result<(ValidatorPrefs, int), DecodeError> {
    match sres_compact_u32(s, pos) {
        Ok((c, p)) => match sres_bool(s, p) {
            Ok((b, p2)) => Ok((ValidatorPrefs { commission: c, blocked: b }, p2)),
            Err(e) => Err(e),
        },
        Err(e) => Err(e),
    }
}

/// Decode a validator's preferences.
pub fn decode_prefs(bytes: &Vec<u8>, pos: usize) -> (r: Result<(ValidatorPrefs, usize), DecodeError>)
    ensures
        match r {
            Ok(vp) => sres_prefs(bytes@, pos as int) matches Ok(sv)
                && sv.0 == vp.0 && sv.1 == vp.1 as int,
            Err(e) => sres_prefs(bytes@, pos as int) matches Err(se) && se == e,
        },
{
    let (commission, p) = match decode_compact_u32(bytes, pos) {
        Ok(x) => x,
        Err(e) => {
            return Err(e);
        },
    };
    let (blocked, p2) = match decode_bool(bytes, p) {
        Ok(x) => x,
        Err(e) => {
            return Err(e);
        },
    };
    Ok((ValidatorPrefs { commission, blocked }, p2))
}

/// Reading a lock-reason tag: 0, 1 or 2.
pub open spec fn sres_reasons(s: Seq<u8>, pos: int) -> Result<(Reasons, int), DecodeError> {
    if 0 <= pos < s.len() {
        if s[pos] == 0 {
            Ok((Reasons::Fee, pos + 1))
        } else if s[pos] == 1 {
            Ok((Reasons::Misc, pos + 1))
        } else if s[pos] == 2 {
            Ok((Reasons::All, pos + 1))
        } else {
            Err(DecodeError::InvalidDiscriminant)
        }
    } else {
        Err(DecodeError::TruncatedInput)
    }
}

/// Reading one balance lock: an 8-byte tag, a 16-byte amount, a reason tag.
pub open spec fn sres_balance_lock(s: Seq<u8>, pos: int) -> Result<(BalanceLock, int), DecodeError> {
    match sres_uint(s, pos, 8) {
        Ok((id, p)) => match sres_uint(s, p, 16) {
            Ok((amount, p2)) => match sres_reasons(s, p2) {
                Ok((reasons, p3)) => Ok((
                    BalanceLock { id: id as u64, amount: amount as u128, reasons },
                    p3,
                )),
                Err(e) => Err(e),
            },
            Err(e) => Err(e),
        },
        Err(e) => Err(e),
    }
}

/// Decode one balance lock.
pub fn decode_balance_lock(bytes: &Vec<u8>, pos: usize) -> (r: Result<(BalanceLock, usize), DecodeError>)
    ensures
        match r {
            Ok(vp) => sres_balance_lock(bytes@, pos as int) matches Ok(sv)
                && sv.0 == vp.0 && sv.1 == vp.1 as int,
            Err(e) => sres_balance_lock(bytes@, pos as int) matches Err(se) && se == e,
        },
{
    let (id, p) = match decode_u64(bytes, pos) {
        Ok(x) => x,
        Err(e) => {
            return Err(e);
        },
    };
    let (amount, p2) = match decode_u128(bytes, p) {
        Ok(x) => x,
        Err(e) => {
            return Err(e);
        },
    };
    if p2 >= bytes.len() {
        return Err(DecodeError::TruncatedInput);
    }
    let tag = bytes[p2];
    let reasons = if tag == 0 {
        Reasons::Fee
    } else if tag == 1 {
        Reasons::Misc
    } else if tag == 2 {
        Reasons::All
    } else {
        return Err(DecodeError::InvalidDiscriminant);
    };
    Ok((BalanceLock { id, amount, reasons }, p2 + 1))
}

/// Reading one unlocking chunk: a compact value, then a compact era index.
pub open spec fn sres_unlock_chunk(s: Seq<u8>, pos: int) -> Result<(UnlockChunk, int), DecodeError> {
    match sres_compact(s, pos) {
        Ok((v, p)) => match sres_compact_u32(s, p) {
            Ok((era, p2)) => Ok((UnlockChunk { value: v as u128, era }, p2)),
            Err(e) => Err(e),
        },
        Err(e) => Err(e),
    }
}

/// Decode one unlocking chunk.
pub fn decode_unlock_chunk(bytes: &Vec<u8>, pos: usize) -> (r: Result<(UnlockChunk, usize), DecodeError>)
    ensures
        match r {
            Ok(vp) => sres_unlock_chunk(bytes@, pos as int) matches Ok(sv)
                && sv.0 == vp.0 && sv.1 == vp.1 as int,
            Err(e) => sres_unlock_chunk(bytes@, pos as int) matches Err(se) && se == e,
        },
{
    let (value, p) = match decode_compact(bytes, pos) {
        Ok(x) => x,
        Err(e) => {
            return Err(e);
        },
    };
    let (era, p2) = match decode_compact_u32(bytes, p) {
        Ok(x) => x,
        Err(e) => {
            return Err(e);
        },
    };
    Ok((UnlockChunk { value, era }, p2))
}

/// Reading `count` account identities back to back.
pub open spec fn sres_account_seq(s: Seq<u8>, pos: int, count: nat) -> Result<(Seq<Seq<u8>>, int), DecodeError>
    decreases count,
{
    if count == 0 {
        Ok((Seq::empty(), pos))
    } else {
        match sres_account(s, pos) {
            Ok((a, p)) => match sres_account_seq(s, p, (count - 1) as nat) {
                Ok((rest, end)) => Ok((seq![a] + rest, end)),
                Err(e) => Err(e),
            },
            Err(e) => Err(e),
        }
    }
}

/// Reading an account sequence: a compact count, then the identities.
pub open spec fn sres_accounts_vec(s: Seq<u8>, pos: int) -> Result<(Seq<Seq<u8>>, int), DecodeError> {
    match sres_compact(s, pos) {
        Ok((count, p)) => sres_account_seq(s, p, count),
        Err(e) => Err(e),
    }
}

/// Decode an account sequence with its compact length prefix.
pub fn decode_accounts(bytes: &Vec<u8>, pos: usize) -> (r: Result<(Vec<AccountId>, usize), DecodeError>)
    ensures
        match r {
            Ok(vp) => sres_accounts_vec(bytes@, pos as int) matches Ok(sv)
                && sv.0 == vp.0@.map_values(|a: AccountId| a@) && sv.1 == vp.1 as int,
            Err(e) => sres_accounts_vec(bytes@, pos as int) matches Err(se) && se == e,
        },
{
    let (count, start) = match decode_compact(bytes, pos) {
        Ok(x) => x,
        Err(e) => {
            return Err(e);
        },
    };
    let mut out: Vec<AccountId> = Vec::new();
    let mut cur: usize = start;
    let mut i: u128 = 0;
    while i < count
        invariant
            i <= count,
            match sres_account_seq(bytes@, cur as int, (count - i) as nat) {
                Ok(sv) => sres_accounts_vec(bytes@, pos as int) matches Ok(w)
                    && w.0 == out@.map_values(|a: AccountId| a@) + sv.0 && w.1 == sv.1,
                Err(e) => sres_accounts_vec(bytes@, pos as int) matches Err(se) && se == e,
            },
        decreases count - i,
    {
        let (a, p) = match decode_account(bytes, cur) {
            Ok(x) => x,
            Err(e) => {
                return Err(e);
            },
        };
        proof {
            let ov = out@.map_values(|x: AccountId| x@);
            match sres_account_seq(bytes@, p as int, (count - i - 1) as nat) {
                Ok((rest, end)) => {
                    assert(ov + (seq![a@] + rest) =~= ov.push(a@) + rest);
                    assert(out@.push(a).map_values(|x: AccountId| x@) =~= ov.push(a@));
                },
                Err(_) => {},
            }
        }
        out.push(a);
        cur = p;
        i = i + 1;
    }
    proof {
        let ov = out@.map_values(|x: AccountId| x@);
        assert(ov + Seq::<Seq<u8>>::empty() =~= ov);
    }
    Ok((out, cur))
}

/// Reading `count` balance locks back to back.
pub open spec fn sres_lock_seq(s: Seq<u8>, pos: int, count: nat) -> Result<(Seq<BalanceLock>, int), DecodeError>
    decreases count,
{
    if count == 0 {
        Ok((Seq::empty(), pos))
    } else {
        match sres_balance_lock(s, pos) {
            Ok((l, p)) => match sres_lock_seq(s, p, (count - 1) as nat) {
                Ok((rest, end)) => Ok((seq![l] + rest, end)),
                Err(e) => Err(e),
            },
            Err(e) => Err(e),
        }
    }
}

/// Reading a balance-lock sequence: a compact count, then the locks.
pub open spec fn sres_locks_vec(s: Seq<u8>, pos: int) -> Result<(Seq<BalanceLock>, int), DecodeError> {
    match sres_compact(s, pos) {
        Ok((count, p)) => sres_lock_seq(s, p, count),
        Err(e) => Err(e),
    }
}

/// Decode a balance-lock sequence with its compact length prefix.
pub fn decode_balance_locks(bytes: &Vec<u8>, pos: usize) -> (r: Result<(Vec<BalanceLock>, usize), DecodeError>)
    ensures
        match r {
            Ok(vp) => sres_locks_vec(bytes@, pos as int) matches Ok(sv)
                && sv.0 == vp.0@ && sv.1 == vp.1 as int,
            Err(e) => sres_locks_vec(bytes@, pos as int) matches Err(se) && se == e,
        },
{
    let (count, start) = match decode_compact(bytes, pos) {
        Ok(x) => x,
        Err(e) => {
            return Err(e);
        },
    };
    let mut out: Vec<BalanceLock> = Vec::new();
    let mut cur: usize = start;
    let mut i: u128 = 0;
    while i < count
        invariant
            i <= count,
            match sres_lock_seq(bytes@, cur as int, (count - i) as nat) {
                Ok(sv) => sres_locks_vec(bytes@, pos as int) matches Ok(w)
                    && w.0 == out@ + sv.0 && w.1 == sv.1,
                Err(e) => sres_locks_vec(bytes@, pos as int) matches Err(se) && se == e,
            },
        decreases count - i,
    {
        let (l, p) = match decode_balance_lock(bytes, cur) {
            Ok(x) => x,
            Err(e) => {
                return Err(e);
            },
        };
        proof {
            match sres_lock_seq(bytes@, p as int, (count - i - 1) as nat) {
                Ok((rest, end)) => {
                    assert(out@ + (seq![l] + rest) =~= out@.push(l) + rest);
                },
                Err(_) => {},
            }
        }
        out.push(l);
        cur = p;
        i = i + 1;
    }
    proof {
        assert(out@ + Seq::<BalanceLock>::empty() =~= out@);
    }
    Ok((out, cur))
}

/// Reading `count` unlocking chunks back to back.
pub open spec fn sres_chunk_seq(s: Seq<u8>, pos: int, count: nat) -> Result<(Seq<UnlockChunk>, int), DecodeError>
    decreases count,
{
    if count == 0 {
        Ok((Seq::empty(), pos))
    } else {
        match sres_unlock_chunk(s, pos) {
            Ok((c, p)) => match sres_chunk_seq(s, p, (count - 1) as nat) {
                Ok((rest, end)) => Ok((seq![c] + rest, end)),
                Err(e) => Err(e),
            },
            Err(e) => Err(e),
        }
    }
}

/// Reading an unlocking-chunk sequence: a compact count, then the chunks.
pub open spec fn sres_chunks_vec(s: Seq<u8>, pos: int) -> Result<(Seq<UnlockChunk>, int), DecodeError> {
    match sres_compact(s, pos) {
        Ok((count, p)) => sres_chunk_seq(s, p, count),
        Err(e) => Err(e),
    }
}

/// Decode an unlocking-chunk sequence with its compact length prefix.
pub fn decode_unlock_chunks(bytes: &Vec<u8>, pos: usize) -> (r: Result<(Vec<UnlockChunk>, usize), DecodeError>)
    ensures
        match r {
            Ok(vp) => sres_chunks_vec(bytes@, pos as int) matches Ok(sv)
                && sv.0 == vp.0@ && sv.1 == vp.1 as int,
            Err(e) => sres_chunks_vec(bytes@, pos as int) matches Err(se) && se == e,
        },
{
    let (count, start) = match decode_compact(bytes, pos) {
        Ok(x) => x,
        Err(e) => {
            return Err(e);
        },
    };
    let mut out: Vec<UnlockChunk> = Vec::new();
    let mut cur: usize = start;
    let mut i: u128 = 0;
    while i < count
        invariant
            i <= count,
            match sres_chunk_seq(bytes@, cur as int, (count - i) as nat) {
                Ok(sv) => sres_chunks_vec(bytes@, pos as int) matches Ok(w)
                    && w.0 == out@ + sv.0 && w.1 == sv.1,
                Err(e) => sres_chunks_vec(bytes@, pos as int) matches Err(se) && se == e,
            },
        decreases count - i,
    {
        let (c, p) = match decode_unlock_chunk(bytes, cur) {
            Ok(x) => x,
            Err(e) => {
                return Err(e);
            },
        };
        proof {
            match sres_chunk_seq(bytes@, p as int, (count - i - 1) as nat) {
                Ok((rest, end)) => {
                    assert(out@ + (seq![c] + rest) =~= out@.push(c) + rest);
                },
                Err(_) => {},
            }
        }
        out.push(c);
        cur = p;
        i = i + 1;
    }
    proof {
        assert(out@ + Seq::<UnlockChunk>::empty() =~= out@);
    }
    Ok((out, cur))
}

/// Reading `count` 4-byte era indices back to back.
pub open spec fn sres_u32_seq(s: Seq<u8>, pos: int, count: nat) -> Result<(Seq<u32>, int), DecodeError>
    decreases count,
{
    if count == 0 {
        Ok((Seq::empty(), pos))
    } else {
        match sres_uint(s, pos, 4) {
            Ok((v, p)) => match sres_u32_seq(s, p, (count - 1) as nat) {
                Ok((rest, end)) => Ok((seq![v as u32] + rest, end)),
                Err(e) => Err(e),
            },
            Err(e) => Err(e),
        }
    }
}

/// Reading an era-index sequence: a compact count, then 4-byte indices.
pub open spec fn sres_u32s_vec(s: Seq<u8>, pos: int) -> Result<(Seq<u32>, int), DecodeError> {
    match sres_compact(s, pos) {
        Ok((count, p)) => sres_u32_seq(s, p, count),
        Err(e) => Err(e),
    }
}

/// Decode an era-index sequence with its compact length prefix.
pub fn decode_u32s(bytes: &Vec<u8>, pos: usize) -> (r: Result<(Vec<u32>, usize), DecodeError>)
    ensures
        match r {
            Ok(vp) => sres_u32s_vec(bytes@, pos as int) matches Ok(sv)
                && sv.0 == vp.0@ && sv.1 == vp.1 as int,
            Err(e) => sres_u32s_vec(bytes@, pos as int) matches Err(se) && se == e,
        },
{
    let (count, start) = match decode_compact(bytes, pos) {
        Ok(x) => x,
        Err(e) => {
            return Err(e);
        },
    };
    let mut out: Vec<u32> = Vec::new();
    let mut cur: usize = start;
    let mut i: u128 = 0;
    while i < count
        invariant
            i <= count,
            match sres_u32_seq(bytes@, cur as int, (count - i) as nat) {
                Ok(sv) => sres_u32s_vec(bytes@, pos as int) matches Ok(w)
                    && w.0 == out@ + sv.0 && w.1 == sv.1,
                Err(e) => sres_u32s_vec(bytes@, pos as int) matches Err(se) && se == e,
            },
        decreases count - i,
    {
        let (v, p) = match decode_u32(bytes, cur) {
            Ok(x) => x,
            Err(e) => {
                return Err(e);
            },
        };
        proof {
            match sres_u32_seq(bytes@, p as int, (count - i - 1) as nat) {
                Ok((rest, end)) => {
                    assert(out@ + (seq![v] + rest) =~= out@.push(v) + rest);
                },
                Err(_) => {},
            }
        }
        out.push(v);
        cur = p;
        i = i + 1;
    }
    proof {
        assert(out@ + Seq::<u32>::empty() =~= out@);
    }
    Ok((out, cur))
}

/// Reading a nominations record: the target identities, the era the
/// nomination was submitted in, and the suppressed flag.
pub open spec fn sres_nominations(s: Seq<u8>, pos: int) -> Result<(NominationsV, int), DecodeError> {
    match sres_accounts_vec(s, pos) {
        Ok((targets, p)) => match sres_uint(s, p, 4) {
            Ok((era, p2)) => match sres_bool(s, p2) {
                Ok((sup, p3)) => Ok((
                    NominationsV { targets, submitted_in: era as u32, suppressed: sup },
                    p3,
                )),
                Err(e) => Err(e),
            },
            Err(e) => Err(e),
        },
        Err(e) => Err(e),
    }
}

/// Decode a nominations record.
pub fn decode_nominations(bytes: &Vec<u8>, pos: usize) -> (r: Result<(Nominations, usize), DecodeError>)
    ensures
        match r {
            Ok(vp) => sres_nominations(bytes@, pos as int) matches Ok(sv)
                && sv.0 == vp.0@ && sv.1 == vp.1 as int,
            Err(e) => sres_nominations(bytes@, pos as int) matches Err(se) && se == e,
        },
{
    let (targets, p) = match decode_accounts(bytes, pos) {
        Ok(x) => x,
        Err(e) => {
            return Err(e);
        },
    };
    let (submitted_in, p2) = match decode_u32(bytes, p) {
        Ok(x) => x,
        Err(e) => {
            return Err(e);
        },
    };
    let (suppressed, p3) = match decode_bool(bytes, p2) {
        Ok(x) => x,
        Err(e) => {
            return Err(e);
        },
    };
    Ok((Nominations { targets, submitted_in, suppressed }, p3))
}

/// Reading a staking ledger: the stash identity, compact total and active
/// stakes, the unlocking chunks, and the claimed-reward era indices.
pub open spec fn sres_ledger(s: Seq<u8>, pos: int) -> Result<(StakingLedgerV, int), DecodeError> {
    match sres_account(s, pos) {
        Ok((stash, p)) => match sres_compact(s, p) {
            Ok((total, p2)) => match sres_compact(s, p2) {
                Ok((active, p3)) => match sres_chunks_vec(s, p3) {
                    Ok((unlocking, p4)) => match sres_u32s_vec(s, p4) {
                        Ok((claimed, p5)) => Ok((
                            StakingLedgerV {
                                stash,
                                total: total as u128,
                                active: active as u128,
                                unlocking,
                                claimed_rewards: claimed,
                            },
                            p5,
                        )),
                        Err(e) => Err(e),
                    },
                    Err(e) => Err(e),
                },
                Err(e) => Err(e),
            },
            Err(e) => Err(e),
        },
        Err(e) => Err(e),
    }
}

/// Decode a staking ledger.
pub fn decode_ledger(bytes: &Vec<u8>, pos: usize) -> (r: Result<(StakingLedger, usize), DecodeError>)
    ensures
        match r {
            Ok(vp) => sres_ledger(bytes@, pos as int) matches Ok(sv)
                && sv.0 == vp.0@ && sv.1 == vp.1 as int,
            Err(e) => sres_ledger(bytes@, pos as int) matches Err(se) && se == e,
        },
{
    let (stash, p) = match decode_account(bytes, pos) {
        Ok(x) => x,
        Err(e) => {
            return Err(e);
        },
    };
    let (total, p2) = match decode_compact(bytes, p) {
        Ok(x) => x,
        Err(e) => {
            return Err(e);
        },
    };
    let (active, p3) = match decode_compact(bytes, p2) {
        Ok(x) => x,
        Err(e) => {
            return Err(e);
        },
    };
    let (unlocking, p4) = match decode_unlock_chunks(bytes, p3) {
        Ok(x) => x,
        Err(e) => {
            return Err(e);
        },
    };
    let (claimed_rewards, p5) = match decode_u32s(bytes, p4) {
        Ok(x) => x,
        Err(e) => {
            return Err(e);
        },
    };
    Ok((StakingLedger { stash, total, active, unlocking, claimed_rewards }, p5))
}

/// Reading one contributor's exposure: its identity and a compact stake.
pub open spec fn sres_individual_exposure(s: Seq<u8>, pos: int) -> Result<((Seq<u8>, u128), int), DecodeError> {
    match sres_account(s, pos) {
        Ok((who, p)) => match sres_compact(s, p) {
            Ok((v, p2)) => Ok(((who, v as u128), p2)),
            Err(e) => Err(e),
        },
        Err(e) => Err(e),
    }
}

/// Decode one contributor's exposure.
pub fn decode_individual_exposure(bytes: &Vec<u8>, pos: usize) -> (r: Result<(IndividualExposure, usize), DecodeError>)
    ensures
        match r {
            Ok(vp) => sres_individual_exposure(bytes@, pos as int) matches Ok(sv)
                && sv.0 == vp.0@ && sv.1 == vp.1 as int,
            Err(e) => sres_individual_exposure(bytes@, pos as int) matches Err(se) && se == e,
        },
{
    let (who, p) = match decode_account(bytes, pos) {
        Ok(x) => x,
        Err(e) => {
            return Err(e);
        },
    };
    let (value, p2) = match decode_compact(bytes, p) {
        Ok(x) => x,
        Err(e) => {
            return Err(e);
        },
    };
    Ok((IndividualExposure { who, value }, p2))
}

/// Reading `count` contributor exposures back to back.
pub open spec fn sres_iexp_seq(s: Seq<u8>, pos: int, count: nat) -> Result<(Seq<(Seq<u8>, u128)>, int), DecodeError>
    decreases count,
{
    if count == 0 {
        Ok((Seq::empty(), pos))
    } else {
        match sres_individual_exposure(s, pos) {
            Ok((e0, p)) => match sres_iexp_seq(s, p, (count - 1) as nat) {
                Ok((rest, end)) => Ok((seq![e0] + rest, end)),
                Err(e) => Err(e),
            },
            Err(e) => Err(e),
        }
    }
}

/// Reading a contributor-exposure sequence with its compact count.
pub open spec fn sres_iexps_vec(s: Seq<u8>, pos: int) -> Result<(Seq<(Seq<u8>, u128)>, int), DecodeError> {
    match sres_compact(s, pos) {
        Ok((count, p)) => sres_iexp_seq(s, p, count),
        Err(e) => Err(e),
    }
}

/// Decode a contributor-exposure sequence with its compact length prefix.
pub fn decode_individual_exposures(bytes: &Vec<u8>, pos: usize) -> (r: Result<(Vec<IndividualExposure>, usize), DecodeError>)
    ensures
        match r {
            Ok(vp) => sres_iexps_vec(bytes@, pos as int) matches Ok(sv)
                && sv.0 == vp.0@.map_values(|e: IndividualExposure| e@) && sv.1 == vp.1 as int,
            Err(e) => sres_iexps_vec(bytes@, pos as int) matches Err(se) && se == e,
        },
{
    let (count, start) = match decode_compact(bytes, pos) {
        Ok(x) => x,
        Err(e) => {
            return Err(e);
        },
    };
    let mut out: Vec<IndividualExposure> = Vec::new();
    let mut cur: usize = start;
    let mut i: u128 = 0;
    while i < count
        invariant
            i <= count,
            match sres_iexp_seq(bytes@, cur as int, (count - i) as nat) {
                Ok(sv) => sres_iexps_vec(bytes@, pos as int) matches Ok(w)
                    && w.0 == out@.map_values(|e: IndividualExposure| e@) + sv.0 && w.1 == sv.1,
                Err(e) => sres_iexps_vec(bytes@, pos as int) matches Err(se) && se == e,
            },
        decreases count - i,
    {
        let (e0, p) = match decode_individual_exposure(bytes, cur) {
            Ok(x) => x,
            Err(e) => {
                return Err(e);
            },
        };
        proof {
            let ov = out@.map_values(|x: IndividualExposure| x@);
            match sres_iexp_seq(bytes@, p as int, (count - i - 1) as nat) {
                Ok((rest, end)) => {
                    assert(ov + (seq![e0@] + rest) =~= ov.push(e0@) + rest);
                    assert(out@.push(e0).map_values(|x: IndividualExposure| x@) =~= ov.push(e0@));
                },
                Err(_) => {},
            }
        }
        out.push(e0);
        cur = p;
        i = i + 1;
    }
    proof {
        let ov = out@.map_values(|x: IndividualExposure| x@);
        assert(ov + Seq::<(Seq<u8>, u128)>::empty() =~= ov);
    }
    Ok((out, cur))
}

/// Reading one validator's full exposure: compact total and own stakes,
/// then the contributor list.
pub open spec fn sres_exposure(s: Seq<u8>, pos: int) -> Result<(ExposureV, int), DecodeError> {
    match sres_compact(s, pos) {
        Ok((total, p)) => match sres_compact(s, p) {
            Ok((own, p2)) => match sres_iexps_vec(s, p2) {
                Ok((others, p3)) => Ok((
                    ExposureV { total: total as u128, own: own as u128, others },
                    p3,
                )),
                Err(e) => Err(e),
            },
            Err(e) => Err(e),
        },
        Err(e) => Err(e),
    }
}

/// Decode one validator's full exposure.
pub fn decode_exposure(bytes: &Vec<u8>, pos: usize) -> (r: Result<(Exposure, usize), DecodeError>)
    ensures
        match r {
            Ok(vp) => sres_exposure(bytes@, pos as int) matches Ok(sv)
                && sv.0 == vp.0@ && sv.1 == vp.1 as int,
            Err(e) => sres_exposure(bytes@, pos as int) matches Err(se) && se == e,
        },
{
    let (total, p) = match decode_compact(bytes, pos) {
        Ok(x) => x,
        Err(e) => {
            return Err(e);
        },
    };
    let (own, p2) = match decode_compact(bytes, p) {
        Ok(x) => x,
        Err(e) => {
            return Err(e);
        },
    };
    let (others, p3) = match decode_individual_exposures(bytes, p2) {
        Ok(x) => x,
        Err(e) => {
            return Err(e);
        },
    };
    Ok((Exposure { total, own, others }, p3))
}

/// Reading one elected validator paired with its exposure.
pub open spec fn sres_exposure_pair(s: Seq<u8>, pos: int) -> Result<((Seq<u8>, ExposureV), int), DecodeError> {
    match sres_account(s, pos) {
        Ok((who, p)) => match sres_exposure(s, p) {
            Ok((exp, p2)) => Ok(((who, exp), p2)),
            Err(e) => Err(e),
        },
        Err(e) => Err(e),
    }
}

/// Reading `count` validator-exposure pairs back to back.
pub open spec fn sres_pair_seq(s: Seq<u8>, pos: int, count: nat) -> Result<(Seq<(Seq<u8>, ExposureV)>, int), DecodeError>
    decreases count,
{
    if count == 0 {
        Ok((Seq::empty(), pos))
    } else {
        match sres_exposure_pair(s, pos) {
            Ok((pr, p)) => match sres_pair_seq(s, p, (count - 1) as nat) {
                Ok((rest, end)) => Ok((seq![pr] + rest, end)),
                Err(e) => Err(e),
            },
            Err(e) => Err(e),
        }
    }
}

/// Reading a validator-exposure pair sequence with its compact count.
pub open spec fn sres_pairs_vec(s: Seq<u8>, pos: int) -> Result<(Seq<(Seq<u8>, ExposureV)>, int), DecodeError> {
    match sres_compact(s, pos) {
        Ok((count, p)) => sres_pair_seq(s, p, count),
        Err(e) => Err(e),
    }
}

/// Decode a validator-exposure pair sequence with its compact length prefix.
pub fn decode_exposure_pairs(bytes: &Vec<u8>, pos: usize) -> (r: Result<(Vec<(AccountId, Exposure)>, usize), DecodeError>)
    ensures
        match r {
            Ok(vp) => sres_pairs_vec(bytes@, pos as int) matches Ok(sv)
                && sv.0 == vp.0@.map_values(|e: (AccountId, Exposure)| (e.0@, e.1@))
                && sv.1 == vp.1 as int,
            Err(e) => sres_pairs_vec(bytes@, pos as int) matches Err(se) && se == e,
        },
{
    let (count, start) = match decode_compact(bytes, pos) {
        Ok(x) => x,
        Err(e) => {
            return Err(e);
        },
    };
    let mut out: Vec<(AccountId, Exposure)> = Vec::new();
    let mut cur: usize = start;
    let mut i: u128 = 0;
    while i < count
        invariant
            i <= count,
            match sres_pair_seq(bytes@, cur as int, (count - i) as nat) {
                Ok(sv) => sres_pairs_vec(bytes@, pos as int) matches Ok(w)
                    && w.0 == out@.map_values(|e: (AccountId, Exposure)| (e.0@, e.1@)) + sv.0
                    && w.1 == sv.1,
                Err(e) => sres_pairs_vec(bytes@, pos as int) matches Err(se) && se == e,
            },
        decreases count - i,
    {
        let (who, p) = match decode_account(bytes, cur) {
            Ok(x) => x,
            Err(e) => {
                return Err(e);
            },
        };
        let (exp, p2) = match decode_exposure(bytes, p) {
            Ok(x) => x,
            Err(e) => {
                return Err(e);
            },
        };
        proof {
            let ov = out@.map_values(|e: (AccountId, Exposure)| (e.0@, e.1@));
            match sres_pair_seq(bytes@, p2 as int, (count - i - 1) as nat) {
                Ok((rest, end)) => {
                    assert(ov + (seq![(who@, exp@)] + rest) =~= ov.push((who@, exp@)) + rest);
                    assert(out@.push((who, exp)).map_values(|e: (AccountId, Exposure)| (e.0@, e.1@))
                        =~= ov.push((who@, exp@)));
                },
                Err(_) => {},
            }
        }
        out.push((who, exp));
        cur = p2;
        i = i + 1;
    }
    proof {
        let ov = out@.map_values(|e: (AccountId, Exposure)| (e.0@, e.1@));
        assert(ov + Seq::<(Seq<u8>, ExposureV)>::empty() =~= ov);
    }
    Ok((out, cur))
}

/// Reading the election-compute tag: 0, 1 or 2.
pub open spec fn sres_compute(s: Seq<u8>, pos: int) -> Result<(ElectionCompute, int), DecodeError> {
    if 0 <= pos < s.len() {
        if s[pos] == 0 {
            Ok((ElectionCompute::OnChain, pos + 1))
        } else if s[pos] == 1 {
            Ok((ElectionCompute::Signed, pos + 1))
        } else if s[pos] == 2 {
            Ok((ElectionCompute::Unsigned, pos + 1))
        } else {
            Err(DecodeError::InvalidDiscriminant)
        }
    } else {
        Err(DecodeError::TruncatedInput)
    }
}

/// Reading a queued election result: the elected identities, their
/// exposures, and how the election was computed.
pub open spec fn sres_election_result(s: Seq<u8>, pos: int) -> Result<(ElectionResultV, int), DecodeError> {
    match sres_accounts_vec(s, pos) {
        Ok((elected, p)) => match sres_pairs_vec(s, p) {
            Ok((exposures, p2)) => match sres_compute(s, p2) {
                Ok((compute, p3)) => Ok((
                    ElectionResultV { elected_stashes: elected, exposures, compute },
                    p3,
                )),
                Err(e) => Err(e),
            },
            Err(e) => Err(e),
        },
        Err(e) => Err(e),
    }
}

/// Decode a queued election result.
pub fn decode_election_result(bytes: &Vec<u8>, pos: usize) -> (r: Result<(ElectionResult, usize), DecodeError>)
    ensures
        match r {
            Ok(vp) => sres_election_result(bytes@, pos as int) matches Ok(sv)
                && sv.0 == vp.0@ && sv.1 == vp.1 as int,
            Err(e) => sres_election_result(bytes@, pos as int) matches Err(se) && se == e,
        },
{
    let (elected_stashes, p) = match decode_accounts(bytes, pos) {
        Ok(x) => x,
        Err(e) => {
            return Err(e);
        },
    };
    let (exposures, p2) = match decode_exposure_pairs(bytes, p) {
        Ok(x) => x,
        Err(e) => {
            return Err(e);
        },
    };
    if p2 >= bytes.len() {
        return Err(DecodeError::TruncatedInput);
    }
    let tag = bytes[p2];
    let compute = if tag == 0 {
        ElectionCompute::OnChain
    } else if tag == 1 {
        ElectionCompute::Signed
    } else if tag == 2 {
        ElectionCompute::Unsigned
    } else {
        return Err(DecodeError::InvalidDiscriminant);
    };
    Ok((ElectionResult { elected_stashes, exposures, compute }, p2 + 1))
}

} // verus!
