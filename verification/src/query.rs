//! Typed accessors over fetched storage values.
//!
//! The surrounding application derives each item's key, fetches the raw
//! bytes (or learns they are absent), and hands them here. Absence is a
//! first-class outcome — the item has never been set in that state — and
//! is distinguished from a decode failure, which aborts the query. Bytes
//! past the value's own shape are ignored, as stored values always carry
//! exactly one value.

use crate::decode::{
    decode_accounts, decode_active_era, decode_election_result, sres_accounts_vec,
    sres_active_era, sres_election_result, sres_uint,
};
use crate::scale::decode_u32;
use crate::types::{AccountId, ActiveEraInfo, ElectionResult};
use crate::DecodeError;
use vstd::prelude::*;

verus! {

/// The active era record, from the bytes fetched under its key.
pub fn active_era(raw: &Option<Vec<u8>>) -> (r: Result<Option<ActiveEraInfo>, DecodeError>)
    ensures
        match raw {
            None => r matches Ok(v) && v is None,
            Some(b) => match r {
                Ok(v) => v matches Some(info) && (sres_active_era(b@, 0) matches Ok(sv)
                    && sv.0 == info),
                Err(e) => sres_active_era(b@, 0) matches Err(se) && se == e,
            },
        },
{
    match raw {
        None => Ok(None),
        Some(b) => match decode_active_era(b, 0) {
            Ok((info, _)) => Ok(Some(info)),
            Err(e) => Err(e),
        },
    }
}

/// The planned era index, from the bytes fetched under its key.
pub fn planned_era(raw: &Option<Vec<u8>>) -> (r: Result<Option<u32>, DecodeError>)
    ensures
        match raw {
            None => r matches Ok(v) && v is None,
            Some(b) => match r {
                Ok(v) => v matches Some(idx) && (sres_uint(b@, 0, 4) matches Ok(sv)
                    && sv.0 == idx as nat),
                Err(e) => sres_uint(b@, 0, 4) matches Err(se) && se == e,
            },
        },
{
    match raw {
        None => Ok(None),
        Some(b) => match decode_u32(b, 0) {
            Ok((idx, _)) => Ok(Some(idx)),
            Err(e) => Err(e),
        },
    }
}

/// The session counter, from the bytes fetched under its key.
pub fn session_index(raw: &Option<Vec<u8>>) -> (r: Result<Option<u32>, DecodeError>)
    ensures
        match raw {
            None => r matches Ok(v) && v is None,
            Some(b) => match r {
                Ok(v) => v matches Some(idx) && (sres_uint(b@, 0, 4) matches Ok(sv)
                    && sv.0 == idx as nat),
                Err(e) => sres_uint(b@, 0, 4) matches Err(se) && se == e,
            },
        },
{
    match raw {
        None => Ok(None),
        Some(b) => match decode_u32(b, 0) {
            Ok((idx, _)) => Ok(Some(idx)),
            Err(e) => Err(e),
        },
    }
}

/// The current session's validator identity list, from the bytes fetched
/// under its key.
pub fn session_validators(raw: &Option<Vec<u8>>) -> (r: Result<Option<Vec<AccountId>>, DecodeError>)
    ensures
        match raw {
            None => r matches Ok(v) && v is None,
            Some(b) => match r {
                Ok(v) => v matches Some(ids) && (sres_accounts_vec(b@, 0) matches Ok(sv)
                    && sv.0 == ids@.map_values(|a: AccountId| a@)),
                Err(e) => sres_accounts_vec(b@, 0) matches Err(se) && se == e,
            },
        },
{
    match raw {
        None => Ok(None),
        Some(b) => match decode_accounts(b, 0) {
            Ok((ids, _)) => Ok(Some(ids)),
            Err(e) => Err(e),
        },
    }
}

/// The queued election result, from the bytes fetched under its key.
pub fn queued_validators(raw: &Option<Vec<u8>>) -> (r: Result<Option<ElectionResult>, DecodeError>)
    ensures
        match raw {
            None => r matches Ok(v) && v is None,
            Some(b) => match r {
                Ok(v) => v matches Some(res) && (sres_election_result(b@, 0) matches Ok(sv)
                    && sv.0 == res@),
                Err(e) => sres_election_result(b@, 0) matches Err(se) && se == e,
            },
        },
{
    match raw {
        None => Ok(None),
        Some(b) => match decode_election_result(b, 0) {
            Ok((res, _)) => Ok(Some(res)),
            Err(e) => Err(e),
        },
    }
}

} // verus!
