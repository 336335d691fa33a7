//! The checksummed, network-versioned address codec.
//!
//! An account identity is rendered as text by prepending the network's
//! version byte, appending the leading two bytes of the 64-byte Blake2b
//! digest of `"SS58PRE"` followed by the versioned payload, and base-58
//! encoding the whole. Decoding inverts every step and rejects a wrong
//! version or a checksum that does not match. The network format is an
//! explicit parameter of every call and is never global state.

use crate::hashing::{blake2b512_of, blake2b_512};
use crate::types::{account_wf, AccountId};
use vstd::prelude::*;

verus! {

/// Failure of address decoding.
///
/// `InvalidBase58`: the text is not base-58. `BadLength`: the decoded
/// payload is not the 35 bytes a versioned account carries.
/// `UnknownVersion`: the version byte is not the active network's.
/// `ChecksumMismatch`: the trailing two bytes disagree with the digest.
#[derive(Clone, Copy, Debug, PartialEq, Eq, Structural)]
pub enum AddressError {
    InvalidBase58,
    BadLength,
    UnknownVersion,
    ChecksumMismatch,
}

/// One supported network, selecting the address version byte.
#[derive(Clone, Copy, Debug, PartialEq, Eq, Structural)]
pub enum NetworkFormat {
    Polkadot,
    Kusama,
    Substrate,
}

/// The version byte each network prepends to an address payload.
pub open spec fn spec_version_byte(fmt: NetworkFormat) -> u8 {
    match fmt {
        NetworkFormat::Polkadot => 0,
        NetworkFormat::Kusama => 2,
        NetworkFormat::Substrate => 42,
    }
}

/// The version byte of the given network.
pub fn version_byte(fmt: NetworkFormat) -> (r: u8)
    ensures
        r == spec_version_byte(fmt),
{
    match fmt {
        NetworkFormat::Polkadot => 0,
        NetworkFormat::Kusama => 2,
        NetworkFormat::Substrate => 42,
    }
}

/// The 7 ASCII bytes `"SS58PRE"` that prefix every checksum input.
pub open spec fn ss58_prefix() -> Seq<u8> {
    seq![0x53u8, 0x53u8, 0x35u8, 0x38u8, 0x50u8, 0x52u8, 0x45u8]
}

/// The two checksum bytes of a versioned payload head: the leading two
/// bytes of the Blake2b digest of the prefixed head.
pub open spec fn spec_checksum(head: Seq<u8>) -> Seq<u8> {
    seq![
        blake2b512_of(ss58_prefix() + head)[0],
        blake2b512_of(ss58_prefix() + head)[1],
    ]
}

/// The 35-byte payload of an address: version byte, identity, checksum.
pub open spec fn spec_payload(id: Seq<u8>, fmt: NetworkFormat) -> Seq<u8> {
    seq![spec_version_byte(fmt)] + id + spec_checksum(seq![spec_version_byte(fmt)] + id)
}

/// Parsing a decoded payload for the given network: the identity, if the
/// length, version byte and checksum all agree.
pub open spec fn spec_parse_payload(b: Seq<u8>, fmt: NetworkFormat) -> Option<Seq<u8>> {
    if b.len() == 35 && b[0] == spec_version_byte(fmt) && b.skip(33) == spec_checksum(b.take(33)) {
        Some(b.subrange(1, 33))
    } else {
        None
    }
}

/// The base-58 text of a byte string (Bitcoin alphabet).
pub uninterp spec fn base58_of(b: Seq<u8>) -> Seq<char>;

/// Relies on bs58::encode with the default alphabet: the base-58 text of
/// the bytes, a pure function of them.
#[verifier::external_body]
pub(crate) fn base58_encode(b: &Vec<u8>) -> (r: String)
    ensures
        r@ == base58_of(b@),
{
    bs58::encode(b.as_slice()).into_string()
}

/// Relies on bs58::decode with the default alphabet: decoding inverts
/// encoding, succeeding exactly on the texts that some byte string encodes
/// to and returning that unique byte string.
#[verifier::external_body]
pub(crate) fn base58_decode(s: &str) -> (r: Option<Vec<u8>>)
    ensures
        match r {
            Some(v) => s@ == base58_of(v@) && forall|b: Seq<u8>|
                s@ == #[trigger] base58_of(b) ==> b == v@,
            None => forall|b: Seq<u8>| s@ != #[trigger] base58_of(b),
        },
{
    match bs58::decode(s).into_vec() {
        Ok(v) => Some(v),
        Err(_) => None,
    }
}

/// Render an identity as checksummed base-58 text for the given network.
pub fn encode_address(id: &AccountId, fmt: NetworkFormat) -> (r: String)
    requires
        account_wf(id@),
    ensures
        r@ == base58_of(spec_payload(id@, fmt)),
{
    let ver = version_byte(fmt);
    let mut payload: Vec<u8> = Vec::new();
    payload.push(ver);
    let mut i: usize = 0;
    while i < id.bytes.len()
        invariant
            i <= id.bytes.len(),
            payload@ == seq![spec_version_byte(fmt)] + id.bytes@.subrange(0, i as int),
        decreases id.bytes.len() - i,
    {
        payload.push(id.bytes[i]);
        assert(payload@ =~= seq![spec_version_byte(fmt)] + id.bytes@.subrange(0, i + 1));
        i = i + 1;
    }
    assert(payload@ =~= seq![spec_version_byte(fmt)] + id@);
    let mut input: Vec<u8> = Vec::new();
    input.push(0x53);
    input.push(0x53);
    input.push(0x35);
    input.push(0x38);
    input.push(0x50);
    input.push(0x52);
    input.push(0x45);
    assert(input@ =~= ss58_prefix());
    let mut j: usize = 0;
    while j < payload.len()
        invariant
            j <= payload.len(),
            payload@ == seq![spec_version_byte(fmt)] + id@,
            input@ == ss58_prefix() + payload@.subrange(0, j as int),
        decreases payload.len() - j,
    {
        input.push(payload[j]);
        assert(input@ =~= ss58_prefix() + payload@.subrange(0, j + 1));
        j = j + 1;
    }
    assert(input@ =~= ss58_prefix() + (seq![spec_version_byte(fmt)] + id@));
    let h = blake2b_512(&input);
    payload.push(h[0]);
    payload.push(h[1]);
    proof {
        assert(payload@ =~= spec_payload(id@, fmt));
    }
    base58_encode(&payload)
}

/// Decode checksummed base-58 text into the identity it names on the
/// given network.
///
/// Succeeds exactly on the canonical encoding of an identity for this
/// network; each error names the first check that failed.
pub fn decode_address(s: &str, fmt: NetworkFormat) -> (r: Result<AccountId, AddressError>)
    ensures
        match r {
            Ok(a) => account_wf(a@) && s@ == base58_of(spec_payload(a@, fmt)),
            Err(e) => match e {
                AddressError::InvalidBase58 => forall|b: Seq<u8>| s@ != #[trigger] base58_of(b),
                AddressError::BadLength => exists|b: Seq<u8>|
                    s@ == #[trigger] base58_of(b) && b.len() != 35,
                AddressError::UnknownVersion => exists|b: Seq<u8>|
                    s@ == #[trigger] base58_of(b) && b.len() == 35
                        && b[0] != spec_version_byte(fmt),
                AddressError::ChecksumMismatch => exists|b: Seq<u8>|
                    s@ == #[trigger] base58_of(b) && b.len() == 35
                        && b[0] == spec_version_byte(fmt) && b.skip(33) != spec_checksum(b.take(33)),
            },
        },
        forall|id: Seq<u8>|
            account_wf(id) && s@ == #[trigger] base58_of(spec_payload(id, fmt)) ==> (
            r matches Ok(a) && a@ == id),
{
    let v = match base58_decode(s) {
        Some(v) => v,
        None => {
            return Err(AddressError::InvalidBase58);
        },
    };
    proof {
        assert forall|id: Seq<u8>|
            account_wf(id) && s@ == #[trigger] base58_of(spec_payload(id, fmt)) implies
            spec_payload(id, fmt) == v@ by {}
    }
    if v.len() != 35 {
        return Err(AddressError::BadLength);
    }
    let ver = version_byte(fmt);
    if v[0] != ver {
        return Err(AddressError::UnknownVersion);
    }
    let mut input: Vec<u8> = Vec::new();
    input.push(0x53);
    input.push(0x53);
    input.push(0x35);
    input.push(0x38);
    input.push(0x50);
    input.push(0x52);
    input.push(0x45);
    assert(input@ =~= ss58_prefix());
    let mut j: usize = 0;
    while j < 33
        invariant
            j <= 33,
            v@.len() == 35,
            input@ == ss58_prefix() + v@.subrange(0, j as int),
        decreases 33 - j,
    {
        input.push(v[j]);
        assert(input@ =~= ss58_prefix() + v@.subrange(0, j + 1));
        j = j + 1;
    }
    assert(input@ =~= ss58_prefix() + v@.take(33));
    let h = blake2b_512(&input);
    if v[33] != h[0] || v[34] != h[1] {
        proof {
            assert(v@.skip(33)[0] == v@[33] && v@.skip(33)[1] == v@[34]);
            assert(v@.skip(33) != spec_checksum(v@.take(33)));
            assert forall|id: Seq<u8>|
                !(account_wf(id) && s@ == #[trigger] base58_of(spec_payload(id, fmt))) by {
                if account_wf(id) && s@ == base58_of(spec_payload(id, fmt)) {
                    lemma_address_round_trip(id, fmt);
                    assert(spec_payload(id, fmt) == v@);
                }
            }
        }
        return Err(AddressError::ChecksumMismatch);
    }
    let mut out: Vec<u8> = Vec::new();
    let mut k: usize = 1;
    while k < 33
        invariant
            1 <= k <= 33,
            v@.len() == 35,
            out@ == v@.subrange(1, k as int),
        decreases 33 - k,
    {
        out.push(v[k]);
        assert(out@ =~= v@.subrange(1, k + 1));
        k = k + 1;
    }
    let a = AccountId { bytes: out };
    proof {
        assert(v@.skip(33) =~= spec_checksum(v@.take(33)));
        assert(spec_parse_payload(v@, fmt) == Some(a@));
        lemma_parse_canonical(v@, fmt, a@);
        assert(s@ == base58_of(spec_payload(a@, fmt)));
        assert forall|id: Seq<u8>|
            account_wf(id) && s@ == #[trigger] base58_of(spec_payload(id, fmt)) implies
            a@ == id by {
            assert(spec_payload(id, fmt) == v@);
            assert(id =~= spec_payload(id, fmt).subrange(1, 33));
        }
    }
    Ok(a)
}

/// Law: a payload that parses is canonical — it is byte-identical to the
/// payload built from the identity it parses to, checksum included.
pub proof fn lemma_parse_canonical(b: Seq<u8>, fmt: NetworkFormat, id: Seq<u8>)
    requires
        spec_parse_payload(b, fmt) == Some(id),
    ensures
        account_wf(id),
        b == spec_payload(id, fmt),
{
    assert(b.take(33) =~= seq![spec_version_byte(fmt)] + id);
    assert(b =~= b.take(33) + b.skip(33));
    assert(spec_payload(id, fmt) =~= b.take(33) + spec_checksum(b.take(33)));
}

/// Law: decoding inverts encoding — the payload built from any identity
/// parses back to exactly that identity on the same network.
pub proof fn lemma_address_round_trip(id: Seq<u8>, fmt: NetworkFormat)
    requires
        account_wf(id),
    ensures
        spec_parse_payload(spec_payload(id, fmt), fmt) == Some(id),
{
    let p = spec_payload(id, fmt);
    assert(p.len() == 35);
    assert(p[0] == spec_version_byte(fmt));
    assert(p.take(33) =~= seq![spec_version_byte(fmt)] + id);
    assert(p.skip(33) =~= spec_checksum(p.take(33)));
    assert(p.subrange(1, 33) =~= id);
}

/// Law: corrupting the checksum bytes of a canonical payload — keeping
/// the version and identity — always makes parsing fail.
pub proof fn lemma_checksum_corruption_rejected(id: Seq<u8>, fmt: NetworkFormat, b: Seq<u8>)
    requires
        account_wf(id),
        b.len() == 35,
        b.take(33) == spec_payload(id, fmt).take(33),
        b != spec_payload(id, fmt),
    ensures
        spec_parse_payload(b, fmt) is None,
{
    lemma_address_round_trip(id, fmt);
    let p = spec_payload(id, fmt);
    match spec_parse_payload(b, fmt) {
        Some(id2) => {
            lemma_parse_canonical(b, fmt, id2);
            assert(id2 =~= b.subrange(1, 33));
            assert(p.take(33) =~= seq![spec_version_byte(fmt)] + id);
            assert(id =~= p.take(33).subrange(1, 33));
            assert(b.subrange(1, 33) =~= b.take(33).subrange(1, 33));
            assert(id2 == id);
            assert(false);
        },
        None => {},
    }
}

} // verus!
