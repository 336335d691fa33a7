//! Storage-key derivation: reproducing the node's own hashing scheme.
//!
//! A named item lives under a fixed 32-byte prefix: the 128-bit xxHash of
//! the module name (two seeded 64-bit rounds, little-endian, concatenated)
//! followed by the same for the item name. A map entry appends a suffix
//! made from its encoded key: either the key's 8-byte seeded xxHash or its
//! 16-byte Blake2b digest, in both cases followed by the raw key itself, so
//! the key — here an account identity — can be read back off the end.
//! Deriving with the wrong hasher yields a key under which nothing is
//! stored; the hasher is therefore an explicit parameter.

use crate::hashing::{blake2b128_of, blake2b_128, xx64, xxhash64};
use crate::scale::{encode_uint_le, le_bytes, lemma_le_bytes_len};
use crate::types::{account_wf, AccountId};
use crate::DecodeError;
use vstd::prelude::*;
use vstd::string::StringSliceAdditionalSpecFns;

verus! {

/// Whether a byte is an ASCII hexadecimal digit, either case.
pub open spec fn is_hex_digit(b: u8) -> bool {
    (0x30 <= b <= 0x39) || (0x61 <= b <= 0x66) || (0x41 <= b <= 0x46)
}

/// The value of an ASCII hexadecimal digit.
pub open spec fn hex_val(b: u8) -> nat {
    if 0x30 <= b <= 0x39 {
        (b - 0x30) as nat
    } else if 0x61 <= b <= 0x66 {
        (b - 0x61 + 10) as nat
    } else if 0x41 <= b <= 0x46 {
        (b - 0x41 + 10) as nat
    } else {
        0
    }
}

/// Whether a byte string is well-formed hexadecimal text: even length,
/// every byte a digit.
pub open spec fn spec_hex_ok(s: Seq<u8>) -> bool {
    s.len() % 2 == 0 && forall|i: int| 0 <= i < s.len() ==> is_hex_digit(#[trigger] s[i])
}

/// The bytes hexadecimal text denotes, two digits each.
pub open spec fn spec_hex_bytes(s: Seq<u8>) -> Seq<u8>
    decreases s.len(),
{
    if s.len() < 2 {
        Seq::empty()
    } else {
        seq![(hex_val(s[0]) * 16 + hex_val(s[1])) as u8] + spec_hex_bytes(s.skip(2))
    }
}

/// Relies on hex::decode: it succeeds exactly on even-length strings of
/// hexadecimal digits of either case, returning the denoted bytes.
#[verifier::external_body]
pub(crate) fn hex_decode(s: &[u8]) -> (r: Option<Vec<u8>>)
    ensures
        match r {
            Some(v) => spec_hex_ok(s@) && v@ == spec_hex_bytes(s@),
            None => !spec_hex_ok(s@),
        },
{
    match hex::decode(s) {
        Ok(v) => Some(v),
        Err(_) => None,
    }
}

/// Parse a node-reported textual storage key: a leading `"0x"` followed
/// by an even number of hexadecimal digits.
pub fn string_to_key(s: &str) -> (r: Option<Vec<u8>>)
    ensures
        ({
            let sb = s.spec_bytes();
            match r {
                Some(k) => sb.len() >= 2 && sb[0] == 0x30 && sb[1] == 0x78
                    && spec_hex_ok(sb.skip(2)) && k@ == spec_hex_bytes(sb.skip(2)),
                None => !(sb.len() >= 2 && sb[0] == 0x30 && sb[1] == 0x78
                    && spec_hex_ok(sb.skip(2))),
            }
        }),
{
    let b = s.as_bytes();
    if b.len() < 2 {
        return None;
    }
    if b[0] != 0x30 || b[1] != 0x78 {
        return None;
    }
    let tail = &b[2..b.len()];
    assert(tail@ =~= s.spec_bytes().skip(2));
    hex_decode(tail)
}

/// The hash flavor a map storage item declares for its keys.
#[derive(Clone, Copy, Debug, PartialEq, Eq, Structural)]
pub enum StorageHasher {
    Twox64Concat,
    Blake2_128Concat,
}

/// The 16-byte 128-bit xxHash of `s`: the seed-0 and seed-1 64-bit rounds,
/// each written little-endian, concatenated.
pub open spec fn spec_twox128(s: Seq<u8>) -> Seq<u8> {
    le_bytes(xx64(0, s) as nat, 8) + le_bytes(xx64(1, s) as nat, 8)
}

/// The fixed 32-byte prefix of a named storage item.
pub open spec fn spec_prefix(module: Seq<u8>, item: Seq<u8>) -> Seq<u8> {
    spec_twox128(module) + spec_twox128(item)
}

/// The per-entry suffix a map key contributes under the given hasher.
pub open spec fn spec_key_suffix(key: Seq<u8>, hasher: StorageHasher) -> Seq<u8> {
    match hasher {
        StorageHasher::Twox64Concat => le_bytes(xx64(0, key) as nat, 8) + key,
        StorageHasher::Blake2_128Concat => blake2b128_of(key) + key,
    }
}

/// The full key of one entry of a map storage item.
pub open spec fn spec_full_key(
    module: Seq<u8>,
    item: Seq<u8>,
    key: Seq<u8>,
    hasher: StorageHasher,
) -> Seq<u8> {
    spec_prefix(module, item) + spec_key_suffix(key, hasher)
}

/// Compute the 128-bit xxHash of `data`.
pub fn twox128(data: &Vec<u8>) -> (r: Vec<u8>)
    ensures
        r@ == spec_twox128(data@),
        r@.len() == 16,
{
    let h0 = xxhash64(0, data);
    let h1 = xxhash64(1, data);
    let mut out = encode_uint_le(h0 as u128, 8);
    let mut second = encode_uint_le(h1 as u128, 8);
    out.append(&mut second);
    proof {
        assert(out@ =~= spec_twox128(data@));
    }
    out
}

/// Compute the fixed 32-byte prefix under which the named item is stored.
pub fn storage_prefix(module: &Vec<u8>, item: &Vec<u8>) -> (r: Vec<u8>)
    ensures
        r@ == spec_prefix(module@, item@),
        r@.len() == 32,
{
    let mut out = twox128(module);
    let mut second = twox128(item);
    out.append(&mut second);
    proof {
        assert(out@ =~= spec_prefix(module@, item@));
    }
    out
}

/// Compute the full key under which one map entry is stored.
///
/// A pure function of its arguments: deriving twice from the same names,
/// key and hasher yields byte-identical output.
pub fn full_key(
    module: &Vec<u8>,
    item: &Vec<u8>,
    map_key: &Vec<u8>,
    hasher: StorageHasher,
) -> (r: Vec<u8>)
    ensures
        r@ == spec_full_key(module@, item@, map_key@, hasher),
{
    let mut out = storage_prefix(module, item);
    let mut hashed = match hasher {
        StorageHasher::Twox64Concat => {
            let h = xxhash64(0, map_key);
            encode_uint_le(h as u128, 8)
        },
        StorageHasher::Blake2_128Concat => blake2b_128(map_key),
    };
    out.append(&mut hashed);
    let mut raw = Vec::new();
    let mut i: usize = 0;
    while i < map_key.len()
        invariant
            i <= map_key.len(),
            raw@ == map_key@.subrange(0, i as int),
        decreases map_key.len() - i,
    {
        raw.push(map_key[i]);
        assert(raw@ =~= map_key@.subrange(0, i + 1));
        i = i + 1;
    }
    assert(raw@ =~= map_key@);
    out.append(&mut raw);
    proof {
        assert(out@ =~= spec_full_key(module@, item@, map_key@, hasher));
    }
    out
}

/// Law: both hash flavors preserve the raw map key verbatim at the end of
/// the full key, so the last `key.len()` bytes of a full key are the key.
pub proof fn lemma_full_key_identity_suffix(
    module: Seq<u8>,
    item: Seq<u8>,
    key: Seq<u8>,
    hasher: StorageHasher,
)
    ensures
        spec_full_key(module, item, key, hasher).len() >= key.len(),
        spec_full_key(module, item, key, hasher).skip(
            spec_full_key(module, item, key, hasher).len() - key.len(),
        ) == key,
{
    let full = spec_full_key(module, item, key, hasher);
    let head = spec_prefix(module, item) + match hasher {
        StorageHasher::Twox64Concat => le_bytes(xx64(0, key) as nat, 8),
        StorageHasher::Blake2_128Concat => blake2b128_of(key),
    };
    assert(full =~= head + key);
    assert((head + key).skip(head.len() as int) =~= key);
}

/// Law: under the 64-bit identity-preserving hasher a full key made from a
/// 32-byte account key is exactly 72 bytes, and its last 32 bytes are the
/// account.
pub proof fn lemma_twox64_full_key_length(
    module: Seq<u8>,
    item: Seq<u8>,
    key: Seq<u8>,
)
    requires
        account_wf(key),
    ensures
        spec_full_key(module, item, key, StorageHasher::Twox64Concat).len() == 72,
        spec_full_key(module, item, key, StorageHasher::Twox64Concat).skip(40) == key,
{
    lemma_le_bytes_len(xx64(0, module) as nat, 8);
    lemma_le_bytes_len(xx64(1, module) as nat, 8);
    lemma_le_bytes_len(xx64(0, item) as nat, 8);
    lemma_le_bytes_len(xx64(1, item) as nat, 8);
    lemma_le_bytes_len(xx64(0, key) as nat, 8);
    lemma_full_key_identity_suffix(module, item, key, StorageHasher::Twox64Concat);
}

/// Read the account identity back off the end of a map entry's full key.
///
/// A full key of a map keyed by account under the 64-bit
/// identity-preserving hasher is exactly 72 bytes: the 32-byte prefix, the
/// key's 8-byte hash, and the 32-byte account itself.
pub fn key_to_account(key: &Vec<u8>) -> (r: Result<AccountId, DecodeError>)
    ensures
        match r {
            Ok(a) => key@.len() == 72 && a@ == key@.skip(40) && account_wf(a@),
            Err(e) => key@.len() != 72 && e == DecodeError::BadKeyLength,
        },
{
    if key.len() != 72 {
        return Err(DecodeError::BadKeyLength);
    }
    let mut out: Vec<u8> = Vec::new();
    let mut i: usize = 40;
    while i < 72
        invariant
            40 <= i <= 72,
            key@.len() == 72,
            out@ == key@.subrange(40, i as int),
        decreases 72 - i,
    {
        out.push(key[i]);
        assert(out@ =~= key@.subrange(40, i + 1));
        i = i + 1;
    }
    proof {
        assert(out@ =~= key@.skip(40));
    }
    Ok(AccountId { bytes: out })
}

} // verus!
