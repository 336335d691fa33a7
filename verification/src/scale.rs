//! Binary decoder and encoder for the node's storage encoding.
//!
//! The wire format writes fixed-width integers in little-endian order,
//! variable-length ("compact") integers with a two-bit mode selector,
//! options with a one-byte tag, booleans as a single byte, and sequences
//! as a compact length prefix followed by the elements back to back.
//! Decoding is lenient about non-minimal compact encodings; encoding
//! always chooses the minimal mode.

use crate::DecodeError;
use vstd::prelude::*;

verus! {

/// 256 to the power `n`: the number of byte strings of length `n`.
pub open spec fn pow256(n: nat) -> nat
    decreases n,
{
    if n == 0 {
        1
    } else {
        256 * pow256((n - 1) as nat)
    }
}

/// The value a byte sequence denotes when read as a little-endian integer.
pub open spec fn le_val(s: Seq<u8>) -> nat
    decreases s.len(),
{
    if s.len() == 0 {
        0
    } else {
        s[0] as nat + 256 * le_val(s.skip(1))
    }
}

/// The `n` little-endian bytes of `v` (low byte first).
pub open spec fn le_bytes(v: nat, n: nat) -> Seq<u8>
    decreases n,
{
    if n == 0 {
        Seq::empty()
    } else {
        seq![(v % 256) as u8] + le_bytes(v / 256, (n - 1) as nat)
    }
}

pub proof fn lemma_pow256_pos(n: nat)
    ensures
        pow256(n) >= 1,
    decreases n,
{
    if n > 0 {
        lemma_pow256_pos((n - 1) as nat);
    }
}

pub proof fn lemma_pow256_mono(m: nat, n: nat)
    requires
        m <= n,
    ensures
        pow256(m) <= pow256(n),
    decreases n,
{
    if m < n {
        lemma_pow256_mono(m, (n - 1) as nat);
        lemma_pow256_pos((n - 1) as nat);
    }
}

pub proof fn lemma_le_val_bound(s: Seq<u8>)
    ensures
        le_val(s) < pow256(s.len()),
    decreases s.len(),
{
    if s.len() > 0 {
        lemma_le_val_bound(s.skip(1));
        assert(le_val(s) < pow256(s.len())) by {
            let rest = le_val(s.skip(1));
            let p = pow256((s.len() - 1) as nat);
            assert(rest <= p - 1);
            assert(s[0] as nat <= 255);
            assert(256 * rest <= 256 * (p - 1)) by (nonlinear_arith)
                requires rest <= p - 1 && p >= 1;
        }
    }
}

pub proof fn lemma_le_bytes_len(v: nat, n: nat)
    ensures
        le_bytes(v, n).len() == n,
    decreases n,
{
    if n > 0 {
        lemma_le_bytes_len(v / 256, (n - 1) as nat);
    }
}

pub proof fn lemma_le_bytes_val(v: nat, n: nat)
    requires
        v < pow256(n),
    ensures
        le_bytes(v, n).len() == n,
        le_val(le_bytes(v, n)) == v,
    decreases n,
{
    if n > 0 {
        let q = v / 256;
        let r = v % 256;
        vstd::arithmetic::div_mod::lemma_fundamental_div_mod(v as int, 256);
        vstd::arithmetic::div_mod::lemma_mod_bound(v as int, 256);
        assert(q < pow256((n - 1) as nat)) by (nonlinear_arith)
            requires
                v < 256 * pow256((n - 1) as nat),
                v == 256 * q + r,
                0 <= r < 256,
                q >= 0,
        ;
        lemma_le_bytes_val(q, (n - 1) as nat);
        let s = le_bytes(v, n);
        assert(s == seq![r as u8] + le_bytes(q, (n - 1) as nat));
        assert(s.skip(1) =~= le_bytes(q, (n - 1) as nat));
        assert(s[0] == r as u8);
    }
}

/// Reading `n` bytes at `pos` as a little-endian integer, when they are there.
pub open spec fn spec_decode_uint(s: Seq<u8>, pos: int, n: int) -> Option<(nat, int)> {
    if 0 <= pos && 0 <= n && pos + n <= s.len() {
        Some((le_val(s.subrange(pos, pos + n)), pos + n))
    } else {
        None
    }
}

/// Decode an `n`-byte little-endian unsigned integer at `pos`.
pub fn decode_uint(bytes: &Vec<u8>, pos: usize, n: usize) -> (r: Result<(u128, usize), DecodeError>)
    requires
        n <= 16,
    ensures
        match r {
            Ok(vp) => spec_decode_uint(bytes@, pos as int, n as int) == Some((vp.0 as nat, vp.1 as int)),
            Err(e) => spec_decode_uint(bytes@, pos as int, n as int) is None
                && e == DecodeError::TruncatedInput,
        },
{
    if bytes.len() < n || pos > bytes.len() - n {
        return Err(DecodeError::TruncatedInput);
    }
    let ghost whole = bytes@.subrange(pos as int, pos + n);
    let mut v: u128 = 0;
    let mut i: usize = n;
    while i > 0
        invariant
            i <= n,
            n <= 16,
            pos + n <= bytes.len(),
            whole == bytes@.subrange(pos as int, pos + n),
            v == le_val(bytes@.subrange(pos + i, pos + n)),
            v < pow256((n - i) as nat),
        decreases i,
    {
        let b = bytes[pos + i - 1];
        proof {
            let tail = bytes@.subrange(pos + i, pos + n);
            let cur = bytes@.subrange(pos + i - 1, pos + n);
            assert(cur[0] == bytes@[pos + i - 1]);
            assert(cur.skip(1) =~= tail);
            assert(le_val(cur) == b as nat + 256 * le_val(tail));
            lemma_pow256_mono((n - i + 1) as nat, 16);
            assert(pow256(16) == 0x100000000000000000000000000000000) by {
                reveal_with_fuel(pow256, 17);
            }
            let p = pow256((n - i) as nat);
            assert(256 * le_val(tail) <= 256 * (p - 1)) by (nonlinear_arith)
                requires le_val(tail) <= p - 1 && p >= 1;
            assert(b as nat + 256 * le_val(tail) < 256 * p);
        }
        i = i - 1;
        v = v * 256 + b as u128;
    }
    assert(bytes@.subrange(pos + i, pos + n) == whole);
    Ok((v, pos + n))
}

/// Write `v` as exactly `n` little-endian bytes (the low `n` bytes of `v`).
pub fn encode_uint_le(v: u128, n: usize) -> (r: Vec<u8>)
    ensures
        r@ == le_bytes(v as nat, n as nat),
        r@.len() == n,
{
    let mut out: Vec<u8> = Vec::new();
    let mut cur: u128 = v;
    let mut i: usize = 0;
    proof {
        assert(out@ + le_bytes(v as nat, n as nat) =~= le_bytes(v as nat, n as nat));
    }
    while i < n
        invariant
            i <= n,
            out@.len() == i,
            out@ + le_bytes(cur as nat, (n - i) as nat) == le_bytes(v as nat, n as nat),
        decreases n - i,
    {
        let b = (cur % 256) as u8;
        proof {
            let rest = le_bytes(cur as nat, (n - i) as nat);
            assert(rest == seq![(cur as nat % 256) as u8] + le_bytes(cur as nat / 256, (n - i - 1) as nat));
            assert(out@.push(b) + le_bytes(cur as nat / 256, (n - i - 1) as nat)
                =~= out@ + rest);
        }
        out.push(b);
        cur = cur / 256;
        i = i + 1;
    }
    proof {
        assert(out@ + le_bytes(cur as nat, 0) =~= out@);
    }
    out
}

/// Decode a 4-byte little-endian unsigned integer.
pub fn decode_u32(bytes: &Vec<u8>, pos: usize) -> (r: Result<(u32, usize), DecodeError>)
    ensures
        match r {
            Ok(vp) => spec_decode_uint(bytes@, pos as int, 4) == Some((vp.0 as nat, vp.1 as int)),
            Err(e) => spec_decode_uint(bytes@, pos as int, 4) is None
                && e == DecodeError::TruncatedInput,
        },
{
    match decode_uint(bytes, pos, 4) {
        Ok((v, p)) => {
            proof {
                lemma_le_val_bound(bytes@.subrange(pos as int, pos + 4));
                reveal_with_fuel(pow256, 5);
            }
            Ok((v as u32, p))
        },
        Err(e) => Err(e),
    }
}

/// Decode an 8-byte little-endian unsigned integer.
pub fn decode_u64(bytes: &Vec<u8>, pos: usize) -> (r: Result<(u64, usize), DecodeError>)
    ensures
        match r {
            Ok(vp) => spec_decode_uint(bytes@, pos as int, 8) == Some((vp.0 as nat, vp.1 as int)),
            Err(e) => spec_decode_uint(bytes@, pos as int, 8) is None
                && e == DecodeError::TruncatedInput,
        },
{
    match decode_uint(bytes, pos, 8) {
        Ok((v, p)) => {
            proof {
                lemma_le_val_bound(bytes@.subrange(pos as int, pos + 8));
                reveal_with_fuel(pow256, 9);
            }
            Ok((v as u64, p))
        },
        Err(e) => Err(e),
    }
}

/// Decode a 16-byte little-endian unsigned integer.
pub fn decode_u128(bytes: &Vec<u8>, pos: usize) -> (r: Result<(u128, usize), DecodeError>)
    ensures
        match r {
            Ok(vp) => spec_decode_uint(bytes@, pos as int, 16) == Some((vp.0 as nat, vp.1 as int)),
            Err(e) => spec_decode_uint(bytes@, pos as int, 16) is None
                && e == DecodeError::TruncatedInput,
        },
{
    decode_uint(bytes, pos, 16)
}

/// Reading a one-byte boolean at `pos`: 0 is false, 1 is true, all else invalid.
pub open spec fn spec_decode_bool(s: Seq<u8>, pos: int) -> Option<(bool, int)> {
    if 0 <= pos < s.len() && s[pos] <= 1 {
        Some((s[pos] == 1, pos + 1))
    } else {
        None
    }
}

/// Decode a boolean byte.
pub fn decode_bool(bytes: &Vec<u8>, pos: usize) -> (r: Result<(bool, usize), DecodeError>)
    ensures
        match r {
            Ok(vp) => spec_decode_bool(bytes@, pos as int) == Some((vp.0, vp.1 as int)),
            Err(e) => spec_decode_bool(bytes@, pos as int) is None
                && (e == DecodeError::TruncatedInput <==> pos >= bytes@.len())
                && (e == DecodeError::InvalidDiscriminant <==> pos < bytes@.len() && bytes@[pos as int] > 1),
        },
{
    if pos >= bytes.len() {
        return Err(DecodeError::TruncatedInput);
    }
    let b = bytes[pos];
    if b > 1 {
        return Err(DecodeError::InvalidDiscriminant);
    }
    Ok((b == 1, pos + 1))
}

/// Reading a compact (variable-length) unsigned integer at `pos`.
///
/// The low two bits of the first byte select the mode: 0 packs the value in
/// the remaining six bits; 1 and 2 pack it in the high bits of a 2- or
/// 4-byte little-endian group; 3 stores the byte count minus four in the
/// remaining six bits, followed by that many little-endian value bytes.
/// Byte counts above 16 do not fit the supported 128-bit range.
/// Non-minimal encodings are accepted.
pub open spec fn spec_decode_compact(s: Seq<u8>, pos: int) -> Option<(nat, int)> {
    if 0 <= pos < s.len() {
        let b0 = s[pos];
        if b0 % 4 == 0 {
            Some(((b0 / 4) as nat, pos + 1))
        } else if b0 % 4 == 1 {
            match spec_decode_uint(s, pos, 2) {
                Some((raw, p)) => Some((raw / 4, p)),
                None => None,
            }
        } else if b0 % 4 == 2 {
            match spec_decode_uint(s, pos, 4) {
                Some((raw, p)) => Some((raw / 4, p)),
                None => None,
            }
        } else {
            let n = b0 / 4 + 4;
            if n <= 16 {
                spec_decode_uint(s, pos + 1, n as int)
            } else {
                None
            }
        }
    } else {
        None
    }
}

/// True when the compact group at `pos` declares more value bytes than a
/// 128-bit integer can hold.
pub open spec fn spec_compact_too_wide(s: Seq<u8>, pos: int) -> bool {
    0 <= pos < s.len() && s[pos] % 4 == 3 && s[pos] / 4 + 4 > 16
}

/// Decode a compact unsigned integer.
pub fn decode_compact(bytes: &Vec<u8>, pos: usize) -> (r: Result<(u128, usize), DecodeError>)
    ensures
        match r {
            Ok(vp) => spec_decode_compact(bytes@, pos as int) == Some((vp.0 as nat, vp.1 as int)),
            Err(e) => spec_decode_compact(bytes@, pos as int) is None
                && (e == DecodeError::InvalidDiscriminant <==> spec_compact_too_wide(bytes@, pos as int))
                && (e == DecodeError::TruncatedInput <==> !spec_compact_too_wide(bytes@, pos as int)),
        },
{
    if pos >= bytes.len() {
        return Err(DecodeError::TruncatedInput);
    }
    let b0 = bytes[pos];
    let mode = b0 % 4;
    if mode == 0 {
        Ok(((b0 / 4) as u128, pos + 1))
    } else if mode == 1 {
        match decode_uint(bytes, pos, 2) {
            Ok((raw, p)) => Ok((raw / 4, p)),
            Err(e) => Err(e),
        }
    } else if mode == 2 {
        match decode_uint(bytes, pos, 4) {
            Ok((raw, p)) => Ok((raw / 4, p)),
            Err(e) => Err(e),
        }
    } else {
        let n = b0 / 4 + 4;
        if n > 16 {
            return Err(DecodeError::InvalidDiscriminant);
        }
        match decode_uint(bytes, pos + 1, n as usize) {
            Ok((v, p)) => Ok((v, p)),
            Err(e) => Err(e),
        }
    }
}

/// The number of bytes a minimal little-endian encoding of `v` takes
/// (one byte for zero).
pub open spec fn byte_len(v: nat) -> nat
    decreases v,
{
    if v < 256 {
        1
    } else {
        1 + byte_len(v / 256)
    }
}

pub proof fn lemma_byte_len_bound(v: nat)
    ensures
        1 <= byte_len(v),
        v < pow256(byte_len(v)),
    decreases v,
{
    if v < 256 {
        reveal_with_fuel(pow256, 2);
    } else {
        let q = v / 256;
        vstd::arithmetic::div_mod::lemma_fundamental_div_mod(v as int, 256);
        vstd::arithmetic::div_mod::lemma_mod_bound(v as int, 256);
        lemma_byte_len_bound(q);
        let p = pow256(byte_len(q));
        assert(v < 256 * p) by (nonlinear_arith)
            requires
                q < p,
                v == 256 * q + v % 256,
                0 <= v % 256 < 256,
        ;
    }
}

pub proof fn lemma_byte_len_le(v: nat, n: nat)
    requires
        v < pow256(n),
        n >= 1,
    ensures
        byte_len(v) <= n,
    decreases n,
{
    if v >= 256 {
        let q = v / 256;
        vstd::arithmetic::div_mod::lemma_fundamental_div_mod(v as int, 256);
        vstd::arithmetic::div_mod::lemma_mod_bound(v as int, 256);
        assert(n >= 2) by {
            reveal_with_fuel(pow256, 2);
            if n < 2 {
                lemma_pow256_mono(n, 1);
            }
        }
        assert(q < pow256((n - 1) as nat)) by (nonlinear_arith)
            requires
                v < 256 * pow256((n - 1) as nat),
                v == 256 * q + v % 256,
                0 <= v % 256 < 256,
                q >= 0,
        ;
        lemma_byte_len_le(q, (n - 1) as nat);
    }
}

pub proof fn lemma_byte_len_ge(v: nat, n: nat)
    requires
        v >= pow256(n),
    ensures
        byte_len(v) >= n + 1,
    decreases n,
{
    if n >= 1 {
        reveal_with_fuel(pow256, 2);
        lemma_pow256_mono(1, n);
        let q = v / 256;
        vstd::arithmetic::div_mod::lemma_fundamental_div_mod(v as int, 256);
        vstd::arithmetic::div_mod::lemma_mod_bound(v as int, 256);
        assert(q >= pow256((n - 1) as nat)) by (nonlinear_arith)
            requires
                v >= 256 * pow256((n - 1) as nat),
                v == 256 * q + v % 256,
                0 <= v % 256 < 256,
        ;
        lemma_byte_len_ge(q, (n - 1) as nat);
    }
}

/// The minimal compact encoding of `v`.
pub open spec fn spec_encode_compact(v: nat) -> Seq<u8> {
    if v < 64 {
        seq![(4 * v) as u8]
    } else if v < 16384 {
        le_bytes(4 * v + 1, 2)
    } else if v < 0x40000000 {
        le_bytes(4 * v + 2, 4)
    } else {
        seq![(4 * (byte_len(v) - 4) + 3) as u8] + le_bytes(v, byte_len(v))
    }
}

/// Encode `v` compactly, always choosing the minimal mode.
pub fn encode_compact(v: u128) -> (r: Vec<u8>)
    ensures
        r@ == spec_encode_compact(v as nat),
{
    if v < 64 {
        let mut out: Vec<u8> = Vec::new();
        out.push((4 * v) as u8);
        assert(out@ =~= seq![(4 * (v as nat)) as u8]);
        out
    } else if v < 16384 {
        encode_uint_le(4 * v + 1, 2)
    } else if v < 0x40000000 {
        encode_uint_le(4 * v + 2, 4)
    } else {
        let mut n: usize = 0;
        let mut cur: u128 = v;
        proof {
            reveal_with_fuel(pow256, 17);
            lemma_byte_len_le(v as nat, 16);
        }
        while cur > 0
            invariant
                byte_len(v as nat) == n + if cur > 0 { byte_len(cur as nat) } else { 0 },
                n <= byte_len(v as nat),
                byte_len(v as nat) <= 16,
            decreases cur,
        {
            proof {
                vstd::arithmetic::div_mod::lemma_fundamental_div_mod(cur as int, 256);
                vstd::arithmetic::div_mod::lemma_mod_bound(cur as int, 256);
                lemma_byte_len_bound(cur as nat);
            }
            cur = cur / 256;
            n = n + 1;
        }
        proof {
            reveal_with_fuel(pow256, 17);
            lemma_byte_len_le(v as nat, 16);
            lemma_byte_len_ge(v as nat, 3);
        }
        let mut out: Vec<u8> = Vec::new();
        out.push((4 * ((n - 4) as u8)) + 3);
        let mut tail = encode_uint_le(v, n);
        out.append(&mut tail);
        proof {
            assert(out@ =~= seq![(4 * (byte_len(v as nat) - 4) + 3) as u8]
                + le_bytes(v as nat, byte_len(v as nat)));
        }
        out
    }
}

/// Law: a compact encoding decodes back to the value it was made from,
/// consuming exactly the encoded bytes.
pub proof fn lemma_compact_round_trip(v: u128)
    ensures
        spec_decode_compact(spec_encode_compact(v as nat), 0)
            == Some((v as nat, spec_encode_compact(v as nat).len() as int)),
{
    let enc = spec_encode_compact(v as nat);
    if v < 64 {
        assert(enc[0] == (4 * (v as nat)) as u8);
        assert(enc[0] % 4 == 0 && enc[0] / 4 == v);
    } else if v < 16384 {
        let raw = 4 * (v as nat) + 1;
        assert(raw < pow256(2)) by {
            reveal_with_fuel(pow256, 3);
        }
        lemma_le_bytes_val(raw, 2);
        assert(enc[0] == (raw % 256) as u8);
        assert(enc[0] as nat % 4 == 1) by (nonlinear_arith)
            requires enc[0] as nat == (4 * (v as nat) + 1) % 256;
        assert(enc.subrange(0, 2) =~= enc);
        assert(spec_decode_uint(enc, 0, 2) == Some((raw, 2int)));
        assert(raw / 4 == v as nat);
    } else if v < 0x40000000 {
        let raw = 4 * (v as nat) + 2;
        assert(raw < pow256(4)) by {
            reveal_with_fuel(pow256, 5);
        }
        lemma_le_bytes_val(raw, 4);
        assert(enc[0] == (raw % 256) as u8);
        assert(enc[0] as nat % 4 == 2) by (nonlinear_arith)
            requires enc[0] as nat == (4 * (v as nat) + 2) % 256;
        assert(enc.subrange(0, 4) =~= enc);
        assert(spec_decode_uint(enc, 0, 4) == Some((raw, 4int)));
        assert(raw / 4 == v as nat);
    } else {
        let n = byte_len(v as nat);
        reveal_with_fuel(pow256, 17);
        lemma_byte_len_le(v as nat, 16);
        lemma_byte_len_ge(v as nat, 3);
        lemma_byte_len_bound(v as nat);
        lemma_le_bytes_val(v as nat, n);
        let b0 = (4 * (n - 4) + 3) as u8;
        assert(enc[0] == b0);
        assert(b0 % 4 == 3 && b0 / 4 == n - 4);
        assert(enc.subrange(1, 1 + n as int) =~= le_bytes(v as nat, n));
        assert(spec_decode_uint(enc, 1, n as int)
            == Some((le_val(le_bytes(v as nat, n)), 1 + n as int)));
    }
}

} // verus!
