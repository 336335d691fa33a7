//! The aggregator: joining decoded staking records into display-ready
//! structures.
//!
//! From the raw nominator map entries it builds the inverse index from
//! each validator to the textual addresses of the accounts nominating it,
//! in scan order, and joins per-account balance-lock and ledger lookups
//! into composite records. Absence of a fetched value is a first-class
//! outcome and never an error; malformed present bytes abort the query.

use crate::decode::{
    decode_balance_locks, decode_ledger, decode_nominations, decode_prefs, sres_ledger,
    sres_locks_vec, sres_nominations, sres_prefs,
};
use crate::ss58::{base58_of, encode_address, spec_payload, NetworkFormat};
use crate::types::{
    account_wf, AccountId, BalanceLock, Nominations, NominationsV, Nominator, NominatorV,
    StakingLedger, StakingLedgerV, ValidatorPrefs, WaitingValidator, WaitingValidatorV,
    STAKING_LOCK_ID,
};
use crate::DecodeError;
use vstd::prelude::*;

verus! {

/// The sum of the amounts of the locks tagged `"staking "`.
pub open spec fn spec_staked(locks: Seq<BalanceLock>) -> nat
    decreases locks.len(),
{
    if locks.len() == 0 {
        0
    } else {
        spec_staked(locks.drop_last()) + if locks.last().id == STAKING_LOCK_ID {
            locks.last().amount as nat
        } else {
            0
        }
    }
}

/// The staking-tagged lock sum, saturating at the top of the 128-bit range.
pub fn staked_from_locks(locks: &Vec<BalanceLock>) -> (r: u128)
    ensures
        spec_staked(locks@) <= u128::MAX ==> r == spec_staked(locks@),
        spec_staked(locks@) > u128::MAX ==> r == u128::MAX,
{
    let mut acc: u128 = 0;
    let mut i: usize = 0;
    while i < locks.len()
        invariant
            i <= locks.len(),
            spec_staked(locks@.take(i as int)) <= u128::MAX ==> acc == spec_staked(locks@.take(i as int)),
            spec_staked(locks@.take(i as int)) > u128::MAX ==> acc == u128::MAX,
        decreases locks.len() - i,
    {
        let add = if locks[i].id == STAKING_LOCK_ID {
            locks[i].amount
        } else {
            0
        };
        proof {
            let pre = locks@.take(i as int);
            let cur = locks@.take(i + 1);
            assert(cur.drop_last() =~= pre);
            assert(cur.last() == locks@[i as int]);
        }
        if acc > u128::MAX - add {
            acc = u128::MAX;
        } else {
            acc = acc + add;
        }
        i = i + 1;
    }
    proof {
        assert(locks@.take(locks@.len() as int) =~= locks@);
    }
    acc
}

/// One enumerated entry of the nominator map: the full storage key, the
/// raw bytes stored under it (absent for a stale key), and the raw bytes
/// of the account's balance locks (absent when the account has none).
pub struct NominatorEntry {
    pub key: Vec<u8>,
    pub value: Option<Vec<u8>>,
    pub locks: Option<Vec<u8>>,
}

pub ghost struct NomEntryV {
    pub key: Seq<u8>,
    pub value: Option<Seq<u8>>,
    pub locks: Option<Seq<u8>>,
}

impl View for NominatorEntry {
    type V = NomEntryV;

    open spec fn view(&self) -> NomEntryV {
        NomEntryV {
            key: self.key@,
            value: match self.value {
                Some(ref b) => Some(b@),
                None => None,
            },
            locks: match self.locks {
                Some(ref b) => Some(b@),
                None => None,
            },
        }
    }
}

/// The view of an optional decoded nominations record.
pub open spec fn opt_noms_view(o: Option<Nominations>) -> Option<NominationsV> {
    match o {
        Some(n) => Some(n@),
        None => None,
    }
}

/// Reading one nominator-map entry: the account read off the key's end,
/// and its nominations when the stored bytes are present.
pub open spec fn sres_nominator_entry(key: Seq<u8>, raw: Option<Seq<u8>>) -> Result<
    (Seq<u8>, Option<NominationsV>),
    DecodeError,
> {
    if key.len() != 72 {
        Err(DecodeError::BadKeyLength)
    } else {
        match raw {
            None => Ok((key.skip(40), None)),
            Some(b) => match sres_nominations(b, 0) {
                Ok((n, _)) => Ok((key.skip(40), Some(n))),
                Err(e) => Err(e),
            },
        }
    }
}

/// Reading the whole nominator list, aborting on the first malformed
/// entry.
pub open spec fn sres_decoded_list(es: Seq<NomEntryV>) -> Result<
    Seq<(Seq<u8>, Option<NominationsV>)>,
    DecodeError,
>
    decreases es.len(),
{
    if es.len() == 0 {
        Ok(Seq::empty())
    } else {
        match sres_decoded_list(es.drop_last()) {
            Ok(ds) => match sres_nominator_entry(es.last().key, es.last().value) {
                Ok(p) => Ok(ds.push(p)),
                Err(e) => Err(e),
            },
            Err(e) => Err(e),
        }
    }
}

proof fn lemma_decoded_list_err_extends(es: Seq<NomEntryV>, m: int)
    requires
        0 <= m <= es.len(),
        sres_decoded_list(es.take(m)) is Err,
    ensures
        sres_decoded_list(es) == sres_decoded_list(es.take(m)),
    decreases es.len() - m,
{
    if m < es.len() {
        assert(es.take(m + 1).drop_last() =~= es.take(m));
        lemma_decoded_list_err_extends(es, m + 1);
    } else {
        assert(es.take(m) =~= es);
    }
}

/// Decode every enumerated nominator-map entry: the account identity read
/// off each key, and its nominations where the stored value is present.
/// An absent value is a first-class outcome; malformed bytes abort.
pub fn get_nominators(entries: &Vec<NominatorEntry>) -> (r: Result<
    Vec<(AccountId, Option<Nominations>)>,
    DecodeError,
>)
    ensures
        match r {
            Ok(v) => sres_decoded_list(evof(entries@)) matches Ok(ds) && ds == dsv(v@),
            Err(e) => sres_decoded_list(evof(entries@)) matches Err(se) && se == e,
        },
{
    let ghost ev = evof(entries@);
    let mut out: Vec<(AccountId, Option<Nominations>)> = Vec::new();
    let mut i: usize = 0;
    proof {
        assert(ev.take(0) =~= Seq::<NomEntryV>::empty());
        assert(dsv(out@) =~= Seq::<(Seq<u8>, Option<NominationsV>)>::empty());
    }
    while i < entries.len()
        invariant
            i <= entries.len(),
            ev == evof(entries@),
            sres_decoded_list(ev.take(i as int)) == Ok::<_, DecodeError>(dsv(out@)),
        decreases entries.len() - i,
    {
        let entry = &entries[i];
        if entry.key.len() != 72 {
            proof {
                assert(ev.take(i + 1).drop_last() =~= ev.take(i as int));
                assert(ev.take(i + 1).last() == ev[i as int]);
                lemma_decoded_list_err_extends(ev, i + 1);
            }
            return Err(DecodeError::BadKeyLength);
        }
        let mut acc_bytes: Vec<u8> = Vec::new();
        let mut k: usize = 40;
        while k < 72
            invariant
                40 <= k <= 72,
                entry.key@.len() == 72,
                acc_bytes@ == entry.key@.subrange(40, k as int),
            decreases 72 - k,
        {
            acc_bytes.push(entry.key[k]);
            assert(acc_bytes@ =~= entry.key@.subrange(40, k + 1));
            k = k + 1;
        }
        assert(acc_bytes@ =~= entry.key@.skip(40));
        let account = AccountId { bytes: acc_bytes };
        let noms: Option<Nominations> = match &entry.value {
            None => None,
            Some(b) => match decode_nominations(b, 0) {
                Ok((n, _)) => Some(n),
                Err(e) => {
                    proof {
                        assert(ev.take(i + 1).drop_last() =~= ev.take(i as int));
                        assert(ev.take(i + 1).last() == ev[i as int]);
                        lemma_decoded_list_err_extends(ev, i + 1);
                    }
                    return Err(e);
                },
            },
        };
        proof {
            assert(ev.take(i + 1).drop_last() =~= ev.take(i as int));
            assert(ev.take(i + 1).last() == ev[i as int]);
            assert(dsv(out@.push((account, noms)))
                =~= dsv(out@).push((account@, opt_noms_view(noms))));
        }
        out.push((account, noms));
        i = i + 1;
    }
    proof {
        assert(ev.take(entries@.len() as int) =~= ev);
    }
    Ok(out)
}

/// The textual address of an identity on the given network.
pub open spec fn addr_of(a: Seq<u8>, fmt: NetworkFormat) -> Seq<char> {
    base58_of(spec_payload(a, fmt))
}

/// The addresses contributed to target `t` by one nominator's target
/// list: one copy of `addr` per occurrence of `t`, in list order.
pub open spec fn noms_in_targets(ts: Seq<Seq<u8>>, addr: Seq<char>, t: Seq<u8>) -> Seq<Seq<char>>
    decreases ts.len(),
{
    if ts.len() == 0 {
        Seq::empty()
    } else {
        noms_in_targets(ts.drop_last(), addr, t) + if ts.last() == t {
            seq![addr]
        } else {
            Seq::empty()
        }
    }
}

/// The scan-order list of nominator addresses targeting `t`: each present
/// nominator contributes, in enumeration order, one copy of its address
/// per occurrence of `t` in its target list.
pub open spec fn spec_noms_for(
    ds: Seq<(Seq<u8>, Option<NominationsV>)>,
    fmt: NetworkFormat,
    t: Seq<u8>,
) -> Seq<Seq<char>>
    decreases ds.len(),
{
    if ds.len() == 0 {
        Seq::empty()
    } else {
        spec_noms_for(ds.drop_last(), fmt, t) + match ds.last().1 {
            Some(n) => noms_in_targets(n.targets, addr_of(ds.last().0, fmt), t),
            None => Seq::empty(),
        }
    }
}

/// The targets one decoded entry contributes: none when its nominations
/// are absent.
pub open spec fn entry_targets(p: (Seq<u8>, Option<NominationsV>)) -> Seq<Seq<u8>> {
    match p.1 {
        Some(n) => n.targets,
        None => Seq::empty(),
    }
}

/// Whether `t` occurs among the targets of any present nomination.
pub open spec fn target_occurs(ds: Seq<(Seq<u8>, Option<NominationsV>)>, t: Seq<u8>) -> bool {
    exists|i: int, j: int|
        0 <= i < ds.len() && 0 <= j < entry_targets(ds[i]).len()
            && #[trigger] entry_targets(ds[i])[j] == t
}

/// The scan-order nominator addresses of one target, computed against the
/// decoded nominator list.
fn noms_for(
    decoded: &Vec<(AccountId, Option<Nominations>)>,
    fmt: NetworkFormat,
    t: &AccountId,
) -> (r: Vec<String>)
    requires
        forall|i: int| 0 <= i < decoded@.len() ==> account_wf(#[trigger] decoded@[i].0@),
    ensures
        strs_view(r@) == spec_noms_for(dsv(decoded@), fmt, t@),
{
    let ghost ds = dsv(decoded@);
    let mut out: Vec<String> = Vec::new();
    let mut i: usize = 0;
    proof {
        assert(ds.take(0) =~= Seq::<(Seq<u8>, Option<NominationsV>)>::empty());
        assert(strs_view(out@) =~= Seq::<Seq<char>>::empty());
    }
    while i < decoded.len()
        invariant
            i <= decoded.len(),
            ds == dsv(decoded@),
            forall|k: int| 0 <= k < decoded@.len() ==> account_wf(#[trigger] decoded@[k].0@),
            strs_view(out@) == spec_noms_for(ds.take(i as int), fmt, t@),
        decreases decoded.len() - i,
    {
        proof {
            assert(ds.take(i + 1).drop_last() =~= ds.take(i as int));
            assert(ds.take(i + 1).last() == ds[i as int]);
        }
        match &decoded[i].1 {
            None => {
                proof {
                    assert(strs_view(out@) + Seq::<Seq<char>>::empty() =~= strs_view(out@));
                }
            },
            Some(noms) => {
                let addr = encode_address(&decoded[i].0, fmt);
                let ghost tgts = noms@.targets;
                let mut j: usize = 0;
                proof {
                    assert(tgts.take(0) =~= Seq::<Seq<u8>>::empty());
                    assert(strs_view(out@) + Seq::<Seq<char>>::empty() =~= strs_view(out@));
                }
                while j < noms.targets.len()
                    invariant
                        j <= noms.targets.len(),
                        tgts == noms@.targets,
                        tgts.len() == noms.targets@.len(),
                        addr@ == addr_of(ds[i as int].0, fmt),
                        i < decoded.len(),
                        ds == dsv(decoded@),
                        ds[i as int].1 matches Some(n) && n.targets == tgts,
                        decoded@[i as int].1 matches Some(ns) && ns@.targets == tgts
                            && ns.targets@.len() == tgts.len(),
                        strs_view(out@) == spec_noms_for(ds.take(i as int), fmt, t@)
                            + noms_in_targets(tgts.take(j as int), addr@, t@),
                    decreases noms.targets.len() - j,
                {
                    proof {
                        assert(tgts.take(j + 1).drop_last() =~= tgts.take(j as int));
                        assert(tgts.take(j + 1).last() == tgts[j as int]);
                    }
                    let hit = noms.targets[j].same(t);
                    if hit {
                        let addr2 = addr.clone();
                        proof {
                            let s0 = spec_noms_for(ds.take(i as int), fmt, t@);
                            let n0 = noms_in_targets(tgts.take(j as int), addr@, t@);
                            let ov = strs_view(out@);
                            assert(strs_view(out@.push(addr2)) =~= ov.push(addr@));
                            assert(noms_in_targets(tgts.take(j + 1), addr@, t@)
                                =~= n0 + seq![addr@]);
                            assert(ov.push(addr@) =~= s0 + (n0 + seq![addr@]));
                        }
                        out.push(addr2);
                    } else {
                        proof {
                            assert(noms_in_targets(tgts.take(j + 1), addr@, t@)
                                =~= noms_in_targets(tgts.take(j as int), addr@, t@));
                        }
                    }
                    j = j + 1;
                }
                proof {
                    assert(tgts.take(tgts.len() as int) =~= tgts);
                }
            },
        }
        i = i + 1;
    }
    proof {
        assert(ds.take(decoded@.len() as int) =~= ds);
    }
    out
}

/// The decoded view of the nominator list.
pub open spec fn dsv(s: Seq<(AccountId, Option<Nominations>)>) -> Seq<(Seq<u8>, Option<NominationsV>)> {
    s.map_values(|p: (AccountId, Option<Nominations>)| (p.0@, opt_noms_view(p.1)))
}

/// The view of a sequence of enumerated entries.
pub open spec fn evof(es: Seq<NominatorEntry>) -> Seq<NomEntryV> {
    es.map_values(|e: NominatorEntry| e@)
}

/// The views of a sequence of strings.
pub open spec fn strs_view(ss: Seq<String>) -> Seq<Seq<char>> {
    ss.map_values(|s: String| s@)
}

/// Whether `t` is one of the byte strings in `ts`.
pub open spec fn in_targets(ts: Seq<Seq<u8>>, t: Seq<u8>) -> bool {
    exists|j: int| 0 <= j < ts.len() && ts[j] == t
}

/// Whether `t` is the view of one of the identities in `keys`.
pub open spec fn in_keys(keys: Seq<AccountId>, t: Seq<u8>) -> bool {
    exists|k: int| 0 <= k < keys.len() && keys[k]@ == t
}

proof fn lemma_target_occurs_step(ds: Seq<(Seq<u8>, Option<NominationsV>)>, i: int, t: Seq<u8>)
    requires
        0 <= i < ds.len(),
    ensures
        target_occurs(ds.take(i + 1), t) <==> (target_occurs(ds.take(i), t) || in_targets(
            entry_targets(ds[i]),
            t,
        )),
{
    let pre = ds.take(i);
    let cur = ds.take(i + 1);
    if target_occurs(cur, t) {
        let (a, b) = choose|a: int, b: int|
            0 <= a < cur.len() && 0 <= b < entry_targets(cur[a]).len() && #[trigger] entry_targets(
                cur[a],
            )[b] == t;
        if a < i {
            assert(pre[a] == cur[a]);
            assert(entry_targets(pre[a])[b] == t);
        } else {
            assert(cur[a] == ds[i]);
            assert(entry_targets(ds[i])[b] == t);
        }
    }
    if target_occurs(pre, t) {
        let (a, b) = choose|a: int, b: int|
            0 <= a < pre.len() && 0 <= b < entry_targets(pre[a]).len() && #[trigger] entry_targets(
                pre[a],
            )[b] == t;
        assert(cur[a] == pre[a]);
        assert(entry_targets(cur[a])[b] == t);
    }
    if in_targets(entry_targets(ds[i]), t) {
        let b = choose|b: int|
            0 <= b < entry_targets(ds[i]).len() && entry_targets(ds[i])[b] == t;
        assert(cur[i] == ds[i]);
        assert(entry_targets(cur[i])[b] == t);
    }
}

/// The index of `t` among `keys`, when it is there.
fn find_key(keys: &Vec<AccountId>, t: &AccountId) -> (r: Option<usize>)
    ensures
        match r {
            Some(k) => k < keys@.len() && keys@[k as int]@ == t@,
            None => !in_keys(keys@, t@),
        },
{
    let mut k: usize = 0;
    while k < keys.len()
        invariant
            k <= keys.len(),
            forall|x: int| 0 <= x < k ==> keys@[x]@ != t@,
        decreases keys.len() - k,
    {
        if keys[k].same(t) {
            return Some(k);
        }
        k = k + 1;
    }
    proof {
        if in_keys(keys@, t@) {
            let x = choose|x: int| 0 <= x < keys@.len() && (#[trigger] keys@[x])@ == t@;
            assert(false);
        }
    }
    None
}

/// Every target of any present nomination, in order of first occurrence,
/// each exactly once.
fn collect_targets(decoded: &Vec<(AccountId, Option<Nominations>)>) -> (r: Vec<AccountId>)
    ensures
        forall|x: int, y: int| 0 <= x < y < r@.len() ==> r@[x]@ != r@[y]@,
        forall|k: int| 0 <= k < r@.len() ==> target_occurs(dsv(decoded@), #[trigger] r@[k]@),
        forall|t: Seq<u8>| #[trigger] target_occurs(dsv(decoded@), t) ==> in_keys(r@, t),
{
    let ghost ds = dsv(decoded@);
    let mut out: Vec<AccountId> = Vec::new();
    let mut i: usize = 0;
    proof {
        assert(ds.take(0) =~= Seq::<(Seq<u8>, Option<NominationsV>)>::empty());
    }
    while i < decoded.len()
        invariant
            i <= decoded.len(),
            ds == dsv(decoded@),
            ds.len() == decoded@.len(),
            forall|x: int, y: int| 0 <= x < y < out@.len() ==> out@[x]@ != out@[y]@,
            forall|k: int| 0 <= k < out@.len() ==> target_occurs(
                ds.take(i as int),
                #[trigger] out@[k]@,
            ),
            forall|t: Seq<u8>| #[trigger] target_occurs(ds.take(i as int), t) ==> in_keys(out@, t),
        decreases decoded.len() - i,
    {
        match &decoded[i].1 {
            None => {
                proof {
                    assert(entry_targets(ds[i as int]) =~= Seq::<Seq<u8>>::empty());
                    assert forall|t: Seq<u8>| #[trigger] target_occurs(ds.take(i + 1), t) implies
                        in_keys(out@, t) by {
                        lemma_target_occurs_step(ds, i as int, t);
                    }
                    assert forall|k: int| 0 <= k < out@.len() implies target_occurs(
                        ds.take(i + 1),
                        #[trigger] out@[k]@,
                    ) by {
                        lemma_target_occurs_step(ds, i as int, out@[k]@);
                    }
                }
            },
            Some(noms) => {
                let ghost tgts = noms@.targets;
                proof {
                    assert(entry_targets(ds[i as int]) == tgts);
                    assert(tgts.take(0) =~= Seq::<Seq<u8>>::empty());
                }
                let mut j: usize = 0;
                while j < noms.targets.len()
                    invariant
                        i < decoded.len(),
                        j <= noms.targets.len(),
                        ds == dsv(decoded@),
                        ds.len() == decoded@.len(),
                        decoded@[i as int].1 matches Some(ns) && ns@.targets == tgts
                            && ns.targets@.len() == tgts.len(),
                        tgts.len() == noms.targets@.len(),
                        forall|j2: int| 0 <= j2 < tgts.len() ==> noms.targets@[j2]@ == tgts[j2],
                        forall|x: int, y: int| 0 <= x < y < out@.len() ==> out@[x]@ != out@[y]@,
                        forall|k: int| 0 <= k < out@.len() ==> (target_occurs(
                            ds.take(i as int),
                            #[trigger] out@[k]@,
                        ) || in_targets(tgts.take(j as int), out@[k]@)),
                        forall|t: Seq<u8>| #[trigger] target_occurs(ds.take(i as int), t)
                            ==> in_keys(out@, t),
                        forall|t: Seq<u8>| #[trigger] in_targets(tgts.take(j as int), t)
                            ==> in_keys(out@, t),
                    decreases noms.targets.len() - j,
                {
                    let t = &noms.targets[j];
                    proof {
                        assert(tgts.take(j + 1).drop_last() =~= tgts.take(j as int));
                        assert(tgts.take(j + 1).last() == tgts[j as int]);
                        assert(tgts[j as int] == t@);
                    }
                    match find_key(&out, t) {
                        Some(k) => {
                            proof {
                                assert(in_keys(out@, t@));
                                assert forall|x: Seq<u8>| #[trigger] in_targets(
                                    tgts.take(j as int),
                                    x,
                                ) implies in_targets(tgts.take(j + 1), x) by {
                                    let j3 = choose|j3: int|
                                        0 <= j3 < tgts.take(j as int).len() && #[trigger] tgts.take(
                                            j as int,
                                        )[j3] == x;
                                    assert(tgts.take(j + 1)[j3] == x);
                                }
                                assert forall|x: Seq<u8>| #[trigger] in_targets(
                                    tgts.take(j + 1),
                                    x,
                                ) implies in_keys(out@, x) by {
                                    let j2 = choose|j2: int|
                                        0 <= j2 < tgts.take(j + 1).len() && #[trigger] tgts.take(
                                            j + 1,
                                        )[j2] == x;
                                    if j2 < j {
                                        assert(in_targets(tgts.take(j as int), x)) by {
                                            assert(tgts.take(j as int)[j2] == x);
                                        }
                                    } else {
                                        assert(x == t@);
                                    }
                                }
                            }
                        },
                        None => {
                            proof {
                                assert forall|x: int| 0 <= x < out@.len() implies out@[x]@ != t@ by {
                                    if out@[x]@ == t@ {
                                        assert(in_keys(out@, t@));
                                    }
                                }
                            }
                            let ghost out0 = out@;
                            let dup = t.duplicate();
                            out.push(dup);
                            proof {
                                assert(out@ == out0.push(dup));
                                assert(out@.last()@ == t@);
                                assert forall|x: Seq<u8>| #[trigger] in_targets(
                                    tgts.take(j + 1),
                                    x,
                                ) implies in_keys(out@, x) by {
                                    let j2 = choose|j2: int|
                                        0 <= j2 < tgts.take(j + 1).len() && #[trigger] tgts.take(
                                            j + 1,
                                        )[j2] == x;
                                    if j2 < j {
                                        assert(in_targets(tgts.take(j as int), x)) by {
                                            assert(tgts.take(j as int)[j2] == x);
                                        }
                                        assert(in_keys(out0, x));
                                        let k2 = choose|k2: int|
                                            0 <= k2 < out0.len() && (#[trigger] out0[k2])@ == x;
                                        assert(out@[k2]@ == x);
                                    } else {
                                        assert(x == t@);
                                        assert(out@[out@.len() - 1]@ == x);
                                    }
                                }
                                assert forall|t2: Seq<u8>| #[trigger] target_occurs(
                                    ds.take(i as int),
                                    t2,
                                ) implies in_keys(out@, t2) by {
                                    assert(in_keys(out0, t2));
                                    let k2 = choose|k2: int|
                                        0 <= k2 < out0.len() && (#[trigger] out0[k2])@ == t2;
                                    assert(out@[k2]@ == t2);
                                }
                                assert forall|k2: int| 0 <= k2 < out@.len() implies target_occurs(
                                    ds.take(i as int),
                                    #[trigger] out@[k2]@,
                                ) || in_targets(tgts.take(j + 1), out@[k2]@) by {
                                    if k2 < out0.len() {
                                        assert(out@[k2] == out0[k2]);
                                        if in_targets(tgts.take(j as int), out0[k2]@) {
                                            let j3 = choose|j3: int|
                                                0 <= j3 < tgts.take(j as int).len()
                                                    && #[trigger] tgts.take(j as int)[j3]
                                                    == out0[k2]@;
                                            assert(tgts.take(j + 1)[j3] == out0[k2]@);
                                        }
                                    } else {
                                        assert(out@[k2]@ == t@);
                                        assert(tgts.take(j + 1)[j as int] == t@);
                                    }
                                }
                                assert(in_targets(tgts.take(j + 1), t@)) by {
                                    assert(tgts.take(j + 1)[j as int] == t@);
                                }
                            }
                        },
                    }
                    j = j + 1;
                }
                proof {
                    assert(tgts.take(tgts.len() as int) =~= tgts);
                    assert forall|t: Seq<u8>| #[trigger] target_occurs(ds.take(i + 1), t) implies
                        in_keys(out@, t) by {
                        lemma_target_occurs_step(ds, i as int, t);
                    }
                    assert forall|k: int| 0 <= k < out@.len() implies target_occurs(
                        ds.take(i + 1),
                        #[trigger] out@[k]@,
                    ) by {
                        lemma_target_occurs_step(ds, i as int, out@[k]@);
                    }
                }
            },
        }
        i = i + 1;
    }
    proof {
        assert(ds.take(decoded@.len() as int) =~= ds);
    }
    out
}

/// What a correct inverse index states: the nominator list decodes, each
/// nominated validator appears exactly once with its full scan-order
/// address list, and no other validator appears.
pub open spec fn inverse_index_ok(
    entries: Seq<NominatorEntry>,
    fmt: NetworkFormat,
    v: Seq<(AccountId, Vec<String>)>,
) -> bool {
    sres_decoded_list(evof(entries)) matches Ok(ds)
        && (forall|x: int, y: int| 0 <= x < y < v.len() ==> v[x].0@ != v[y].0@)
        && (forall|k: int| 0 <= k < v.len() ==> target_occurs(ds, #[trigger] v[k].0@))
        && (forall|k: int| 0 <= k < v.len() ==> strs_view((#[trigger] v[k].1)@)
            == spec_noms_for(ds, fmt, v[k].0@))
        && (forall|t: Seq<u8>| #[trigger] target_occurs(ds, t) ==> exists|k: int|
            0 <= k < v.len() && v[k].0@ == t)
}

/// Build the inverse index from each nominated validator to the
/// scan-order list of textual addresses of the nominators targeting it.
#[verifier::rlimit(60)]
pub fn validators_to_nominators(entries: &Vec<NominatorEntry>, fmt: NetworkFormat) -> (r: Result<
    Vec<(AccountId, Vec<String>)>,
    DecodeError,
>)
    ensures
        match r {
            Ok(v) => inverse_index_ok(entries@, fmt, v@),
            Err(e) => sres_decoded_list(evof(entries@)) matches Err(se) && se == e,
        },
{
    let decoded = match get_nominators(entries) {
        Ok(d) => d,
        Err(e) => {
            return Err(e);
        },
    };
    let ghost ds = dsv(decoded@);
    proof {
        lemma_decoded_list_wf(evof(entries@), ds);
        assert forall|x: int| 0 <= x < decoded@.len() implies account_wf(
            #[trigger] decoded@[x].0@,
        ) by {
            assert(ds[x] == (decoded@[x].0@, opt_noms_view(decoded@[x].1)));
            assert(account_wf(ds[x].0));
        }
    }
    let keys = collect_targets(&decoded);
    let mut out: Vec<(AccountId, Vec<String>)> = Vec::new();
    let mut k: usize = 0;
    while k < keys.len()
        invariant
            k <= keys.len(),
            ds == dsv(decoded@),
            forall|x: int| 0 <= x < decoded@.len() ==> account_wf(#[trigger] decoded@[x].0@),
            forall|x: int, y: int| 0 <= x < y < keys@.len() ==> keys@[x]@ != keys@[y]@,
            forall|x: int| 0 <= x < keys@.len() ==> target_occurs(ds, #[trigger] keys@[x]@),
            out@.len() == k,
            forall|x: int| 0 <= x < k ==> out@[x].0@ == keys@[x]@,
            forall|x: int| 0 <= x < k ==> strs_view((#[trigger] out@[x].1)@)
                == spec_noms_for(ds, fmt, out@[x].0@),
        decreases keys.len() - k,
    {
        let list = noms_for(&decoded, fmt, &keys[k]);
        let dup = keys[k].duplicate();
        out.push((dup, list));
        k = k + 1;
    }
    proof {
        assert forall|x: int, y: int| 0 <= x < y < out@.len() implies out@[x].0@ != out@[y].0@ by {
            assert(out@[x].0@ == keys@[x]@);
            assert(out@[y].0@ == keys@[y]@);
        }
        assert forall|k2: int| 0 <= k2 < out@.len() implies target_occurs(
            ds,
            #[trigger] out@[k2].0@,
        ) by {
            assert(out@[k2].0@ == keys@[k2]@);
            assert(target_occurs(ds, keys@[k2]@));
        }
        assert forall|t: Seq<u8>| #[trigger] target_occurs(ds, t) implies exists|x: int|
            0 <= x < out@.len() && out@[x].0@ == t by {
            let x = choose|x: int| 0 <= x < keys@.len() && (#[trigger] keys@[x])@ == t;
            assert(out@[x].0@ == t);
        }
        assert(inverse_index_ok(entries@, fmt, out@));
    }
    Ok(out)
}

proof fn lemma_decoded_list_wf(es: Seq<NomEntryV>, ds: Seq<(Seq<u8>, Option<NominationsV>)>)
    requires
        sres_decoded_list(es) == Ok::<_, DecodeError>(ds),
    ensures
        forall|i: int| 0 <= i < ds.len() ==> account_wf(#[trigger] ds[i].0),
    decreases es.len(),
{
    if es.len() > 0 {
        match sres_decoded_list(es.drop_last()) {
            Ok(pre) => {
                lemma_decoded_list_wf(es.drop_last(), pre);
                assert(ds == pre.push((es.last().key.skip(40), ds.last().1)));
            },
            Err(_) => {},
        }
    }
}

/// The staking-tagged lock sum as the 128-bit value the records carry.
pub open spec fn sat_staked(l: Seq<BalanceLock>) -> u128 {
    if spec_staked(l) <= u128::MAX {
        spec_staked(l) as u128
    } else {
        u128::MAX
    }
}

/// Reading an account's balance locks: absent bytes mean no locks.
pub open spec fn sres_opt_locks(raw: Option<Seq<u8>>) -> Result<Seq<BalanceLock>, DecodeError> {
    match raw {
        None => Ok(Seq::empty()),
        Some(b) => match sres_locks_vec(b, 0) {
            Ok((l, _)) => Ok(l),
            Err(e) => Err(e),
        },
    }
}

/// The view of an optional decoded nominator record.
pub open spec fn opt_nominator_view(o: Option<Nominator>) -> Option<NominatorV> {
    match o {
        Some(n) => Some(n@),
        None => None,
    }
}

/// Reading one nominator-map entry into its display record: the textual
/// address, and — when the stored nominations are present — the record
/// joining them with the staking-tagged lock sum.
pub open spec fn sres_nominator_record(e: NomEntryV, fmt: NetworkFormat) -> Result<
    (Seq<char>, Option<NominatorV>),
    DecodeError,
> {
    if e.key.len() != 72 {
        Err(DecodeError::BadKeyLength)
    } else {
        let acc = e.key.skip(40);
        match e.value {
            None => Ok((addr_of(acc, fmt), None)),
            Some(b) => match sres_nominations(b, 0) {
                Ok((n, _)) => match sres_opt_locks(e.locks) {
                    Ok(l) => Ok((
                        addr_of(acc, fmt),
                        Some(NominatorV { nominations: n, staked: sat_staked(l) }),
                    )),
                    Err(err) => Err(err),
                },
                Err(err) => Err(err),
            },
        }
    }
}

/// Build the map from each enumerated nominator's textual address to its
/// record: absent where the key held no live nomination, otherwise the
/// decoded nominations joined with the staking-tagged lock sum.
pub fn nominators(entries: &Vec<NominatorEntry>, fmt: NetworkFormat) -> (r: Result<
    Vec<(String, Option<Nominator>)>,
    DecodeError,
>)
    ensures
        match r {
            Ok(v) => v@.len() == entries@.len() && forall|i: int|
                0 <= i < entries@.len() ==> (#[trigger] sres_nominator_record(entries@[i]@, fmt)
                    matches Ok(p) && p.0 == v@[i].0@ && p.1 == opt_nominator_view(v@[i].1)),
            Err(e) => exists|i: int|
                0 <= i < entries@.len() && (#[trigger] sres_nominator_record(entries@[i]@, fmt)
                    matches Err(se) && se == e),
        },
{
    let mut out: Vec<(String, Option<Nominator>)> = Vec::new();
    let mut i: usize = 0;
    while i < entries.len()
        invariant
            i <= entries.len(),
            out@.len() == i,
            forall|j: int| 0 <= j < i ==> (#[trigger] sres_nominator_record(entries@[j]@, fmt)
                matches Ok(p) && p.0 == out@[j].0@ && p.1 == opt_nominator_view(out@[j].1)),
        decreases entries.len() - i,
    {
        let entry = &entries[i];
        let account = match crate::keys::key_to_account(&entry.key) {
            Ok(a) => a,
            Err(e) => {
                return Err(e);
            },
        };
        let record: Option<Nominator> = match &entry.value {
            None => None,
            Some(b) => {
                let (noms, _) = match decode_nominations(b, 0) {
                    Ok(x) => x,
                    Err(e) => {
                        return Err(e);
                    },
                };
                let staked = match &entry.locks {
                    None => {
                        proof {
                            assert(sat_staked(Seq::<BalanceLock>::empty()) == 0);
                        }
                        0u128
                    },
                    Some(lb) => {
                        let (locks, _) = match decode_balance_locks(lb, 0) {
                            Ok(x) => x,
                            Err(e) => {
                                return Err(e);
                            },
                        };
                        staked_from_locks(&locks)
                    },
                };
                Some(Nominator { nominations: noms, staked })
            },
        };
        let addr = encode_address(&account, fmt);
        proof {
            assert(sres_nominator_record(entries@[i as int]@, fmt) matches Ok(p)
                && p.0 == addr@ && p.1 == opt_nominator_view(record));
        }
        out.push((addr, record));
        i = i + 1;
    }
    Ok(out)
}

/// One enumerated entry of the validator-candidate map: the full storage
/// key and the raw bytes of the candidate's preferences, balance locks
/// and ledger, each absent where the store held nothing.
pub struct ValidatorEntry {
    pub key: Vec<u8>,
    pub prefs: Option<Vec<u8>>,
    pub locks: Option<Vec<u8>>,
    pub ledger: Option<Vec<u8>>,
}

pub ghost struct ValEntryV {
    pub key: Seq<u8>,
    pub prefs: Option<Seq<u8>>,
    pub locks: Option<Seq<u8>>,
    pub ledger: Option<Seq<u8>>,
}

impl View for ValidatorEntry {
    type V = ValEntryV;

    open spec fn view(&self) -> ValEntryV {
        ValEntryV {
            key: self.key@,
            prefs: match self.prefs {
                Some(ref b) => Some(b@),
                None => None,
            },
            locks: match self.locks {
                Some(ref b) => Some(b@),
                None => None,
            },
            ledger: match self.ledger {
                Some(ref b) => Some(b@),
                None => None,
            },
        }
    }
}

/// Reading a candidate's preferences: absent bytes mean no stored entry.
pub open spec fn sres_opt_prefs(raw: Option<Seq<u8>>) -> Result<Option<ValidatorPrefs>, DecodeError> {
    match raw {
        None => Ok(None),
        Some(b) => match sres_prefs(b, 0) {
            Ok((v, _)) => Ok(Some(v)),
            Err(e) => Err(e),
        },
    }
}

/// Reading a candidate's ledger: absent bytes mean no stored entry.
pub open spec fn sres_opt_ledger(raw: Option<Seq<u8>>) -> Result<Option<StakingLedgerV>, DecodeError> {
    match raw {
        None => Ok(None),
        Some(b) => match sres_ledger(b, 0) {
            Ok((v, _)) => Ok(Some(v)),
            Err(e) => Err(e),
        },
    }
}

/// The nominator column of a candidate's record: the scan-order address
/// list when anyone nominates it, else the single placeholder entry that
/// signals "none".
pub open spec fn spec_nominator_list(
    ds: Seq<(Seq<u8>, Option<NominationsV>)>,
    fmt: NetworkFormat,
    acc: Seq<u8>,
) -> Seq<Seq<char>> {
    if target_occurs(ds, acc) {
        spec_noms_for(ds, fmt, acc)
    } else {
        seq!["None"@]
    }
}

/// Reading one validator-candidate entry into its display record.
pub open spec fn sres_waiting_record(
    e: ValEntryV,
    ds: Seq<(Seq<u8>, Option<NominationsV>)>,
    fmt: NetworkFormat,
) -> Result<(Seq<char>, WaitingValidatorV), DecodeError> {
    if e.key.len() != 72 {
        Err(DecodeError::BadKeyLength)
    } else {
        let acc = e.key.skip(40);
        match sres_opt_locks(e.locks) {
            Ok(l) => match sres_opt_prefs(e.prefs) {
                Ok(p) => match sres_opt_ledger(e.ledger) {
                    Ok(led) => Ok((
                        addr_of(acc, fmt),
                        WaitingValidatorV {
                            staked: sat_staked(l),
                            prefs: p,
                            nominators: spec_nominator_list(ds, fmt, acc),
                            ledger: led,
                        },
                    )),
                    Err(err) => Err(err),
                },
                Err(err) => Err(err),
            },
            Err(err) => Err(err),
        }
    }
}

/// Whether anyone in the decoded nominator list targets `t`.
fn occurs_exec(decoded: &Vec<(AccountId, Option<Nominations>)>, t: &AccountId) -> (r: bool)
    ensures
        r == target_occurs(dsv(decoded@), t@),
{
    let ghost ds = dsv(decoded@);
    let mut i: usize = 0;
    proof {
        assert(ds.take(0) =~= Seq::<(Seq<u8>, Option<NominationsV>)>::empty());
        if target_occurs(ds.take(0), t@) {
            let (a, b) = choose|a: int, b: int|
                0 <= a < ds.take(0).len() && 0 <= b < entry_targets(ds.take(0)[a]).len()
                    && #[trigger] entry_targets(ds.take(0)[a])[b] == t@;
            assert(false);
        }
    }
    while i < decoded.len()
        invariant
            i <= decoded.len(),
            ds == dsv(decoded@),
            ds.len() == decoded@.len(),
            !target_occurs(ds.take(i as int), t@),
        decreases decoded.len() - i,
    {
        match &decoded[i].1 {
            None => {
                proof {
                    assert(entry_targets(ds[i as int]) =~= Seq::<Seq<u8>>::empty());
                    lemma_target_occurs_step(ds, i as int, t@);
                    if in_targets(Seq::<Seq<u8>>::empty(), t@) {
                        let j = choose|j: int|
                            0 <= j < Seq::<Seq<u8>>::empty().len()
                                && Seq::<Seq<u8>>::empty()[j] == t@;
                        assert(false);
                    }
                }
            },
            Some(noms) => {
                let ghost tgts = noms@.targets;
                proof {
                    assert(entry_targets(ds[i as int]) == tgts);
                }
                let mut j: usize = 0;
                while j < noms.targets.len()
                    invariant
                        i < decoded.len(),
                        j <= noms.targets.len(),
                        ds == dsv(decoded@),
                        ds.len() == decoded@.len(),
                        decoded@[i as int].1 matches Some(ns) && ns@.targets == tgts
                            && ns.targets@.len() == tgts.len(),
                        entry_targets(ds[i as int]) == tgts,
                        tgts.len() == noms.targets@.len(),
                        forall|j2: int| 0 <= j2 < tgts.len() ==> noms.targets@[j2]@ == tgts[j2],
                        !target_occurs(ds.take(i as int), t@),
                        forall|j2: int| 0 <= j2 < j ==> tgts[j2] != t@,
                    decreases noms.targets.len() - j,
                {
                    if noms.targets[j].same(t) {
                        proof {
                            assert(tgts[j as int] == t@);
                            assert(entry_targets(ds[i as int])[j as int] == t@);
                        }
                        return true;
                    }
                    j = j + 1;
                }
                proof {
                    lemma_target_occurs_step(ds, i as int, t@);
                    if in_targets(tgts, t@) {
                        let j2 = choose|j2: int| 0 <= j2 < tgts.len() && tgts[j2] == t@;
                        assert(false);
                    }
                }
            },
        }
        proof {
            if decoded@[i as int].1 is None {
                lemma_target_occurs_step(ds, i as int, t@);
            }
        }
        i = i + 1;
    }
    proof {
        assert(ds.take(decoded@.len() as int) =~= ds);
    }
    false
}

/// Build the display record of one enumerated validator candidate.
fn waiting_record(
    entry: &ValidatorEntry,
    decoded: &Vec<(AccountId, Option<Nominations>)>,
    fmt: NetworkFormat,
) -> (r: Result<(String, WaitingValidator), DecodeError>)
    requires
        forall|x: int| 0 <= x < decoded@.len() ==> account_wf(#[trigger] decoded@[x].0@),
    ensures
        match r {
            Ok(p) => sres_waiting_record(entry@, dsv(decoded@), fmt) matches Ok(sp)
                && sp.0 == p.0@ && sp.1 == p.1@,
            Err(e) => sres_waiting_record(entry@, dsv(decoded@), fmt) matches Err(se) && se == e,
        },
{
    let ghost ds = dsv(decoded@);
    let account = match crate::keys::key_to_account(&entry.key) {
        Ok(a) => a,
        Err(e) => {
            return Err(e);
        },
    };
    let staked = match &entry.locks {
        None => 0u128,
        Some(lb) => {
            let (locks, _) = match decode_balance_locks(lb, 0) {
                Ok(x) => x,
                Err(e) => {
                    return Err(e);
                },
            };
            staked_from_locks(&locks)
        },
    };
    let prefs = match &entry.prefs {
        None => None,
        Some(pb) => match decode_prefs(pb, 0) {
            Ok((v, _)) => Some(v),
            Err(e) => {
                return Err(e);
            },
        },
    };
    let ledger = match &entry.ledger {
        None => None,
        Some(gb) => match decode_ledger(gb, 0) {
            Ok((v, _)) => Some(v),
            Err(e) => {
                return Err(e);
            },
        },
    };
    let noms_list = if occurs_exec(decoded, &account) {
        noms_for(decoded, fmt, &account)
    } else {
        let mut placeholder: Vec<String> = Vec::new();
        placeholder.push("None".to_owned());
        proof {
            assert(strs_view(placeholder@) =~= seq!["None"@]);
        }
        placeholder
    };
    let addr = encode_address(&account, fmt);
    let record = WaitingValidator { staked, prefs, nominators: noms_list, ledger };
    proof {
        assert(record@.nominators =~= spec_nominator_list(ds, fmt, account@));
        assert(sres_waiting_record(entry@, ds, fmt) matches Ok(sp)
            && sp.0 == addr@ && sp.1 == record@);
    }
    Ok((addr, record))
}

/// Build one display record per enumerated validator candidate: its
/// textual address, staking-tagged lock sum, preferences, scan-order
/// nominator addresses (or the "none" placeholder), and ledger.
#[verifier::rlimit(100)]
pub fn waiting_validators(
    ventries: &Vec<ValidatorEntry>,
    nentries: &Vec<NominatorEntry>,
    fmt: NetworkFormat,
) -> (r: Result<Vec<(String, WaitingValidator)>, DecodeError>)
    ensures
        match r {
            Ok(v) => sres_decoded_list(evof(nentries@)) matches Ok(ds) && v@.len()
                == ventries@.len() && forall|i: int|
                0 <= i < ventries@.len() ==> (#[trigger] sres_waiting_record(ventries@[i]@, ds, fmt)
                    matches Ok(p) && p.0 == v@[i].0@ && p.1 == v@[i].1@),
            Err(e) => (sres_decoded_list(evof(nentries@)) matches Err(se) && se == e) || (
            sres_decoded_list(evof(nentries@)) matches Ok(ds) && exists|i: int|
                0 <= i < ventries@.len() && (#[trigger] sres_waiting_record(ventries@[i]@, ds, fmt)
                    matches Err(se2) && se2 == e)),
        },
{
    let decoded = match get_nominators(nentries) {
        Ok(d) => d,
        Err(e) => {
            return Err(e);
        },
    };
    let ghost ds = dsv(decoded@);
    proof {
        lemma_decoded_list_wf(evof(nentries@), ds);
        assert forall|x: int| 0 <= x < decoded@.len() implies account_wf(
            #[trigger] decoded@[x].0@,
        ) by {
            assert(ds[x] == (decoded@[x].0@, opt_noms_view(decoded@[x].1)));
            assert(account_wf(ds[x].0));
        }
    }
    let mut out: Vec<(String, WaitingValidator)> = Vec::new();
    let mut i: usize = 0;
    while i < ventries.len()
        invariant
            i <= ventries.len(),
            ds == dsv(decoded@),
            sres_decoded_list(evof(nentries@)) == Ok::<_, DecodeError>(ds),
            forall|x: int| 0 <= x < decoded@.len() ==> account_wf(#[trigger] decoded@[x].0@),
            out@.len() == i,
            forall|j: int| 0 <= j < i ==> (#[trigger] sres_waiting_record(ventries@[j]@, ds, fmt)
                matches Ok(p) && p.0 == out@[j].0@ && p.1 == out@[j].1@),
        decreases ventries.len() - i,
    {
        let pair = match waiting_record(&ventries[i], &decoded, fmt) {
            Ok(p) => p,
            Err(e) => {
                return Err(e);
            },
        };
        out.push(pair);
        i = i + 1;
    }
    Ok(out)
}

} // verus!
