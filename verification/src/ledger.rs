//! The rate ledger: token-scoped, time-windowed accounting of consumed
//! byte quota, computed fresh on every admission check from the entries
//! under `ratelimit:{token}:{timestamp}`.
//!
//! Timestamps have one-second resolution; two admissions of one token in
//! the same second share a key, so the later one overwrites the earlier —
//! a known loss under concurrent load, inherited from the key layout.
//! The scan-then-insert sequence is not atomic across keys either;
//! concurrent calls for one token can jointly exceed the quota. The
//! contracts here speak of non-concurrent invocation.
//!
//! The key layout is a persisted contract, and it leaves one caveat with
//! the caller: a token containing `:` followed by digits (IPv6 text, for
//! one) can place entries under a shorter token's scan prefix, where they
//! read as corrupt and fail that token's admissions. Callers that cannot
//! rule such tokens out should escape them before use.

use vstd::bytes::{spec_u64_from_le_bytes, spec_u64_to_le_bytes, u64_from_le_bytes, u64_to_le_bytes};
use vstd::prelude::*;
use crate::bytes_util::{copy_range, dec_digits, lemma_dec_digits_props, parse_dec_u64, val_of_digits};
use crate::errors::StoreError;
use crate::keys::{ledger_key, ledger_key_spec, ledger_prefix, ledger_prefix_spec};
use crate::kv::{kv_insert, kv_map, kv_remove, kv_scan_prefix};

verus! {

/// Whether an entry admitted at `ts` still counts toward quota at `now`.
/// An entry dated after `now` does not count (and is treated as stale).
pub open spec fn counts_in_window(ts: u64, now: u64, window: u64) -> bool {
    ts <= now && now - ts <= window
}

/// The first timestamp that still falls in the window ending at `now`.
pub open spec fn window_lo(now: u64, window: u64) -> int {
    if now > window {
        now - window
    } else {
        0
    }
}

/// The credit recorded under one well-shaped ledger entry; zero when the
/// key is absent or its value is not 8 bytes.
pub open spec fn entry_credit(m: Map<Seq<u8>, Seq<u8>>, token: Seq<u8>, ts: u64) -> int {
    let k = ledger_key_spec(token, ts);
    if m.dom().contains(k) && m[k].len() == 8 {
        spec_u64_from_le_bytes(m[k]) as int
    } else {
        0
    }
}

/// Sum of the credits recorded for timestamps `lo..=hi`.
pub open spec fn credit_sum(m: Map<Seq<u8>, Seq<u8>>, token: Seq<u8>, lo: int, hi: int) -> int
    decreases hi - lo + 1,
{
    if lo > hi {
        0
    } else {
        entry_credit(m, token, lo as u64) + credit_sum(m, token, lo + 1, hi)
    }
}

/// The live charge against a token: credits recorded in the window
/// ending at `now`.
pub open spec fn window_sum(m: Map<Seq<u8>, Seq<u8>>, token: Seq<u8>, now: u64, window: u64) -> int {
    credit_sum(m, token, window_lo(now, window), now as int)
}

/// Every entry under the token's prefix is a canonical ledger key with
/// an 8-byte credit value.
pub open spec fn ledger_well_formed(m: Map<Seq<u8>, Seq<u8>>, token: Seq<u8>) -> bool {
    forall|k: Seq<u8>|
        #[trigger] m.dom().contains(k) && ledger_prefix_spec(token).is_prefix_of(k) ==> exists|
            ts: u64,
        |
            k == ledger_key_spec(token, ts) && m[k].len() == 8
}

/// The stale entries of a token: ledger keys whose admission no longer
/// falls in the window ending at `now`.
pub open spec fn stale_keys(
    m: Map<Seq<u8>, Seq<u8>>,
    token: Seq<u8>,
    now: u64,
    window: u64,
) -> Set<Seq<u8>> {
    Set::new(
        |k: Seq<u8>|
            m.dom().contains(k) && exists|ts: u64|
                k == #[trigger] ledger_key_spec(token, ts) && !counts_in_window(ts, now, window),
    )
}

/// The ledger after lazy cleanup of a token's stale entries.
pub open spec fn cleaned(m: Map<Seq<u8>, Seq<u8>>, token: Seq<u8>, now: u64, window: u64) -> Map<
    Seq<u8>,
    Seq<u8>,
> {
    m.remove_keys(stale_keys(m, token, now, window))
}

/// A token's ledger keys name the admission time uniquely.
pub proof fn lemma_ledger_key_injective(token: Seq<u8>, a: u64, b: u64)
    requires
        ledger_key_spec(token, a) == ledger_key_spec(token, b),
    ensures
        a == b,
{
    let p = ledger_prefix_spec(token);
    let ka = ledger_key_spec(token, a);
    let kb = ledger_key_spec(token, b);
    lemma_dec_digits_props(a as nat);
    lemma_dec_digits_props(b as nat);
    assert(dec_digits(a as nat) =~= ka.subrange(p.len() as int, ka.len() as int));
    assert(dec_digits(b as nat) =~= kb.subrange(p.len() as int, kb.len() as int));
    assert(val_of_digits(dec_digits(a as nat)) == val_of_digits(dec_digits(b as nat)));
}

/// A token's ledger keys carry the token's prefix.
pub proof fn lemma_ledger_key_prefix(token: Seq<u8>, ts: u64)
    ensures
        ledger_prefix_spec(token).is_prefix_of(ledger_key_spec(token, ts)),
{
    let p = ledger_prefix_spec(token);
    let k = ledger_key_spec(token, ts);
    assert(k.subrange(0, p.len() as int) =~= p);
}

/// Two ledgers that agree on a token's entries in a range have the same
/// credit sum over it.
pub proof fn lemma_credit_sum_agree(
    m1: Map<Seq<u8>, Seq<u8>>,
    m2: Map<Seq<u8>, Seq<u8>>,
    token: Seq<u8>,
    lo: int,
    hi: int,
)
    requires
        0 <= lo,
        hi <= u64::MAX,
        forall|ts: u64|
            lo <= ts <= hi ==> entry_credit(m1, token, ts) == entry_credit(m2, token, ts),
    ensures
        credit_sum(m1, token, lo, hi) == credit_sum(m2, token, lo, hi),
    decreases hi - lo + 1,
{
    if lo <= hi {
        assert(entry_credit(m1, token, lo as u64) == entry_credit(m2, token, lo as u64));
        lemma_credit_sum_agree(m1, m2, token, lo + 1, hi);
    }
}

/// Credit sums are non-negative.
pub proof fn lemma_credit_sum_nonneg(m: Map<Seq<u8>, Seq<u8>>, token: Seq<u8>, lo: int, hi: int)
    ensures
        credit_sum(m, token, lo, hi) >= 0,
    decreases hi - lo + 1,
{
    if lo <= hi {
        lemma_credit_sum_nonneg(m, token, lo + 1, hi);
    }
}

/// A credit sum splits at any point of the range.
pub proof fn lemma_credit_sum_split(
    m: Map<Seq<u8>, Seq<u8>>,
    token: Seq<u8>,
    lo: int,
    mid: int,
    hi: int,
)
    requires
        lo - 1 <= mid <= hi,
    ensures
        credit_sum(m, token, lo, hi) == credit_sum(m, token, lo, mid) + credit_sum(
            m,
            token,
            mid + 1,
            hi,
        ),
    decreases mid - lo + 1,
{
    if lo > mid {
        assert(credit_sum(m, token, lo, mid) == 0);
    } else {
        lemma_credit_sum_split(m, token, lo + 1, mid, hi);
    }
}

/// Removing one in-range entry takes exactly its credit out of the sum.
pub proof fn lemma_credit_sum_remove(
    m: Map<Seq<u8>, Seq<u8>>,
    token: Seq<u8>,
    lo: int,
    hi: int,
    ts: u64,
)
    requires
        0 <= lo,
        hi <= u64::MAX,
        lo <= ts <= hi,
    ensures
        credit_sum(m, token, lo, hi) == entry_credit(m, token, ts) + credit_sum(
            m.remove(ledger_key_spec(token, ts)),
            token,
            lo,
            hi,
        ),
    decreases hi - lo + 1,
{
    let k = ledger_key_spec(token, ts);
    let m2 = m.remove(k);
    if lo == ts {
        assert(entry_credit(m2, token, ts) == 0);
        assert forall|t: u64| lo + 1 <= t <= hi implies entry_credit(m, token, t) == entry_credit(
            m2,
            token,
            t,
        ) by {
            if ledger_key_spec(token, t) == k {
                lemma_ledger_key_injective(token, t, ts);
            }
        }
        lemma_credit_sum_agree(m, m2, token, lo + 1, hi);
    } else {
        assert(entry_credit(m, token, lo as u64) == entry_credit(m2, token, lo as u64)) by {
            if ledger_key_spec(token, lo as u64) == k {
                lemma_ledger_key_injective(token, lo as u64, ts);
            }
        }
        lemma_credit_sum_remove(m, token, lo + 1, hi, ts);
    }
}

/// A range without live entries sums to zero.
pub proof fn lemma_credit_sum_zero(m: Map<Seq<u8>, Seq<u8>>, token: Seq<u8>, lo: int, hi: int)
    requires
        0 <= lo,
        hi <= u64::MAX,
        forall|ts: u64| lo <= ts <= hi ==> entry_credit(m, token, ts) == 0,
    ensures
        credit_sum(m, token, lo, hi) == 0,
    decreases hi - lo + 1,
{
    if lo <= hi {
        assert(entry_credit(m, token, lo as u64) == 0);
        lemma_credit_sum_zero(m, token, lo + 1, hi);
    }
}

/// The keys of the first `n` scanned entries.
pub open spec fn scanned_keys(entries: Seq<(Vec<u8>, Vec<u8>)>, n: int) -> Set<Seq<u8>> {
    Set::new(|k: Seq<u8>| exists|j: int| 0 <= j < n && (#[trigger] entries[j]).0@ == k)
}

/// The keys of the first `n` elements of a key vector.
pub open spec fn vec_keys(s: Seq<Vec<u8>>, n: int) -> Set<Seq<u8>> {
    Set::new(|k: Seq<u8>| exists|j: int| 0 <= j < n && (#[trigger] s[j])@ == k)
}

/// Scans a token's ledger, lazily deletes the entries that have left the
/// window, and admits the request exactly when the live charge plus the
/// new cost stays within the byte limit. An admission outside a dry run
/// records the cost under the current second; a second admission in the
/// same second overwrites the first (documented loss of resolution).
///
/// Nothing is changed when a ledger entry under this token's prefix is
/// malformed (`Err(Corrupt)`); on a backend failure mid-cleanup the
/// cleanup may be partial.
#[verifier::loop_isolation(false)]
pub fn timebased_ratelimit(
    db: &mut sled::Db,
    token: &Vec<u8>,
    credit_cost: u64,
    dry: bool,
    now: u64,
    window_length: u64,
    byte_limit: u64,
) -> (r: Result<bool, StoreError>)
    ensures
        match r {
            Ok(admitted) => {
                let m0 = kv_map(*old(db));
                let m1 = kv_map(*final(db));
                &&& ledger_well_formed(m0, token@)
                &&& admitted == (window_sum(m0, token@, now, window_length) + credit_cost
                    <= byte_limit)
                &&& m1 == (if admitted && !dry {
                    cleaned(m0, token@, now, window_length).insert(
                        ledger_key_spec(token@, now),
                        spec_u64_to_le_bytes(credit_cost),
                    )
                } else {
                    cleaned(m0, token@, now, window_length)
                })
                &&& admitted ==> window_sum(m1, token@, now, window_length) <= byte_limit
            },
            Err(e) => e is Corrupt ==> !ledger_well_formed(kv_map(*old(db)), token@) && kv_map(
                *final(db),
            ) == kv_map(*old(db)),
        },
{
    let ghost m0 = kv_map(*db);
    let prefix = ledger_prefix(token);
    let entries = match kv_scan_prefix(db, &prefix) {
        Ok(v) => v,
        Err(e) => { return Err(e); },
    };
    let ghost wlo = window_lo(now, window_length);
    let ghost mmax = u64::MAX as int;
    let mut used: u128 = 0;
    let mut stale: Vec<Vec<u8>> = Vec::new();
    let mut i: usize = 0;
    proof {
        assert(m0.remove_keys(scanned_keys(entries@, 0)) =~= m0);
    }
    while i < entries.len()
        invariant
            i <= entries.len(),
            kv_map(*db) == m0,
            forall|j: int|
                0 <= j < i ==> exists|ts: u64|
                    (#[trigger] entries@[j]).0@ == ledger_key_spec(token@, ts)
                        && entries@[j].1@.len() == 8,
            used as int + window_sum(
                m0.remove_keys(scanned_keys(entries@, i as int)),
                token@,
                now,
                window_length,
            ) == window_sum(m0, token@, now, window_length),
            used as int <= (i as int) * mmax,
            forall|j: int|
                0 <= j < stale@.len() ==> stale_keys(m0, token@, now, window_length).contains(
                    (#[trigger] stale@[j])@,
                ),
            forall|j: int, ts: u64|
                0 <= j < i && (#[trigger] entries@[j]).0@ == #[trigger] ledger_key_spec(token@, ts)
                    && !counts_in_window(ts, now, window_length) ==> vec_keys(
                    stale@,
                    stale@.len() as int,
                ).contains(entries@[j].0@),
        decreases entries.len() - i,
    {
        let klen = entries[i].0.len();
        let ghost k = entries@[i as int].0@;
        proof {
            assert(prefix@.is_prefix_of(k));
        }
        let suffix = copy_range(&entries[i].0, prefix.len(), klen);
        proof {
            assert(k =~= prefix@ + suffix@);
        }
        let ts = match parse_dec_u64(&suffix) {
            None => {
                proof {
                    assert forall|ts: u64| k != ledger_key_spec(token@, ts) by {
                        if k == ledger_key_spec(token@, ts) {
                            assert(suffix@ =~= dec_digits(ts as nat));
                        }
                    }
                    assert(m0.dom().contains(k) && ledger_prefix_spec(token@).is_prefix_of(k));
                    assert(!ledger_well_formed(m0, token@));
                }
                return Err(StoreError::Corrupt);
            },
            Some(t) => t,
        };
        proof {
            assert(suffix@ == dec_digits(ts as nat));
            assert(k =~= ledger_key_spec(token@, ts));
        }
        if entries[i].1.len() != 8 {
            proof {
                assert(m0[k] == entries@[i as int].1@);
                assert(m0.dom().contains(k) && ledger_prefix_spec(token@).is_prefix_of(k));
                assert forall|ts2: u64|
                    !(k == ledger_key_spec(token@, ts2) && m0[k].len() == 8) by {
                    if k == ledger_key_spec(token@, ts2) {
                        lemma_ledger_key_injective(token@, ts2, ts);
                    }
                }
                assert(!ledger_well_formed(m0, token@));
            }
            return Err(StoreError::Corrupt);
        }
        let credit = u64_from_le_bytes(entries[i].1.as_slice());
        let ghost m_left = m0.remove_keys(scanned_keys(entries@, i as int));
        proof {
            assert forall|j: int| 0 <= j < i implies (#[trigger] entries@[j]).0@ != k by {}
            assert(!scanned_keys(entries@, i as int).contains(k));
            assert(m_left.dom().contains(k));
            assert(m_left[k] == entries@[i as int].1@);
            assert(m0.remove_keys(scanned_keys(entries@, i + 1)) =~= m_left.remove(k));
        }
        let live = if ts > now {
            false
        } else {
            now - ts <= window_length
        };
        if live {
            proof {
                assert(counts_in_window(ts, now, window_length));
                assert(wlo <= ts as int <= now as int);
                lemma_credit_sum_remove(m_left, token@, wlo, now as int, ts);
                assert(entry_credit(m_left, token@, ts) == credit as int);
                assert((i as int) * mmax + mmax == ((i as int) + 1) * mmax) by (nonlinear_arith);
                assert forall|ts2: u64|
                    k == ledger_key_spec(token@, ts2) implies counts_in_window(
                    ts2,
                    now,
                    window_length,
                ) by {
                    lemma_ledger_key_injective(token@, ts2, ts);
                }
                assert((i as int) * mmax <= mmax * mmax) by (nonlinear_arith)
                    requires
                        0 <= i as int <= mmax,
                        mmax >= 0,
                ;
            }
            used = used + (credit as u128);
        } else {
            proof {
                assert(!counts_in_window(ts, now, window_length));
                assert(stale_keys(m0, token@, now, window_length).contains(k));
                assert forall|t: u64|
                    wlo <= t <= now implies entry_credit(m_left, token@, t) == entry_credit(
                    m_left.remove(k),
                    token@,
                    t,
                ) by {
                    if ledger_key_spec(token@, t) == k {
                        lemma_ledger_key_injective(token@, t, ts);
                        assert(counts_in_window(t, now, window_length));
                    }
                }
                lemma_credit_sum_agree(m_left, m_left.remove(k), token@, wlo, now as int);
            }
            let kcopy = copy_range(&entries[i].0, 0, klen);
            proof {
                assert(kcopy@ =~= k);
            }
            let ghost old_stale = stale@;
            stale.push(kcopy);
            proof {
                assert forall|j: int, ts2: u64|
                    0 <= j < i + 1 && (#[trigger] entries@[j]).0@ == #[trigger] ledger_key_spec(
                        token@,
                        ts2,
                    ) && !counts_in_window(ts2, now, window_length) implies vec_keys(
                    stale@,
                    stale@.len() as int,
                ).contains(entries@[j].0@) by {
                    if j < i {
                        assert(vec_keys(old_stale, old_stale.len() as int).contains(
                            entries@[j].0@,
                        ));
                        let jj = choose|jj: int|
                            0 <= jj < old_stale.len() && (#[trigger] old_stale[jj])@
                                == entries@[j].0@;
                        assert((stale@[jj])@ == entries@[j].0@);
                    } else {
                        assert((stale@[old_stale.len() as int])@ == entries@[j].0@);
                    }
                }
            }
        }
        i = i + 1;
    }
    proof {
        assert(ledger_well_formed(m0, token@)) by {
            assert forall|k: Seq<u8>|
                #[trigger] m0.dom().contains(k) && ledger_prefix_spec(token@).is_prefix_of(
                    k,
                ) implies exists|ts: u64| k == ledger_key_spec(token@, ts) && m0[k].len() == 8 by {
                let j = choose|j: int| 0 <= j < entries@.len() && (#[trigger] entries@[j].0@) == k;
                assert(exists|ts: u64|
                    (#[trigger] entries@[j]).0@ == ledger_key_spec(token@, ts)
                        && entries@[j].1@.len() == 8);
                let ts = choose|ts: u64|
                    (entries@[j]).0@ == ledger_key_spec(token@, ts) && entries@[j].1@.len() == 8;
                assert(m0[k] == entries@[j].1@);
            }
        }
        let m_end = m0.remove_keys(scanned_keys(entries@, entries@.len() as int));
        assert forall|t: u64| wlo <= t <= now implies entry_credit(m_end, token@, t) == 0 by {
            let kk = ledger_key_spec(token@, t);
            if m_end.dom().contains(kk) {
                lemma_ledger_key_prefix(token@, t);
                assert(m0.dom().contains(kk));
                assert(scanned_keys(entries@, entries@.len() as int).contains(kk));
                assert(false);
            }
        }
        lemma_credit_sum_zero(m_end, token@, wlo, now as int);
        assert(used as int == window_sum(m0, token@, now, window_length));
    }
    let mut ri: usize = 0;
    while ri < stale.len()
        invariant
            ri <= stale.len(),
            kv_map(*db) == m0.remove_keys(vec_keys(stale@, ri as int)),
        decreases stale.len() - ri,
    {
        match kv_remove(db, &stale[ri]) {
            Ok(_) => {},
            Err(e) => { return Err(e); },
        }
        proof {
            assert(m0.remove_keys(vec_keys(stale@, ri as int)).remove((stale@[ri as int])@)
                =~= m0.remove_keys(vec_keys(stale@, ri + 1)));
        }
        ri = ri + 1;
    }
    proof {
        assert(vec_keys(stale@, stale@.len() as int) =~= stale_keys(
            m0,
            token@,
            now,
            window_length,
        )) by {
            assert forall|kk: Seq<u8>|
                vec_keys(stale@, stale@.len() as int).contains(kk) implies stale_keys(
                m0,
                token@,
                now,
                window_length,
            ).contains(kk) by {
                let j = choose|j: int| 0 <= j < stale@.len() && (#[trigger] stale@[j])@ == kk;
            }
            assert forall|kk: Seq<u8>|
                stale_keys(m0, token@, now, window_length).contains(kk) implies vec_keys(
                stale@,
                stale@.len() as int,
            ).contains(kk) by {
                let ts = choose|ts: u64|
                    kk == #[trigger] ledger_key_spec(token@, ts) && !counts_in_window(
                        ts,
                        now,
                        window_length,
                    );
                lemma_ledger_key_prefix(token@, ts);
                let j = choose|j: int| 0 <= j < entries@.len() && (#[trigger] entries@[j].0@) == kk;
            }
        }
        assert(kv_map(*db) == cleaned(m0, token@, now, window_length));
        assert forall|t: u64|
            wlo <= t <= now implies entry_credit(
            cleaned(m0, token@, now, window_length),
            token@,
            t,
        ) == entry_credit(m0, token@, t) by {
            let kk = ledger_key_spec(token@, t);
            if m0.dom().contains(kk) {
                if stale_keys(m0, token@, now, window_length).contains(kk) {
                    let ts = choose|ts: u64|
                        kk == #[trigger] ledger_key_spec(token@, ts) && !counts_in_window(
                            ts,
                            now,
                            window_length,
                        );
                    lemma_ledger_key_injective(token@, t, ts);
                    assert(counts_in_window(t, now, window_length));
                    assert(false);
                }
            }
        }
        lemma_credit_sum_agree(
            cleaned(m0, token@, now, window_length),
            m0,
            token@,
            wlo,
            now as int,
        );
        assert((entries@.len() as int) * mmax <= mmax * mmax) by (nonlinear_arith)
            requires
                0 <= entries@.len() as int <= mmax,
                mmax >= 0,
        ;
    }
    let admitted = used + (credit_cost as u128) <= (byte_limit as u128);
    if !admitted {
        return Ok(false);
    }
    if dry {
        return Ok(true);
    }
    let key_now = ledger_key(token, now);
    let value = u64_to_le_bytes(credit_cost);
    let ghost m_clean = kv_map(*db);
    match kv_insert(db, &key_now, value) {
        Ok(_) => {},
        Err(e) => { return Err(e); },
    }
    proof {
        let m1 = kv_map(*db);
        let know = ledger_key_spec(token@, now);
        vstd::bytes::lemma_auto_spec_u64_to_from_le_bytes();
        assert(counts_in_window(now, now, window_length));
        assert(wlo <= now as int <= now as int);
        lemma_credit_sum_remove(m1, token@, wlo, now as int, now);
        lemma_credit_sum_remove(m_clean, token@, wlo, now as int, now);
        assert(m1.remove(know) =~= m_clean.remove(know));
        assert(entry_credit(m1, token@, now) == credit_cost as int);
        assert(window_sum(m1, token@, now, window_length) <= byte_limit);
    }
    Ok(true)
}

/// No entry of the token is dated after `now` — true of any ledger that
/// only ever saw non-concurrent admissions at times up to `now`.
pub open spec fn no_entries_after(m: Map<Seq<u8>, Seq<u8>>, token: Seq<u8>, now: u64) -> bool {
    forall|ts: u64| ts > now ==> #[trigger] entry_credit(m, token, ts) == 0
}

/// A pointwise bound on entries gives a bound on the sum.
pub proof fn lemma_credit_sum_le(
    m1: Map<Seq<u8>, Seq<u8>>,
    m2: Map<Seq<u8>, Seq<u8>>,
    token: Seq<u8>,
    lo: int,
    hi: int,
)
    requires
        0 <= lo,
        hi <= u64::MAX,
        forall|ts: u64|
            lo <= ts <= hi ==> entry_credit(m1, token, ts) <= entry_credit(m2, token, ts),
    ensures
        credit_sum(m1, token, lo, hi) <= credit_sum(m2, token, lo, hi),
    decreases hi - lo + 1,
{
    if lo <= hi {
        assert(entry_credit(m1, token, lo as u64) <= entry_credit(m2, token, lo as u64));
        lemma_credit_sum_le(m1, m2, token, lo + 1, hi);
    }
}

/// Lazy cleanup never raises any window's charge: the cleaned ledger
/// carries at most the charge of the uncleaned ledger in every window.
pub proof fn lemma_cleanup_window_bound(
    m: Map<Seq<u8>, Seq<u8>>,
    token: Seq<u8>,
    now: u64,
    window: u64,
)
    ensures
        forall|t: u64|
            window_sum(cleaned(m, token, now, window), token, t, window) <= #[trigger] window_sum(
                m,
                token,
                t,
                window,
            ),
        forall|ts: u64|
            entry_credit(m, token, ts) == 0 ==> #[trigger] entry_credit(
                cleaned(m, token, now, window),
                token,
                ts,
            ) == 0,
{
    let mc = cleaned(m, token, now, window);
    assert forall|ts: u64| #[trigger]
        entry_credit(mc, token, ts) <= entry_credit(m, token, ts) && entry_credit(
            mc,
            token,
            ts,
        ) >= 0 by {}
    assert forall|t: u64|
        window_sum(mc, token, t, window) <= #[trigger] window_sum(m, token, t, window) by {
        lemma_credit_sum_le(mc, m, token, window_lo(t, window), t as int);
    }
}

/// Window-expiry law: an entry admitted at `t` no longer counts toward
/// quota at `t + window + 1`, and when the token's only recorded entry
/// sits at `t`, a cost within the byte limit is admitted then: the live
/// charge has fallen to zero.
pub proof fn lemma_window_expiry(
    m: Map<Seq<u8>, Seq<u8>>,
    token: Seq<u8>,
    t: u64,
    window: u64,
    cost: u64,
    limit: u64,
)
    requires
        t + window + 1 <= u64::MAX,
        cost <= limit,
        forall|ts: u64| ts != t ==> entry_credit(m, token, ts) == 0,
    ensures
        !counts_in_window(t, (t + window + 1) as u64, window),
        window_sum(m, token, (t + window + 1) as u64, window) == 0,
        window_sum(m, token, (t + window + 1) as u64, window) + cost <= limit,
{
    let now = (t + window + 1) as u64;
    assert(window_lo(now, window) == t + 1);
    assert forall|ts: u64|
        window_lo(now, window) <= ts <= now implies entry_credit(m, token, ts) == 0 by {
        assert(ts != t);
    }
    lemma_credit_sum_zero(m, token, window_lo(now, window), now as int);
}

/// Rate-admission law, for non-concurrent invocation: if every window of
/// the ledger is charged at most the byte limit, no entry is dated after
/// `now`, and the window ending at `now` admits the new cost, then after
/// recording the cost at `now` every window — past, present or future —
/// is still charged at most the byte limit, and no entry is dated after
/// `now`.
pub proof fn lemma_admission_preserves_window_bound(
    m: Map<Seq<u8>, Seq<u8>>,
    token: Seq<u8>,
    now: u64,
    window: u64,
    limit: u64,
    cost: u64,
)
    requires
        forall|t: u64| #[trigger] window_sum(m, token, t, window) <= limit,
        window_sum(m, token, now, window) + cost <= limit,
        no_entries_after(m, token, now),
    ensures
        forall|t: u64| #[trigger]
            window_sum(
                m.insert(ledger_key_spec(token, now), spec_u64_to_le_bytes(cost)),
                token,
                t,
                window,
            ) <= limit,
        no_entries_after(
            m.insert(ledger_key_spec(token, now), spec_u64_to_le_bytes(cost)),
            token,
            now,
        ),
{
    let know = ledger_key_spec(token, now);
    let le = spec_u64_to_le_bytes(cost);
    let m1 = m.insert(know, le);
    vstd::bytes::lemma_auto_spec_u64_to_from_le_bytes();
    assert(entry_credit(m1, token, now) == cost as int);
    assert forall|ts: u64|
        ts != now implies entry_credit(m1, token, ts) == entry_credit(m, token, ts) by {
        if ledger_key_spec(token, ts) == know {
            lemma_ledger_key_injective(token, ts, now);
        }
    }
    assert forall|t: u64| #[trigger] window_sum(m1, token, t, window) <= limit by {
        let lo1 = window_lo(t, window);
        if t < now {
            assert forall|ts: u64|
                lo1 <= ts <= t implies entry_credit(m1, token, ts) == entry_credit(
                m,
                token,
                ts,
            ) by {
                assert(ts != now);
            }
            lemma_credit_sum_agree(m1, m, token, lo1, t as int);
            assert(window_sum(m, token, t, window) <= limit);
            assert(window_sum(m1, token, t, window) == window_sum(m, token, t, window));
        } else if lo1 > now {
            assert forall|ts: u64| lo1 <= ts <= t implies entry_credit(m1, token, ts) == 0 by {
                assert(ts > now);
            }
            lemma_credit_sum_zero(m1, token, lo1, t as int);
        } else {
            let lo0 = window_lo(now, window);
            lemma_credit_sum_split(m1, token, lo1, now as int, t as int);
            assert forall|ts: u64|
                now as int + 1 <= ts <= t implies entry_credit(m1, token, ts) == 0 by {
                assert(ts > now);
            }
            lemma_credit_sum_zero(m1, token, now as int + 1, t as int);
            assert(lo0 <= lo1);
            lemma_credit_sum_split(m1, token, lo0, lo1 - 1, now as int);
            lemma_credit_sum_nonneg(m1, token, lo0, lo1 - 1);
            lemma_credit_sum_remove(m1, token, lo0, now as int, now);
            lemma_credit_sum_remove(m, token, lo0, now as int, now);
            assert(m1.remove(know) =~= m.remove(know));
            assert(credit_sum(m1, token, lo0, now as int) == cost + credit_sum(
                m.remove(know),
                token,
                lo0,
                now as int,
            ));
            assert(credit_sum(m.remove(know), token, lo0, now as int) <= window_sum(
                m,
                token,
                now,
                window,
            ));
            assert(credit_sum(m1, token, lo0, now as int) <= limit);
            assert(credit_sum(m1, token, lo0, now as int) == credit_sum(m1, token, lo0, lo1 - 1)
                + credit_sum(m1, token, lo1, now as int));
            assert(credit_sum(m1, token, lo1, now as int) <= limit);
            assert(credit_sum(m1, token, lo1, t as int) == credit_sum(m1, token, lo1, now as int)
                + credit_sum(m1, token, now as int + 1, t as int));
            assert(window_sum(m1, token, t, window) == credit_sum(m1, token, lo1, t as int));
        }
    }
}

/// Rate-admission monotonicity, matched to the ledger that an admitting
/// `timebased_ratelimit` call leaves behind: starting from a ledger
/// whose every window is charged at most the byte limit and whose
/// entries all lie at or before `now`, an admission of `cost` at `now`
/// (lazy cleanup followed by the new entry) leaves every window — past,
/// present or future — charged at most the byte limit. Chained over a
/// sequence of non-concurrent calls, the recorded charge of any window
/// never exceeds the limit.
pub proof fn lemma_rate_admission_monotonic(
    m: Map<Seq<u8>, Seq<u8>>,
    token: Seq<u8>,
    now: u64,
    window: u64,
    limit: u64,
    cost: u64,
)
    requires
        forall|t: u64| #[trigger] window_sum(m, token, t, window) <= limit,
        no_entries_after(m, token, now),
        window_sum(m, token, now, window) + cost <= limit,
    ensures
        forall|t: u64| #[trigger]
            window_sum(
                cleaned(m, token, now, window).insert(
                    ledger_key_spec(token, now),
                    spec_u64_to_le_bytes(cost),
                ),
                token,
                t,
                window,
            ) <= limit,
        no_entries_after(
            cleaned(m, token, now, window).insert(
                ledger_key_spec(token, now),
                spec_u64_to_le_bytes(cost),
            ),
            token,
            now,
        ),
{
    let mc = cleaned(m, token, now, window);
    lemma_cleanup_window_bound(m, token, now, window);
    assert forall|t: u64| #[trigger] window_sum(mc, token, t, window) <= limit by {
        assert(window_sum(m, token, t, window) <= limit);
    }
    assert(window_sum(mc, token, now, window) + cost <= limit) by {
        assert(window_sum(m, token, now, window) <= limit);
    }
    lemma_admission_preserves_window_bound(mc, token, now, window, limit, cost);
}

} // verus!
