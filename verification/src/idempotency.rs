//! Idempotency store: prevents duplicate processing of requests.
//!
//! Key: `scope|method|path|idempotency_key`; value: SHA-256 of the request
//! body. The same key with the same body hash is a replay, with another body
//! hash a conflict. Entries expire after a TTL, and the store holds at most
//! `cap` entries, evicting the least recently touched one (ties broken by
//! insertion order, so eviction is deterministic).
use vstd::prelude::*;
use crate::digest::{sha256_hash, spec_sha256};
use crate::text::{append_str, chars_eq, chars_of, string_from_chars};

verus! {

#[verifier::external_type_specification]
#[verifier::external_body]
pub struct ExInstant(std::time::Instant);

/// `std::time::Instant::now()`. Nothing is claimed of it: it is the time.
#[verifier::external_body]
fn instant_now() -> std::time::Instant {
    std::time::Instant::now()
}

/// `std::time::Instant::elapsed`. Nothing is claimed of it: it is the time.
#[verifier::external_body]
fn instant_elapsed(origin: &std::time::Instant) -> core::time::Duration {
    origin.elapsed()
}

/// `std::time::Duration::as_nanos`, applied to the time elapsed on the
/// store's clock. Nothing is claimed of the number: it is the time.
#[verifier::external_body]
fn duration_as_nanos(d: &core::time::Duration) -> u128 {
    d.as_nanos()
}

/// One remembered request.
#[derive(Debug, Clone, Copy)]
pub struct Entry {
    pub body_hash: [u8; 32],
    /// Nanoseconds after the store's creation at which the key was first seen
    pub created_at: u128,
    /// Insertion number, unique in the store
    pub seq: u64,
    /// Number of the last check that touched the entry
    pub last_touch: u64,
}

pub struct EntryModel {
    pub body_hash: Seq<u8>,
    pub created_at: nat,
    pub seq: nat,
    pub last_touch: nat,
}

impl View for Entry {
    type V = EntryModel;

    open spec fn view(&self) -> EntryModel {
        EntryModel {
            body_hash: self.body_hash@,
            created_at: self.created_at as nat,
            seq: self.seq as nat,
            last_touch: self.last_touch as nat,
        }
    }
}

/// Result of checking idempotency.
#[derive(Debug, Clone, Copy, PartialEq, Eq, Structural)]
pub enum IdempCheck {
    /// First time seeing this key: proceed with the request.
    New,
    /// Same key and same body hash: a replay.
    Replay,
    /// Same key and another body hash: a conflict.
    KeyReusedDifferentPayload,
}

/// The bounded, expiring idempotency store.
pub struct IdempotencyStore {
    entries: Vec<(String, Entry)>,
    cap: usize,
    ttl_nanos: u128,
    seq_ctr: u64,
    touch_ctr: u64,
    origin: std::time::Instant,
}

pub struct StoreModel {
    pub entries: Seq<(Seq<char>, EntryModel)>,
    pub cap: nat,
    pub ttl: nat,
    pub seq_ctr: nat,
    pub touch_ctr: nat,
}

pub open spec fn entries_view(es: Seq<(String, Entry)>) -> Seq<(Seq<char>, EntryModel)> {
    es.map_values(|p: (String, Entry)| (p.0@, p.1@))
}

impl View for IdempotencyStore {
    type V = StoreModel;

    closed spec fn view(&self) -> StoreModel {
        StoreModel {
            entries: entries_view(self.entries@),
            cap: self.cap as nat,
            ttl: self.ttl_nanos as nat,
            seq_ctr: self.seq_ctr as nat,
            touch_ctr: self.touch_ctr as nat,
        }
    }
}

// ---------------------------------------------------------------------------
// The model
// ---------------------------------------------------------------------------

/// The composite key `scope|method|path|idempotency_key`.
pub open spec fn composite_key(
    scope_prefix: Seq<char>,
    method: Seq<char>,
    path: Seq<char>,
    idemp_key: Seq<char>,
) -> Seq<char> {
    scope_prefix + "|"@ + method + "|"@ + path + "|"@ + idemp_key
}

/// How long ago an entry was created, as `Instant::duration_since` measures
/// it: zero when `now` reads earlier than the creation.
pub open spec fn age(created_at: nat, now: nat) -> nat {
    if now >= created_at {
        (now - created_at) as nat
    } else {
        0
    }
}

pub open spec fn is_live(e: EntryModel, now: nat, ttl: nat) -> bool {
    age(e.created_at, now) < ttl
}

/// The entries that have not expired at `now`, in order.
pub open spec fn sweep(es: Seq<(Seq<char>, EntryModel)>, now: nat, ttl: nat) -> Seq<
    (Seq<char>, EntryModel),
>
    decreases es.len(),
{
    if es.len() == 0 {
        Seq::empty()
    } else {
        let rest = sweep(es.drop_last(), now, ttl);
        if is_live(es.last().1, now, ttl) {
            rest.push(es.last())
        } else {
            rest
        }
    }
}

/// The index of the entry under `key`.
pub open spec fn index_of_key(es: Seq<(Seq<char>, EntryModel)>, key: Seq<char>) -> Option<int>
    decreases es.len(),
{
    if es.len() == 0 {
        None
    } else if es.last().0 == key {
        Some(es.len() - 1)
    } else {
        index_of_key(es.drop_last(), key)
    }
}

/// `a` was touched before `b`: an earlier touch, or the same touch and an
/// earlier insertion.
pub open spec fn touched_before(a: EntryModel, b: EntryModel) -> bool {
    a.last_touch < b.last_touch || (a.last_touch == b.last_touch && a.seq < b.seq)
}

/// The index of the least recently touched entry (the first one, were there
/// a tie).
pub open spec fn lru_index(es: Seq<(Seq<char>, EntryModel)>) -> int
    decreases es.len(),
{
    if es.len() <= 1 {
        0
    } else {
        let j = lru_index(es.drop_last());
        if touched_before(es.last().1, es[j].1) {
            es.len() - 1
        } else {
            j
        }
    }
}

/// What `check` answers at time `now`, and the store it leaves: expired
/// entries are swept first; a replay touches its entry; a new key is added
/// and, over capacity, the least recently touched entry is evicted.
pub open spec fn spec_check(s: StoreModel, key: Seq<char>, hash: Seq<u8>, now: nat) -> (
    IdempCheck,
    StoreModel,
) {
    let live = sweep(s.entries, now, s.ttl);
    match index_of_key(live, key) {
        Some(i) => if live[i].1.body_hash == hash {
            (
                IdempCheck::Replay,
                StoreModel {
                    entries: live.update(
                        i,
                        (
                            key,
                            EntryModel {
                                body_hash: live[i].1.body_hash,
                                created_at: live[i].1.created_at,
                                seq: live[i].1.seq,
                                last_touch: s.touch_ctr,
                            },
                        ),
                    ),
                    cap: s.cap,
                    ttl: s.ttl,
                    seq_ctr: s.seq_ctr,
                    touch_ctr: s.touch_ctr + 1,
                },
            )
        } else {
            (
                IdempCheck::KeyReusedDifferentPayload,
                StoreModel {
                    entries: live,
                    cap: s.cap,
                    ttl: s.ttl,
                    seq_ctr: s.seq_ctr,
                    touch_ctr: s.touch_ctr,
                },
            )
        },
        None => {
            let e = EntryModel {
                body_hash: hash,
                created_at: now,
                seq: s.seq_ctr,
                last_touch: s.touch_ctr,
            };
            let added = live.push((key, e));
            (
                IdempCheck::New,
                StoreModel {
                    entries: if added.len() > s.cap {
                        added.remove(lru_index(added))
                    } else {
                        added
                    },
                    cap: s.cap,
                    ttl: s.ttl,
                    seq_ctr: s.seq_ctr + 1,
                    touch_ctr: s.touch_ctr + 1,
                },
            )
        },
    }
}

/// The store's invariant: keys unique, insertion numbers unique and below the
/// counter, touches below the touch counter, at most `cap` entries.
pub open spec fn store_wf(s: StoreModel) -> bool {
    &&& forall|i: int, j: int|
        0 <= i < j < s.entries.len() ==> #[trigger] s.entries[i].0 != #[trigger] s.entries[j].0
    &&& forall|i: int, j: int|
        0 <= i < j < s.entries.len() ==> #[trigger] s.entries[i].1.seq
            != #[trigger] s.entries[j].1.seq
    &&& forall|i: int|
        0 <= i < s.entries.len() ==> #[trigger] s.entries[i].1.seq < s.seq_ctr
            && s.entries[i].1.last_touch < s.touch_ctr
    &&& s.seq_ctr <= s.touch_ctr
    &&& s.entries.len() <= s.cap
}


// ---------------------------------------------------------------------------
// Lemmas on the model
// ---------------------------------------------------------------------------

/// Sweeping keeps a sub-sequence: every swept entry is an entry of the
/// original, and distinct keys and distinct insertion numbers stay distinct.
pub proof fn lemma_sweep(es: Seq<(Seq<char>, EntryModel)>, now: nat, ttl: nat)
    ensures
        sweep(es, now, ttl).len() <= es.len(),
        forall|k: int|
            0 <= k < sweep(es, now, ttl).len() ==> exists|i: int|
                0 <= i < es.len() && #[trigger] sweep(es, now, ttl)[k] == es[i],
        forall|k: int|
            0 <= k < sweep(es, now, ttl).len() ==> is_live(#[trigger] sweep(es, now, ttl)[k].1, now, ttl),
        (forall|i: int, j: int| 0 <= i < j < es.len() ==> #[trigger] es[i].0 != #[trigger] es[j].0)
            ==> (forall|i: int, j: int|
            0 <= i < j < sweep(es, now, ttl).len() ==> #[trigger] sweep(es, now, ttl)[i].0
                != #[trigger] sweep(es, now, ttl)[j].0),
        (forall|i: int, j: int|
            0 <= i < j < es.len() ==> #[trigger] es[i].1.seq != #[trigger] es[j].1.seq) ==> (forall|
            i: int,
            j: int,
        |
            0 <= i < j < sweep(es, now, ttl).len() ==> #[trigger] sweep(es, now, ttl)[i].1.seq
                != #[trigger] sweep(es, now, ttl)[j].1.seq),
    decreases es.len(),
{
    if es.len() > 0 {
        let d = es.drop_last();
        lemma_sweep(d, now, ttl);
        let rest = sweep(d, now, ttl);
        let sw = sweep(es, now, ttl);
        assert forall|k: int| 0 <= k < sw.len() implies exists|i: int|
            0 <= i < es.len() && #[trigger] sw[k] == es[i] by {
            if k < rest.len() {
                let i = choose|i: int| 0 <= i < d.len() && rest[k] == d[i];
                assert(sw[k] == es[i]);
            } else {
                assert(sw[k] == es[es.len() - 1]);
            }
        }
        if forall|i: int, j: int| 0 <= i < j < es.len() ==> #[trigger] es[i].0 != #[trigger] es[j].0 {
            assert forall|i: int, j: int| 0 <= i < j < sw.len() implies #[trigger] sw[i].0
                != #[trigger] sw[j].0 by {
                if j >= rest.len() {
                    let a = choose|a: int| 0 <= a < d.len() && rest[i] == d[a];
                    assert(es[a] == d[a]);
                    assert(sw[j] == es[es.len() - 1]);
                }
            }
        }
        if forall|i: int, j: int|
            0 <= i < j < es.len() ==> #[trigger] es[i].1.seq != #[trigger] es[j].1.seq {
            assert forall|i: int, j: int| 0 <= i < j < sw.len() implies #[trigger] sw[i].1.seq
                != #[trigger] sw[j].1.seq by {
                if j >= rest.len() {
                    let a = choose|a: int| 0 <= a < d.len() && rest[i] == d[a];
                    assert(es[a] == d[a]);
                    assert(sw[j] == es[es.len() - 1]);
                }
            }
        }
    }
}

pub proof fn lemma_index_of_key(es: Seq<(Seq<char>, EntryModel)>, key: Seq<char>)
    ensures
        match index_of_key(es, key) {
            Some(i) => 0 <= i < es.len() && es[i].0 == key,
            None => forall|i: int| 0 <= i < es.len() ==> es[i].0 != key,
        },
    decreases es.len(),
{
    if es.len() > 0 && es.last().0 != key {
        let d = es.drop_last();
        lemma_index_of_key(d, key);
        assert forall|i: int| 0 <= i < d.len() implies es[i] == d[i] by {}
    }
}

/// The least recently touched entry is an entry, and no entry was touched
/// before it.
pub proof fn lemma_lru_index(es: Seq<(Seq<char>, EntryModel)>)
    requires
        es.len() > 0,
    ensures
        0 <= lru_index(es) < es.len(),
        forall|j: int| 0 <= j < es.len() ==> !touched_before(#[trigger] es[j].1, es[lru_index(es)].1),
    decreases es.len(),
{
    if es.len() > 1 {
        let d = es.drop_last();
        lemma_lru_index(d);
        let jm = lru_index(d);
        assert forall|j: int| 0 <= j < es.len() implies !touched_before(
            #[trigger] es[j].1,
            es[lru_index(es)].1,
        ) by {
            if j < d.len() {
                assert(es[j] == d[j]);
                assert(!touched_before(d[j].1, d[jm].1));
            }
            assert(es[jm] == d[jm]);
        }
    }
}

/// A live entry survives the sweep.
pub proof fn lemma_sweep_keeps(es: Seq<(Seq<char>, EntryModel)>, now: nat, ttl: nat, i: int)
    requires
        0 <= i < es.len(),
        is_live(es[i].1, now, ttl),
    ensures
        exists|k: int| 0 <= k < sweep(es, now, ttl).len() && #[trigger] sweep(es, now, ttl)[k] == es[i],
    decreases es.len(),
{
    let d = es.drop_last();
    if i < es.len() - 1 {
        assert(es[i] == d[i]);
        lemma_sweep_keeps(d, now, ttl, i);
        let k = choose|k: int| 0 <= k < sweep(d, now, ttl).len() && sweep(d, now, ttl)[k] == d[i];
        assert(sweep(es, now, ttl)[k] == es[i]);
    } else {
        let sw = sweep(es, now, ttl);
        assert(sw[sw.len() - 1] == es[i]);
    }
}

// ---------------------------------------------------------------------------
// Laws
// ---------------------------------------------------------------------------

/// The first check of a key is `New`. Checked again while its entry is live
/// (less than the TTL later), with the same body it is a `Replay`, with
/// another body a `KeyReusedDifferentPayload` — provided the store can hold
/// an entry at all.
pub proof fn lemma_new_then_replay(
    s: StoreModel,
    key: Seq<char>,
    hash: Seq<u8>,
    other: Seq<u8>,
    now1: nat,
    now2: nat,
)
    requires
        store_wf(s),
        s.cap >= 1,
        index_of_key(sweep(s.entries, now1, s.ttl), key) is None,
        now1 <= now2,
        now2 - now1 < s.ttl,
        other != hash,
    ensures
        spec_check(s, key, hash, now1).0 == IdempCheck::New,
        spec_check(spec_check(s, key, hash, now1).1, key, hash, now2).0 == IdempCheck::Replay,
        spec_check(spec_check(s, key, hash, now1).1, key, other, now2).0
            == IdempCheck::KeyReusedDifferentPayload,
{
    let s1 = spec_check(s, key, hash, now1).1;
    let pos = lemma_new_entry_stored(s, key, hash, now1);
    lemma_live_entry_found(s1, pos, now2);
}

/// A key checked as new is stored with the checked hash and the check's
/// time, and survives the eviction that may follow.
proof fn lemma_new_entry_stored(s: StoreModel, key: Seq<char>, hash: Seq<u8>, now: nat) -> (pos: int)
    requires
        store_wf(s),
        s.cap >= 1,
        index_of_key(sweep(s.entries, now, s.ttl), key) is None,
    ensures
        0 <= pos < spec_check(s, key, hash, now).1.entries.len(),
        spec_check(s, key, hash, now).1.entries[pos].0 == key,
        spec_check(s, key, hash, now).1.entries[pos].1.body_hash == hash,
        spec_check(s, key, hash, now).1.entries[pos].1.created_at == now,
        store_wf(spec_check(s, key, hash, now).1),
        spec_check(s, key, hash, now).1.ttl == s.ttl,
{
    let live = sweep(s.entries, now, s.ttl);
    lemma_sweep(s.entries, now, s.ttl);
    let e = EntryModel { body_hash: hash, created_at: now, seq: s.seq_ctr, last_touch: s.touch_ctr };
    let added = live.push((key, e));
    let s1 = spec_check(s, key, hash, now).1;
    let pos: int = if added.len() > s.cap {
        lemma_lru_index(added);
        let v = lru_index(added);
        if v == added.len() - 1 {
            assert(added[0] == live[0]);
            let j = choose|j: int| 0 <= j < s.entries.len() && live[0] == s.entries[j];
            assert(s.entries[j].1.seq < s.seq_ctr);
            assert(s.entries[j].1.last_touch < s.touch_ctr);
            assert(touched_before(added[0].1, added[v].1));
        }
        added.len() - 2
    } else {
        added.len() - 1
    };
    assert(s1.entries[pos] == (key, e));
    lemma_check_keeps_wf(s, key, hash, now);
    pos
}

/// In a well-formed store, a live entry is the one a check finds under its key.
proof fn lemma_live_entry_found(s: StoreModel, pos: int, now: nat)
    requires
        store_wf(s),
        0 <= pos < s.entries.len(),
        is_live(s.entries[pos].1, now, s.ttl),
    ensures
        ({
            let live = sweep(s.entries, now, s.ttl);
            index_of_key(live, s.entries[pos].0) matches Some(f) && 0 <= f < live.len()
                && live[f] == s.entries[pos]
        }),
{
    let key = s.entries[pos].0;
    lemma_sweep_keeps(s.entries, now, s.ttl, pos);
    let live = sweep(s.entries, now, s.ttl);
    lemma_sweep(s.entries, now, s.ttl);
    let k = choose|k: int| 0 <= k < live.len() && live[k] == s.entries[pos];
    lemma_index_of_key(live, key);
    let found = index_of_key(live, key)->Some_0;
    if found != k {
        if found < k {
            assert(live[found].0 != live[k].0);
        } else {
            assert(live[k].0 != live[found].0);
        }
    }
}

/// A conflicting check does not replace what is stored: after a key was
/// checked as new, a check with another body is refused, and a later check
/// with the first body, still within the TTL of the first, is a `Replay`.
pub proof fn lemma_conflict_keeps_entry(
    s: StoreModel,
    key: Seq<char>,
    hash: Seq<u8>,
    other: Seq<u8>,
    now1: nat,
    now2: nat,
    now3: nat,
)
    requires
        store_wf(s),
        s.cap >= 1,
        index_of_key(sweep(s.entries, now1, s.ttl), key) is None,
        now1 <= now2 <= now3,
        now3 - now1 < s.ttl,
        other != hash,
    ensures
        ({
            let s1 = spec_check(s, key, hash, now1).1;
            let c2 = spec_check(s1, key, other, now2);
            &&& c2.0 == IdempCheck::KeyReusedDifferentPayload
            &&& spec_check(c2.1, key, hash, now3).0 == IdempCheck::Replay
        }),
{
    let s1 = spec_check(s, key, hash, now1).1;
    let pos = lemma_new_entry_stored(s, key, hash, now1);
    lemma_live_entry_found(s1, pos, now2);
    let s2 = spec_check(s1, key, other, now2).1;
    let live2 = sweep(s1.entries, now2, s1.ttl);
    let f = index_of_key(live2, key)->Some_0;
    assert(s2.entries == live2);
    lemma_check_keeps_wf(s1, key, other, now2);
    lemma_live_entry_found(s2, f, now3);
}

/// Expired entries are forgotten: a key checked as new at `t0` is new
/// again, whatever the body, when checked at least the TTL later.
pub proof fn lemma_ttl_expiry(
    s: StoreModel,
    key: Seq<char>,
    hash: Seq<u8>,
    again: Seq<u8>,
    t0: nat,
    t1: nat,
)
    requires
        store_wf(s),
        index_of_key(sweep(s.entries, t0, s.ttl), key) is None,
        t1 >= t0 + s.ttl,
    ensures
        spec_check(s, key, hash, t0).0 == IdempCheck::New,
        spec_check(spec_check(s, key, hash, t0).1, key, again, t1).0 == IdempCheck::New,
{
    let live = sweep(s.entries, t0, s.ttl);
    lemma_index_of_key(live, key);
    let e = EntryModel { body_hash: hash, created_at: t0, seq: s.seq_ctr, last_touch: s.touch_ctr };
    let added = live.push((key, e));
    let s1 = spec_check(s, key, hash, t0).1;
    if added.len() > s.cap {
        lemma_lru_index(added);
    }
    assert forall|i: int| 0 <= i < s1.entries.len() && #[trigger] s1.entries[i].0 == key implies !is_live(
        s1.entries[i].1,
        t1,
        s1.ttl,
    ) by {
        let ii: int = if added.len() > s.cap && i >= lru_index(added) {
            i + 1
        } else {
            i
        };
        assert(s1.entries[i] == added[ii]);
        if ii < live.len() {
            assert(added[ii] == live[ii]);
        }
    }
    lemma_expired_is_new(s1, key, again, t1);
}

/// The TTL a store is made with: in a store as `new(cap, ttl_secs)` leaves it
/// (`cap` at least 1), a key first checked at `t0` is a `Replay` when checked
/// again with the same body less than `ttl_secs` seconds later, and `New`
/// again from `ttl_secs` seconds on.
pub proof fn lemma_fresh_store_ttl(
    s: StoreModel,
    ttl_secs: nat,
    key: Seq<char>,
    hash: Seq<u8>,
    t0: nat,
    t1: nat,
)
    requires
        store_wf(s),
        s.entries.len() == 0,
        s.cap >= 1,
        s.ttl == ttl_secs * 1_000_000_000,
        t0 <= t1,
    ensures
        spec_check(s, key, hash, t0).0 == IdempCheck::New,
        t1 < t0 + ttl_secs * 1_000_000_000 ==> spec_check(spec_check(s, key, hash, t0).1, key, hash, t1).0
            == IdempCheck::Replay,
        t1 >= t0 + ttl_secs * 1_000_000_000 ==> spec_check(spec_check(s, key, hash, t0).1, key, hash, t1).0
            == IdempCheck::New,
{
    assert(sweep(s.entries, t0, s.ttl) =~= Seq::<(Seq<char>, EntryModel)>::empty());
    if t1 < t0 + ttl_secs * 1_000_000_000 {
        let other = hash.push(0u8);
        assert(other.len() != hash.len());
        lemma_new_then_replay(s, key, hash, other, t0, t1);
    } else {
        lemma_ttl_expiry(s, key, hash, hash, t0, t1);
    }
}

/// Text before a `|` is recovered from what follows it: when `a` and `b`
/// hold no `|`, `a|x == b|y` only if `a == b` and `x == y`.
pub proof fn lemma_bar_split(a: Seq<char>, x: Seq<char>, b: Seq<char>, y: Seq<char>)
    requires
        !a.contains('|'),
        !b.contains('|'),
        a + "|"@ + x == b + "|"@ + y,
    ensures
        a == b,
        x == y,
{
    reveal_strlit("|");
    let l = a + "|"@ + x;
    let r = b + "|"@ + y;
    if a.len() < b.len() {
        assert(l[a.len() as int] == '|');
        assert(r[a.len() as int] == b[a.len() as int]);
        assert(b.contains(b[a.len() as int]));
    } else if b.len() < a.len() {
        assert(r[b.len() as int] == '|');
        assert(l[b.len() as int] == a[b.len() as int]);
        assert(a.contains(a[b.len() as int]));
    } else {
        assert forall|i: int| 0 <= i < a.len() implies a[i] == b[i] by {
            assert(l[i] == a[i] && r[i] == b[i]);
        }
        assert(a =~= b);
        assert(x =~= l.skip(a.len() as int + 1));
        assert(y =~= r.skip(b.len() as int + 1));
    }
}

/// Every part is part of the key: when scope, method and path hold no `|`,
/// two composite keys are equal only if all four parts are.
pub proof fn lemma_composite_key_injective(
    s1: Seq<char>,
    m1: Seq<char>,
    p1: Seq<char>,
    k1: Seq<char>,
    s2: Seq<char>,
    m2: Seq<char>,
    p2: Seq<char>,
    k2: Seq<char>,
)
    requires
        !s1.contains('|') && !m1.contains('|') && !p1.contains('|'),
        !s2.contains('|') && !m2.contains('|') && !p2.contains('|'),
        composite_key(s1, m1, p1, k1) == composite_key(s2, m2, p2, k2),
    ensures
        s1 == s2 && m1 == m2 && p1 == p2 && k1 == k2,
{
    let bar = "|"@;
    assert(composite_key(s1, m1, p1, k1) =~= s1 + bar + (m1 + bar + (p1 + bar + k1)));
    assert(composite_key(s2, m2, p2, k2) =~= s2 + bar + (m2 + bar + (p2 + bar + k2)));
    lemma_bar_split(s1, m1 + bar + (p1 + bar + k1), s2, m2 + bar + (p2 + bar + k2));
    assert(m1 + bar + (p1 + bar + k1) =~= m1 + bar + (p1 + bar + k1));
    lemma_bar_split(m1, p1 + bar + k1, m2, p2 + bar + k2);
    lemma_bar_split(p1, k1, p2, k2);
}

/// The path is part of the key: requests that differ only in their path
/// (paths without `|`) have different composite keys.
pub proof fn lemma_composite_key_path(
    scope_prefix: Seq<char>,
    method: Seq<char>,
    p1: Seq<char>,
    p2: Seq<char>,
    idemp_key: Seq<char>,
)
    requires
        p1 != p2,
        !p1.contains('|'),
        !p2.contains('|'),
    ensures
        composite_key(scope_prefix, method, p1, idemp_key) != composite_key(
            scope_prefix,
            method,
            p2,
            idemp_key,
        ),
{
    reveal_strlit("|");
    let pre = scope_prefix + "|"@ + method + "|"@;
    let a = composite_key(scope_prefix, method, p1, idemp_key);
    let b = composite_key(scope_prefix, method, p2, idemp_key);
    assert(a =~= pre + (p1 + "|"@ + idemp_key));
    assert(b =~= pre + (p2 + "|"@ + idemp_key));
    if a == b {
        let n = pre.len();
        assert forall|i: int| 0 <= i < p1.len() + 1 + idemp_key.len() implies (p1 + "|"@
            + idemp_key)[i] == (p2 + "|"@ + idemp_key)[i] by {
            assert(a[n + i] == b[n + i]);
        }
        assert((p1 + "|"@ + idemp_key) =~= (p2 + "|"@ + idemp_key));
        lemma_bar_split(p1, idemp_key, p2, idemp_key);
    }
}

/// Requests to different endpoints do not collide: after a check for one
/// path, a check for another path (with the same scope, method and
/// idempotency key) that had no live entry is `New`, whatever the bodies.
pub proof fn lemma_paths_independent(
    s: StoreModel,
    scope_prefix: Seq<char>,
    method: Seq<char>,
    p1: Seq<char>,
    p2: Seq<char>,
    idemp_key: Seq<char>,
    h1: Seq<u8>,
    h2: Seq<u8>,
    now1: nat,
    now2: nat,
)
    requires
        store_wf(s),
        p1 != p2,
        !p1.contains('|'),
        !p2.contains('|'),
        index_of_key(
            sweep(s.entries, now1, s.ttl),
            composite_key(scope_prefix, method, p2, idemp_key),
        ) is None,
    ensures
        spec_check(
            spec_check(s, composite_key(scope_prefix, method, p1, idemp_key), h1, now1).1,
            composite_key(scope_prefix, method, p2, idemp_key),
            h2,
            now2,
        ).0 == IdempCheck::New,
{
    lemma_composite_key_path(scope_prefix, method, p1, p2, idemp_key);
    lemma_keys_independent(
        s,
        composite_key(scope_prefix, method, p1, idemp_key),
        composite_key(scope_prefix, method, p2, idemp_key),
        h1,
        h2,
        now1,
        now2,
    );
}

/// Checking one key never creates an entry under another: a key that had no
/// live entry is still `New` after a check of a different key.
pub proof fn lemma_keys_independent(
    s: StoreModel,
    k1: Seq<char>,
    k2: Seq<char>,
    h1: Seq<u8>,
    h2: Seq<u8>,
    now1: nat,
    now2: nat,
)
    requires
        store_wf(s),
        k1 != k2,
        index_of_key(sweep(s.entries, now1, s.ttl), k2) is None,
    ensures
        spec_check(spec_check(s, k1, h1, now1).1, k2, h2, now2).0 == IdempCheck::New,
{
    let live = sweep(s.entries, now1, s.ttl);
    lemma_index_of_key(live, k2);
    let s1 = spec_check(s, k1, h1, now1).1;
    lemma_index_of_key(live, k1);
    assert forall|i: int| 0 <= i < s1.entries.len() implies s1.entries[i].0 != k2 by {
        match index_of_key(live, k1) {
            Some(idx) => {
                if i != idx {
                    assert(s1.entries[i] == live[i]);
                } else {
                    assert(live[idx].0 == k1);
                    assert(s1.entries[i].0 == k1);
                }
            },
            None => {
                let e = EntryModel {
                    body_hash: h1,
                    created_at: now1,
                    seq: s.seq_ctr,
                    last_touch: s.touch_ctr,
                };
                let added = live.push((k1, e));
                if added.len() > s.cap {
                    lemma_lru_index(added);
                }
                let ii: int = if added.len() > s.cap && i >= lru_index(added) {
                    i + 1
                } else {
                    i
                };
                assert(s1.entries[i] == added[ii]);
                if ii < live.len() {
                    assert(added[ii] == live[ii]);
                }
            },
        }
    }
    let live2 = sweep(s1.entries, now2, s1.ttl);
    lemma_sweep(s1.entries, now2, s1.ttl);
    lemma_index_of_key(live2, k2);
    if index_of_key(live2, k2) is Some {
        let f = index_of_key(live2, k2)->Some_0;
        let j = choose|j: int| 0 <= j < s1.entries.len() && live2[f] == s1.entries[j];
        assert(s1.entries[j].0 != k2);
    }
}

/// An expired entry is never answered from: when every entry under the key
/// is at least the TTL old, the check is `New`.
pub proof fn lemma_expired_is_new(s: StoreModel, key: Seq<char>, hash: Seq<u8>, now: nat)
    requires
        forall|i: int| 0 <= i < s.entries.len() && #[trigger] s.entries[i].0 == key ==> !is_live(
            s.entries[i].1,
            now,
            s.ttl,
        ),
    ensures
        spec_check(s, key, hash, now).0 == IdempCheck::New,
{
    let live = sweep(s.entries, now, s.ttl);
    lemma_sweep(s.entries, now, s.ttl);
    lemma_index_of_key(live, key);
    if index_of_key(live, key) is Some {
        let f = index_of_key(live, key)->Some_0;
        let j = choose|j: int| 0 <= j < s.entries.len() && live[f] == s.entries[j];
        assert(s.entries[j].0 == key);
    }
}

/// Every check keeps the store's invariant; in particular the store never
/// holds more than `cap` entries.
pub proof fn lemma_check_keeps_wf(s: StoreModel, key: Seq<char>, hash: Seq<u8>, now: nat)
    requires
        store_wf(s),
    ensures
        store_wf(spec_check(s, key, hash, now).1),
        spec_check(s, key, hash, now).1.entries.len() <= s.cap,
{
    let live = sweep(s.entries, now, s.ttl);
    lemma_sweep(s.entries, now, s.ttl);
    lemma_index_of_key(live, key);
    assert forall|i: int| 0 <= i < live.len() implies #[trigger] live[i].1.seq < s.seq_ctr
        && live[i].1.last_touch < s.touch_ctr by {
        let j = choose|j: int| 0 <= j < s.entries.len() && live[i] == s.entries[j];
        assert(s.entries[j].1.seq < s.seq_ctr);
    }
    let r = spec_check(s, key, hash, now).1;
    match index_of_key(live, key) {
        Some(i) => {
            if live[i].1.body_hash == hash {
                assert forall|a: int, b: int| 0 <= a < b < r.entries.len() implies #[trigger] r.entries[a].0
                    != #[trigger] r.entries[b].0 by {
                    assert(r.entries[i].0 == live[i].0);
                    if a != i && b != i {
                        assert(r.entries[a] == live[a] && r.entries[b] == live[b]);
                    } else if a == i {
                        assert(r.entries[b] == live[b]);
                    } else {
                        assert(r.entries[a] == live[a]);
                    }
                }
                assert forall|a: int, b: int| 0 <= a < b < r.entries.len() implies #[trigger] r.entries[a].1.seq
                    != #[trigger] r.entries[b].1.seq by {
                    if a != i && b != i {
                        assert(r.entries[a] == live[a] && r.entries[b] == live[b]);
                    } else if a == i {
                        assert(r.entries[b] == live[b]);
                    } else {
                        assert(r.entries[a] == live[a]);
                    }
                }
                assert forall|a: int| 0 <= a < r.entries.len() implies #[trigger] r.entries[a].1.seq
                    < r.seq_ctr && r.entries[a].1.last_touch < r.touch_ctr by {
                    if a != i {
                        assert(r.entries[a] == live[a]);
                    }
                }
            }
        },
        None => {
            let e = EntryModel {
                body_hash: hash,
                created_at: now,
                seq: s.seq_ctr,
                last_touch: s.touch_ctr,
            };
            let added = live.push((key, e));
            assert forall|a: int, b: int| 0 <= a < b < added.len() implies #[trigger] added[a].0
                != #[trigger] added[b].0 by {
                if b == added.len() - 1 {
                    assert(added[a] == live[a]);
                }
            }
            assert forall|a: int, b: int| 0 <= a < b < added.len() implies #[trigger] added[a].1.seq
                != #[trigger] added[b].1.seq by {
                if b == added.len() - 1 {
                    assert(added[a] == live[a]);
                }
            }
            if added.len() > s.cap {
                lemma_lru_index(added);
                let v = lru_index(added);
                assert forall|a: int, b: int| 0 <= a < b < r.entries.len() implies #[trigger] r.entries[a].0
                    != #[trigger] r.entries[b].0 by {
                    let aa = if a >= v { a + 1 } else { a };
                    let bb = if b >= v { b + 1 } else { b };
                    assert(r.entries[a] == added[aa]);
                    assert(r.entries[b] == added[bb]);
                }
                assert forall|a: int, b: int| 0 <= a < b < r.entries.len() implies #[trigger] r.entries[a].1.seq
                    != #[trigger] r.entries[b].1.seq by {
                    let aa = if a >= v { a + 1 } else { a };
                    let bb = if b >= v { b + 1 } else { b };
                    assert(r.entries[a] == added[aa]);
                    assert(r.entries[b] == added[bb]);
                }
                assert forall|a: int| 0 <= a < r.entries.len() implies #[trigger] r.entries[a].1.seq
                    < r.seq_ctr && r.entries[a].1.last_touch < r.touch_ctr by {
                    let aa = if a >= v { a + 1 } else { a };
                    assert(r.entries[a] == added[aa]);
                }
            } else {
                assert forall|a: int| 0 <= a < r.entries.len() implies #[trigger] r.entries[a].1.seq
                    < r.seq_ctr && r.entries[a].1.last_touch < r.touch_ctr by {
                    assert(r.entries[a] == added[a]);
                }
            }
        },
    }
}

// ---------------------------------------------------------------------------
// The store
// ---------------------------------------------------------------------------

fn same_hash(a: &[u8; 32], b: &[u8; 32]) -> (r: bool)
    ensures
        r == (a@ == b@),
{
    let mut i: usize = 0;
    while i < 32
        invariant
            i <= 32,
            a@.len() == 32,
            b@.len() == 32,
            forall|k: int| 0 <= k < i ==> a@[k] == b@[k],
        decreases 32 - i,
    {
        if a[i] != b[i] {
            return false;
        }
        i = i + 1;
    }
    assert(a@ =~= b@);
    true
}

impl IdempotencyStore {
    /// An empty store holding at most `cap` entries, each for `ttl_secs` seconds.
    pub fn new(cap: usize, ttl_secs: u64) -> (r: Self)
        ensures
            store_wf(r@),
            r@.entries.len() == 0,
            r@.cap == cap,
            r@.ttl == ttl_secs * 1_000_000_000,
            r@.seq_ctr == 0,
            r@.touch_ctr == 0,
    {
        let ttl_nanos: u128 = (ttl_secs as u128) * 1_000_000_000u128;
        let r = IdempotencyStore {
            entries: Vec::new(),
            cap,
            ttl_nanos,
            seq_ctr: 0,
            touch_ctr: 0,
            origin: instant_now(),
        };
        assert(entries_view(r.entries@) =~= Seq::empty());
        r
    }

    /// The SHA-256 of a request body.
    pub fn hash_body(body: &[u8]) -> (r: [u8; 32])
        ensures
            r@ == spec_sha256(body@),
    {
        sha256_hash(body)
    }

    /// How many checks have touched the store.
    pub fn touch_count(&self) -> (r: u64)
        ensures
            r == self@.touch_ctr,
    {
        self.touch_ctr
    }

    fn sweep_entries(&mut self, now: u128)
        ensures
            final(self)@.entries == sweep(old(self)@.entries, now as nat, old(self)@.ttl),
            final(self)@.cap == old(self)@.cap,
            final(self)@.ttl == old(self)@.ttl,
            final(self)@.seq_ctr == old(self)@.seq_ctr,
            final(self)@.touch_ctr == old(self)@.touch_ctr,
    {
        let mut old_entries: Vec<(String, Entry)> = Vec::new();
        std::mem::swap(&mut old_entries, &mut self.entries);
        let ghost ov = entries_view(old_entries@);
        let ttl = self.ttl_nanos;
        let mut i: usize = 0;
        assert(ov.take(0) =~= Seq::<(Seq<char>, EntryModel)>::empty());
        assert(entries_view(self.entries@) =~= Seq::<(Seq<char>, EntryModel)>::empty());
        while i < old_entries.len()
            invariant
                i <= old_entries.len(),
                ov == entries_view(old_entries@),
                ttl == self.ttl_nanos,
                entries_view(self.entries@) == sweep(ov.take(i as int), now as nat, ttl as nat),
                self.cap == old(self).cap,
                self.ttl_nanos == old(self).ttl_nanos,
                self.seq_ctr == old(self).seq_ctr,
                self.touch_ctr == old(self).touch_ctr,
            decreases old_entries.len() - i,
        {
            let e = old_entries[i].1;
            let age: u128 = if now >= e.created_at {
                now - e.created_at
            } else {
                0
            };
            proof {
                assert(ov.take(i + 1).drop_last() =~= ov.take(i as int));
                assert(ov.take(i + 1).last() == ov[i as int]);
                assert(ov[i as int] == (old_entries@[i as int].0@, e@));
            }
            if age < ttl {
                let k = old_entries[i].0.clone();
                let ghost prev = self.entries@;
                self.entries.push((k, e));
                assert(entries_view(self.entries@) =~= entries_view(prev).push(ov[i as int]));
            }
            i = i + 1;
        }
        assert(ov.take(old_entries.len() as int) =~= ov);
    }

    fn find(&self, key: &str) -> (r: Option<usize>)
        ensures
            match index_of_key(self@.entries, key@) {
                Some(i) => r matches Some(x) && x as int == i,
                None => r is None,
            },
    {
        let ghost es = self@.entries;
        let mut i: usize = self.entries.len();
        assert(es.take(i as int) =~= es);
        while i > 0
            invariant
                i <= self.entries.len(),
                es == self@.entries,
                es.len() == self.entries.len(),
                index_of_key(es, key@) == index_of_key(es.take(i as int), key@),
            decreases i,
        {
            i = i - 1;
            proof {
                assert(es.take(i + 1).drop_last() =~= es.take(i as int));
                assert(es.take(i + 1).last() == es[i as int]);
                assert(es[i as int].0 == self.entries@[i as int].0@);
            }
            if crate::text::str_eq(self.entries[i].0.as_str(), key) {
                return Some(i);
            }
        }
        None
    }

    fn lru(&self) -> (r: usize)
        requires
            self.entries.len() > 0,
        ensures
            r as int == lru_index(self@.entries),
    {
        let ghost es = self@.entries;
        let mut best: usize = 0;
        let mut i: usize = 1;
        assert(es.take(1).len() == 1);
        while i < self.entries.len()
            invariant
                1 <= i <= self.entries.len(),
                es == self@.entries,
                es.len() == self.entries.len(),
                best as int == lru_index(es.take(i as int)),
                best < i,
            decreases self.entries.len() - i,
        {
            proof {
                assert(es.take(i + 1).drop_last() =~= es.take(i as int));
                assert(es.take(i + 1).last() == es[i as int]);
                assert(es.take(i + 1)[best as int] == es[best as int]);
                assert(es[i as int].1 == self.entries@[i as int].1@);
                assert(es[best as int].1 == self.entries@[best as int].1@);
            }
            let a = self.entries[i].1;
            let b = self.entries[best].1;
            if a.last_touch < b.last_touch || (a.last_touch == b.last_touch && a.seq < b.seq) {
                best = i;
            }
            i = i + 1;
        }
        assert(es.take(self.entries.len() as int) =~= es);
        best
    }

    /// Checks and records `key` with `body_hash` at time `now` (nanoseconds
    /// after the store was made). On a replay the entry is touched, so it
    /// stays longer in the LRU order.
    pub fn check_at(&mut self, key: &str, body_hash: [u8; 32], now: u128) -> (r: IdempCheck)
        requires
            store_wf(old(self)@),
            old(self)@.touch_ctr < u64::MAX,
        ensures
            store_wf(final(self)@),
            r == spec_check(old(self)@, key@, body_hash@, now as nat).0,
            final(self)@ == spec_check(old(self)@, key@, body_hash@, now as nat).1,
    {
        let ghost s0 = self@;
        let ghost target = spec_check(s0, key@, body_hash@, now as nat);
        proof {
            lemma_check_keeps_wf(s0, key@, body_hash@, now as nat);
        }
        self.sweep_entries(now);
        let ghost live = self@.entries;
        proof {
            lemma_sweep(s0.entries, now as nat, s0.ttl);
            lemma_index_of_key(live, key@);
            assert forall|i: int| 0 <= i < live.len() implies #[trigger] live[i].1.seq < s0.seq_ctr
                && live[i].1.last_touch < s0.touch_ctr by {
                let j = choose|j: int| 0 <= j < s0.entries.len() && live[i] == s0.entries[j];
                assert(s0.entries[j].1.seq < s0.seq_ctr);
            }
        }
        match self.find(key) {
            Some(i) => {
                let e = self.entries[i].1;
                assert(live[i as int].1 == e@);
                if same_hash(&e.body_hash, &body_hash) {
                    let touch = self.touch_ctr;
                    self.touch_ctr = touch + 1;
                    let k = self.entries[i].0.clone();
                    let updated = Entry {
                        body_hash: e.body_hash,
                        created_at: e.created_at,
                        seq: e.seq,
                        last_touch: touch,
                    };
                    let ghost prev = self.entries@;
                    self.entries.set(i, (k, updated));
                    proof {
                        assert(entries_view(self.entries@) =~= target.1.entries);
                        assert(self@.entries =~= target.1.entries);
                    }
                    IdempCheck::Replay
                } else {
                    proof {
                        assert(self@.entries =~= target.1.entries);
                    }
                    IdempCheck::KeyReusedDifferentPayload
                }
            },
            None => {
                let seq = self.seq_ctr;
                let touch = self.touch_ctr;
                self.seq_ctr = seq + 1;
                self.touch_ctr = touch + 1;
                let entry = Entry { body_hash, created_at: now, seq, last_touch: touch };
                let ghost prev = self.entries@;
                self.entries.push((key.to_owned(), entry));
                let ghost added = self@.entries;
                proof {
                    assert(entries_view(self.entries@) =~= entries_view(prev).push(
                        (key@, entry@),
                    ));
                    assert forall|i: int, j: int| 0 <= i < j < added.len() implies #[trigger] added[i].0
                        != #[trigger] added[j].0 by {
                        if j == added.len() - 1 {
                            assert(added[i] == live[i]);
                        }
                    }
                    assert forall|i: int, j: int| 0 <= i < j < added.len() implies #[trigger] added[i].1.seq
                        != #[trigger] added[j].1.seq by {
                        if j == added.len() - 1 {
                            assert(added[i] == live[i]);
                        }
                    }
                }
                if self.entries.len() > self.cap {
                    let v = self.lru();
                    proof {
                        lemma_lru_index(added);
                    }
                    let _evicted = self.entries.remove(v);
                    proof {
                        assert(entries_view(self.entries@) =~= added.remove(v as int));
                    }
                }
                proof {
                    assert(self@.entries =~= target.1.entries);
                }
                IdempCheck::New
            },
        }
    }

    /// Checks and records `scope_prefix|method|path|idemp_key` with
    /// `body_hash`, at the current time.
    pub fn check(
        &mut self,
        scope_prefix: &str,
        method: &str,
        path: &str,
        idemp_key: &str,
        body_hash: [u8; 32],
    ) -> (r: IdempCheck)
        requires
            store_wf(old(self)@),
            old(self)@.touch_ctr < u64::MAX,
        ensures
            store_wf(final(self)@),
            exists|now: nat|
                #![trigger spec_check(old(self)@, composite_key(scope_prefix@, method@, path@, idemp_key@), body_hash@, now)]
                now <= u128::MAX && r == spec_check(
                    old(self)@,
                    composite_key(scope_prefix@, method@, path@, idemp_key@),
                    body_hash@,
                    now,
                ).0 && final(self)@ == spec_check(
                    old(self)@,
                    composite_key(scope_prefix@, method@, path@, idemp_key@),
                    body_hash@,
                    now,
                ).1,
    {
        let mut k: Vec<char> = Vec::new();
        append_str(&mut k, scope_prefix);
        append_str(&mut k, "|");
        append_str(&mut k, method);
        append_str(&mut k, "|");
        append_str(&mut k, path);
        append_str(&mut k, "|");
        append_str(&mut k, idemp_key);
        let key = string_from_chars(&k);
        assert(key@ =~= composite_key(scope_prefix@, method@, path@, idemp_key@));
        let elapsed = instant_elapsed(&self.origin);
        let now = duration_as_nanos(&elapsed);
        self.check_at(key.as_str(), body_hash, now)
    }

    /// Records a key after successful processing, as `check` does, ignoring
    /// the verdict.
    pub fn record(
        &mut self,
        scope_prefix: &str,
        method: &str,
        path: &str,
        idemp_key: &str,
        body_hash: [u8; 32],
    )
        requires
            store_wf(old(self)@),
            old(self)@.touch_ctr < u64::MAX,
        ensures
            store_wf(final(self)@),
            exists|now: nat|
                #![trigger spec_check(old(self)@, composite_key(scope_prefix@, method@, path@, idemp_key@), body_hash@, now)]
                now <= u128::MAX && final(self)@ == spec_check(
                    old(self)@,
                    composite_key(scope_prefix@, method@, path@, idemp_key@),
                    body_hash@,
                    now,
                ).1,
    {
        let _ = self.check(scope_prefix, method, path, idemp_key, body_hash);
    }
}
} // verus!
