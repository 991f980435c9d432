//! Audit reports over a receipt chain: summary counts, counts by type and by
//! decision, a timeline, and an integrity check of each receipt's body CID.
use vstd::prelude::*;
use crate::canon::{canonical_bytes, spec_canonical_bytes};
use crate::cid::{cid_b3, spec_cid};
use crate::digest::{rfc3339_or_epoch_text, utc_now_rfc3339};
use crate::error::strings_view;
use crate::json::{entries_model, json_get, Json, JsonMap, JsonValue};
use crate::policy::opt_view;
use crate::text::{chars_eq, chars_lt, chars_of, seq_lt, str_eq};

verus! {

#[derive(Debug, Clone)]
pub struct AuditSummary {
    pub total_receipts: usize,
    pub ghost_count: usize,
    pub signed_count: usize,
    pub unsigned_count: usize,
}

#[derive(Debug, Clone)]
pub struct TimelineEntry {
    pub cid: String,
    pub receipt_type: String,
    pub decision: Option<String>,
    pub ghost_mode: bool,
    pub phase: Option<String>,
    pub parents: Vec<String>,
    pub has_signature: bool,
}

#[derive(Debug, Clone)]
pub struct IntegrityFailure {
    pub cid: String,
    pub claimed_body_cid: String,
    pub computed_body_cid: String,
}

#[derive(Debug, Clone)]
pub struct IntegrityReport {
    pub total_checked: usize,
    pub valid: usize,
    pub invalid: usize,
    pub failures: Vec<IntegrityFailure>,
}

/// The audit report. The counts by type and by decision are kept in key
/// order, as a `BTreeMap` keeps them.
#[derive(Debug, Clone)]
pub struct AuditReport {
    pub generated_at: String,
    pub summary: AuditSummary,
    pub by_type: Vec<(String, usize)>,
    pub by_decision: Vec<(String, usize)>,
    pub timeline: Vec<TimelineEntry>,
    pub integrity: IntegrityReport,
}

pub struct TimelineModel {
    pub cid: Seq<char>,
    pub receipt_type: Seq<char>,
    pub decision: Option<Seq<char>>,
    pub ghost_mode: bool,
    pub phase: Option<Seq<char>>,
    pub parents: Seq<Seq<char>>,
    pub has_signature: bool,
}

impl View for TimelineEntry {
    type V = TimelineModel;

    open spec fn view(&self) -> TimelineModel {
        TimelineModel {
            cid: self.cid@,
            receipt_type: self.receipt_type@,
            decision: opt_view(self.decision),
            ghost_mode: self.ghost_mode,
            phase: opt_view(self.phase),
            parents: strings_view(self.parents@),
            has_signature: self.has_signature,
        }
    }
}

pub struct FailureModel {
    pub cid: Seq<char>,
    pub claimed_body_cid: Seq<char>,
    pub computed_body_cid: Seq<char>,
}

impl View for IntegrityFailure {
    type V = FailureModel;

    open spec fn view(&self) -> FailureModel {
        FailureModel {
            cid: self.cid@,
            claimed_body_cid: self.claimed_body_cid@,
            computed_body_cid: self.computed_body_cid@,
        }
    }
}

// ---------------------------------------------------------------------------
// What is read from one receipt
// ---------------------------------------------------------------------------

/// The string a value holds, if it is one.
pub open spec fn json_str(o: Option<Json>) -> Option<Seq<char>> {
    match o {
        Some(Json::Str(s)) => Some(s),
        _ => None,
    }
}

/// The receipt's type tag, `unknown` when it has none.
pub open spec fn receipt_type(rc: Json) -> Seq<char> {
    match json_str(json_get(rc, "t"@)) {
        Some(t) => t,
        None => "unknown"@,
    }
}

/// The decision in the receipt's body, if it is a string.
pub open spec fn decision_of(rc: Json) -> Option<Seq<char>> {
    match json_get(rc, "body"@) {
        Some(b) => json_str(json_get(b, "decision"@)),
        None => None,
    }
}

/// Whether the receipt's observability says `ghost: true`.
pub open spec fn ghost_of(rc: Json) -> bool {
    match json_get(rc, "observability"@) {
        Some(o) => match json_get(o, "ghost"@) {
            Some(Json::Bool(b)) => b,
            _ => false,
        },
        None => false,
    }
}

/// The phase in the receipt's observability, if it is a string.
pub open spec fn phase_of(rc: Json) -> Option<Seq<char>> {
    match json_get(rc, "observability"@) {
        Some(o) => json_str(json_get(o, "phase"@)),
        None => None,
    }
}

/// Whether the receipt carries a `sig` entry.
pub open spec fn signed(rc: Json) -> bool {
    json_get(rc, "sig"@) is Some
}

/// The strings among the elements of an array, in order.
pub open spec fn strings_in(xs: Seq<Json>) -> Seq<Seq<char>>
    decreases xs.len(),
{
    if xs.len() == 0 {
        Seq::empty()
    } else {
        let rest = strings_in(xs.drop_last());
        match xs.last() {
            Json::Str(s) => rest.push(s),
            _ => rest,
        }
    }
}

/// The string parents of the receipt; none when `parents` is not an array.
pub open spec fn parents_of(rc: Json) -> Seq<Seq<char>> {
    match json_get(rc, "parents"@) {
        Some(Json::Arr(xs)) => strings_in(xs),
        _ => Seq::empty(),
    }
}

/// The body CID the receipt claims, empty when it claims none.
pub open spec fn claimed_cid(rc: Json) -> Seq<char> {
    match json_str(json_get(rc, "body_cid"@)) {
        Some(c) => c,
        None => ""@,
    }
}

/// The CID of the receipt's body, computed from its canonical bytes as a
/// body CID is (see `verify_body_cid`), when it has a body.
pub open spec fn computed_cid(rc: Json) -> Option<Seq<char>> {
    match json_get(rc, "body"@) {
        Some(b) => Some(spec_cid(spec_canonical_bytes(b))),
        None => None,
    }
}

pub open spec fn timeline_of(cid: Seq<char>, rc: Json) -> TimelineModel {
    TimelineModel {
        cid,
        receipt_type: receipt_type(rc),
        decision: decision_of(rc),
        ghost_mode: ghost_of(rc),
        phase: phase_of(rc),
        parents: parents_of(rc),
        has_signature: signed(rc),
    }
}

// ---------------------------------------------------------------------------
// Counts by key
// ---------------------------------------------------------------------------

/// The index of the entry under `key`, the first one should there be two.
pub open spec fn key_index(c: Seq<(Seq<char>, nat)>, key: Seq<char>) -> Option<int>
    decreases c.len(),
{
    if c.len() == 0 {
        None
    } else if c[0].0 == key {
        Some(0)
    } else {
        match key_index(c.drop_first(), key) {
            Some(i) => Some(i + 1),
            None => None,
        }
    }
}

/// Where a new key goes: before the first key that sorts after it.
pub open spec fn insert_pos(c: Seq<(Seq<char>, nat)>, key: Seq<char>) -> int
    decreases c.len(),
{
    if c.len() == 0 || seq_lt(key, c[0].0) {
        0
    } else {
        insert_pos(c.drop_first(), key) + 1
    }
}

/// One more under `key`: its count goes up by one, or a count of one is
/// inserted before the first key that sorts after it (`BTreeMap` order).
pub open spec fn count_bump(c: Seq<(Seq<char>, nat)>, key: Seq<char>) -> Seq<(Seq<char>, nat)> {
    match key_index(c, key) {
        Some(i) => c.update(i, (key, c[i].1 + 1)),
        None => c.insert(insert_pos(c, key), (key, 1nat)),
    }
}

/// The count under `key`, 0 when there is none.
pub open spec fn count_of(c: Seq<(Seq<char>, nat)>, key: Seq<char>) -> nat {
    match key_index(c, key) {
        Some(i) => c[i].1,
        None => 0,
    }
}

pub open spec fn counts_view(c: Seq<(String, usize)>) -> Seq<(Seq<char>, nat)> {
    c.map_values(|p: (String, usize)| (p.0@, p.1 as nat))
}

pub proof fn lemma_key_index(c: Seq<(Seq<char>, nat)>, key: Seq<char>)
    ensures
        match key_index(c, key) {
            Some(i) => 0 <= i < c.len() && c[i].0 == key && forall|k: int|
                0 <= k < i ==> #[trigger] c[k].0 != key,
            None => forall|k: int| 0 <= k < c.len() ==> #[trigger] c[k].0 != key,
        },
    decreases c.len(),
{
    if c.len() > 0 && c[0].0 != key {
        let d = c.drop_first();
        lemma_key_index(d, key);
        assert forall|k: int| 0 < k < c.len() implies c[k] == d[k - 1] by {}
    }
}

/// A first index is determined by the keys: `i` is the index under `key`
/// when the key is there and not before.
pub proof fn lemma_key_index_at(c: Seq<(Seq<char>, nat)>, key: Seq<char>, i: int)
    requires
        0 <= i < c.len(),
        c[i].0 == key,
        forall|k: int| 0 <= k < i ==> #[trigger] c[k].0 != key,
    ensures
        key_index(c, key) == Some(i),
{
    lemma_key_index(c, key);
    match key_index(c, key) {
        Some(j) => {
            if j < i {
                assert(c[j].0 != key);
            } else if j > i {
                assert(c[i].0 != key);
            }
        },
        None => {
            assert(c[i].0 != key);
        },
    }
}

pub proof fn lemma_key_index_none(c: Seq<(Seq<char>, nat)>, key: Seq<char>)
    requires
        forall|k: int| 0 <= k < c.len() ==> #[trigger] c[k].0 != key,
    ensures
        key_index(c, key) is None,
{
    lemma_key_index(c, key);
    if key_index(c, key) is Some {
        let i = key_index(c, key)->Some_0;
        assert(c[i].0 != key);
    }
}

pub proof fn lemma_insert_pos(c: Seq<(Seq<char>, nat)>, key: Seq<char>)
    ensures
        0 <= insert_pos(c, key) <= c.len(),
    decreases c.len(),
{
    if c.len() > 0 && !seq_lt(key, c[0].0) {
        lemma_insert_pos(c.drop_first(), key);
    }
}

/// Bumping a key adds one to its count and leaves the other counts alone.
pub proof fn lemma_count_bump(c: Seq<(Seq<char>, nat)>, key: Seq<char>, other: Seq<char>)
    ensures
        count_of(count_bump(c, key), key) == count_of(c, key) + 1,
        other != key ==> count_of(count_bump(c, key), other) == count_of(c, other),
        count_bump(c, key).len() <= c.len() + 1,
{
    lemma_key_index(c, key);
    lemma_key_index(c, other);
    let r = count_bump(c, key);
    match key_index(c, key) {
        Some(i) => {
            assert forall|k: int| 0 <= k < i implies #[trigger] r[k].0 != key by {
                assert(r[k] == c[k]);
            }
            lemma_key_index_at(r, key, i);
            if other != key {
                match key_index(c, other) {
                    Some(j) => {
                        assert(j != i);
                        assert forall|k: int| 0 <= k < j implies #[trigger] r[k].0 != other by {
                            if k != i {
                                assert(r[k] == c[k]);
                            }
                        }
                        lemma_key_index_at(r, other, j);
                    },
                    None => {
                        assert forall|k: int| 0 <= k < r.len() implies #[trigger] r[k].0 != other by {
                            if k != i {
                                assert(r[k] == c[k]);
                            }
                        }
                        lemma_key_index_none(r, other);
                    },
                }
            }
        },
        None => {
            lemma_insert_pos(c, key);
            let p = insert_pos(c, key);
            assert forall|k: int| 0 <= k < p implies #[trigger] r[k].0 != key by {
                assert(r[k] == c[k]);
            }
            lemma_key_index_at(r, key, p);
            if other != key {
                match key_index(c, other) {
                    Some(j) => {
                        let jj = if j < p {
                            j
                        } else {
                            j + 1
                        };
                        assert(r[jj] == c[j]);
                        assert forall|k: int| 0 <= k < jj implies #[trigger] r[k].0 != other by {
                            if k < p {
                                assert(r[k] == c[k]);
                            } else if k > p {
                                assert(r[k] == c[k - 1]);
                            }
                        }
                        lemma_key_index_at(r, other, jj);
                    },
                    None => {
                        assert forall|k: int| 0 <= k < r.len() implies #[trigger] r[k].0 != other by {
                            if k < p {
                                assert(r[k] == c[k]);
                            } else if k > p {
                                assert(r[k] == c[k - 1]);
                            }
                        }
                        lemma_key_index_none(r, other);
                    },
                }
            }
        },
    }
}

/// Every count of a bumped list is at most one more than the largest before.
pub proof fn lemma_count_bump_bound(c: Seq<(Seq<char>, nat)>, key: Seq<char>, n: nat)
    requires
        forall|i: int| 0 <= i < c.len() ==> #[trigger] c[i].1 <= n,
    ensures
        forall|i: int| 0 <= i < count_bump(c, key).len() ==> #[trigger] count_bump(c, key)[i].1 <= n + 1,
{
    lemma_key_index(c, key);
    lemma_insert_pos(c, key);
    let r = count_bump(c, key);
    match key_index(c, key) {
        Some(i) => {
            assert forall|k: int| 0 <= k < r.len() implies #[trigger] r[k].1 <= n + 1 by {
                if k != i {
                    assert(r[k] == c[k]);
                }
            }
        },
        None => {
            let p = insert_pos(c, key);
            assert forall|k: int| 0 <= k < r.len() implies #[trigger] r[k].1 <= n + 1 by {
                if k < p {
                    assert(r[k] == c[k]);
                } else if k > p {
                    assert(r[k] == c[k - 1]);
                }
            }
        },
    }
}

/// Adds one to the count under `key`, keeping the keys in order.
fn bump(counts: &mut Vec<(String, usize)>, key: &String, n: Ghost<nat>)
    requires
        forall|i: int| 0 <= i < old(counts)@.len() ==> #[trigger] old(counts)@[i].1 <= n@,
        n@ < usize::MAX,
    ensures
        counts_view(final(counts)@) == count_bump(counts_view(old(counts)@), key@),
{
    let ghost c0 = counts_view(counts@);
    proof {
        lemma_key_index(c0, key@);
        lemma_insert_pos(c0, key@);
    }
    let kc = chars_of(key.as_str());
    // the entry under `key`, if any
    let mut i: usize = 0;
    while i < counts.len()
        invariant
            i <= counts.len(),
            counts@ == old(counts)@,
            c0 == counts_view(counts@),
            kc@ == key@,
            forall|k: int| 0 <= k < i ==> #[trigger] c0[k].0 != key@,
            forall|j: int| 0 <= j < old(counts)@.len() ==> #[trigger] old(counts)@[j].1 <= n@,
            n@ < usize::MAX,
        decreases counts.len() - i,
    {
        let ek = chars_of(counts[i].0.as_str());
        assert(c0[i as int].0 == counts@[i as int].0@);
        if chars_eq(&ek, &kc) {
            proof {
                lemma_key_index_at(c0, key@, i as int);
            }
            let v = counts[i].1;
            assert(v <= n@);
            let k = counts[i].0.clone();
            let ghost prev = counts@;
            counts.set(i, (k, v + 1));
            proof {
                assert forall|j: int| 0 <= j < counts@.len() implies counts_view(counts@)[j]
                    == count_bump(c0, key@)[j] by {
                    if j != i {
                        assert(counts@[j] == prev[j]);
                    }
                }
                assert(counts_view(counts@) =~= count_bump(c0, key@));
            }
            return;
        }
        i = i + 1;
    }
    proof {
        lemma_key_index_none(c0, key@);
    }
    // a new key: before the first key that sorts after it
    let mut p: usize = 0;
    assert(c0.skip(0) =~= c0);
    while p < counts.len()
        invariant
            p <= counts.len(),
            counts@ == old(counts)@,
            c0 == counts_view(counts@),
            kc@ == key@,
            insert_pos(c0, key@) == p + insert_pos(c0.skip(p as int), key@),
        ensures
            p <= counts.len(),
            insert_pos(c0, key@) == p + insert_pos(c0.skip(p as int), key@),
            p < counts.len() ==> seq_lt(key@, c0[p as int].0),
        decreases counts.len() - p,
    {
        let ek = chars_of(counts[p].0.as_str());
        assert(c0.skip(p as int)[0] == c0[p as int]);
        assert(c0[p as int].0 == counts@[p as int].0@);
        if chars_lt(&kc, &ek) {
            break;
        }
        assert(c0.skip(p as int).drop_first() =~= c0.skip(p + 1));
        p = p + 1;
    }
    proof {
        lemma_insert_pos(c0.skip(p as int), key@);
        if p == counts.len() {
            assert(c0.skip(p as int).len() == 0);
        } else {
            assert(c0.skip(p as int)[0] == c0[p as int]);
        }
    }
    let ghost prev = counts@;
    counts.insert(p, (key.clone(), 1));
    proof {
        assert(insert_pos(c0, key@) == p);
        assert forall|j: int| 0 <= j < counts@.len() implies counts_view(counts@)[j] == count_bump(
            c0,
            key@,
        )[j] by {
            if j < p {
                assert(counts@[j] == prev[j]);
            } else if j > p {
                assert(counts@[j] == prev[j - 1]);
            }
        }
        assert(counts_view(counts@) =~= count_bump(c0, key@));
    }
}

// ---------------------------------------------------------------------------
// The report
// ---------------------------------------------------------------------------

/// What a report says of a chain (all but the time it was generated).
pub struct ReportModel {
    pub ghost_count: nat,
    pub signed_count: nat,
    pub unsigned_count: nat,
    pub by_type: Seq<(Seq<char>, nat)>,
    pub by_decision: Seq<(Seq<char>, nat)>,
    pub timeline: Seq<TimelineModel>,
    pub valid: nat,
    pub invalid: nat,
    pub failures: Seq<FailureModel>,
}

/// The report over a chain of `(cid, receipt)` entries, taken in order.
pub open spec fn report_of(chain: Seq<(Seq<char>, Json)>) -> ReportModel
    decreases chain.len(),
{
    if chain.len() == 0 {
        ReportModel {
            ghost_count: 0,
            signed_count: 0,
            unsigned_count: 0,
            by_type: Seq::empty(),
            by_decision: Seq::empty(),
            timeline: Seq::empty(),
            valid: 0,
            invalid: 0,
            failures: Seq::empty(),
        }
    } else {
        let r = report_of(chain.drop_last());
        let cid = chain.last().0;
        let rc = chain.last().1;
        let checked = computed_cid(rc) is Some;
        let ok = computed_cid(rc) == Some(claimed_cid(rc));
        ReportModel {
            ghost_count: r.ghost_count + if ghost_of(rc) {
                1nat
            } else {
                0nat
            },
            signed_count: r.signed_count + if signed(rc) {
                1nat
            } else {
                0nat
            },
            unsigned_count: r.unsigned_count + if signed(rc) {
                0nat
            } else {
                1nat
            },
            by_type: count_bump(r.by_type, receipt_type(rc)),
            by_decision: match decision_of(rc) {
                Some(d) => count_bump(r.by_decision, d),
                None => r.by_decision,
            },
            timeline: r.timeline.push(timeline_of(cid, rc)),
            valid: r.valid + if checked && ok {
                1nat
            } else {
                0nat
            },
            invalid: r.invalid + if checked && !ok {
                1nat
            } else {
                0nat
            },
            failures: if checked && !ok {
                r.failures.push(
                    FailureModel {
                        cid,
                        claimed_body_cid: claimed_cid(rc),
                        computed_body_cid: computed_cid(rc)->Some_0,
                    },
                )
            } else {
                r.failures
            },
        }
    }
}

/// Whether `rep` is the report over `chain`.
pub open spec fn report_matches(rep: AuditReport, chain: Seq<(Seq<char>, Json)>) -> bool {
    let m = report_of(chain);
    &&& rep.summary.total_receipts == chain.len()
    &&& rep.summary.ghost_count == m.ghost_count
    &&& rep.summary.signed_count == m.signed_count
    &&& rep.summary.unsigned_count == m.unsigned_count
    &&& counts_view(rep.by_type@) == m.by_type
    &&& counts_view(rep.by_decision@) == m.by_decision
    &&& rep.timeline@.map_values(|e: TimelineEntry| e@) == m.timeline
    &&& rep.integrity.total_checked == m.valid + m.invalid
    &&& rep.integrity.valid == m.valid
    &&& rep.integrity.invalid == m.invalid
    &&& rep.integrity.failures@.map_values(|f: IntegrityFailure| f@) == m.failures
}

fn str_or(v: Option<&JsonValue>, default: &str) -> (r: String)
    ensures
        r@ == match json_str(
            match v {
                Some(x) => Some(x.model()),
                None => None,
            },
        ) {
            Some(s) => s,
            None => default@,
        },
{
    match v {
        Some(x) => match x.as_str() {
            Some(s) => s.clone(),
            None => default.to_owned(),
        },
        None => default.to_owned(),
    }
}

fn opt_str(v: Option<&JsonValue>) -> (r: Option<String>)
    ensures
        opt_view(r) == json_str(
            match v {
                Some(x) => Some(x.model()),
                None => None,
            },
        ),
{
    match v {
        Some(x) => match x.as_str() {
            Some(s) => Some(s.clone()),
            None => None,
        },
        None => None,
    }
}

fn string_parents(xs: &Vec<JsonValue>) -> (r: Vec<String>)
    ensures
        strings_view(r@) == strings_in(crate::json::values_model(xs@)),
{
    let ghost vm = crate::json::values_model(xs@);
    let mut out: Vec<String> = Vec::new();
    let mut i: usize = 0;
    assert(vm.take(0) =~= Seq::<Json>::empty());
    assert(strings_view(out@) =~= Seq::<Seq<char>>::empty());
    while i < xs.len()
        invariant
            i <= xs.len(),
            vm == crate::json::values_model(xs@),
            strings_view(out@) == strings_in(vm.take(i as int)),
        decreases xs.len() - i,
    {
        proof {
            assert(vm.take(i + 1).drop_last() =~= vm.take(i as int));
            assert(vm.take(i + 1).last() == xs@[i as int].model());
        }
        match xs[i].as_str() {
            Some(s) => {
                let ghost prev = out@;
                out.push(s.clone());
                assert(strings_view(out@) =~= strings_view(prev).push(s@));
            },
            None => {},
        }
        i = i + 1;
    }
    assert(vm.take(xs.len() as int) =~= vm);
    out
}

fn timeline_entry(cid: &String, rc: &JsonValue) -> (r: TimelineEntry)
    ensures
        r@ == timeline_of(cid@, rc.model()),
{
    let t = str_or(rc.get("t"), "unknown");
    let decision = match rc.get("body") {
        Some(b) => opt_str(b.get("decision")),
        None => None,
    };
    let (ghost_mode, phase) = match rc.get("observability") {
        Some(o) => {
            let g = match o.get("ghost") {
                Some(x) => match x.as_bool() {
                    Some(b) => b,
                    None => false,
                },
                None => false,
            };
            (g, opt_str(o.get("phase")))
        },
        None => (false, None),
    };
    let parents = match rc.get("parents") {
        Some(JsonValue::Array(xs)) => string_parents(xs),
        _ => Vec::new(),
    };
    assert(parents@.len() == 0 ==> strings_view(parents@) =~= Seq::<Seq<char>>::empty());
    let has_signature = rc.get("sig").is_some();
    TimelineEntry {
        cid: cid.clone(),
        receipt_type: t,
        decision,
        ghost_mode,
        phase,
        parents,
        has_signature,
    }
}

/// The report over `chain` (cid → receipt), stamped `generated_at`.
pub fn generate_report_at(chain: &JsonMap, generated_at: String) -> (r: AuditReport)
    ensures
        report_matches(r, entries_model(chain@)),
        r.generated_at@ == generated_at@,
{
    let ghost cm = entries_model(chain@);
    let mut by_type: Vec<(String, usize)> = Vec::new();
    let mut by_decision: Vec<(String, usize)> = Vec::new();
    let mut timeline: Vec<TimelineEntry> = Vec::new();
    let mut ghost_count: usize = 0;
    let mut signed_count: usize = 0;
    let mut unsigned_count: usize = 0;
    let mut valid: usize = 0;
    let mut invalid: usize = 0;
    let mut failures: Vec<IntegrityFailure> = Vec::new();
    let mut i: usize = 0;
    proof {
        assert(cm.take(0) =~= Seq::<(Seq<char>, Json)>::empty());
        assert(counts_view(by_type@) =~= Seq::<(Seq<char>, nat)>::empty());
        assert(counts_view(by_decision@) =~= Seq::<(Seq<char>, nat)>::empty());
        assert(timeline@.map_values(|e: TimelineEntry| e@) =~= Seq::<TimelineModel>::empty());
        assert(failures@.map_values(|f: IntegrityFailure| f@) =~= Seq::<FailureModel>::empty());
    }
    while i < chain.len()
        invariant
            i <= chain.len(),
            cm == entries_model(chain@),
            ({
                let m = report_of(cm.take(i as int));
                &&& ghost_count == m.ghost_count
                &&& signed_count == m.signed_count
                &&& unsigned_count == m.unsigned_count
                &&& counts_view(by_type@) == m.by_type
                &&& counts_view(by_decision@) == m.by_decision
                &&& timeline@.map_values(|e: TimelineEntry| e@) == m.timeline
                &&& valid == m.valid
                &&& invalid == m.invalid
                &&& failures@.map_values(|f: IntegrityFailure| f@) == m.failures
            }),
            ghost_count <= i,
            signed_count + unsigned_count == i,
            valid + invalid <= i,
            forall|k: int| 0 <= k < by_type@.len() ==> #[trigger] by_type@[k].1 <= i,
            forall|k: int| 0 <= k < by_decision@.len() ==> #[trigger] by_decision@[k].1 <= i,
        decreases chain.len() - i,
    {
        let ghost m0 = report_of(cm.take(i as int));
        proof {
            assert(cm.take(i + 1).drop_last() =~= cm.take(i as int));
            assert(cm.take(i + 1).last() == cm[i as int]);
            assert(cm[i as int] == (chain@[i as int].0@, chain@[i as int].1.model()));
        }
        let cid = &chain[i].0;
        let rc = &chain[i].1;
        let entry = timeline_entry(cid, rc);
        proof {
            lemma_count_bump_bound(counts_view(by_type@), entry.receipt_type@, i as nat);
        }
        bump(&mut by_type, &entry.receipt_type, Ghost(i as nat));
        match &entry.decision {
            Some(d) => {
                proof {
                    lemma_count_bump_bound(counts_view(by_decision@), d@, i as nat);
                }
                bump(&mut by_decision, d, Ghost(i as nat));
            },
            None => {},
        }
        if entry.ghost_mode {
            ghost_count = ghost_count + 1;
        }
        if entry.has_signature {
            signed_count = signed_count + 1;
        } else {
            unsigned_count = unsigned_count + 1;
        }
        // integrity: the body's CID against the claimed one
        let claimed = str_or(rc.get("body_cid"), "");
        match rc.get("body") {
            Some(body) => {
                let bytes = match canonical_bytes(body) {
                    Ok(b) => b,
                    Err(_) => Vec::new(),
                };
                let computed = cid_b3(bytes.as_slice());
                if str_eq(computed.as_str(), claimed.as_str()) {
                    valid = valid + 1;
                } else {
                    invalid = invalid + 1;
                    let ghost prev = failures@;
                    failures.push(
                        IntegrityFailure {
                            cid: cid.clone(),
                            claimed_body_cid: claimed,
                            computed_body_cid: computed,
                        },
                    );
                    assert(failures@.map_values(|f: IntegrityFailure| f@) =~= prev.map_values(
                        |f: IntegrityFailure| f@,
                    ).push(failures@.last()@));
                }
            },
            None => {},
        }
        let ghost prev_tl = timeline@;
        timeline.push(entry);
        proof {
            assert(timeline@.map_values(|e: TimelineEntry| e@) =~= prev_tl.map_values(
                |e: TimelineEntry| e@,
            ).push(entry@));
            let m1 = report_of(cm.take(i + 1));
            assert(counts_view(by_type@) == m1.by_type);
            assert(counts_view(by_decision@) == m1.by_decision);
            assert forall|k: int| 0 <= k < by_type@.len() implies #[trigger] by_type@[k].1 <= i + 1 by {
                assert(counts_view(by_type@)[k].1 == by_type@[k].1);
            }
            assert forall|k: int| 0 <= k < by_decision@.len() implies #[trigger] by_decision@[k].1
                <= i + 1 by {
                assert(counts_view(by_decision@)[k].1 == by_decision@[k].1);
                if entry.decision is None {
                    assert(by_decision@[k].1 <= i);
                }
            }
        }
        i = i + 1;
    }
    assert(cm.take(chain.len() as int) =~= cm);
    AuditReport {
        generated_at,
        summary: AuditSummary {
            total_receipts: chain.len(),
            ghost_count,
            signed_count,
            unsigned_count,
        },
        by_type,
        by_decision,
        timeline,
        integrity: IntegrityReport { total_checked: valid + invalid, valid, invalid, failures },
    }
}

/// The report over `chain` (cid → receipt), stamped with the current time.
pub fn generate_report(chain: &JsonMap) -> (r: AuditReport)
    ensures
        report_matches(r, entries_model(chain@)),
        exists|secs: u64, nanos: u32|
            nanos < 1_000_000_000 && r.generated_at@ == #[trigger] rfc3339_or_epoch_text(secs, nanos),
{
    generate_report_at(chain, utc_now_rfc3339())
}

// ---------------------------------------------------------------------------
// Laws
// ---------------------------------------------------------------------------

/// The number of receipts of type `t` in the chain.
pub open spec fn type_count(chain: Seq<(Seq<char>, Json)>, t: Seq<char>) -> nat
    decreases chain.len(),
{
    if chain.len() == 0 {
        0
    } else {
        type_count(chain.drop_last(), t) + if receipt_type(chain.last().1) == t {
            1nat
        } else {
            0nat
        }
    }
}

/// The number of receipts of the chain whose body's decision is `d`.
pub open spec fn decision_count(chain: Seq<(Seq<char>, Json)>, d: Seq<char>) -> nat
    decreases chain.len(),
{
    if chain.len() == 0 {
        0
    } else {
        decision_count(chain.drop_last(), d) + if decision_of(chain.last().1) == Some(d) {
            1nat
        } else {
            0nat
        }
    }
}

/// Every receipt has one timeline entry, in chain order, and is counted once
/// as signed or unsigned; ghost receipts are among them; each receipt with a
/// body is checked once, as valid or invalid, and each invalid one is listed
/// as a failure; the count under a type is the number of receipts of that
/// type, and the count under a decision the number of receipts with it.
pub proof fn lemma_report_counts(chain: Seq<(Seq<char>, Json)>, t: Seq<char>, d: Seq<char>)
    ensures
        report_of(chain).timeline.len() == chain.len(),
        forall|i: int|
            0 <= i < chain.len() ==> #[trigger] report_of(chain).timeline[i] == timeline_of(
                chain[i].0,
                chain[i].1,
            ),
        report_of(chain).signed_count + report_of(chain).unsigned_count == chain.len(),
        report_of(chain).ghost_count <= chain.len(),
        report_of(chain).valid + report_of(chain).invalid <= chain.len(),
        report_of(chain).failures.len() == report_of(chain).invalid,
        count_of(report_of(chain).by_type, t) == type_count(chain, t),
        count_of(report_of(chain).by_decision, d) == decision_count(chain, d),
    decreases chain.len(),
{
    if chain.len() == 0 {
        assert(key_index(Seq::<(Seq<char>, nat)>::empty(), t) is None);
        assert(key_index(Seq::<(Seq<char>, nat)>::empty(), d) is None);
    } else {
        let c = chain.drop_last();
        lemma_report_counts(c, t, d);
        let r = report_of(c);
        let rc = chain.last().1;
        lemma_count_bump(r.by_type, receipt_type(rc), t);
        match decision_of(rc) {
            Some(x) => {
                lemma_count_bump(r.by_decision, x, d);
            },
            None => {},
        }
        assert forall|i: int| 0 <= i < chain.len() implies #[trigger] report_of(chain).timeline[i]
            == timeline_of(chain[i].0, chain[i].1) by {
            if i < c.len() {
                assert(chain[i] == c[i]);
                assert(report_of(chain).timeline[i] == r.timeline[i]);
            }
        }
    }
}

} // verus!
