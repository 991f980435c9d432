//! NRF canonicalization of JSON values: object keys in order, entries whose
//! value is `null` dropped, and every string and key stripped of byte-order
//! marks (U+FEFF) and put in Unicode Normalization Form C.
use vstd::prelude::*;
use crate::digest::{nfc, spec_nfc};
use crate::json::{
    entries_model, json_wf, keys_sorted, lemma_array_model, lemma_map_get_at, lemma_map_get_found,
    lemma_map_insert_members, lemma_map_insert_sorted, lemma_object_model, lemma_sorted_distinct,
    lemma_sorted_unique, map_get, map_insert, obj_insert, values_model, Json, JsonValue,
};
use crate::text::string_from_chars;

verus! {

/// `s` without its byte-order marks.
pub open spec fn strip_bom(s: Seq<char>) -> Seq<char>
    decreases s.len(),
{
    if s.len() == 0 {
        Seq::empty()
    } else {
        let r = strip_bom(s.drop_last());
        if s.last() == '\u{feff}' {
            r
        } else {
            r.push(s.last())
        }
    }
}

/// The NRF form of a string or key: byte-order marks removed, then NFC.
pub open spec fn nrf_text(s: Seq<char>) -> Seq<char> {
    spec_nfc(strip_bom(s))
}

/// The NRF form of a JSON value.
pub open spec fn nrf(j: Json) -> Json
    decreases j,
{
    match j {
        Json::Null => Json::Null,
        Json::Bool(b) => Json::Bool(b),
        Json::Num(n) => Json::Num(n),
        Json::Str(s) => Json::Str(nrf_text(s)),
        Json::Arr(xs) => Json::Arr(nrf_items(xs)),
        Json::Obj(es) => Json::Obj(nrf_entries(es)),
    }
}

/// The NRF forms of array elements.
pub open spec fn nrf_items(xs: Seq<Json>) -> Seq<Json>
    decreases xs,
{
    Seq::new(
        xs.len(),
        |i: int|
            if 0 <= i < xs.len() {
                nrf(xs[i])
            } else {
                Json::Null
            },
    )
}

/// The NRF object: each entry whose value is not `null`, key and value in NRF
/// form, inserted in turn into an empty map (so a later entry whose key
/// normalizes to an earlier one replaces it).
pub open spec fn nrf_entries(es: Seq<(Seq<char>, Json)>) -> Seq<(Seq<char>, Json)>
    decreases es,
{
    if es.len() == 0 {
        Seq::empty()
    } else if es.last().1 is Null {
        nrf_entries(es.drop_last())
    } else {
        map_insert(nrf_entries(es.drop_last()), nrf_text(es.last().0), nrf(es.last().1))
    }
}

/// `s` without its byte-order marks.
pub fn strip_bom_str(s: &str) -> (r: String)
    ensures
        r@ == strip_bom(s@),
{
    let mut out: Vec<char> = Vec::new();
    for c in it: s.chars()
        invariant
            it.seq() == s@,
            out@ == strip_bom(s@.take(it.index() as int)),
    {
        proof {
            let k = it.index() as int;
            assert(s@.take(k + 1).drop_last() =~= s@.take(k));
        }
        if c != '\u{feff}' {
            out.push(c);
        }
    }
    assert(s@.take(s@.len() as int) =~= s@);
    string_from_chars(&out)
}

/// The NRF form of a string or key; it is its own NRF form.
pub fn nrf_string(s: &str) -> (r: String)
    ensures
        r@ == nrf_text(s@),
        nrf_text(r@) == r@,
{
    let cleaned = strip_bom_str(s);
    proof {
        lemma_strip_bom_clean(s@);
    }
    let r = nfc(cleaned.as_str());
    proof {
        lemma_strip_bom_plain(r@);
    }
    r
}

/// `j` is in NRF form: every string and key is its own NRF form, and every
/// object has its keys in order and no `null` value.
pub open spec fn is_nrf(j: Json) -> bool
    decreases j,
{
    match j {
        Json::Str(s) => nrf_text(s) == s,
        Json::Arr(xs) => forall|i: int| #![trigger xs[i]] 0 <= i < xs.len() ==> is_nrf(xs[i]),
        Json::Obj(es) => keys_sorted(es) && forall|i: int|
            #![trigger es[i]]
            0 <= i < es.len() ==> !(es[i].1 is Null) && nrf_text(es[i].0) == es[i].0 && is_nrf(
                es[i].1,
            ),
        _ => true,
    }
}

/// A value in NRF form is well formed: its objects are maps with their keys in order.
pub proof fn lemma_nrf_form_wf(j: Json)
    requires
        is_nrf(j),
    ensures
        json_wf(j),
    decreases j,
{
    match j {
        Json::Arr(xs) => {
            assert forall|i: int| #![trigger xs[i]] 0 <= i < xs.len() implies json_wf(xs[i]) by {
                assert(decreases_to!(j => xs));
                assert(decreases_to!(xs => xs[i]));
                lemma_nrf_form_wf(xs[i]);
            }
        },
        Json::Obj(es) => {
            assert forall|i: int| #![trigger es[i]] 0 <= i < es.len() implies json_wf(es[i].1) by {
                assert(decreases_to!(j => es));
                assert(decreases_to!(es => es[i]));
                assert(decreases_to!(es[i] => es[i].1));
                lemma_nrf_form_wf(es[i].1);
            }
        },
        _ => {},
    }
}

/// A value in NRF form is its own NRF form: normalizing twice is normalizing once.
pub proof fn lemma_nrf_fixed(j: Json)
    requires
        is_nrf(j),
    ensures
        nrf(j) == j,
    decreases j,
{
    match j {
        Json::Arr(xs) => {
            assert forall|i: int| 0 <= i < xs.len() implies nrf_items(xs)[i] == xs[i] by {
                assert(decreases_to!(j => xs));
                assert(decreases_to!(xs => xs[i]));
                lemma_nrf_fixed(xs[i]);
            }
            assert(nrf_items(xs) =~= xs);
        },
        Json::Obj(es) => {
            lemma_sorted_distinct(es);
            assert forall|a: int, b: int| 0 <= a < b < es.len() implies nrf_text(#[trigger] es[a].0)
                != nrf_text(#[trigger] es[b].0) by {
                assert(es[a].0 != es[b].0);
            }
            lemma_nrf_entries_map(es);
            assert forall|k: Seq<char>| #[trigger] map_get(nrf_entries(es), k) == map_get(es, k) by {
                lemma_find_nrf_key_found(es, k);
                lemma_map_get_found(es, k);
                if find_nrf_key(es, k) is Some {
                    let i = choose|i: int|
                        0 <= i < es.len() && nrf_text(es[i].0) == k && es[i].1 == find_nrf_key(
                            es,
                            k,
                        )->Some_0;
                    assert(es[i].0 == k);
                    assert(decreases_to!(j => es));
                    assert(decreases_to!(es => es[i]));
                    assert(decreases_to!(es[i] => es[i].1));
                    lemma_nrf_fixed(es[i].1);
                    lemma_map_get_at(es, i);
                } else {
                    assert forall|i: int| 0 <= i < es.len() implies es[i].0 != k by {
                        assert(nrf_text(es[i].0) == es[i].0);
                    }
                }
            }
            lemma_sorted_unique(nrf_entries(es), es);
        },
        _ => {},
    }
}

/// The NRF form of `v`.
pub fn normalize_nrf(v: &JsonValue) -> (r: JsonValue)
    ensures
        r.model() == nrf(v.model()),
        is_nrf(r.model()),
        nrf(r.model()) == r.model(),
        json_wf(r.model()),
    decreases v,
{
    let r = normalize_nrf_form(v);
    proof {
        lemma_nrf_form_wf(r.model());
    }
    r
}

fn normalize_nrf_form(v: &JsonValue) -> (r: JsonValue)
    ensures
        r.model() == nrf(v.model()),
        is_nrf(r.model()),
        nrf(r.model()) == r.model(),
    decreases v,
{
    match v {
        JsonValue::Null => JsonValue::Null,
        JsonValue::Bool(b) => JsonValue::Bool(*b),
        JsonValue::Number(n) => JsonValue::Number(*n),
        JsonValue::Str(s) => JsonValue::Str(nrf_string(s.as_str())),
        JsonValue::Array(a) => {
            let ghost xs = values_model(a@);
            let mut out: Vec<JsonValue> = Vec::new();
            let mut i: usize = 0;
            while i < a.len()
                invariant
                    i <= a.len(),
                    *v == JsonValue::Array(*a),
                    xs == values_model(a@),
                    out@.len() == i,
                    values_model(out@) =~= nrf_items(xs).take(i as int),
                    forall|k: int| #![trigger values_model(out@)[k]] 0 <= k < i ==> is_nrf(values_model(out@)[k]),
                decreases a.len() - i,
            {
                proof {
                    assert(decreases_to!(a@ => a@[i as int]));
                    assert(decreases_to!(*a => a@));
                    assert(decreases_to!(*v => v->Array_0));
                }
                let x = normalize_nrf_form(&a[i]);
                let ghost prev = out@;
                out.push(x);
                proof {
                    assert(is_nrf(x.model()));
                    assert forall|k: int| #![trigger values_model(out@)[k]] 0 <= k < i + 1 implies values_model(out@)[k]
                        == nrf_items(xs)[k] && is_nrf(values_model(out@)[k]) by {
                        if k < i {
                            assert(values_model(prev)[k] == nrf_items(xs).take(i as int)[k]);
                            assert(out@[k] == prev[k]);
                        } else {
                            assert(out@[k] == x);
                        }
                    }
                }
                i = i + 1;
            }
            proof {
                lemma_array_model(*a);
                lemma_array_model(out);
                assert(nrf_items(xs).take(a.len() as int) =~= nrf_items(xs));
                assert(values_model(out@) =~= nrf_items(xs));
                lemma_nrf_fixed(Json::Arr(values_model(out@)));
            }
            JsonValue::Array(out)
        },
        JsonValue::Object(o) => {
            let ghost es = entries_model(o@);
            let mut out: Vec<(String, JsonValue)> = Vec::new();
            let mut i: usize = 0;
            while i < o.len()
                invariant
                    i <= o.len(),
                    *v == JsonValue::Object(*o),
                    es == entries_model(o@),
                    entries_model(out@) == nrf_entries(es.take(i as int)),
                    is_nrf(Json::Obj(entries_model(out@))),
                decreases o.len() - i,
            {
                proof {
                    assert(es.take(i + 1).drop_last() =~= es.take(i as int));
                    assert(es.take(i + 1).last() == es[i as int]);
                }
                if !o[i].1.is_null() {
                    proof {
                        assert(decreases_to!(o@ => o@[i as int]));
                        assert(decreases_to!(o@[i as int] => o@[i as int].1));
                        assert(decreases_to!(*o => o@));
                        assert(decreases_to!(*v => v->Object_0));
                    }
                    let x = normalize_nrf_form(&o[i].1);
                    let key = nrf_string(o[i].0.as_str());
                    let ghost before = entries_model(out@);
                    obj_insert(&mut out, key, x);
                    proof {
                        lemma_map_insert_sorted(before, key@, x.model());
                        lemma_map_insert_members(before, key@, x.model());
                        let after = entries_model(out@);
                        assert forall|k: int| #![trigger after[k]] 0 <= k < after.len() implies !(
                        after[k].1 is Null) && nrf_text(after[k].0) == after[k].0 && is_nrf(
                            after[k].1,
                        ) by {
                            if after[k] != (key@, x.model()) {
                                let j = choose|j: int| 0 <= j < before.len() && after[k] == before[j];
                                assert(before[j] == after[k]);
                            }
                        }
                    }
                }
                i = i + 1;
            }
            proof {
                lemma_object_model(*o);
                lemma_object_model(out);
                assert(es.take(o.len() as int) =~= es);
                lemma_nrf_fixed(Json::Obj(entries_model(out@)));
            }
            JsonValue::Object(out)
        },
    }
}

/// The NRF canonicalization, as a canon provider of the runtime VM.
pub struct Nrf1Canon;

impl Nrf1Canon {
    /// The NRF form of `v`.
    pub fn canon(&self, v: JsonValue) -> (r: JsonValue)
        ensures
            r.model() == nrf(v.model()),
    {
        normalize_nrf(&v)
    }
}

/// A string without byte-order marks keeps its text.
pub proof fn lemma_strip_bom_plain(s: Seq<char>)
    requires
        forall|i: int| 0 <= i < s.len() ==> s[i] != '\u{feff}',
    ensures
        strip_bom(s) == s,
    decreases s.len(),
{
    if s.len() > 0 {
        lemma_strip_bom_plain(s.drop_last());
        assert(strip_bom(s.drop_last()).push(s.last()) =~= s);
    }
}

/// Stripping is idempotent: a stripped string has no byte-order mark left.
pub proof fn lemma_strip_bom_clean(s: Seq<char>)
    ensures
        forall|i: int| 0 <= i < strip_bom(s).len() ==> strip_bom(s)[i] != '\u{feff}',
        strip_bom(strip_bom(s)) == strip_bom(s),
    decreases s.len(),
{
    if s.len() > 0 {
        lemma_strip_bom_clean(s.drop_last());
    }
    lemma_strip_bom_plain(strip_bom(s));
}


/// A `null` entry never changes the NRF form of an object, wherever it stands.
pub proof fn lemma_nrf_ignores_null(es: Seq<(Seq<char>, Json)>, i: int)
    requires
        0 <= i < es.len(),
        es[i].1 is Null,
    ensures
        nrf(Json::Obj(es)) == nrf(Json::Obj(es.remove(i))),
    decreases es.len(),
{
    lemma_nrf_entries_ignore_null(es, i);
}

proof fn lemma_nrf_entries_ignore_null(es: Seq<(Seq<char>, Json)>, i: int)
    requires
        0 <= i < es.len(),
        es[i].1 is Null,
    ensures
        nrf_entries(es) == nrf_entries(es.remove(i)),
    decreases es.len(),
{
    if i == es.len() - 1 {
        assert(es.remove(i) =~= es.drop_last());
    } else {
        let d = es.drop_last();
        lemma_nrf_entries_ignore_null(d, i);
        assert(es.remove(i).drop_last() =~= d.remove(i));
        assert(es.remove(i).last() == es.last());
    }
}


/// No two keys of `es` have the same NRF form.
pub open spec fn nrf_keys_distinct(es: Seq<(Seq<char>, Json)>) -> bool {
    forall|i: int, j: int|
        0 <= i < j < es.len() ==> nrf_text(#[trigger] es[i].0) != nrf_text(#[trigger] es[j].0)
}

/// The value of the first entry whose key has the NRF form `nk`.
pub open spec fn find_nrf_key(es: Seq<(Seq<char>, Json)>, nk: Seq<char>) -> Option<Json>
    decreases es.len(),
{
    if es.len() == 0 {
        None
    } else if nrf_text(es[0].0) == nk {
        Some(es[0].1)
    } else {
        find_nrf_key(es.drop_first(), nk)
    }
}

/// What the NRF form of an object holds under the NRF key `nk`.
pub open spec fn nrf_get(es: Seq<(Seq<char>, Json)>, nk: Seq<char>) -> Option<Json> {
    match find_nrf_key(es, nk) {
        Some(v) => if v is Null {
            None
        } else {
            Some(nrf(v))
        },
        None => None,
    }
}

proof fn lemma_find_nrf_key_found(es: Seq<(Seq<char>, Json)>, nk: Seq<char>)
    ensures
        match find_nrf_key(es, nk) {
            Some(v) => exists|i: int| 0 <= i < es.len() && nrf_text(es[i].0) == nk && es[i].1 == v,
            None => forall|i: int| 0 <= i < es.len() ==> nrf_text(es[i].0) != nk,
        },
    decreases es.len(),
{
    if es.len() > 0 && nrf_text(es[0].0) != nk {
        let d = es.drop_first();
        lemma_find_nrf_key_found(d, nk);
        match find_nrf_key(d, nk) {
            Some(v) => {
                let i = choose|i: int| 0 <= i < d.len() && nrf_text(d[i].0) == nk && d[i].1 == v;
                assert(es[i + 1] == d[i]);
            },
            None => {
                assert forall|i: int| 0 <= i < es.len() implies nrf_text(es[i].0) != nk by {
                    if i > 0 {
                        assert(es[i] == d[i - 1]);
                    }
                }
            },
        }
    }
}

proof fn lemma_find_nrf_key_at(es: Seq<(Seq<char>, Json)>, i: int)
    requires
        0 <= i < es.len(),
        nrf_keys_distinct(es),
    ensures
        find_nrf_key(es, nrf_text(es[i].0)) == Some(es[i].1),
    decreases es.len(),
{
    if i > 0 {
        let d = es.drop_first();
        assert(nrf_text(es[0].0) != nrf_text(es[i].0));
        assert forall|a: int, b: int| 0 <= a < b < d.len() implies nrf_text(#[trigger] d[a].0)
            != nrf_text(#[trigger] d[b].0) by {
            assert(d[a] == es[a + 1] && d[b] == es[b + 1]);
        }
        assert(d[i - 1] == es[i]);
        lemma_find_nrf_key_at(d, i - 1);
    }
}

proof fn lemma_find_nrf_key_push(es: Seq<(Seq<char>, Json)>, e: (Seq<char>, Json), nk: Seq<char>)
    ensures
        find_nrf_key(es.push(e), nk) == (if find_nrf_key(es, nk) is Some {
            find_nrf_key(es, nk)
        } else if nrf_text(e.0) == nk {
            Some(e.1)
        } else {
            None::<Json>
        }),
    decreases es.len(),
{
    reveal_with_fuel(find_nrf_key, 2);
    let p = es.push(e);
    if es.len() > 0 {
        assert(p[0] == es[0]);
        assert(p.drop_first() =~= es.drop_first().push(e));
        lemma_find_nrf_key_push(es.drop_first(), e, nk);
        if nrf_text(es[0].0) != nk {
            assert(find_nrf_key(p, nk) == find_nrf_key(es.drop_first().push(e), nk));
            assert(find_nrf_key(es, nk) == find_nrf_key(es.drop_first(), nk));
        }
    } else {
        assert(p[0] == e);
        assert(p.drop_first() =~= Seq::<(Seq<char>, Json)>::empty());
        assert(find_nrf_key(Seq::<(Seq<char>, Json)>::empty(), nk) is None);
    }
}

/// The NRF entries of an object whose keys have distinct NRF forms are
/// sorted by key and hold, under each NRF key, what `nrf_get` says.
pub proof fn lemma_nrf_entries_map(es: Seq<(Seq<char>, Json)>)
    requires
        nrf_keys_distinct(es),
    ensures
        keys_sorted(nrf_entries(es)),
        forall|nk: Seq<char>| #[trigger] map_get(nrf_entries(es), nk) == nrf_get(es, nk),
    decreases es.len(),
{
    if es.len() == 0 {
        assert forall|nk: Seq<char>| #[trigger] map_get(nrf_entries(es), nk) == nrf_get(es, nk) by {
        }
    } else {
        let d = es.drop_last();
        let e = es.last();
        assert forall|i: int, j: int| 0 <= i < j < d.len() implies nrf_text(#[trigger] d[i].0)
            != nrf_text(#[trigger] d[j].0) by {
            assert(d[i] == es[i] && d[j] == es[j]);
        }
        lemma_nrf_entries_map(d);
        assert(es =~= d.push(e));
        let ne = nrf_entries(d);
        if !(e.1 is Null) {
            lemma_map_insert_sorted(ne, nrf_text(e.0), nrf(e.1));
        }
        assert forall|nk: Seq<char>| #[trigger] map_get(nrf_entries(es), nk) == nrf_get(es, nk) by {
            lemma_find_nrf_key_push(d, e, nk);
            if nk == nrf_text(e.0) {
                lemma_find_nrf_key_found(d, nk);
                if find_nrf_key(d, nk) is Some {
                    let i = choose|i: int|
                        0 <= i < d.len() && nrf_text(d[i].0) == nk && d[i].1 == find_nrf_key(
                            d,
                            nk,
                        )->Some_0;
                    assert(nrf_text(es[i].0) == nrf_text(es[es.len() - 1].0));
                }
                assert(map_get(ne, nk) == nrf_get(d, nk));
            } else {
                assert(map_get(ne, nk) == nrf_get(d, nk));
            }
        }
    }
}

/// The NRF form of an object does not depend on the order of its entries:
/// two objects whose keys have distinct NRF forms and that hold the same
/// value under every key have the same NRF form.
pub proof fn lemma_nrf_key_order(es1: Seq<(Seq<char>, Json)>, es2: Seq<(Seq<char>, Json)>)
    requires
        nrf_keys_distinct(es1),
        nrf_keys_distinct(es2),
        forall|k: Seq<char>| #[trigger] map_get(es1, k) == map_get(es2, k),
    ensures
        nrf(Json::Obj(es1)) == nrf(Json::Obj(es2)),
{
    lemma_nrf_entries_map(es1);
    lemma_nrf_entries_map(es2);
    assert forall|i: int, j: int| 0 <= i < j < es1.len() implies #[trigger] es1[i].0 != #[trigger] es1[j].0 by {
        assert(nrf_text(es1[i].0) != nrf_text(es1[j].0));
    }
    assert forall|i: int, j: int| 0 <= i < j < es2.len() implies #[trigger] es2[i].0 != #[trigger] es2[j].0 by {
        assert(nrf_text(es2[i].0) != nrf_text(es2[j].0));
    }
    assert forall|nk: Seq<char>| find_nrf_key(es1, nk) == find_nrf_key(es2, nk) by {
        lemma_find_nrf_key_found(es1, nk);
        lemma_find_nrf_key_found(es2, nk);
        if find_nrf_key(es1, nk) is Some {
            let i = choose|i: int|
                0 <= i < es1.len() && nrf_text(es1[i].0) == nk && es1[i].1 == find_nrf_key(
                    es1,
                    nk,
                )->Some_0;
            lemma_map_get_at(es1, i);
            assert(map_get(es2, es1[i].0) == Some(es1[i].1));
            lemma_map_get_found(es2, es1[i].0);
            let j = choose|j: int| 0 <= j < es2.len() && es2[j].0 == es1[i].0 && es2[j].1 == es1[i].1;
            lemma_find_nrf_key_at(es2, j);
        } else if find_nrf_key(es2, nk) is Some {
            let j = choose|j: int|
                0 <= j < es2.len() && nrf_text(es2[j].0) == nk && es2[j].1 == find_nrf_key(
                    es2,
                    nk,
                )->Some_0;
            lemma_map_get_at(es2, j);
            assert(map_get(es1, es2[j].0) == Some(es2[j].1));
            lemma_map_get_found(es1, es2[j].0);
            let i = choose|i: int| 0 <= i < es1.len() && es1[i].0 == es2[j].0 && es1[i].1 == es2[j].1;
            assert(nrf_text(es1[i].0) == nk);
        }
    }
    assert forall|nk: Seq<char>| #[trigger] map_get(nrf_entries(es1), nk) == map_get(nrf_entries(es2), nk) by {
        assert(find_nrf_key(es1, nk) == find_nrf_key(es2, nk));
    }
    lemma_sorted_unique(nrf_entries(es1), nrf_entries(es2));
}

} // verus!
